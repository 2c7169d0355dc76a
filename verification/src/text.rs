//! Texts as sequences of characters: trimming, ASCII case, prefixes and words.
use vstd::prelude::*;

verus! {

/// `String::push`: the given character is appended to the end of the string.
pub assume_specification[ String::push ](s: &mut String, ch: char)
    ensures
        final(s)@ == old(s)@.push(ch),
;

/// The characters with the Unicode property White_Space.
pub open spec fn white_space(c: char) -> bool {
    ||| '\u{9}' <= c <= '\u{d}'
    ||| c == '\u{20}'
    ||| c == '\u{85}'
    ||| c == '\u{a0}'
    ||| c == '\u{1680}'
    ||| '\u{2000}' <= c <= '\u{200a}'
    ||| c == '\u{2028}'
    ||| c == '\u{2029}'
    ||| c == '\u{202f}'
    ||| c == '\u{205f}'
    ||| c == '\u{3000}'
}

/// The ASCII lower-case form of a character; every other character is its own.
pub open spec fn lower_char(c: char) -> char {
    if 'A' <= c <= 'Z' {
        (c as u32 + 32) as char
    } else {
        c
    }
}

/// A text with its ASCII capitals made lower-case.
pub open spec fn lower(s: Seq<char>) -> Seq<char> {
    s.map_values(|c: char| lower_char(c))
}

/// The characters of a text that may be missing.
pub open spec fn opt_text(s: Option<String>) -> Option<Seq<char>> {
    match s {
        Some(t) => Some(t@),
        None => None,
    }
}

/// The characters of each of several texts.
pub open spec fn texts(v: Seq<String>) -> Seq<Seq<char>> {
    v.map_values(|t: String| t@)
}

/// Whether a character has the Unicode property White_Space.
pub fn is_white_space(c: char) -> (r: bool)
    ensures
        r == white_space(c),
{
    ('\u{9}' <= c && c <= '\u{d}') || c == '\u{20}' || c == '\u{85}' || c == '\u{a0}' || c
        == '\u{1680}' || ('\u{2000}' <= c && c <= '\u{200a}') || c == '\u{2028}' || c == '\u{2029}'
        || c == '\u{202f}' || c == '\u{205f}' || c == '\u{3000}'
}

/// The ASCII lower-case form of a character.
pub fn to_lower_char(c: char) -> (r: char)
    ensures
        r == lower_char(c),
{
    if 'A' <= c && c <= 'Z' {
        (c as u8 + 32) as char
    } else {
        c
    }
}

/// The characters of a text.
pub fn chars_of(s: &str) -> (r: Vec<char>)
    ensures
        r@ == s@,
{
    let mut r: Vec<char> = Vec::new();
    for c in it: s.chars()
        invariant
            it.seq() == s@,
            r@ == s@.take(it.index() as int),
    {
        r.push(c);
    }
    r
}

/// Whether two texts hold the same characters.
pub fn same(a: &str, b: &str) -> (r: bool)
    ensures
        r == (a@ == b@),
{
    let x: Vec<char> = chars_of(a);
    let y: Vec<char> = chars_of(b);
    if x.len() != y.len() {
        return false;
    }
    for i in 0..x.len()
        invariant
            x@ == a@,
            y@ == b@,
            x@.len() == y@.len(),
            a@.take(i as int) == b@.take(i as int),
    {
        if x[i] != y[i] {
            return false;
        }
        assert(a@.take(i + 1) == a@.take(i as int).push(a@[i as int]));
        assert(b@.take(i + 1) == b@.take(i as int).push(b@[i as int]));
    }
    assert(a@.take(a@.len() as int) == a@);
    assert(b@.take(b@.len() as int) == b@);
    true
}

/// A set of characters that a run of text is made of.
#[derive(Clone, Copy)]
pub enum CharClass {
    /// White space.
    Space,
    /// Everything but white space.
    Word,
    /// One character.
    One(char),
}

impl CharClass {
    /// Whether a character belongs to the class.
    pub open spec fn has_char(self, c: char) -> bool {
        match self {
            CharClass::Space => white_space(c),
            CharClass::Word => !white_space(c),
            CharClass::One(d) => c == d,
        }
    }

    /// Whether a character belongs to the class.
    pub fn test(self, c: char) -> (r: bool)
        ensures
            r == self.has_char(c),
    {
        match self {
            CharClass::Space => is_white_space(c),
            CharClass::Word => !is_white_space(c),
            CharClass::One(d) => c == d,
        }
    }
}

/// How many characters of a class a text starts with.
pub open spec fn leading(s: Seq<char>, class: CharClass) -> nat
    decreases s.len(),
{
    if s.len() == 0 || !class.has_char(s[0]) {
        0
    } else {
        1 + leading(s.drop_first(), class)
    }
}

/// How many characters of a class a text ends with.
pub open spec fn trailing(s: Seq<char>, class: CharClass) -> nat
    decreases s.len(),
{
    if s.len() == 0 || !class.has_char(s.last()) {
        0
    } else {
        1 + trailing(s.drop_last(), class)
    }
}

/// A text without the characters of a class at its end.
pub open spec fn trimmed_end(s: Seq<char>, class: CharClass) -> Seq<char> {
    s.take(s.len() - trailing(s, class))
}

/// A text without the characters of a class at both ends.
pub open spec fn trimmed(s: Seq<char>, class: CharClass) -> Seq<char> {
    trimmed_end(s.skip(leading(s, class) as int), class)
}

/// The words of a text: its longest runs without white space, in order.
pub open spec fn words(s: Seq<char>) -> Seq<Seq<char>>
    decreases s.len(),
{
    let t = s.skip(leading(s, CharClass::Space) as int);
    if leading(s, CharClass::Space) >= s.len() {
        Seq::empty()
    } else {
        proof {
            lemma_leading(s, CharClass::Space);
            lemma_leading(t, CharClass::Word);
        }
        let n = leading(t, CharClass::Word) as int;
        seq![t.take(n)] + words(t.skip(n))
    }
}

/// The leading run of a class lies within the text, holds only characters of the class, and is
/// followed by a character outside of it.
pub proof fn lemma_leading(s: Seq<char>, class: CharClass)
    ensures
        leading(s, class) <= s.len(),
        forall|i: int| 0 <= i < leading(s, class) ==> class.has_char(#[trigger] s[i]),
        leading(s, class) < s.len() ==> !class.has_char(s[leading(s, class) as int]),
    decreases s.len(),
{
    if s.len() > 0 && class.has_char(s[0]) {
        let rest = s.drop_first();
        lemma_leading(rest, class);
        assert forall|i: int| 0 <= i < leading(s, class) implies class.has_char(
            #[trigger] s[i],
        ) by {
            if i > 0 {
                assert(s[i] == rest[i - 1]);
            }
        }
        if leading(s, class) < s.len() {
            assert(s[leading(s, class) as int] == rest[leading(rest, class) as int]);
        }
    }
}

/// A run of characters of a class that is followed by another character is the leading run.
proof fn lemma_leading_is(s: Seq<char>, class: CharClass, n: int)
    requires
        0 <= n <= s.len(),
        forall|i: int| 0 <= i < n ==> class.has_char(#[trigger] s[i]),
        n < s.len() ==> !class.has_char(s[n]),
    ensures
        leading(s, class) == n,
{
    lemma_leading(s, class);
    let m = leading(s, class) as int;
    if m < n {
        assert(class.has_char(s[m]));
    } else if n < m {
        assert(class.has_char(s[n]));
    }
}

/// The trailing run of a class lies within the text, holds only characters of the class, and
/// follows a character outside of it.
pub proof fn lemma_trailing(s: Seq<char>, class: CharClass)
    ensures
        trailing(s, class) <= s.len(),
        forall|i: int| s.len() - trailing(s, class) <= i < s.len() ==> class.has_char(#[trigger] s[i]),
        trailing(s, class) < s.len() ==> !class.has_char(s[s.len() - trailing(s, class) - 1]),
    decreases s.len(),
{
    if s.len() > 0 && class.has_char(s.last()) {
        let rest = s.drop_last();
        lemma_trailing(rest, class);
        assert forall|i: int| s.len() - trailing(s, class) <= i < s.len() implies class.has_char(
            #[trigger] s[i],
        ) by {
            if i < s.len() - 1 {
                assert(s[i] == rest[i]);
            }
        }
        if trailing(s, class) < s.len() {
            assert(s[s.len() - trailing(s, class) - 1] == rest[rest.len() - trailing(rest, class)
                - 1]);
        }
    }
}

/// A run of characters of a class that follows another character is the trailing run.
proof fn lemma_trailing_is(s: Seq<char>, class: CharClass, n: int)
    requires
        0 <= n <= s.len(),
        forall|i: int| s.len() - n <= i < s.len() ==> class.has_char(#[trigger] s[i]),
        n < s.len() ==> !class.has_char(s[s.len() - n - 1]),
    ensures
        trailing(s, class) == n,
{
    lemma_trailing(s, class);
    let m = trailing(s, class) as int;
    if m < n {
        assert(class.has_char(s[s.len() - m - 1]));
    } else if n < m {
        assert(class.has_char(s[s.len() - n - 1]));
    }
}

/// The end of the run of characters of a class that starts at an index.
fn run_end(chars: &Vec<char>, from: usize, class: CharClass) -> (to: usize)
    requires
        from <= chars@.len(),
    ensures
        from <= to <= chars@.len(),
        to - from == leading(chars@.skip(from as int), class),
{
    let mut to: usize = from;
    while to < chars.len() && class.test(chars[to])
        invariant
            from <= to <= chars@.len(),
            forall|i: int| from <= i < to ==> class.has_char(#[trigger] chars@[i]),
        decreases chars@.len() - to,
    {
        to += 1;
    }
    proof {
        let s = chars@.skip(from as int);
        assert forall|i: int| 0 <= i < to - from implies class.has_char(#[trigger] s[i]) by {
            assert(s[i] == chars@[from + i]);
        }
        lemma_leading_is(s, class, to - from);
    }
    to
}

/// The start of the run of characters of a class that ends a text, not before an index.
fn run_start(chars: &Vec<char>, from: usize, class: CharClass) -> (to: usize)
    requires
        from <= chars@.len(),
    ensures
        from <= to <= chars@.len(),
        chars@.len() - to == trailing(chars@.skip(from as int), class),
{
    let mut to: usize = chars.len();
    while to > from && class.test(chars[to - 1])
        invariant
            from <= to <= chars@.len(),
            forall|i: int| to <= i < chars@.len() ==> class.has_char(#[trigger] chars@[i]),
        decreases to,
    {
        to -= 1;
    }
    proof {
        let s = chars@.skip(from as int);
        assert forall|i: int| to - from <= i < s.len() implies class.has_char(#[trigger] s[i]) by {
            assert(s[i] == chars@[from + i]);
        }
        lemma_trailing_is(s, class, chars@.len() - to);
    }
    to
}

/// A text without the characters of a class at its end.
pub fn trim_end(s: &str, class: CharClass) -> (r: &str)
    ensures
        r@ == trimmed_end(s@, class),
{
    let chars: Vec<char> = chars_of(s);
    let to: usize = run_start(&chars, 0, class);
    assert(s@.skip(0) == s@);
    s.substring_char(0, to)
}

/// A text without the characters of a class at both ends.
pub fn trim(s: &str, class: CharClass) -> (r: &str)
    ensures
        r@ == trimmed(s@, class),
{
    let chars: Vec<char> = chars_of(s);
    let from: usize = run_end(&chars, 0, class);
    let to: usize = run_start(&chars, from, class);
    assert(s@.skip(0) == s@);
    assert(s@.subrange(from as int, to as int) == s@.skip(from as int).take(to - from));
    s.substring_char(from, to)
}

/// The words of a text, in order.
pub fn split_words(s: &str) -> (r: Vec<String>)
    ensures
        texts(r@) == words(s@),
{
    let chars: Vec<char> = chars_of(s);
    let mut r: Vec<String> = Vec::new();
    let mut at: usize = 0;
    assert(s@.skip(0) == s@);
    assert(texts(r@) == Seq::<Seq<char>>::empty());
    loop
        invariant_except_break
            at <= chars@.len(),
            texts(r@) + words(s@.skip(at as int)) == words(s@),
        invariant
            chars@ == s@,
        ensures
            texts(r@) == words(s@),
        decreases chars@.len() - at,
    {
        let ghost rest = s@.skip(at as int);
        let from: usize = run_end(&chars, at, CharClass::Space);
        if from == chars.len() {
            break;
        }
        let to: usize = run_end(&chars, from, CharClass::Word);
        proof {
            lemma_leading(rest, CharClass::Space);
            assert(rest.skip(from - at) == s@.skip(from as int));
            lemma_leading(s@.skip(from as int), CharClass::Word);
            assert(s@.skip(from as int).take(to - from) == s@.subrange(from as int, to as int));
            assert(s@.skip(from as int).skip(to - from) == s@.skip(to as int));
        }
        let ghost before = texts(r@);
        let word: String = s.substring_char(from, to).to_owned();
        r.push(word);
        at = to;
        assert(texts(r@) == before.push(word@));
        assert(before.push(word@) + words(s@.skip(to as int)) == before + (seq![word@] + words(
            s@.skip(to as int),
        )));
    }
    r
}

/// A text with its ASCII capitals made lower-case.
pub fn to_lower(s: &str) -> (r: String)
    ensures
        r@ == lower(s@),
{
    let mut r: String = String::new();
    for c in it: s.chars()
        invariant
            it.seq() == s@,
            r@ == lower(s@.take(it.index() as int)),
    {
        r.push(to_lower_char(c));
        assert(s@.take(it.index() + 1) == s@.take(it.index() as int).push(c));
    }
    assert(s@.take(s@.len() as int) == s@);
    r
}

/// Whether two texts are equal when the case of ASCII letters is ignored.
pub fn same_ignoring_case(a: &str, b: &str) -> (r: bool)
    ensures
        r == (lower(a@) == lower(b@)),
{
    let x: String = to_lower(a);
    let y: String = to_lower(b);
    same(x.as_str(), y.as_str())
}

/// Two texts put one after the other.
pub fn join(a: &str, b: &str) -> (r: String)
    ensures
        r@ == a@ + b@,
{
    a.to_owned().concat(b)
}

/// What follows a prefix, in a text that starts with it.
pub open spec fn after_prefix(s: Seq<char>, prefix: Seq<char>) -> Option<Seq<char>> {
    if prefix.is_prefix_of(s) {
        Some(s.skip(prefix.len() as int))
    } else {
        None
    }
}

/// What follows a prefix, in a text that starts with it.
pub fn strip_prefix(s: &str, prefix: &str) -> (r: Option<String>)
    ensures
        opt_text(r) == after_prefix(s@, prefix@),
{
    let n: usize = prefix.unicode_len();
    let total: usize = s.unicode_len();
    if n > total {
        return None;
    }
    assert(prefix@.is_prefix_of(s@) <==> s@.subrange(0, n as int) == prefix@);
    if same(s.substring_char(0, n), prefix) {
        assert(s@.subrange(n as int, total as int) == s@.skip(n as int));
        Some(s.substring_char(n, total).to_owned())
    } else {
        None
    }
}

/// A text without characters of a class has none to trim.
pub proof fn lemma_nothing_to_trim(s: Seq<char>, class: CharClass)
    requires
        forall|i: int| 0 <= i < s.len() ==> !class.has_char(#[trigger] s[i]),
    ensures
        trimmed(s, class) == s,
{
    lemma_leading(s, class);
    assert(s.skip(0) == s);
    assert(s.take(s.len() as int) == s);
}

/// Making a text lower-case twice changes no more than doing so once.
pub proof fn lower_is_idempotent(s: Seq<char>)
    ensures
        lower(lower(s)) == lower(s),
{
}

/// A text is missing exactly when its characters are, and several texts have the characters of each.
pub proof fn texts_show_every_text(v: Seq<String>, o: Option<String>)
    ensures
        texts(v).len() == v.len(),
        forall|i: int| 0 <= i < v.len() ==> #[trigger] texts(v)[i] == v[i]@,
        o matches Some(t) ==> opt_text(o) == Some(t@),
        o is None ==> opt_text(o) is None,
{
}

/// Lower case changes each character by itself: the capitals of ASCII become the letter that stands
/// thirty-two places later, and all others stay.
pub proof fn lower_acts_on_each_character(s: Seq<char>)
    ensures
        lower(s).len() == s.len(),
        forall|i: int|
            0 <= i < s.len() ==> #[trigger] lower(s)[i] as u32 == s[i] as u32 + if 65 <= s[i] as u32
                <= 90 {
                32int
            } else {
                0
            },
{
}

/// Texts are equal up to the case of ASCII letters exactly if they have the same length and each
/// character is the same, or the same letter.
pub proof fn lower_tells_other_texts_apart(s: Seq<char>, t: Seq<char>)
    ensures
        lower(s) == lower(t) <==> s.len() == t.len() && forall|i: int|
            0 <= i < s.len() ==> {
                ||| #[trigger] s[i] == t[i]
                ||| 65 <= s[i] as u32 <= 90 && t[i] as u32 == s[i] as u32 + 32
                ||| 65 <= t[i] as u32 <= 90 && s[i] as u32 == t[i] as u32 + 32
            },
{
    if lower(s) == lower(t) {
        assert(lower(s).len() == s.len() && lower(t).len() == t.len());
        assert forall|i: int| 0 <= i < s.len() implies {
            ||| #[trigger] s[i] == t[i]
            ||| 65 <= s[i] as u32 <= 90 && t[i] as u32 == s[i] as u32 + 32
            ||| 65 <= t[i] as u32 <= 90 && s[i] as u32 == t[i] as u32 + 32
        } by {
            assert(lower(s)[i] == lower_char(s[i]));
            assert(lower(t)[i] == lower_char(t[i]));
        }
    }
    if s.len() == t.len() && forall|i: int|
        0 <= i < s.len() ==> {
            ||| #[trigger] s[i] == t[i]
            ||| 65 <= s[i] as u32 <= 90 && t[i] as u32 == s[i] as u32 + 32
            ||| 65 <= t[i] as u32 <= 90 && s[i] as u32 == t[i] as u32 + 32
        } {
        assert forall|i: int| 0 <= i < s.len() implies lower(s)[i] == lower(t)[i] by {
            assert(s[i] == s[i]);
        }
        assert(lower(s) =~= lower(t));
    }
}

/// White space is what has the Unicode property, by code point; a word character is anything else;
/// and a class of one character holds that one.
pub proof fn classes_hold_their_characters(c: char, d: char)
    ensures
        CharClass::Space.has_char(c) <==> {
            let n = c as u32;
            ||| 9 <= n <= 13
            ||| n == 32
            ||| n == 133
            ||| n == 160
            ||| n == 5760
            ||| 8192 <= n <= 8202
            ||| n == 8232
            ||| n == 8233
            ||| n == 8239
            ||| n == 8287
            ||| n == 12288
        },
        CharClass::Word.has_char(c) <==> !CharClass::Space.has_char(c),
        CharClass::One(d).has_char(c) <==> c == d,
{
}

/// Whether every character of a text belongs to a class.
pub open spec fn is_all(s: Seq<char>, class: CharClass) -> bool {
    forall|i: int| 0 <= i < s.len() ==> class.has_char(#[trigger] s[i])
}

/// Whether a text neither starts nor ends with a character of a class.
pub open spec fn has_bare_ends(s: Seq<char>, class: CharClass) -> bool {
    s.len() > 0 ==> !class.has_char(s[0]) && !class.has_char(s.last())
}

/// Trimming cuts off what is of the class at the end, and nothing else.
pub proof fn trimming_cuts_the_end(middle: Seq<char>, right: Seq<char>, class: CharClass)
    requires
        is_all(right, class),
        middle.len() > 0 ==> !class.has_char(middle.last()),
    ensures
        trimmed_end(middle + right, class) == middle,
{
    let s = middle + right;
    assert forall|i: int| s.len() - right.len() <= i < s.len() implies class.has_char(
        #[trigger] s[i],
    ) by {
        assert(s[i] == right[i - middle.len()]);
    }
    if middle.len() > 0 {
        assert(s[s.len() - right.len() - 1] == middle.last());
    }
    lemma_trailing_is(s, class, right.len() as int);
    assert(s.take(middle.len() as int) =~= middle);
}

/// Trimming cuts off what is of the class at both ends, and nothing else.
pub proof fn trimming_cuts_both_ends(
    left: Seq<char>,
    middle: Seq<char>,
    right: Seq<char>,
    class: CharClass,
)
    requires
        is_all(left, class),
        is_all(right, class),
        has_bare_ends(middle, class),
    ensures
        trimmed(left + middle + right, class) == middle,
{
    let s = left + middle + right;
    if middle.len() > 0 {
        let n = left.len() as int;
        assert forall|i: int| 0 <= i < n implies class.has_char(#[trigger] s[i]) by {
            assert(s[i] == left[i]);
        }
        assert(s[n] == middle[0]);
        lemma_leading_is(s, class, n);
        assert(s.skip(n) =~= middle + right);
        trimming_cuts_the_end(middle, right, class);
    } else {
        let n = s.len() as int;
        assert forall|i: int| 0 <= i < n implies class.has_char(#[trigger] s[i]) by {
            if i < left.len() {
                assert(s[i] == left[i]);
            } else {
                assert(s[i] == right[i - left.len()]);
            }
        }
        lemma_leading_is(s, class, n);
        assert(s.skip(n) =~= Seq::<char>::empty());
        assert(middle =~= Seq::<char>::empty());
    }
}

/// White space before the words of a text does not matter, and there are no words in nothing.
pub proof fn words_skip_white_space(space: Seq<char>, s: Seq<char>)
    requires
        is_all(space, CharClass::Space),
    ensures
        words(space + s) == words(s),
        words(space) == Seq::<Seq<char>>::empty(),
{
    lemma_words_skip(space, s);
    lemma_words_skip(space, Seq::empty());
    assert(space + Seq::<char>::empty() =~= space);
}

proof fn lemma_words_skip(space: Seq<char>, s: Seq<char>)
    requires
        is_all(space, CharClass::Space),
    ensures
        words(space + s) == words(s),
{
    let class = CharClass::Space;
    let all = space + s;
    let n = leading(s, class) as int;
    lemma_leading(s, class);
    assert forall|i: int| 0 <= i < space.len() + n implies class.has_char(#[trigger] all[i]) by {
        if i < space.len() {
            assert(all[i] == space[i]);
        } else {
            assert(all[i] == s[i - space.len()]);
        }
    }
    if n < s.len() {
        assert(all[space.len() + n] == s[n]);
    }
    lemma_leading_is(all, class, space.len() + n);
    assert(all.skip(space.len() + n) =~= s.skip(n));
}

/// A run without white space is one word, and what follows the white space after it are the other
/// words.
pub proof fn words_are_split_at_white_space(word: Seq<char>, space: char, s: Seq<char>)
    requires
        word.len() > 0,
        forall|i: int| 0 <= i < word.len() ==> !CharClass::Space.has_char(#[trigger] word[i]),
        CharClass::Space.has_char(space),
    ensures
        words(word) == seq![word],
        words(word + seq![space] + s) == seq![word] + words(s),
{
    lemma_first_word(word, Seq::empty());
    assert(word + Seq::<char>::empty() =~= word);
    assert(words(Seq::<char>::empty()) =~= Seq::<Seq<char>>::empty());
    assert(seq![word] + Seq::<Seq<char>>::empty() =~= seq![word]);
    let rest = seq![space] + s;
    assert(word + seq![space] + s =~= word + rest);
    lemma_first_word(word, rest);
    assert(is_all(seq![space], CharClass::Space));
    lemma_words_skip(seq![space], s);
}

proof fn lemma_first_word(word: Seq<char>, rest: Seq<char>)
    requires
        word.len() > 0,
        forall|i: int| 0 <= i < word.len() ==> !CharClass::Space.has_char(#[trigger] word[i]),
        rest.len() > 0 ==> CharClass::Space.has_char(rest[0]),
    ensures
        words(word + rest) == seq![word] + words(rest),
{
    let all = word + rest;
    assert(all[0] == word[0]);
    lemma_leading_is(all, CharClass::Space, 0);
    assert(all.skip(0) =~= all);
    let n = word.len() as int;
    assert forall|i: int| 0 <= i < n implies CharClass::Word.has_char(#[trigger] all[i]) by {
        assert(all[i] == word[i]);
    }
    if rest.len() > 0 {
        assert(all[n] == rest[0]);
    }
    lemma_leading_is(all, CharClass::Word, n);
    assert(all.take(n) =~= word);
    assert(all.skip(n) =~= rest);
}

/// What follows a prefix is what makes the text, put behind the prefix; without such a rest the text
/// does not start with the prefix.
pub proof fn prefix_and_rest_make_the_text(s: Seq<char>, prefix: Seq<char>, rest: Seq<char>)
    ensures
        after_prefix(s, prefix) == Some(rest) <==> s == prefix + rest,
        after_prefix(s, prefix) is None <==> !prefix.is_prefix_of(s),
{
    let n = prefix.len() as int;
    if s == prefix + rest {
        assert(s.take(n) =~= prefix);
        assert(s.skip(n) =~= rest);
        assert(prefix.is_prefix_of(s));
    }
    if prefix.is_prefix_of(s) {
        assert(s =~= prefix + s.skip(n));
    }
}

} // verus!
