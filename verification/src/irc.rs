//! Chat lines.
use crate::text::{
    has_bare_ends, is_all, opt_text, same, texts, trim, trimmed, trimming_cuts_both_ends, CharClass,
};
use vstd::prelude::*;

verus! {

/// A chat line, taken apart.
pub struct IrcMessage {
    /// The tags, each name once.
    pub tags: Vec<(String, Option<String>)>,
    /// The command, such as `PRIVMSG`.
    pub command: String,
    /// The parameters.
    pub params: Vec<String>,
}

/// The characters of an [`IrcMessage`].
pub ghost struct IrcView {
    pub tags: Map<Seq<char>, Option<Seq<char>>>,
    pub command: Seq<char>,
    pub params: Seq<Seq<char>>,
}

/// The tags in a list, where a later entry of a name counts.
pub open spec fn tag_map(tags: Seq<(String, Option<String>)>) -> Map<Seq<char>, Option<Seq<char>>>
    decreases tags.len(),
{
    if tags.len() == 0 {
        Map::empty()
    } else {
        tag_map(tags.drop_last()).insert(tags.last().0@, opt_text(tags.last().1))
    }
}

impl View for IrcMessage {
    type V = IrcView;

    open spec fn view(&self) -> IrcView {
        IrcView {
            tags: tag_map(self.tags@),
            command: self.command@,
            params: texts(self.params@),
        }
    }
}

/// What `IRCMessage::parse` reads in a line: the tags, the command and the parameters, or the
/// description of the error.
pub uninterp spec fn irc_read(line: Seq<char>) -> Result<IrcView, Seq<char>>;

/// The characters of what taking a line apart gave.
pub open spec fn irc_view(r: Result<IrcMessage, String>) -> Result<IrcView, Seq<char>> {
    match r {
        Ok(message) => Ok(message@),
        Err(error) => Err(error@),
    }
}

/// `twitch_irc::message::IRCMessage::parse`. The result is a function of the line alone; the tags
/// come in no particular order.
#[verifier::external_body]
fn parse_irc(line: &str) -> (r: Result<IrcMessage, String>)
    ensures
        irc_view(r) == irc_read(line@),
{
    match twitch_irc::message::IRCMessage::parse(line) {
        Ok(message) => Ok(
            IrcMessage {
                tags: message.tags.0.into_iter().collect(),
                command: message.command,
                params: message.params,
            },
        ),
        Err(error) => Err(error.to_string()),
    }
}

/// A raw line without the white space around it, and without the zero characters around what
/// remains.
pub open spec fn bare_line(raw: Seq<char>) -> Seq<char> {
    trimmed(trimmed(raw, CharClass::Space), CharClass::One('\0'))
}

/// A raw line without the white space around it, and without the zero characters around what
/// remains.
pub fn clean_line(raw: &str) -> (r: &str)
    ensures
        r@ == bare_line(raw@),
{
    trim(trim(raw, CharClass::Space), CharClass::One('\0'))
}

/// What is read in a raw line.
pub open spec fn raw_read(raw: Seq<char>) -> Result<IrcView, Seq<char>> {
    irc_read(bare_line(raw))
}

/// Takes a raw line apart.
pub fn parse_line(raw: &str) -> (r: Result<IrcMessage, String>)
    ensures
        irc_view(r) == raw_read(raw@),
        irc_view(r) == irc_read(bare_line(raw@)),
{
    parse_irc(clean_line(raw))
}

impl IrcMessage {
    /// The value of a tag, if the message has the tag and the tag has a value.
    pub open spec fn tag_value(&self, name: Seq<char>) -> Option<Seq<char>> {
        if self@.tags.contains_key(name) {
            self@.tags[name]
        } else {
            None
        }
    }

    /// The value of a tag, if the message has the tag and the tag has a value.
    pub fn tag(&self, name: &str) -> (r: Option<String>)
        ensures
            opt_text(r) == self.tag_value(name@),
    {
        let mut i: usize = self.tags.len();
        assert(self.tags@.take(i as int) == self.tags@);
        while i > 0
            invariant
                i <= self.tags@.len(),
                tag_map(self.tags@.take(i as int)).contains_key(name@) == self@.tags.contains_key(
                    name@,
                ),
                tag_map(self.tags@.take(i as int)).contains_key(name@) ==> tag_map(
                    self.tags@.take(i as int),
                )[name@] == self@.tags[name@],
            decreases i,
        {
            assert(self.tags@.take(i as int).drop_last() == self.tags@.take(i - 1));
            i -= 1;
            let entry: &(String, Option<String>) = &self.tags[i];
            if same(entry.0.as_str(), name) {
                return entry.1.clone();
            }
        }
        None
    }
}

/// The value of a tag is that of its last entry, and there is none without an entry.
pub proof fn tag_has_the_value_of_its_last_entry(m: IrcMessage, name: Seq<char>, i: int)
    requires
        -1 <= i < m.tags@.len(),
        i >= 0 ==> m.tags@[i].0@ == name,
        forall|j: int| i < j < m.tags@.len() ==> (#[trigger] m.tags@[j]).0@ != name,
    ensures
        m.tag_value(name) == if i >= 0 {
            opt_text(m.tags@[i].1)
        } else {
            None
        },
{
    lemma_tag_map(m.tags@, name, i);
}

proof fn lemma_tag_map(tags: Seq<(String, Option<String>)>, name: Seq<char>, i: int)
    requires
        -1 <= i < tags.len(),
        i >= 0 ==> tags[i].0@ == name,
        forall|j: int| i < j < tags.len() ==> (#[trigger] tags[j]).0@ != name,
    ensures
        tag_map(tags).contains_key(name) <==> i >= 0,
        i >= 0 ==> tag_map(tags)[name] == opt_text(tags[i].1),
    decreases tags.len(),
{
    if tags.len() > 0 && i < tags.len() - 1 {
        assert(tags[tags.len() - 1].0@ != name);
        lemma_tag_map(tags.drop_last(), name, i);
    }
}

/// What is read of a raw line is what stands between the white space at its ends, and then between
/// the zero characters.
pub proof fn raw_line_is_cut_at_its_ends(
    left: Seq<char>,
    zeros: Seq<char>,
    line: Seq<char>,
    more_zeros: Seq<char>,
    right: Seq<char>,
)
    requires
        is_all(left, CharClass::Space),
        is_all(right, CharClass::Space),
        is_all(zeros, CharClass::One('\0')),
        is_all(more_zeros, CharClass::One('\0')),
        has_bare_ends(line, CharClass::One('\0')),
        has_bare_ends(zeros + line + more_zeros, CharClass::Space),
    ensures
        bare_line(left + (zeros + line + more_zeros) + right) == line,
        raw_read(left + (zeros + line + more_zeros) + right) == irc_read(line),
{
    trimming_cuts_both_ends(left, zeros + line + more_zeros, right, CharClass::Space);
    trimming_cuts_both_ends(zeros, line, more_zeros, CharClass::One('\0'));
}

/// The view of a message shows its command and its parameters.
pub proof fn irc_view_shows_command_and_params(m: IrcMessage)
    ensures
        m@.command == m.command@,
        m@.params.len() == m.params@.len(),
        forall|i: int| 0 <= i < m.params@.len() ==> #[trigger] m@.params[i] == m.params@[i]@,
{
}

} // verus!
