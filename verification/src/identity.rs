//! What makes two logged events the same event.
use crate::text::{join, opt_text};
use vstd::prelude::*;

verus! {

/// The lower-case hexadecimal digit with a value below sixteen.
pub open spec fn hex_char(d: int) -> char {
    if d < 10 {
        ('0' as u32 + d) as char
    } else {
        ('a' as u32 + (d - 10)) as char
    }
}

/// Bytes in lower-case hexadecimal, two digits each.
pub open spec fn hex(bytes: Seq<u8>) -> Seq<char> {
    Seq::new(
        2 * bytes.len(),
        |i: int|
            if i % 2 == 0 {
                hex_char(bytes[i / 2] as int / 16)
            } else {
                hex_char(bytes[i / 2] as int % 16)
            },
    )
}

/// The lower-case hexadecimal digit with a value below sixteen.
fn to_hex_char(d: u8) -> (c: char)
    requires
        d < 16,
    ensures
        c == hex_char(d as int),
{
    if d < 10 {
        (48 + d) as char
    } else {
        (87 + d) as char
    }
}

/// Bytes in lower-case hexadecimal, two digits each.
pub fn to_hex(bytes: &[u8]) -> (r: String)
    ensures
        r@ == hex(bytes@),
{
    let mut r: String = String::new();
    for i in 0..bytes.len()
        invariant
            r@ == hex(bytes@.take(i as int)),
    {
        let b: u8 = bytes[i];
        r.push(to_hex_char(b / 16));
        r.push(to_hex_char(b % 16));
        assert(r@ =~= hex(bytes@.take(i + 1)));
    }
    assert(bytes@.take(bytes@.len() as int) == bytes@);
    r
}

/// The BLAKE3 digest of some bytes.
pub uninterp spec fn blake3_digest(input: Seq<u8>) -> Seq<u8>;

/// `blake3::hash`: the digest of some bytes, which is a function of the bytes alone, and 32 bytes
/// long.
#[verifier::external_body]
fn blake3_hash(input: &[u8]) -> (r: [u8; 32])
    ensures
        r@ == blake3_digest(input@),
{
    *blake3::hash(input).as_bytes()
}

/// How the identity of an event with an identifier of its own starts.
pub const UUID_PREFIX: &'static str = "uuid:";

/// How the identity of an event without an identifier of its own starts.
pub const ROW_PREFIX: &'static str = "row:";

/// What identifies an event without an identifier of its own, given the digest of its row.
pub open spec fn row_identity_of(digest: Seq<u8>) -> Seq<char> {
    ROW_PREFIX@ + hex(digest)
}

/// What identifies an event: its own identifier, or else the digest of its row.
pub open spec fn event_identity(uuid: Option<Seq<char>>, canonical: Seq<u8>) -> Seq<char> {
    match uuid {
        Some(id) => UUID_PREFIX@ + id,
        None => row_identity_of(blake3_digest(canonical)),
    }
}

/// What identifies an event without an identifier of its own, given the digest of its row.
pub fn row_identity(digest: &[u8]) -> (r: String)
    ensures
        r@ == row_identity_of(digest@),
{
    let digits: String = to_hex(digest);
    join(ROW_PREFIX, digits.as_str())
}

/// What identifies an event: its own identifier, or else the digest of its row, which makes a start
/// of four characters and sixty-four digits.
pub fn identify(uuid: &Option<String>, canonical: &[u8]) -> (r: String)
    ensures
        r@ == event_identity(opt_text(*uuid), canonical@),
        *uuid matches Some(id) ==> r@ == "uuid:"@ + id@,
        uuid is None ==> r@ == "row:"@ + hex(blake3_digest(canonical@)),
        uuid is None ==> r@.len() == 68,
{
    match uuid {
        Some(id) => join(UUID_PREFIX, id.as_str()),
        None => {
            let digest: [u8; 32] = blake3_hash(canonical);
            proof {
                reveal_strlit("row:");
            }
            row_identity(digest.as_slice())
        },
    }
}

/// Different identifiers make different identities.
pub proof fn uuid_identities_differ(a: Seq<char>, b: Seq<char>, x: Seq<u8>, y: Seq<u8>)
    ensures
        event_identity(Some(a), x) == event_identity(Some(b), y) <==> a == b,
{
    if UUID_PREFIX@ + a == UUID_PREFIX@ + b {
        lemma_same_suffix(UUID_PREFIX@, a, b);
    }
}

/// An event with an identifier is never taken for one without.
pub proof fn uuid_and_row_identities_differ(id: Seq<char>, x: Seq<u8>, y: Seq<u8>)
    ensures
        event_identity(Some(id), x) != event_identity(None, y),
{
    reveal_strlit("uuid:");
    reveal_strlit("row:");
    assert(event_identity(Some(id), x)[0] == 'u');
    assert(event_identity(None, y)[0] == 'r');
}

/// Events without identifiers have the same identity exactly when their rows have the same digest.
pub proof fn row_identities_follow_digests(x: Seq<u8>, y: Seq<u8>)
    ensures
        event_identity(None, x) == event_identity(None, y) <==> blake3_digest(x) == blake3_digest(
            y,
        ),
{
    let a = blake3_digest(x);
    let b = blake3_digest(y);
    if event_identity(None, x) == event_identity(None, y) {
        lemma_same_suffix(ROW_PREFIX@, hex(a), hex(b));
        hex_tells_bytes_apart(a, b);
    }
}

/// What follows the same start in two equal texts is equal.
proof fn lemma_same_suffix(start: Seq<char>, a: Seq<char>, b: Seq<char>)
    requires
        start + a == start + b,
    ensures
        a == b,
{
    assert((start + a).skip(start.len() as int) == a);
    assert((start + b).skip(start.len() as int) == b);
}

/// Different bytes have different hexadecimal forms.
pub proof fn hex_tells_bytes_apart(a: Seq<u8>, b: Seq<u8>)
    requires
        hex(a) == hex(b),
    ensures
        a == b,
{
    assert(hex(a).len() == 2 * a.len() && hex(b).len() == 2 * b.len());
    assert forall|i: int| 0 <= i < a.len() implies a[i] == b[i] by {
        assert(hex(a)[2 * i] == hex_char(a[i] as int / 16));
        assert(hex(b)[2 * i] == hex_char(b[i] as int / 16));
        assert(hex(a)[2 * i + 1] == hex_char(a[i] as int % 16));
        assert(hex(b)[2 * i + 1] == hex_char(b[i] as int % 16));
    }
    assert(a =~= b);
}

/// Every byte adds two digits, its sixteenth part first.
pub proof fn hex_adds_two_digits(bytes: Seq<u8>, b: u8)
    ensures
        hex(Seq::<u8>::empty()) == Seq::<char>::empty(),
        hex(bytes.push(b)) == hex(bytes) + seq![
            ("0123456789abcdef"@)[b as int / 16],
            ("0123456789abcdef"@)[b as int % 16],
        ],
{
    reveal_strlit("0123456789abcdef");
    let all = bytes.push(b);
    assert(hex(Seq::<u8>::empty()) =~= Seq::<char>::empty());
    let high = b as int / 16;
    let low = b as int % 16;
    assert(hex_char(high) == ("0123456789abcdef"@)[high]);
    assert(hex_char(low) == ("0123456789abcdef"@)[low]);
    assert(hex(all) =~= hex(bytes) + seq![hex_char(high), hex_char(low)]);
}

/// What identifies an event in words: its identifier, or the digest of all of its row.
pub proof fn identity_text(id: Seq<char>, canonical: Seq<u8>)
    ensures
        event_identity(Some(id), canonical) == "uuid:"@ + id,
        event_identity(None, canonical) == "row:"@ + hex(blake3_digest(canonical)),
        row_identity_of(canonical) == "row:"@ + hex(canonical),
{
}

} // verus!
