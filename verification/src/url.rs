//! Reading and extending URLs.
use crate::text::{opt_text, trimmed_end, CharClass};
use vstd::prelude::*;

verus! {

/// The largest number of characters that go into one extended URL. Percent-encoding makes up to
/// twelve bytes of a character, and host name mapping up to six characters of a few digits each, so
/// that what comes out stays below the four gigabytes that a `Url` can index.
pub const MAX_URL_CHARS: usize = 0xa00_0000;

/// What `Url::parse` reads in a text: the scheme of the URL and its serialization, or the
/// description of the error.
pub uninterp spec fn url_read(text: Seq<char>) -> Result<(Seq<char>, Seq<char>), Seq<char>>;

/// The serialization of the URL read in a text once a path segment and a query pair are added to
/// it; `None` if the text is no URL, or one that has no path segments.
pub uninterp spec fn url_extended(
    base: Seq<char>,
    segment: Seq<char>,
    name: Seq<char>,
    value: Seq<char>,
) -> Option<Seq<char>>;

/// A URL that has been read.
pub struct ParsedUrl {
    /// Its scheme.
    pub scheme: String,
    /// Its serialization.
    pub text: String,
}

/// The characters of what reading a URL gave.
pub open spec fn parsed_view(r: Result<ParsedUrl, String>) -> Result<
    (Seq<char>, Seq<char>),
    Seq<char>,
> {
    match r {
        Ok(url) => Ok((url.scheme@, url.text@)),
        Err(error) => Err(error@),
    }
}

/// Whether a scheme is one of the web.
pub open spec fn is_web_scheme(scheme: Seq<char>) -> bool {
    scheme == "http"@ || scheme == "https"@
}

/// Whether a text starts as a URL of the web with the scheme does, with two slashes and a character
/// that is none, and is made of visible ASCII characters.
pub open spec fn is_web_text(scheme: Seq<char>, text: Seq<char>) -> bool {
    &&& (scheme + "://"@).is_prefix_of(text)
    &&& scheme.len() + "://"@.len() < text.len()
    &&& text[(scheme.len() + "://"@.len()) as int] != '/'
    &&& forall|i: int| 0 <= i < text.len() ==> '!' <= #[trigger] text[i] <= '~'
}

/// Whether a text is read as a URL of the web whose serialization differs from it in slashes at the
/// end only.
pub open spec fn is_web_base(text: Seq<char>) -> bool {
    &&& url_read(text) matches Ok((scheme, serialized))
    &&& is_web_scheme(scheme)
    &&& trimmed_end(serialized, CharClass::One('/')) == text
}

/// Whether a text is made of ASCII letters, digits and underscores, and is not empty.
pub open spec fn is_plain(text: Seq<char>) -> bool {
    &&& text.len() > 0
    &&& forall|i: int| 0 <= i < text.len() ==> is_plain_char(#[trigger] text[i])
}

/// Whether a character is an ASCII letter, a digit or an underscore.
pub open spec fn is_plain_char(c: char) -> bool {
    'a' <= c <= 'z' || 'A' <= c <= 'Z' || '0' <= c <= '9' || c == '_'
}

/// Whether a text is the address of a web page or directory, with neither a query nor a fragment.
pub open spec fn is_plain_base(text: Seq<char>) -> bool {
    is_web_base(text) && !text.contains('?') && !text.contains('#')
}

/// `reqwest::Url::parse`. The result is a function of the text alone. The serialization of a URL of
/// the web starts with its scheme, a colon, two slashes and a user name or host, since the host of
/// such a URL is not empty. It is percent-encoded, so that it holds visible ASCII characters only.
/// If it can be read again without the slashes at its end, that gives a URL of the same scheme that
/// is serialized in the same way, up to those slashes: the parser keeps what it has put in its normal
/// form, and adds no more than the slash of an empty path. That it can be read again is not claimed:
/// a host whose encoded label is too long to be decoded cannot.
#[verifier::external_body]
pub(crate) fn parse_url(text: &str) -> (r: Result<ParsedUrl, String>)
    ensures
        parsed_view(r) == url_read(text@),
        r matches Ok(url) ==> (is_web_scheme(url.scheme@) ==> is_web_text(url.scheme@, url.text@)),
        r matches Ok(url) ==> (is_web_scheme(url.scheme@) && url_read(
            trimmed_end(url.text@, CharClass::One('/')),
        ) is Ok ==> is_web_base(trimmed_end(url.text@, CharClass::One('/')))),
{
    match reqwest::Url::parse(text) {
        Ok(url) => Ok(ParsedUrl { scheme: url.scheme().to_owned(), text: url.to_string() }),
        Err(error) => Err(error.to_string()),
    }
}

/// `push` on `Url::path_segments_mut` and `append_pair` on `Url::query_pairs_mut`, of the URL read
/// in a text. The result is a function of the four arguments alone. On the address of a web page or
/// directory with neither a query nor a fragment, `push` puts a slash and the segment at the end,
/// and `append_pair` starts a query with the pair; both leave ASCII letters, digits and underscores
/// as they are. Beyond the stated length the calls may panic.
#[verifier::external_body]
pub(crate) fn extend_url(base: &str, segment: &str, name: &str, value: &str) -> (r: Option<String>)
    requires
        base@.len() + segment@.len() + name@.len() + value@.len() <= MAX_URL_CHARS,
    ensures
        opt_text(r) == url_extended(base@, segment@, name@, value@),
        is_plain_base(base@) && is_plain(segment@) && is_plain(name@) && is_plain(value@)
            ==> opt_text(r) == Some(base@ + "/"@ + segment@ + "?"@ + name@ + "="@ + value@),
{
    let mut url = reqwest::Url::parse(base).ok()?;
    url.path_segments_mut().ok()?.push(segment);
    url.query_pairs_mut().append_pair(name, value);
    Some(url.into())
}

} // verus!
