//! Where recent messages are fetched from, and under which settings.
use crate::number::{
    decimal, is_digit, lemma_decimal, number_in, number_reads_back, parse_number, to_decimal,
};
use crate::text::{
    has_bare_ends, is_all, join, lemma_nothing_to_trim, lemma_trailing, lower, lower_char, opt_text,
    same, same_ignoring_case, texts, to_lower, trailing, trim, trim_end, trimmed, trimmed_end,
    trimming_cuts_both_ends, trimming_cuts_the_end, CharClass,
};
use crate::url::{
    extend_url, is_plain, is_plain_base, is_plain_char, is_web_base, is_web_scheme, is_web_text,
    parse_url, parsed_view, url_extended, url_read, ParsedUrl, MAX_URL_CHARS,
};
use std::collections::HashMap;
use vstd::prelude::*;

verus! {

/// The service that is asked unless another is configured.
pub const DEFAULT_RECENT_MESSAGES_URL: &'static str =
    "https://recent-messages.robotty.de/api/v2/recent-messages";

/// How many messages are asked for unless another number is configured.
pub const DEFAULT_RECENT_MESSAGES_LIMIT: usize = 800;

/// How many seconds a request may take.
pub const RECENT_MESSAGES_TIMEOUT_SECONDS: u64 = 10;

/// The variable that switches fetching on.
pub const ENABLED_VARIABLE: &'static str = "JUSTLOG_RECENT_MESSAGES_ENABLED";

/// The variable that names the service.
pub const URL_VARIABLE: &'static str = "JUSTLOG_RECENT_MESSAGES_URL";

/// The variable that bounds the number of messages.
pub const LIMIT_VARIABLE: &'static str = "JUSTLOG_RECENT_MESSAGES_LIMIT";

/// How the warning about an address that cannot be used starts; what is wrong with it follows.
pub const INVALID_URL_WARNING: &'static str =
    "JUSTLOG_RECENT_MESSAGES_URL is invalid; recent-message backfill is disabled: ";

/// The warning given when fetching is switched on without an address that can be used.
pub const UNUSABLE_WARNING: &'static str =
    "JUSTLOG_RECENT_MESSAGES_ENABLED is set but JUSTLOG_RECENT_MESSAGES_URL is unusable; recent-message backfill is disabled";

/// The settings that the process runs with.
#[derive(Debug, Clone, PartialEq, Eq)]
pub struct RecentMessagesRuntimeSummary {
    /// Whether fetching was switched on.
    pub enabled: bool,
    /// The address of the service, if there is one that can be used.
    pub base_url: Option<String>,
    /// How many messages to ask for.
    pub limit: usize,
    /// What is wrong with the settings.
    pub warnings: Vec<String>,
}

/// The characters and numbers of a [`RecentMessagesRuntimeSummary`].
pub ghost struct SummaryView {
    pub enabled: bool,
    pub base_url: Option<Seq<char>>,
    pub limit: usize,
    pub warnings: Seq<Seq<char>>,
}

impl View for RecentMessagesRuntimeSummary {
    type V = SummaryView;

    open spec fn view(&self) -> SummaryView {
        SummaryView {
            enabled: self.enabled,
            base_url: opt_text(self.base_url),
            limit: self.limit,
            warnings: texts(self.warnings@),
        }
    }
}

/// Whether the value of a variable switches something on.
pub open spec fn flag_is_set(value: Option<Seq<char>>) -> bool {
    match value {
        Some(v) => v == "1"@ || lower(v) == "true"@ || lower(v) == "yes"@ || lower(v) == "y"@,
        None => false,
    }
}

/// The characters of a text that may be missing.
pub open spec fn opt_str(s: Option<&str>) -> Option<Seq<char>> {
    match s {
        Some(t) => Some(t@),
        None => None,
    }
}

/// Whether the value of a variable switches something on.
pub fn env_flag(value: Option<&str>) -> (r: bool)
    ensures
        r == flag_is_set(opt_str(value)),
{
    match value {
        Some(v) => {
            proof {
                lemma_lower_literals();
            }
            same(v, "1") || same_ignoring_case(v, "true") || same_ignoring_case(v, "yes")
                || same_ignoring_case(v, "y")
        },
        None => false,
    }
}

proof fn lemma_lower_literals()
    ensures
        lower("true"@) == "true"@,
        lower("yes"@) == "yes"@,
        lower("y"@) == "y"@,
{
    reveal_strlit("true");
    reveal_strlit("yes");
    reveal_strlit("y");
}

/// What becomes of an address once it was read: the serialization without slashes at its end, for
/// the schemes of the web only.
pub open spec fn accepted_url(read: Result<(Seq<char>, Seq<char>), Seq<char>>) -> Result<
    Seq<char>,
    Seq<char>,
> {
    match read {
        Ok((scheme, text)) => if is_web_scheme(scheme) {
            Ok(trimmed_end(text, CharClass::One('/')))
        } else {
            Err("unsupported scheme "@ + scheme)
        },
        Err(error) => Err(error),
    }
}

/// An address without the white space around it and the slashes at its end.
pub open spec fn bare_url(value: Seq<char>) -> Seq<char> {
    trimmed_end(trimmed(value, CharClass::Space), CharClass::One('/'))
}

/// The address that a configured value stands for, or what is wrong with it.
pub open spec fn normalized_url(value: Seq<char>) -> Result<Seq<char>, Seq<char>> {
    if bare_url(value).len() == 0 {
        Err("empty URL"@)
    } else {
        accepted_url(url_read(bare_url(value)))
    }
}

/// Whether an address is one of the web: it starts with the scheme and two slashes, and does not end
/// with a slash.
pub open spec fn is_web_url(text: Seq<char>) -> bool {
    &&& "http://"@.is_prefix_of(text) || "https://"@.is_prefix_of(text)
    &&& text.last() != '/'
}

/// Whether an address is in its normal form: it is read as a URL of the web, and stays as it is when
/// it is normalized.
pub open spec fn is_normal_url(text: Seq<char>) -> bool {
    &&& is_web_base(text)
    &&& normalized_url(text) == Ok::<Seq<char>, Seq<char>>(text)
}

/// The characters of a result.
pub open spec fn result_text(r: Result<String, String>) -> Result<Seq<char>, Seq<char>> {
    match r {
        Ok(t) => Ok(t@),
        Err(e) => Err(e@),
    }
}

/// Cutting the slashes off the end of a text does not reach a start that ends otherwise.
proof fn lemma_trim_keeps_start(text: Seq<char>, n: int)
    requires
        0 < n <= text.len(),
        text[n - 1] != '/',
    ensures
        text.take(n).is_prefix_of(trimmed_end(text, CharClass::One('/'))),
        trimmed_end(text, CharClass::One('/')).is_prefix_of(text),
        trimmed_end(text, CharClass::One('/')).last() != '/',
{
    let class = CharClass::One('/');
    lemma_trailing(text, class);
    let m = text.len() - trailing(text, class);
    if m < n {
        assert(class.has_char(text[n - 1]));
    }
    assert(text.take(n) =~= text.take(m).take(n));
}

/// The serialization of a URL of the web, without the slashes at its end, is an address of the web,
/// and in its normal form if it is read as it is.
proof fn lemma_is_web_url(scheme: Seq<char>, text: Seq<char>)
    requires
        is_web_scheme(scheme),
        is_web_text(scheme, text),
    ensures
        is_web_url(trimmed_end(text, CharClass::One('/'))),
        is_web_base(trimmed_end(text, CharClass::One('/'))) ==> is_normal_url(
            trimmed_end(text, CharClass::One('/')),
        ),
{
    let url = trimmed_end(text, CharClass::One('/'));
    let start = scheme + "://"@;
    reveal_strlit("http");
    reveal_strlit("https");
    reveal_strlit("://");
    reveal_strlit("http://");
    reveal_strlit("https://");
    assert("http"@ + "://"@ =~= "http://"@);
    assert("https"@ + "://"@ =~= "https://"@);
    let n = start.len() as int;
    lemma_trim_keeps_start(text, n + 1);
    assert(start.is_prefix_of(url)) by {
        assert(text.take(n + 1) =~= url.take(n + 1));
        assert(start =~= text.take(n + 1).take(n));
        assert(start =~= url.take(n));
    }
    assert forall|i: int| 0 <= i < url.len() implies !CharClass::Space.has_char(
        #[trigger] url[i],
    ) by {
        assert(url[i] == text[i]);
    }
    lemma_nothing_to_trim(url, CharClass::Space);
    assert(trailing(url, CharClass::One('/')) == 0);
    assert(url.take(url.len() as int) =~= url);
    assert(bare_url(url) == url);
}

/// What becomes of an address once it was read. What is accepted of a serialization is an address of
/// the web, and in its normal form if it is read as it is.
pub fn accept_parsed_url(parsed: Result<ParsedUrl, String>) -> (r: Result<String, String>)
    ensures
        result_text(r) == accepted_url(parsed_view(parsed)),
        parsed matches Ok(url) && is_web_text(url.scheme@, url.text@) ==> (r matches Ok(t) ==> {
            &&& is_web_url(t@)
            &&& is_web_base(t@) ==> is_normal_url(t@)
        }),
{
    match parsed {
        Ok(url) => {
            if same(url.scheme.as_str(), "http") || same(url.scheme.as_str(), "https") {
                proof {
                    if is_web_text(url.scheme@, url.text@) {
                        lemma_is_web_url(url.scheme@, url.text@);
                    }
                }
                Ok(trim_end(url.text.as_str(), CharClass::One('/')).to_owned())
            } else {
                Err(join("unsupported scheme ", url.scheme.as_str()))
            }
        },
        Err(error) => Err(error),
    }
}

/// The address that a configured value stands for, or what is wrong with it. If the address can be
/// read as a URL, it is in its normal form: normalizing it again changes nothing.
pub fn normalize_base_url(value: &str) -> (r: Result<String, String>)
    ensures
        result_text(r) == normalized_url(value@),
        r matches Ok(t) ==> is_web_url(t@),
        r matches Ok(t) ==> (url_read(t@) is Ok ==> is_normal_url(t@)),
{
    let bare: &str = trim_end(trim(value, CharClass::Space), CharClass::One('/'));
    if bare.is_empty() {
        return Err("empty URL".to_owned());
    }
    accept_parsed_url(parse_url(bare))
}

/// How many messages to ask for: the configured number if it is one, and positive.
pub open spec fn limit_of(value: Option<Seq<char>>) -> usize {
    match value {
        Some(v) => match number_in(trimmed(v, CharClass::Space)) {
            Some(n) => if n > 0 {
                n
            } else {
                DEFAULT_RECENT_MESSAGES_LIMIT
            },
            None => DEFAULT_RECENT_MESSAGES_LIMIT,
        },
        None => DEFAULT_RECENT_MESSAGES_LIMIT,
    }
}

/// How many messages to ask for.
pub fn configured_limit(value: Option<&str>) -> (r: usize)
    ensures
        r == limit_of(opt_str(value)),
        r > 0,
{
    match value {
        Some(v) => match parse_number(trim(v, CharClass::Space)) {
            Some(n) => if n > 0 {
                n
            } else {
                DEFAULT_RECENT_MESSAGES_LIMIT
            },
            None => DEFAULT_RECENT_MESSAGES_LIMIT,
        },
        None => DEFAULT_RECENT_MESSAGES_LIMIT,
    }
}

/// The settings that a switch, an address and a number amount to.
pub open spec fn summary_of(
    enabled: bool,
    normalized: Result<Seq<char>, Seq<char>>,
    limit: usize,
) -> SummaryView {
    SummaryView {
        enabled,
        base_url: match normalized {
            Ok(url) => Some(url),
            Err(_) => None,
        },
        limit,
        warnings: match normalized {
            Ok(_) => Seq::empty(),
            Err(error) => if enabled {
                seq![INVALID_URL_WARNING@ + error, UNUSABLE_WARNING@]
            } else {
                seq![INVALID_URL_WARNING@ + error]
            },
        },
    }
}

/// The settings that the values of the three variables amount to.
pub open spec fn summary_of_settings(
    enabled: Option<Seq<char>>,
    url: Option<Seq<char>>,
    limit: Option<Seq<char>>,
) -> SummaryView {
    summary_of(
        flag_is_set(enabled),
        normalized_url(
            match url {
                Some(u) => u,
                None => DEFAULT_RECENT_MESSAGES_URL@,
            },
        ),
        limit_of(limit),
    )
}

/// The value that a map of strings holds under a key with the given characters. A `HashMap` holds
/// one such key at most.
pub open spec fn text_entry(vars: Map<String, String>, name: Seq<char>) -> Option<Seq<char>> {
    if exists|k: String| #[trigger] vars.contains_key(k) && k@ == name {
        Some(vars[choose|k: String| #[trigger] vars.contains_key(k) && k@ == name]@)
    } else {
        None
    }
}

/// `HashMap::get`: the value that corresponds to the key, where two strings are the same key when
/// they hold the same characters.
#[verifier::external_body]
fn map_get<'a>(vars: &'a HashMap<String, String>, name: &str) -> (r: Option<&'a String>)
    ensures
        (match r {
            Some(v) => Some(v@),
            None => None,
        }) == text_entry(vars@, name@),
{
    vars.get(name)
}

impl RecentMessagesRuntimeSummary {
    /// The settings that a switch, an address and a number amount to.
    pub fn of_parts(enabled: bool, normalized: Result<String, String>, limit: usize) -> (summary:
        Self)
        ensures
            summary@ == summary_of(enabled, result_text(normalized), limit),
    {
        let mut warnings: Vec<String> = Vec::new();
        let base_url: Option<String> = match normalized {
            Ok(url) => Some(url),
            Err(error) => {
                warnings.push(join(INVALID_URL_WARNING, error.as_str()));
                None
            },
        };
        if enabled && base_url.is_none() {
            warnings.push(UNUSABLE_WARNING.to_owned());
        }
        let summary = RecentMessagesRuntimeSummary { enabled, base_url, limit, warnings };
        assert(summary@.warnings == summary_of(enabled, result_text(normalized), limit).warnings);
        summary
    }
}

/// The address, the switch and the number that requests are made with.
#[derive(Clone)]
pub struct RecentMessagesClient {
    enabled: bool,
    base_url: Option<String>,
    limit: usize,
}

/// The characters and numbers of a [`RecentMessagesClient`].
pub ghost struct ClientView {
    pub enabled: bool,
    pub base_url: Option<Seq<char>>,
    pub limit: usize,
}

impl View for RecentMessagesClient {
    type V = ClientView;

    closed spec fn view(&self) -> ClientView {
        ClientView {
            enabled: self.enabled,
            base_url: opt_text(self.base_url),
            limit: self.limit,
        }
    }
}

/// The client for some settings, given whether their address can be read as a URL.
pub open spec fn client_of(summary: SummaryView, readable: bool) -> ClientView {
    ClientView {
        enabled: summary.enabled && summary.base_url is Some && readable,
        base_url: if readable {
            summary.base_url
        } else {
            None
        },
        limit: summary.limit,
    }
}

/// Whether the address of some settings can be read as a URL.
pub open spec fn base_is_readable(summary: SummaryView) -> bool {
    summary.base_url matches Some(url) && url_read(url) is Ok
}

/// Why no request can be made.
#[derive(Debug, Clone, Copy, PartialEq, Eq, Structural)]
pub enum RequestError {
    /// There is no address to ask.
    Disabled,
    /// The address is not one that a path can be added to.
    NoPathSegments,
}

impl RequestError {
    /// The error in words.
    pub open spec fn text(self) -> Seq<char> {
        match self {
            RequestError::Disabled => "recent-message backfill is disabled"@,
            RequestError::NoPathSegments => "recent-messages URL cannot contain path segments"@,
        }
    }

    /// The error in words.
    pub fn message(&self) -> (r: String)
        ensures
            r@ == self.text(),
    {
        match self {
            RequestError::Disabled => "recent-message backfill is disabled".to_owned(),
            RequestError::NoPathSegments =>
                "recent-messages URL cannot contain path segments".to_owned(),
        }
    }
}

/// The base address, if it can be read as a URL.
pub open spec fn readable_base(base_url: Option<Seq<char>>) -> Option<Seq<char>> {
    match base_url {
        Some(base) => if url_read(base) is Ok {
            Some(base)
        } else {
            None
        },
        None => None,
    }
}

/// The address of a request for the recent messages of a channel, given the base address, if there
/// is one that can be read, and what extending it came to.
pub open spec fn request_outcome(
    base_url: Option<Seq<char>>,
    extended: Option<Seq<char>>,
) -> Result<Seq<char>, RequestError> {
    match base_url {
        None => Err(RequestError::Disabled),
        Some(_) => match extended {
            Some(url) => Ok(url),
            None => Err(RequestError::NoPathSegments),
        },
    }
}

/// The parts of a request for a plain login are plain.
proof fn lemma_plain_parts(login: Seq<char>, limit: nat)
    ensures
        is_plain(login) ==> is_plain(lower(login)),
        is_plain("limit"@),
        is_plain(decimal(limit)),
{
    reveal_strlit("limit");
    lemma_decimal(limit);
    if is_plain(login) {
        assert forall|i: int| 0 <= i < login.len() implies is_plain_char(
            #[trigger] lower(login)[i],
        ) by {
            assert(is_plain_char(login[i]));
        }
    }
    assert forall|i: int| 0 <= i < decimal(limit).len() implies is_plain_char(
        #[trigger] decimal(limit)[i],
    ) by {
        assert(is_digit(decimal(limit)[i]));
    }
}

/// The start of the query in one piece.
proof fn lemma_query_start(path: Seq<char>, value: Seq<char>)
    ensures
        path + "?"@ + "limit"@ + "="@ + value == path + "?limit="@ + value,
{
    reveal_strlit("?");
    reveal_strlit("limit");
    reveal_strlit("=");
    reveal_strlit("?limit=");
    assert("?"@ + "limit"@ + "="@ =~= "?limit="@);
    assert(path + "?"@ + "limit"@ + "="@ =~= path + ("?"@ + "limit"@ + "="@));
}

/// The request of a client for the recent messages of a channel.
pub open spec fn request_of(client: ClientView, channel_login: Seq<char>) -> Result<
    Seq<char>,
    RequestError,
> {
    request_outcome(
        readable_base(client.base_url),
        url_extended(
            client.base_url->0,
            lower(channel_login),
            "limit"@,
            decimal(client.limit as nat),
        ),
    )
}

impl RecentMessagesClient {
    /// The settings in a set of variables.
    pub fn summary_from_map(vars: &HashMap<String, String>) -> (summary:
        RecentMessagesRuntimeSummary)
        ensures
            summary@ == summary_of_settings(
                text_entry(vars@, ENABLED_VARIABLE@),
                text_entry(vars@, URL_VARIABLE@),
                text_entry(vars@, LIMIT_VARIABLE@),
            ),
            summary.limit > 0,
            summary@.base_url matches Some(url) ==> is_web_url(url),
            summary@.base_url matches Some(url) ==> (url_read(url) is Ok ==> is_normal_url(url)),
    {
        let enabled: bool = match map_get(vars, ENABLED_VARIABLE) {
            Some(v) => env_flag(Some(v.as_str())),
            None => env_flag(None),
        };
        let normalized: Result<String, String> = match map_get(vars, URL_VARIABLE) {
            Some(v) => normalize_base_url(v.as_str()),
            None => normalize_base_url(DEFAULT_RECENT_MESSAGES_URL),
        };
        let limit: usize = match map_get(vars, LIMIT_VARIABLE) {
            Some(v) => configured_limit(Some(v.as_str())),
            None => configured_limit(None),
        };
        RecentMessagesRuntimeSummary::of_parts(enabled, normalized, limit)
    }

    /// The client for some settings, given whether their address can be read as a URL.
    pub fn from_checked_summary(summary: RecentMessagesRuntimeSummary, readable: bool) -> (client:
        Self)
        ensures
            client@ == client_of(summary@, readable),
    {
        let base_url: Option<String> = if readable {
            summary.base_url
        } else {
            None
        };
        RecentMessagesClient {
            enabled: summary.enabled && base_url.is_some(),
            base_url,
            limit: summary.limit,
        }
    }

    /// The client for some settings.
    pub fn from_summary(summary: RecentMessagesRuntimeSummary) -> (client: Self)
        ensures
            client@ == client_of(summary@, base_is_readable(summary@)),
    {
        let readable: bool = match &summary.base_url {
            Some(url) => parse_url(url.as_str()).is_ok(),
            None => false,
        };
        Self::from_checked_summary(summary, readable)
    }

    /// Whether messages are to be fetched.
    pub fn enabled(&self) -> (r: bool)
        ensures
            r == self@.enabled,
    {
        self.enabled
    }

    /// Whether the address of a request for a channel stays within the length that can be handled.
    pub open spec fn request_fits(&self, channel_login: Seq<char>) -> bool {
        self@.base_url matches Some(base) ==> base.len() + channel_login.len() + "limit"@.len()
            + decimal(self@.limit as nat).len() <= MAX_URL_CHARS
    }

    /// Whether the address of a request for a channel stays within the length that can be handled.
    pub fn can_request(&self, channel_login: &str) -> (r: bool)
        ensures
            r == self.request_fits(channel_login@),
    {
        match &self.base_url {
            None => true,
            Some(base) => {
                let limit: String = to_decimal(self.limit);
                let total: u128 = base.as_str().unicode_len() as u128
                    + channel_login.unicode_len() as u128 + "limit".unicode_len() as u128
                    + limit.as_str().unicode_len() as u128;
                total <= MAX_URL_CHARS as u128
            },
        }
    }

    /// The address of the request for the recent messages of a channel: the base address, with the
    /// lower-case login as one more path segment, and the number of messages in the query. For a
    /// plain login and a plain base address that is just their text with a slash between, and the
    /// query behind.
    pub fn request_url(&self, channel_login: &str) -> (r: Result<String, RequestError>)
        requires
            self.request_fits(channel_login@),
        ensures
            (match r {
                Ok(url) => Ok(url@),
                Err(error) => Err(error),
            }) == request_outcome(
                readable_base(self@.base_url),
                url_extended(
                    self@.base_url->0,
                    lower(channel_login@),
                    "limit"@,
                    decimal(self@.limit as nat),
                ),
            ),
            (match r {
                Ok(url) => Ok(url@),
                Err(error) => Err(error),
            }) == request_of(self@, channel_login@),
            self@.base_url matches Some(base) ==> (is_plain_base(base) && is_plain(channel_login@)
                ==> (r matches Ok(url) && url@ == base + "/"@ + lower(channel_login@) + "?limit="@
                + decimal(self@.limit as nat))),
    {
        match &self.base_url {
            None => Err(RequestError::Disabled),
            Some(base) => {
                if parse_url(base.as_str()).is_err() {
                    return Err(RequestError::Disabled);
                }
                proof {
                    lemma_plain_parts(channel_login@, self@.limit as nat);
                    lemma_query_start(
                        base@ + "/"@ + lower(channel_login@),
                        decimal(self@.limit as nat),
                    );
                }
                let login: String = to_lower(channel_login);
                let limit: String = to_decimal(self.limit);
                match extend_url(base.as_str(), login.as_str(), "limit", limit.as_str()) {
                    Some(url) => Ok(url),
                    None => Err(RequestError::NoPathSegments),
                }
            },
        }
    }
}

/// What the service answers.
#[derive(Debug)]
pub struct RecentMessagesResponse {
    /// Raw chat lines, oldest first.
    pub messages: Vec<String>,
    /// An error, in words.
    pub error: Option<String>,
    /// The code of an error.
    pub error_code: Option<String>,
}

impl RecentMessagesResponse {
    /// Whether the service reports an error, so that its lines are not to be used.
    pub open spec fn reports_error(&self) -> bool {
        self.error is Some || self.error_code is Some
    }

    /// The lines to replay: all of them, unless the service reports an error.
    pub fn into_lines(self) -> (r: Option<Vec<String>>)
        ensures
            r == if self.reports_error() {
                None
            } else {
                Some(self.messages)
            },
            r is None <==> self.error is Some || self.error_code is Some,
            r matches Some(lines) ==> lines == self.messages,
    {
        if self.error.is_some() || self.error_code.is_some() {
            None
        } else {
            Some(self.messages)
        }
    }
}

/// There are warnings exactly when there is no address, and a second one exactly when fetching is
/// switched on as well.
pub proof fn warnings_tell_of_a_missing_url(
    enabled: Option<Seq<char>>,
    url: Option<Seq<char>>,
    limit: Option<Seq<char>>,
)
    ensures
        ({
            let summary = summary_of_settings(enabled, url, limit);
            &&& summary.warnings.len() == 0 <==> summary.base_url is Some
            &&& summary.warnings.len() == 2 <==> summary.base_url is None && summary.enabled
            &&& summary.warnings.len() <= 2
        }),
{
}

/// A client that fetches has an address, one that can be read as a URL.
pub proof fn enabled_client_has_readable_base(summary: SummaryView)
    ensures
        ({
            let client = client_of(summary, base_is_readable(summary));
            client.enabled ==> (client.base_url matches Some(url) && url_read(url) is Ok)
        }),
{
}

/// Without a usable address nothing is fetched and no request is made, whatever the switch says.
pub proof fn no_url_disables(
    enabled: Option<Seq<char>>,
    url: Seq<char>,
    limit: Option<Seq<char>>,
    extended: Option<Seq<char>>,
)
    requires
        normalized_url(url) is Err,
    ensures
        ({
            let summary = summary_of_settings(enabled, Some(url), limit);
            let client = client_of(summary, base_is_readable(summary));
            &&& !client.enabled
            &&& request_outcome(readable_base(client.base_url), extended) == Err::<Seq<char>, RequestError>(
                RequestError::Disabled,
            )
        }),
{
}

/// The number in a request reads back as the number that was configured.
pub proof fn requested_limit_reads_back(limit: Option<Seq<char>>)
    ensures
        limit_of(Some(decimal(limit_of(limit) as nat))) == limit_of(limit),
{
    let n = limit_of(limit);
    number_reads_back(n);
    lemma_decimal(n as nat);
    let s = decimal(n as nat);
    assert forall|i: int| 0 <= i < s.len() implies !CharClass::Space.has_char(#[trigger] s[i]) by {
        assert(is_digit(s[i]));
    }
    lemma_nothing_to_trim(s, CharClass::Space);
}

/// A client fetches exactly if fetching is switched on and there is an address that can be read as a
/// URL, and then it has that address.
pub proof fn readable_address_leaves_it_to_the_switch(summary: SummaryView)
    ensures
        ({
            let client = client_of(summary, base_is_readable(summary));
            &&& client.enabled <==> summary.enabled && base_is_readable(summary)
            &&& base_is_readable(summary) ==> client.base_url == summary.base_url
            &&& !base_is_readable(summary) ==> client.base_url is None
        }),
{
}

/// Requests do not tell logins apart that differ in the case of ASCII letters only.
pub proof fn request_ignores_case(base: Option<Seq<char>>, a: Seq<char>, b: Seq<char>, limit: usize)
    requires
        lower(a) == lower(b),
    ensures
        request_outcome(
            readable_base(base),
            url_extended(base->0, lower(a), "limit"@, decimal(limit as nat)),
        ) == request_outcome(
            readable_base(base),
            url_extended(base->0, lower(b), "limit"@, decimal(limit as nat)),
        ),
{
}

/// A flag is set by a one, or by one of three words in any case; nothing else sets it.
pub proof fn flag_is_set_by_four_values(v: Seq<char>)
    ensures
        !flag_is_set(None),
        flag_is_set(Some(v)) <==> {
            ||| v.len() == 1 && v[0] == '1'
            ||| v.len() == 1 && (v[0] == 'y' || v[0] == 'Y')
            ||| v.len() == 3 && (v[0] == 'y' || v[0] == 'Y') && (v[1] == 'e' || v[1] == 'E') && (
            v[2] == 's' || v[2] == 'S')
            ||| v.len() == 4 && (v[0] == 't' || v[0] == 'T') && (v[1] == 'r' || v[1] == 'R') && (
            v[2] == 'u' || v[2] == 'U') && (v[3] == 'e' || v[3] == 'E')
        },
{
    reveal_strlit("1");
    reveal_strlit("true");
    reveal_strlit("yes");
    reveal_strlit("y");
    let l = lower(v);
    assert(l.len() == v.len());
    assert(forall|i: int| 0 <= i < v.len() ==> #[trigger] l[i] == lower_char(v[i]));
    if v.len() == 1 {
        assert(l[0] == lower_char(v[0]));
        assert(v == "1"@ <==> v[0] == '1') by {
            if v[0] == '1' {
                assert(v =~= "1"@);
            }
        }
        assert(l == "y"@ <==> l[0] == 'y') by {
            if l[0] == 'y' {
                assert(l =~= "y"@);
            }
        }
    } else if v.len() == 3 {
        assert(l[0] == lower_char(v[0]) && l[1] == lower_char(v[1]) && l[2] == lower_char(v[2]));
        if l[0] == 'y' && l[1] == 'e' && l[2] == 's' {
            assert(l =~= "yes"@);
        }
    } else if v.len() == 4 {
        assert(l[0] == lower_char(v[0]) && l[1] == lower_char(v[1]) && l[2] == lower_char(v[2])
            && l[3] == lower_char(v[3]));
        if l[0] == 't' && l[1] == 'r' && l[2] == 'u' && l[3] == 'e' {
            assert(l =~= "true"@);
        }
    }
}

/// As many messages are asked for as the setting says, whatever white space is around the number, and
/// eight hundred if it says none, or no number, or zero.
pub proof fn limit_is_the_number_that_is_set(
    left: Seq<char>,
    middle: Seq<char>,
    right: Seq<char>,
)
    requires
        is_all(left, CharClass::Space),
        is_all(right, CharClass::Space),
        has_bare_ends(middle, CharClass::Space),
    ensures
        limit_of(Some(left + middle + right)) == match number_in(middle) {
            Some(n) => if n == 0 {
                800usize
            } else {
                n
            },
            None => 800,
        },
        limit_of(None) == 800,
{
    trimming_cuts_both_ends(left, middle, right, CharClass::Space);
}

/// An address is read without the white space around it and the slashes at its end; if it is one of
/// the web its serialization counts, without slashes at its end, and otherwise it is told what is
/// wrong.
pub proof fn addresses_are_read_without_their_ends(
    left: Seq<char>,
    address: Seq<char>,
    slashes: Seq<char>,
    right: Seq<char>,
    text: Seq<char>,
    more_slashes: Seq<char>,
    scheme: Seq<char>,
)
    requires
        is_all(left, CharClass::Space),
        is_all(right, CharClass::Space),
        is_all(slashes, CharClass::One('/')),
        has_bare_ends(address + slashes, CharClass::Space),
        address.len() > 0 ==> address.last() != '/',
        is_all(more_slashes, CharClass::One('/')),
        text.len() > 0 ==> text.last() != '/',
    ensures
        ({
            let r = normalized_url(left + (address + slashes) + right);
            &&& address.len() == 0 ==> r == Err::<Seq<char>, Seq<char>>("empty URL"@)
            &&& address.len() > 0 ==> match url_read(address) {
                Err(error) => r == Err::<Seq<char>, Seq<char>>(error),
                Ok((read, serialized)) => {
                    &&& read != "http"@ && read != "https"@ ==> r == Err::<Seq<char>, Seq<char>>(
                        "unsupported scheme "@ + read,
                    )
                    &&& (read == "http"@ || read == "https"@) && serialized == text + more_slashes
                        ==> r == Ok::<Seq<char>, Seq<char>>(text)
                },
            }
        }),
        scheme == "http"@ || scheme == "https"@ ==> accepted_url(Ok((scheme, text + more_slashes)))
            == Ok::<Seq<char>, Seq<char>>(text),
        scheme != "http"@ && scheme != "https"@ ==> accepted_url(Ok((scheme, text))) == Err::<
            Seq<char>,
            Seq<char>,
        >("unsupported scheme "@ + scheme),
        accepted_url(Err(text)) == Err::<Seq<char>, Seq<char>>(text),
{
    trimming_cuts_both_ends(left, address + slashes, right, CharClass::Space);
    trimming_cuts_the_end(address, slashes, CharClass::One('/'));
    trimming_cuts_the_end(text, more_slashes, CharClass::One('/'));
}

/// The settings are those of the three variables, or their defaults, and each thing wrong with the
/// address is told, in words.
pub proof fn summary_tells_the_settings(
    enabled: Option<Seq<char>>,
    url: Option<Seq<char>>,
    limit: Option<Seq<char>>,
)
    ensures
        ({
            let summary = summary_of_settings(enabled, url, limit);
            let address = normalized_url(
                match url {
                    Some(u) => u,
                    None => "https://recent-messages.robotty.de/api/v2/recent-messages"@,
                },
            );
            &&& summary.enabled == flag_is_set(enabled)
            &&& summary.limit == limit_of(limit)
            &&& match address {
                Ok(u) => summary.base_url == Some(u) && summary.warnings.len() == 0,
                Err(error) => {
                    &&& summary.base_url is None
                    &&& summary.warnings.len() == if summary.enabled {
                        2int
                    } else {
                        1
                    }
                    &&& summary.warnings[0]
                        == "JUSTLOG_RECENT_MESSAGES_URL is invalid; recent-message backfill is disabled: "@
                        + error
                    &&& summary.enabled ==> summary.warnings[1]
                        == "JUSTLOG_RECENT_MESSAGES_ENABLED is set but JUSTLOG_RECENT_MESSAGES_URL is unusable; recent-message backfill is disabled"@
                },
            }
        }),
{
}

/// The view of the settings shows all of them.
pub proof fn summary_view_shows_all(summary: RecentMessagesRuntimeSummary)
    ensures
        summary@.enabled == summary.enabled,
        summary.base_url matches Some(url) ==> summary@.base_url == Some(url@),
        summary.base_url is None ==> summary@.base_url is None,
        summary@.limit == summary.limit,
        summary@.warnings.len() == summary.warnings@.len(),
        forall|i: int|
            0 <= i < summary.warnings@.len() ==> #[trigger] summary@.warnings[i]
                == summary.warnings@[i]@,
{
}

/// The value of a variable is what is stored under its name.
pub proof fn entry_is_the_value_of_its_key(vars: Map<String, String>, key: String, name: Seq<char>)
    requires
        forall|other: String| #[trigger] vars.contains_key(other) && other@ == key@ ==> other == key,
    ensures
        vars.contains_key(key) ==> text_entry(vars, key@) == Some(vars[key]@),
        (forall|other: String| #[trigger] vars.contains_key(other) ==> other@ != name) ==> text_entry(
            vars,
            name,
        ) is None,
{
}

/// A client asks for as many messages as the settings say, at their address if it can be read.
pub proof fn client_keeps_the_settings(summary: SummaryView, readable: bool)
    ensures
        client_of(summary, readable).limit == summary.limit,
        readable ==> client_of(summary, readable).base_url == summary.base_url,
        !readable ==> client_of(summary, readable).base_url is None,
        client_of(summary, readable).enabled <==> summary.enabled && readable && summary.base_url
            is Some,
        base_is_readable(summary) <==> summary.base_url is Some && url_read(summary.base_url->0)
            is Ok,
{
}

/// A request is made exactly if there is an address that can be read and added to, and each of the
/// two errors has its own reason.
pub proof fn requests_fail_for_a_reason(base_url: Option<Seq<char>>, extended: Option<Seq<char>>)
    ensures
        ({
            let r = request_outcome(readable_base(base_url), extended);
            let readable = base_url is Some && url_read(base_url->0) is Ok;
            &&& r == Err::<Seq<char>, RequestError>(RequestError::Disabled) <==> !readable
            &&& r == Err::<Seq<char>, RequestError>(RequestError::NoPathSegments) <==> readable
                && extended is None
            &&& forall|url: Seq<char>|
                r == Ok::<Seq<char>, RequestError>(url) <==> readable && extended == Some(url)
        }),
{
}

/// A request is the address of the client with the login in lower case added to it as one path
/// segment, and the limit of the client as the parameter of that name, and so is the same for logins
/// that differ in case only.
pub proof fn request_has_login_and_limit(
    client: ClientView,
    base: Seq<char>,
    channel_login: Seq<char>,
    other_login: Seq<char>,
)
    requires
        client.base_url == Some(base),
        url_read(base) is Ok,
    ensures
        request_of(client, channel_login) == match url_extended(
            base,
            lower(channel_login),
            "limit"@,
            decimal(client.limit as nat),
        ) {
            Some(url) => Ok(url),
            None => Err(RequestError::NoPathSegments),
        },
        lower(channel_login) == lower(other_login) ==> request_of(client, channel_login)
            == request_of(client, other_login),
{
}

/// A request fits as long as its parts have no more than some hundred and sixty million characters.
pub proof fn requests_fit_up_to_a_length(client: RecentMessagesClient, channel_login: Seq<char>)
    ensures
        client@.base_url is None ==> client.request_fits(channel_login),
        client@.base_url matches Some(base) ==> (client.request_fits(channel_login) <==> base.len()
            + channel_login.len() + 5 + decimal(client@.limit as nat).len() <= 167_772_160),
{
    reveal_strlit("limit");
}

/// What is shown of texts and results is all there is to them.
pub proof fn address_results_are_shown(text: String, given: &str)
    ensures
        result_text(Ok(text)) == Ok::<Seq<char>, Seq<char>>(text@),
        result_text(Err(text)) == Err::<Seq<char>, Seq<char>>(text@),
        opt_str(Some(given)) == Some(given@),
        opt_str(None) is None,
{
}

/// An answer is not used exactly if it has an error or the code of one.
pub proof fn either_field_reports_an_error(response: RecentMessagesResponse)
    ensures
        response.reports_error() <==> response.error is Some || response.error_code is Some,
{
}

} // verus!
