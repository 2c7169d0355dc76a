use rustlog_bot::recent_messages::{
    accept_parsed_url, configured_limit, env_flag, normalize_base_url, RecentMessagesClient,
    RecentMessagesResponse, RecentMessagesRuntimeSummary, RequestError,
    DEFAULT_RECENT_MESSAGES_LIMIT,
};
use rustlog_bot::url::{ParsedUrl, MAX_URL_CHARS};
use std::collections::HashMap;

fn client(base_url: &str, limit: usize) -> RecentMessagesClient {
    RecentMessagesClient::from_summary(RecentMessagesRuntimeSummary {
        enabled: true,
        base_url: Some(base_url.to_string()),
        limit,
        warnings: Vec::new(),
    })
}

fn vars(pairs: &[(&str, &str)]) -> HashMap<String, String> {
    pairs
        .iter()
        .map(|(name, value)| (name.to_string(), value.to_string()))
        .collect()
}

#[test]
fn defaults_to_disabled_with_robotty_url() {
    let summary = RecentMessagesClient::summary_from_map(&HashMap::new());

    assert!(!summary.enabled);
    assert_eq!(
        summary.base_url.as_deref(),
        Some("https://recent-messages.robotty.de/api/v2/recent-messages")
    );
    assert_eq!(summary.limit, DEFAULT_RECENT_MESSAGES_LIMIT);
    assert!(summary.warnings.is_empty());
}

#[test]
fn accepts_truthy_values_and_normalizes_url_and_limit() {
    for enabled in ["1", "true", "TRUE", "True", "yes", "YES", "Yes", "y", "Y"] {
        let mut vars = HashMap::from([
            (
                "JUSTLOG_RECENT_MESSAGES_ENABLED".to_string(),
                enabled.to_string(),
            ),
            (
                "JUSTLOG_RECENT_MESSAGES_URL".to_string(),
                " https://example.test/api/v2/recent-messages/ ".to_string(),
            ),
            (
                "JUSTLOG_RECENT_MESSAGES_LIMIT".to_string(),
                "25".to_string(),
            ),
        ]);
        let summary = RecentMessagesClient::summary_from_map(&vars);

        assert!(summary.enabled);
        assert_eq!(
            summary.base_url.as_deref(),
            Some("https://example.test/api/v2/recent-messages")
        );
        assert_eq!(summary.limit, 25);
        vars.clear();
    }
}

#[test]
fn rejects_non_truthy_flag_values() {
    for value in [
        None,
        Some("0"),
        Some("false"),
        Some("no"),
        Some("on"),
        Some(""),
    ] {
        assert!(!env_flag(value));
    }
}

#[test]
fn rejects_non_http_url_and_defaults_invalid_limit() {
    let vars = HashMap::from([
        (
            "JUSTLOG_RECENT_MESSAGES_ENABLED".to_string(),
            "1".to_string(),
        ),
        (
            "JUSTLOG_RECENT_MESSAGES_URL".to_string(),
            "file:///tmp/messages".to_string(),
        ),
        ("JUSTLOG_RECENT_MESSAGES_LIMIT".to_string(), "0".to_string()),
    ]);
    let summary = RecentMessagesClient::summary_from_map(&vars);

    assert!(summary.enabled);
    assert!(summary.base_url.is_none());
    assert_eq!(summary.limit, DEFAULT_RECENT_MESSAGES_LIMIT);
    assert!(!summary.warnings.is_empty());
    assert!(!RecentMessagesClient::from_summary(summary).enabled());
}

#[test]
fn flag_values_with_white_space_do_not_count() {
    assert!(!env_flag(Some(" 1")));
    assert!(!env_flag(Some("true ")));
    assert!(!env_flag(Some("11")));
    assert!(env_flag(Some("tRuE")));
}

#[test]
fn warnings_name_the_reason() {
    let switched_on = RecentMessagesClient::summary_from_map(&vars(&[
        ("JUSTLOG_RECENT_MESSAGES_ENABLED", "yes"),
        ("JUSTLOG_RECENT_MESSAGES_URL", "ftp://example.test/"),
    ]));
    assert_eq!(
        switched_on.warnings,
        [
            "JUSTLOG_RECENT_MESSAGES_URL is invalid; recent-message backfill is disabled: unsupported scheme ftp",
            "JUSTLOG_RECENT_MESSAGES_ENABLED is set but JUSTLOG_RECENT_MESSAGES_URL is unusable; recent-message backfill is disabled",
        ]
    );

    let switched_off = RecentMessagesClient::summary_from_map(&vars(&[(
        "JUSTLOG_RECENT_MESSAGES_URL",
        " / ",
    )]));
    assert_eq!(
        switched_off.warnings,
        ["JUSTLOG_RECENT_MESSAGES_URL is invalid; recent-message backfill is disabled: empty URL"]
    );
    assert!(!switched_off.enabled);
}

#[test]
fn addresses_are_normalized() {
    assert_eq!(
        normalize_base_url("\t HTTP://Example.TEST:80/a/../b//\n"),
        Ok("http://example.test/b".to_string())
    );
    assert_eq!(
        normalize_base_url("https://example.test"),
        Ok("https://example.test".to_string())
    );
    assert_eq!(
        normalize_base_url("https://example.test/a?b=c/"),
        Ok("https://example.test/a?b=c".to_string())
    );
    assert_eq!(normalize_base_url(""), Err("empty URL".to_string()));
    assert_eq!(normalize_base_url(" /// "), Err("empty URL".to_string()));
    assert_eq!(
        normalize_base_url("not a url"),
        Err("relative URL without a base".to_string())
    );
    assert_eq!(
        normalize_base_url("http://"),
        Err("empty host".to_string())
    );
    assert_eq!(
        normalize_base_url("file:///tmp/messages"),
        Err("unsupported scheme file".to_string())
    );
}

#[test]
fn parsed_addresses_are_judged_by_scheme() {
    let parsed = |scheme: &str, text: &str| {
        accept_parsed_url(Ok(ParsedUrl {
            scheme: scheme.to_string(),
            text: text.to_string(),
        }))
    };
    assert_eq!(parsed("http", "http://x//"), Ok("http://x".to_string()));
    assert_eq!(parsed("https", "https://x/y"), Ok("https://x/y".to_string()));
    assert_eq!(parsed("ws", "ws://x/"), Err("unsupported scheme ws".to_string()));
    assert_eq!(accept_parsed_url(Err("bad".to_string())), Err("bad".to_string()));
}

#[test]
fn limits_are_positive_numbers() {
    assert_eq!(configured_limit(Some(" 25\n")), 25);
    assert_eq!(configured_limit(Some("+7")), 7);
    assert_eq!(configured_limit(Some("007")), 7);
    assert_eq!(configured_limit(None), 800);
    for value in ["", "0", "-1", "+", "2 5", "1e3", "twelve", "\u{0661}"] {
        assert_eq!(configured_limit(Some(value)), 800);
    }
    assert_eq!(
        configured_limit(Some("18446744073709551615")),
        18446744073709551615
    );
    assert_eq!(configured_limit(Some("18446744073709551616")), 800);
}

#[test]
fn request_has_lower_case_channel_and_configured_limit() {
    let client = client("http://127.0.0.1:8080/api/v2/recent-messages", 25);

    assert!(client.enabled());
    assert!(client.can_request("ChannelOne"));
    assert_eq!(
        client.request_url("ChannelOne"),
        Ok("http://127.0.0.1:8080/api/v2/recent-messages/channelone?limit=25".to_string())
    );
    assert_eq!(
        client.request_url("channelone"),
        client.request_url("CHANNELONE")
    );
}

#[test]
fn request_escapes_the_channel_and_keeps_the_query() {
    assert_eq!(
        client("https://example.test/api?key=1", 800).request_url("A/b c"),
        Ok("https://example.test/api/a%2Fb%20c?key=1&limit=800".to_string())
    );
}

#[test]
fn request_needs_an_address_with_path_segments() {
    let mail = client("mailto:someone@example.test", 1);
    assert!(mail.enabled());
    assert_eq!(mail.request_url("x"), Err(RequestError::NoPathSegments));
    assert_eq!(
        RequestError::NoPathSegments.message(),
        "recent-messages URL cannot contain path segments"
    );
}

#[test]
fn request_needs_an_address() {
    let unreadable = client("no address", 1);
    assert!(!unreadable.enabled());
    assert!(unreadable.can_request("x"));
    assert_eq!(unreadable.request_url("x"), Err(RequestError::Disabled));
    assert_eq!(
        RequestError::Disabled.message(),
        "recent-message backfill is disabled"
    );

    let none = RecentMessagesClient::from_summary(RecentMessagesRuntimeSummary {
        enabled: true,
        base_url: None,
        limit: 1,
        warnings: Vec::new(),
    });
    assert!(!none.enabled());
    assert_eq!(none.request_url("x"), Err(RequestError::Disabled));
}

#[test]
fn switched_off_client_can_still_say_what_it_would_request() {
    let off = RecentMessagesClient::from_summary(RecentMessagesRuntimeSummary {
        enabled: false,
        base_url: Some("https://example.test".to_string()),
        limit: 3,
        warnings: Vec::new(),
    });
    assert!(!off.enabled());
    assert_eq!(
        off.request_url("x"),
        Ok("https://example.test/x?limit=3".to_string())
    );
}

#[test]
fn overlong_requests_are_told() {
    let client = client("https://example.test", 1);
    assert!(!client.can_request(&"x".repeat(MAX_URL_CHARS)));
    assert!(client.can_request(&"x".repeat(1000)));
}

#[test]
fn checked_summaries_make_clients() {
    let summary = RecentMessagesClient::summary_from_map(&vars(&[(
        "JUSTLOG_RECENT_MESSAGES_ENABLED",
        "1",
    )]));
    assert!(RecentMessagesClient::from_checked_summary(summary.clone(), true).enabled());
    assert!(!RecentMessagesClient::from_checked_summary(summary, false).enabled());
}

#[test]
fn unreadable_addresses_count_as_none() {
    let client = RecentMessagesClient::from_checked_summary(
        RecentMessagesRuntimeSummary {
            enabled: true,
            base_url: Some("no address".to_string()),
            limit: 1,
            warnings: Vec::new(),
        },
        true,
    );
    assert_eq!(client.request_url("x"), Err(RequestError::Disabled));
}

#[test]
fn address_with_an_overlong_host_label_is_given_up() {
    let label: String = (0..1000)
        .filter_map(|i| char::from_u32(0x4e00 + 20 * i))
        .collect();
    let summary = RecentMessagesClient::summary_from_map(&vars(&[
        ("JUSTLOG_RECENT_MESSAGES_ENABLED", "1"),
        ("JUSTLOG_RECENT_MESSAGES_URL", &format!("http://{label}/")),
    ]));
    assert!(summary.enabled);
    assert!(summary.warnings.is_empty());
    let url = summary.base_url.clone().unwrap();
    assert!(url.starts_with("http://xn--"));
    assert!(!url.ends_with('/'));
    assert!(normalize_base_url(&url).is_err());

    let client = RecentMessagesClient::from_summary(summary);
    assert!(!client.enabled());
    assert_eq!(client.request_url("x"), Err(RequestError::Disabled));
}

#[test]
fn readable_addresses_leave_it_to_the_switch() {
    for (flag, fetches) in [("1", true), ("0", false)] {
        let summary = RecentMessagesClient::summary_from_map(&vars(&[
            ("JUSTLOG_RECENT_MESSAGES_ENABLED", flag),
            ("JUSTLOG_RECENT_MESSAGES_URL", "https://example.test/"),
        ]));
        let client = RecentMessagesClient::from_summary(summary);
        assert_eq!(client.enabled(), fetches);
        assert_eq!(
            client.request_url("Some_1"),
            Ok("https://example.test/some_1?limit=800".to_string())
        );
    }
}

#[test]
fn lines_are_used_unless_an_error_is_reported() {
    let response = |error: Option<&str>, error_code: Option<&str>| RecentMessagesResponse {
        messages: vec!["raw message".to_string()],
        error: error.map(str::to_string),
        error_code: error_code.map(str::to_string),
    };
    assert_eq!(
        response(None, None).into_lines(),
        Some(vec!["raw message".to_string()])
    );
    assert_eq!(
        response(Some("temporarily unavailable"), Some("503")).into_lines(),
        None
    );
    assert_eq!(response(Some("temporarily unavailable"), None).into_lines(), None);
    assert_eq!(response(None, Some("503")).into_lines(), None);
}

/// Texts put together from pieces that addresses treat in some particular way.
fn odd_addresses(count: usize) -> Vec<String> {
    let starts = ["http://", "https://", "HTTP:\\\\", "http:", " https:///", "ht\ttp:/", "http://a@"];
    let pieces = [
        "a", "B", "z9", "_", "-", "~", ".", "..", "...", "/", "//", "\\", "?", "#", "&", "=", "'",
        " ", "\t", "\n", "\0", "\u{7f}", "\"", "<", ">", "^", "|", "{", "}", "`", "%", "%2", "e",
        "%2e", "%2E", "%2f", "%41", "%zz", "%00", "%C3%A9", ":", "@", "::", "80", "443", "65535",
        "1", "0x7f", "127.1", "[::1]", "[", "]", "host.test", "localhost", "xn--", "xn--fa-hia",
        "xn--nxasmq6b", "XN--FA-HIA", "\u{e9}", "\u{df}", "\u{c9}", "\u{ff11}", "\u{3002}",
        "\u{ff0e}", "\u{200d}", "\u{ad}", "\u{5d0}", "\u{644}", "\u{2603}", "\u{301}", "\u{1f600}",
        "\u{2028}", "\u{a0}", "\u{3000}", "\u{2100}", "\u{fffd}", "\u{e000}", "\u{94d}", "\u{3c2}",
    ];
    let mut state = 0x9e37_79b9_7f4a_7c15_u64;
    let mut next = |bound: usize| {
        state ^= state << 13;
        state ^= state >> 7;
        state ^= state << 17;
        (state >> 33) as usize % bound
    };
    let mut all = Vec::new();
    for _ in 0..count {
        let mut text = starts[next(starts.len())].to_string();
        if next(3) > 0 {
            text.push_str("host.test");
        }
        for _ in 0..next(9) {
            text.push_str(pieces[next(pieces.len())]);
        }
        all.push(text);
    }
    all
}

#[test]
fn normalizing_a_readable_address_changes_nothing() {
    let mut accepted = 0;
    for text in odd_addresses(100_000) {
        if let Ok(url) = normalize_base_url(&text) {
            assert!(url.starts_with("http://") || url.starts_with("https://"), "{text:?}");
            assert!(!url.ends_with('/'), "{text:?}");
            assert!(url.chars().all(|c| ('!'..='~').contains(&c)), "{text:?}");
            assert_eq!(normalize_base_url(&url), Ok(url.clone()), "{text:?}");
            accepted += 1;
        }
    }
    assert!(accepted > 1000);
}

#[test]
fn plain_requests_are_put_together() {
    let mut plain = 0;
    for text in odd_addresses(100_000) {
        if let Ok(url) = normalize_base_url(&text) {
            if !url.contains(['?', '#']) {
                assert_eq!(
                    client(&url, 25).request_url("Channel_1"),
                    Ok(format!("{url}/channel_1?limit=25")),
                    "{text:?}"
                );
                plain += 1;
            }
        }
    }
    assert!(plain > 1000);
}
