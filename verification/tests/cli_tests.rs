use logdna_cli::CliError;
use logdna_cli::credentials::{Credentials, LoginResponse, check_login_status, login_disposition};
use logdna_cli::export::{
    ExportPage, LogRecord, RunStatus, SearchOptions, build_export_request, export_start,
    export_step, render_record, run_export, set_pagination_cursor,
};
use logdna_cli::sso::{PollOutcome, SsoStep, authorization_url, sso_step, sso_token};
use logdna_cli::timeparse::{parse_time, parse_u64};

fn response(email: Option<&str>, servicekeys: Option<Vec<&str>>) -> LoginResponse {
    LoginResponse {
        status: "ok".to_string(),
        email: email.map(|e| e.to_string()),
        accounts: None,
        token: None,
        keys: None,
        servicekeys: servicekeys.map(|ks| ks.iter().map(|k| k.to_string()).collect()),
    }
}

fn keyed_credentials(keys: Vec<&str>) -> Credentials {
    Credentials {
        email: Some("user@example.com".to_string()),
        accounts: None,
        account: None,
        keys: None,
        servicekeys: Some(keys.iter().map(|k| k.to_string()).collect()),
    }
}

fn record(raw: &str, message: Option<&str>) -> LogRecord {
    LogRecord {
        raw: raw.to_string(),
        message: message.map(|m| m.to_string()),
    }
}

fn options(query: &str) -> SearchOptions {
    SearchOptions {
        hosts: None,
        apps: None,
        levels: None,
        tags: None,
        size: None,
        from: None,
        to: None,
        json: false,
        query: query.to_string(),
    }
}

#[test]
fn login_status_gate() {
    assert_eq!(check_login_status(200), Ok(()));
    assert_eq!(check_login_status(401), Err(CliError::AuthenticationFailed));
    assert_eq!(check_login_status(500), Err(CliError::AuthenticationFailed));
}

#[test]
fn login_without_email_is_silent_noop() {
    assert_eq!(login_disposition(response(None, Some(vec!["k1"]))), None);
}

#[test]
fn login_with_email_stores_response_fields() {
    let stored = login_disposition(response(Some("a@b.c"), Some(vec!["k1", "k2"]))).unwrap();
    assert_eq!(stored.email, Some("a@b.c".to_string()));
    assert_eq!(
        stored.servicekeys,
        Some(vec!["k1".to_string(), "k2".to_string()])
    );
    assert_eq!(stored.account, None);
}

#[test]
fn second_login_replaces_record_wholly() {
    let first = Credentials::of_response(LoginResponse {
        status: "ok".to_string(),
        email: Some("old@example.com".to_string()),
        accounts: Some(vec!["acct1".to_string()]),
        token: None,
        keys: Some(vec![vec!["kid".to_string(), "secret".to_string()]]),
        servicekeys: Some(vec!["oldkey".to_string()]),
    });
    assert_eq!(first.servicekeys, Some(vec!["oldkey".to_string()]));
    // The second response omits accounts, keys and servicekeys: the new
    // record clears them rather than keeping the old values.
    let second = Credentials::of_response(response(Some("new@example.com"), None));
    assert_eq!(second.email, Some("new@example.com".to_string()));
    assert_eq!(second.accounts, None);
    assert_eq!(second.keys, None);
    assert_eq!(second.servicekeys, None);
    assert_eq!(second.account, None);
}

#[test]
fn missing_service_key_fails_before_any_request() {
    let bare = Credentials {
        email: Some("a@b.c".to_string()),
        accounts: None,
        account: None,
        keys: None,
        servicekeys: None,
    };
    assert_eq!(bare.active_service_key(), Err(CliError::MissingServiceKey));
    assert_eq!(
        build_export_request(bare, options("error"), 1000),
        Err(CliError::MissingServiceKey)
    );
    let empty = Credentials {
        servicekeys: Some(vec![]),
        ..keyed_credentials(vec![])
    };
    assert_eq!(
        build_export_request(empty, options("error"), 1000),
        Err(CliError::MissingServiceKey)
    );
}

#[test]
fn export_request_defaults_time_window() {
    let req = build_export_request(keyed_credentials(vec!["key0", "key1"]), options("q"), 777)
        .unwrap();
    assert_eq!(req.from, 0);
    assert_eq!(req.to, 777);
    assert_eq!(req.servicekey, "key0".to_string());
    assert_eq!(req.query, "q".to_string());
    assert_eq!(req.pagination_id, None);
}

#[test]
fn export_request_keeps_explicit_window_and_filters() {
    let mut opts = options("q");
    opts.from = Some(10);
    opts.to = Some(20);
    opts.hosts = Some("h1,h2".to_string());
    opts.size = Some(50);
    let req = build_export_request(keyed_credentials(vec!["k"]), opts, 999).unwrap();
    assert_eq!(req.from, 10);
    assert_eq!(req.to, 20);
    assert_eq!(req.hosts, Some("h1,h2".to_string()));
    assert_eq!(req.size, Some(50));
}

#[test]
fn cursor_is_stored_and_attached_verbatim() {
    let mut state = export_start();
    assert_eq!(state.pagination_id, None);
    let page = ExportPage {
        pagination_id: Some("cursor-007".to_string()),
        lines: vec![],
    };
    let (out, err) = export_step(&mut state, page, true);
    assert!(out.is_empty());
    assert_eq!(err, None);
    assert_eq!(state.pagination_id, Some("cursor-007".to_string()));
    assert!(!state.done);
    let mut req = build_export_request(keyed_credentials(vec!["k"]), options("q"), 1).unwrap();
    set_pagination_cursor(&mut req, &state);
    assert_eq!(req.pagination_id, Some("cursor-007".to_string()));
}

#[test]
fn step_ends_loop_only_without_cursor() {
    let mut state = export_start();
    let (_, err) = export_step(
        &mut state,
        ExportPage {
            pagination_id: None,
            lines: vec![record("{\"_line\":\"x\"}", Some("\"x\""))],
        },
        false,
    );
    assert_eq!(err, None);
    assert!(state.done);
    assert_eq!(state.pagination_id, None);
}

#[test]
fn output_ordering_across_pages() {
    let pages = vec![
        ExportPage {
            pagination_id: Some("next".to_string()),
            lines: vec![record("A", Some("A")), record("B", Some("B"))],
        },
        ExportPage {
            pagination_id: None,
            lines: vec![record("C", Some("C"))],
        },
    ];
    let (out, status) = run_export(pages.clone(), false);
    assert_eq!(
        out,
        vec!["A".to_string(), "B".to_string(), "C".to_string()]
    );
    assert_eq!(status, RunStatus::Complete);
    // The order is the same in raw mode.
    let (raw_out, raw_status) = run_export(pages, true);
    assert_eq!(
        raw_out,
        vec!["A".to_string(), "B".to_string(), "C".to_string()]
    );
    assert_eq!(raw_status, RunStatus::Complete);
}

#[test]
fn loop_never_stops_while_cursors_keep_coming() {
    let pages = vec![
        ExportPage {
            pagination_id: Some("p1".to_string()),
            lines: vec![record("A", Some("A"))],
        },
        ExportPage {
            pagination_id: Some("p2".to_string()),
            lines: vec![record("B", Some("B"))],
        },
    ];
    let (out, status) = run_export(pages, false);
    assert_eq!(out, vec!["A".to_string(), "B".to_string()]);
    assert_eq!(status, RunStatus::NeedsMore);
}

#[test]
fn trailing_pages_after_exhaustion_are_not_consumed() {
    let pages = vec![
        ExportPage {
            pagination_id: None,
            lines: vec![record("A", Some("A"))],
        },
        ExportPage {
            pagination_id: None,
            lines: vec![record("ghost", Some("ghost"))],
        },
    ];
    let (out, status) = run_export(pages, false);
    assert_eq!(out, vec!["A".to_string()]);
    assert_eq!(status, RunStatus::Complete);
}

#[test]
fn raw_mode_emits_full_record() {
    let rec = record("{\"_line\":\"hello\",\"host\":\"h\"}", None);
    assert_eq!(
        render_record(rec, true),
        Ok("{\"_line\":\"hello\",\"host\":\"h\"}".to_string())
    );
}

#[test]
fn line_mode_without_message_field_is_fatal() {
    let rec = record("{\"host\":\"h\"}", None);
    assert_eq!(render_record(rec, false), Err(CliError::MissingMessageField));
    // Lines before the bad record still come out; the run then fails.
    let pages = vec![ExportPage {
        pagination_id: None,
        lines: vec![
            record("{\"_line\":\"ok\"}", Some("\"ok\"")),
            record("{\"host\":\"h\"}", None),
            record("{\"_line\":\"later\"}", Some("\"later\"")),
        ],
    }];
    let (out, status) = run_export(pages, false);
    assert_eq!(out, vec!["\"ok\"".to_string()]);
    assert_eq!(status, RunStatus::Failed);
}

#[test]
fn export_with_no_pages_awaits_the_first() {
    let (out, status) = run_export(vec![], false);
    assert!(out.is_empty());
    assert_eq!(status, RunStatus::NeedsMore);
}

#[test]
fn raw_mode_ignores_missing_message_field() {
    let pages = vec![ExportPage {
        pagination_id: None,
        lines: vec![record("{\"host\":\"h\"}", None)],
    }];
    let (out, status) = run_export(pages, true);
    assert_eq!(out, vec!["{\"host\":\"h\"}".to_string()]);
    assert_eq!(status, RunStatus::Complete);
}

#[test]
fn sso_poll_backoff_tiers() {
    assert_eq!(
        sso_step(PollOutcome::Response(response(None, None))),
        SsoStep::RetryAfterMillis(1000)
    );
    assert_eq!(
        sso_step(PollOutcome::Malformed),
        SsoStep::RetryAfterMillis(5000)
    );
}

#[test]
fn sso_claims_on_first_email() {
    let claimed = sso_step(PollOutcome::Response(response(
        Some("a@b.c"),
        Some(vec!["k"]),
    )));
    match claimed {
        SsoStep::Claimed(c) => {
            assert_eq!(c.email, Some("a@b.c".to_string()));
            assert_eq!(c.servicekeys, Some(vec!["k".to_string()]));
            assert_eq!(c.account, None);
        }
        SsoStep::RetryAfterMillis(_) => panic!("a response with an email must claim"),
    }
}

#[test]
fn sso_token_is_lowercase_crockford() {
    assert_eq!(sso_token(&[0u8; 10]), "0000000000000000".to_string());
    assert_eq!(sso_token(&[0xFFu8; 10]), "zzzzzzzzzzzzzzzz".to_string());
    assert_eq!(
        sso_token(&[0x28, 0xB9, 0x0Eu8, 0x99, 0x2F, 0x4E, 0xF2, 0x5C, 0x41, 0x5A]),
        base32::encode(
            base32::Alphabet::Crockford,
            &[0x28, 0xB9, 0x0Eu8, 0x99, 0x2F, 0x4E, 0xF2, 0x5C, 0x41, 0x5A]
        )
        .to_lowercase()
    );
}

#[test]
fn authorization_url_joins_origin_and_token() {
    assert_eq!(
        authorization_url("https://logdna.com/", "0123456789abcdef"),
        "https://logdna.com/sso/0123456789abcdef".to_string()
    );
}

#[test]
fn parse_time_reads_rfc3339() {
    assert_eq!(parse_time("2018-02-14 00:28:07", 0), Ok(1518568087));
    assert_eq!(parse_time("1970-01-01 00:00:00", 0), Ok(0));
}

#[test]
fn parse_time_subtracts_durations_from_now() {
    assert_eq!(parse_time("2h", 10000), Ok(10000 - 7200));
    assert_eq!(parse_time("1m 30s", 100), Ok(10));
    // A duration reaching before the epoch is fatal.
    assert_eq!(parse_time("2h", 60), Err(CliError::InvalidTimestamp));
    // A bare "0" is a zero duration, so it means "now".
    assert_eq!(parse_time("0", 4242), Ok(4242));
}

#[test]
fn parse_time_reads_epoch_seconds() {
    assert_eq!(parse_time("1518568087", 0), Ok(1518568087));
    assert_eq!(parse_time("not a time", 0), Err(CliError::InvalidTimestamp));
}

#[test]
fn parse_time_survives_extreme_duration_strings() {
    // A duration summing to the exact top of u64 with a full-second
    // nanosecond carry must come back as the fatal parse error, never a
    // crash, and never a call into the duration parser.
    assert_eq!(
        parse_time("18446744073709551615s 1000000000ns", 100),
        Err(CliError::InvalidTimestamp)
    );
    // A bare numeral past the duration cap is still read as epoch seconds.
    assert_eq!(parse_time("18446744073709551615", 5), Ok(u64::MAX));
    assert_eq!(
        parse_time("99999999999s", 100),
        Err(CliError::InvalidTimestamp)
    );
}

#[test]
fn duration_cap_counts_digit_groups() {
    assert!(logdna_cli::timeparse::duration_within_bound("1hour 12min 5s"));
    assert!(logdna_cli::timeparse::duration_within_bound("99999999999"));
    assert!(!logdna_cli::timeparse::duration_within_bound("100000000000"));
    assert!(!logdna_cli::timeparse::duration_within_bound("60000000000s 40000000000s"));
    assert!(logdna_cli::timeparse::duration_within_bound(""));
    // The parser reads digits across whitespace as one number, so the
    // cap counts them as one group too.
    assert!(!logdna_cli::timeparse::duration_within_bound("1 0 0 0 0 0 0 0 0 0 0 0"));
    // Units end a group, so spans of ordinary size stay far under the
    // cap no matter how they are written.
    assert!(logdna_cli::timeparse::duration_within_bound("1000000000ns 1000000000ns"));
}

#[test]
fn parse_time_survives_spaced_digit_durations() {
    // Digits interleaved with spaces parse as one number, so this
    // denotes the exact top of u64 seconds plus a full-second
    // nanosecond carry: it must be the fatal parse error, not a crash.
    assert_eq!(
        parse_time("1 8 4 4 6 7 4 4 0 7 3 7 0 9 5 5 1 6 1 5s 1 0 0 0 0 0 0 0 0 0ns", 100),
        Err(CliError::InvalidTimestamp)
    );
    // Ordinary spaced digits still work as the parser reads them.
    assert_eq!(parse_time("1 0s", 100), Ok(90));
}

#[test]
fn parse_u64_matches_standard_parsing() {
    assert_eq!(parse_u64("0"), Some(0));
    assert_eq!(parse_u64("+42"), Some(42));
    assert_eq!(parse_u64("18446744073709551615"), Some(u64::MAX));
    assert_eq!(parse_u64("18446744073709551616"), None);
    assert_eq!(parse_u64(""), None);
    assert_eq!(parse_u64("+"), None);
    assert_eq!(parse_u64("12a"), None);
    assert_eq!(parse_u64("999999999999999999999999"), None);
}

#[test]
fn error_messages_match_reports() {
    assert_eq!(CliError::AuthenticationFailed.message(), "Authentication failed");
    assert_eq!(
        CliError::MissingServiceKey.message(),
        "No servicekey found please run logdna-cli ssologin"
    );
    assert_eq!(
        CliError::MissingMessageField.message(),
        "Received line without a value"
    );
    assert_eq!(CliError::InvalidTimestamp.message(), "Could not parse timestamp");
}
