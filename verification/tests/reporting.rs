use itasha_installer::reporting::{
    capture_outcome, crash_title, discard_after_send, dispatch_precheck,
    edited_body_from_preview_text, is_valid_onion, normalize_setting, panic_site, parse_port_setting,
    report_log_line, select_transport, send_outcome, CaptureStage, CrashConsentState,
    ReportOutcome, SendResult, TransportChoice, DEFAULT_ONION_PORT, REPORT_ENDPOINT_ENV,
    REPORT_ONION_ENV, REPORT_ONION_PORT_ENV,
};

/// A structurally-valid v3 onion address (56 lowercase base32 chars).
fn valid_onion() -> String {
    format!("{}.onion", "a".repeat(56))
}

#[test]
fn reporting_outcome_log_details_are_stable_and_non_identifying() {
    assert_eq!(ReportOutcome::Spooled.log_detail(), "spooled");
    assert_eq!(ReportOutcome::Sent.log_detail(), "sent");
    assert_eq!(
        ReportOutcome::RefusedNoEndpoint.log_detail(),
        "refused-no-endpoint"
    );
    // The Failed reason is NOT inlined into the log detail (no PII leak).
    assert_eq!(
        ReportOutcome::Failed("transport error: https://secret".to_string()).log_detail(),
        "failed"
    );
}

#[test]
fn report_log_line_never_carries_the_failure_reason() {
    assert_eq!(
        report_log_line(&ReportOutcome::Failed("https://secret".into())),
        "f0rg3::report detail=failed"
    );
    assert_eq!(
        report_log_line(&ReportOutcome::RefusedNoEndpoint),
        "f0rg3::report detail=refused-no-endpoint"
    );
}

#[test]
fn env_names_and_default_port() {
    assert_eq!(REPORT_ENDPOINT_ENV, "F0RG3_REPORT_ENDPOINT");
    assert_eq!(REPORT_ONION_ENV, "F0RG3_REPORT_ONION");
    assert_eq!(REPORT_ONION_PORT_ENV, "F0RG3_REPORT_ONION_PORT");
    assert_eq!(DEFAULT_ONION_PORT, 443);
}

#[test]
fn crash_title_carries_the_static_message_and_site() {
    assert_eq!(
        crash_title("index out of bounds", "src/foo.rs:42"),
        "panic: index out of bounds (at src/foo.rs:42)"
    );
}

#[test]
fn capture_outcomes_are_structured_never_sent() {
    assert_eq!(
        capture_outcome(CaptureStage::NoDataDir),
        ReportOutcome::Failed("no-data-dir".to_string())
    );
    assert_eq!(
        capture_outcome(CaptureStage::SpoolOpenFailed("not a dir".into())),
        ReportOutcome::Failed("spool-open: not a dir".to_string())
    );
    assert_eq!(
        capture_outcome(CaptureStage::EnqueueFailed("disk full".into())),
        ReportOutcome::Failed("spool: disk full".to_string())
    );
    assert_eq!(capture_outcome(CaptureStage::Enqueued), ReportOutcome::Spooled);
}

#[test]
fn select_transport_prefers_a_valid_onion_over_clearnet() {
    // When BOTH an onion and a clearnet endpoint are configured, the
    // anonymous onion path wins (the user opted into anonymity).
    let onion = valid_onion();
    let choice = select_transport(Some(&onion), None, Some("https://ingest.example.test"));
    assert_eq!(
        choice,
        TransportChoice::TorOnion {
            onion: onion.clone(),
            port: DEFAULT_ONION_PORT,
        },
        "a configured valid onion must take priority over clearnet"
    );
}

#[test]
fn select_transport_honours_the_onion_port_override() {
    let onion = valid_onion();
    let choice = select_transport(Some(&onion), Some(9150), None);
    assert_eq!(
        choice,
        TransportChoice::TorOnion { onion, port: 9150 },
        "a configured onion port override must be carried through"
    );
}

#[test]
fn select_transport_uses_clearnet_when_no_onion_configured() {
    let choice = select_transport(None, None, Some("https://ingest.example.test"));
    assert_eq!(
        choice,
        TransportChoice::Clearnet {
            endpoint: "https://ingest.example.test".to_string(),
        },
        "with no onion, a configured clearnet endpoint is the default transport"
    );
}

#[test]
fn select_transport_is_none_when_nothing_configured() {
    assert_eq!(
        select_transport(None, None, None),
        TransportChoice::NoTransport
    );
    // Empty/whitespace strings are treated as unset.
    assert_eq!(
        select_transport(Some("   "), None, Some("   ")),
        TransportChoice::NoTransport
    );
}

#[test]
fn select_transport_refuses_a_malformed_onion_without_clearnet_downgrade() {
    let choice = select_transport(
        Some("not-a-real.onion"),
        None,
        Some("https://ingest.example.test"),
    );
    assert_eq!(
        choice,
        TransportChoice::NoTransport,
        "a malformed onion refuses rather than leaking over clearnet"
    );
}

#[test]
fn select_transport_trims_the_configured_values() {
    let onion = valid_onion();
    let padded = format!("  {onion}\t");
    assert_eq!(
        select_transport(Some(&padded), None, None),
        TransportChoice::TorOnion { onion, port: 443 }
    );
    assert_eq!(
        select_transport(None, Some(1), Some(" https://x.test ")),
        TransportChoice::Clearnet { endpoint: "https://x.test".to_string() }
    );
}

#[test]
fn onion_shape_is_56_base32_chars_then_dot_onion() {
    assert!(is_valid_onion(&valid_onion()));
    assert!(is_valid_onion(&format!("{}.onion", "z2345677".repeat(7))));
    assert!(!is_valid_onion(&format!("{}.onion", "a".repeat(55))));
    assert!(!is_valid_onion(&format!("{}.onion", "A".repeat(56))));
    assert!(!is_valid_onion(&format!("{}.onion", "1".repeat(56))));
    assert!(!is_valid_onion(&format!("{}.onioN", "a".repeat(56))));
    assert!(!is_valid_onion(""));
}

#[test]
fn blank_settings_are_unset() {
    assert_eq!(normalize_setting(Some("   ")), None);
    assert_eq!(normalize_setting(None), None);
    assert_eq!(
        normalize_setting(Some(" https://a.test\n")),
        Some("https://a.test".to_string())
    );
}

#[test]
fn onion_port_setting_parses_like_u16() {
    assert_eq!(parse_port_setting(Some(" 9150 ")), Some(9150));
    assert_eq!(parse_port_setting(Some("+80")), Some(80));
    assert_eq!(parse_port_setting(Some("65535")), Some(65535));
    assert_eq!(parse_port_setting(Some("65536")), None);
    assert_eq!(parse_port_setting(Some("-1")), None);
    assert_eq!(parse_port_setting(Some("+")), None);
    assert_eq!(parse_port_setting(Some("8o")), None);
    assert_eq!(parse_port_setting(Some("   ")), None);
    assert_eq!(parse_port_setting(None), None);
    assert_eq!(parse_port_setting(Some("00000000000000000000443")), Some(443));
    assert_eq!(parse_port_setting(Some("99999999999999999999999")), None);
}

#[test]
fn dispatch_refuses_without_transport_and_tor_needs_a_data_dir() {
    assert_eq!(
        dispatch_precheck(&TransportChoice::NoTransport, true),
        Some(ReportOutcome::RefusedNoEndpoint)
    );
    let tor = TransportChoice::TorOnion { onion: valid_onion(), port: DEFAULT_ONION_PORT };
    assert_eq!(
        dispatch_precheck(&tor, false),
        Some(ReportOutcome::Failed("no-data-dir".to_string()))
    );
    assert_eq!(dispatch_precheck(&tor, true), None);
    let clear = TransportChoice::Clearnet { endpoint: "https://x.test".into() };
    assert_eq!(dispatch_precheck(&clear, false), None);
}

#[test]
fn send_outcomes_map_the_transport_result() {
    assert_eq!(send_outcome(Ok(SendResult::Sent)), ReportOutcome::Sent);
    assert_eq!(
        send_outcome(Ok(SendResult::Failed("503".into()))),
        ReportOutcome::Failed("503".to_string())
    );
    assert_eq!(
        send_outcome(Err("tls".into())),
        ReportOutcome::Failed("tls".to_string())
    );
}

#[test]
fn only_a_sent_report_leaves_the_spool() {
    assert!(discard_after_send(&ReportOutcome::Sent));
    assert!(!discard_after_send(&ReportOutcome::RefusedNoEndpoint));
    assert!(!discard_after_send(&ReportOutcome::Failed("x".into())));
    assert!(!discard_after_send(&ReportOutcome::Spooled));
}

#[test]
fn edited_preview_body_keeps_user_redactions() {
    let preview = "panic: boom (at src/x.rs:1)\n\npanic: boom (at src/x.rs:1)\n\n--- metadata ---\nos: linux\napp_version: 9.9.9";
    let edited = preview.replace("boom", "[redacted]");
    let body = edited_body_from_preview_text(&edited);
    assert_eq!(body, "panic: [redacted] (at src/x.rs:1)");
    assert!(!body.contains("--- metadata ---"));
}

#[test]
fn edited_preview_without_separator_or_footer() {
    assert_eq!(edited_body_from_preview_text("just a body"), "just a body");
    assert_eq!(edited_body_from_preview_text("title\n\nbody only"), "body only");
    assert_eq!(
        edited_body_from_preview_text("title\n\nline one\n\nline two\n\n--- metadata ---\nk: v"),
        "line one\n\nline two"
    );
    assert_eq!(edited_body_from_preview_text(""), "");
}

#[test]
fn default_consent_state_presents_nothing() {
    let mut st: CrashConsentState<String> = CrashConsentState::default();
    assert!(!st.has_pending());
    assert_eq!(st.pending_count(), 0);
    assert!(st.data_dir().is_none());
    st.begin_load(Vec::new());
    assert_eq!(st.advance_begin(), None);
    assert!(!st.has_pending());
    assert_eq!(st.pending_count(), 0);
    assert!(st.take_presented().is_none());
}

#[test]
fn consent_queue_keeps_crashes_in_listing_order() {
    let mut st: CrashConsentState<String> = CrashConsentState::new();
    st.set_data_dir(Some("/tmp/spool".to_string()));
    assert_eq!(st.data_dir(), Some(&"/tmp/spool".to_string()));
    st.begin_load(vec![
        ("report-1.json".to_string(), true),
        ("report-2.json".to_string(), false),
        ("report-3.json".to_string(), true),
    ]);
    assert_eq!(st.pending_count(), 2);
    let first = st.advance_begin().expect("a crash is queued");
    assert_eq!(first, "report-1.json");
    st.advance_finish(first, Some(("first crash".to_string(), "preview one".to_string())));
    assert!(st.has_pending());
    assert_eq!(st.pending_count(), 2);
    assert_eq!(st.edited_text(), "preview one");
    st.edited_text_mut().push_str(" edited");
    assert_eq!(st.edited_text(), "preview one edited");

    let taken = st.take_presented().expect("presented");
    assert_eq!(taken, ("report-1.json".to_string(), "first crash".to_string()));
    assert!(!st.has_pending());
    assert_eq!(st.edited_text(), "preview one edited");

    let next = st.advance_begin().expect("the second crash");
    assert_eq!(next, "report-3.json");
    assert_eq!(st.edited_text(), "");
    // The second report fails to load: nothing is presented.
    st.advance_finish(next, None);
    assert!(!st.has_pending());
    assert_eq!(st.advance_begin(), None);
    assert_eq!(st.pending_count(), 0);
}

#[test]
fn panic_site_names_file_line_and_column() {
    assert_eq!(panic_site(Some(("src/x.rs", 42, 7))), "src/x.rs:42:7");
    assert_eq!(panic_site(Some(("a.rs", 0, 4294967295))), "a.rs:0:4294967295");
    assert_eq!(panic_site(None), "<unknown>");
}
