use itasha_installer::issue_intake::{
    action_after_launch, build_body, build_request, diagnostics_block, intake_log_line,
    mailto_outcome, plan_link, title_tail_from, Diagnostics, IntakeAction, IntakeOutcome,
    IssueIntakeState, IssueKind, LinkPlan, ISSUE_REPO, MAILTO_ALIAS,
};

fn diag() -> Diagnostics {
    Diagnostics {
        app_version: "0.1.0".to_string(),
        os: "linux".to_string(),
        arch: "x86_64".to_string(),
    }
}

/// A string that must never appear in any built text.
fn assert_no_persistent_id(haystack: &str) {
    for forbidden in [
        "install_id",
        "install-id",
        "fingerprint",
        "session_id",
        "session-id",
        "machine_id",
        "device_id",
        "client_id",
        "uuid",
    ] {
        assert!(
            !haystack.to_ascii_lowercase().contains(forbidden),
            "built text must carry no persistent identifier, found {forbidden:?}"
        );
    }
}

#[test]
fn kinds_map_to_templates_and_labels() {
    assert_eq!(IssueKind::Bug.template(), "bug.yml");
    assert_eq!(IssueKind::Bug.label(), "bug");
    assert_eq!(IssueKind::Feature.template(), "feature.yml");
    assert_eq!(IssueKind::Feature.label(), "enhancement");
    assert_eq!(IssueKind::Other.template(), "other.yml");
    assert_eq!(IssueKind::Other.label(), "question");
    assert_eq!(IssueKind::ALL.len(), 3);
}

#[test]
fn kinds_have_display_text_and_title_prefixes() {
    assert_eq!(IssueKind::Bug.display(), "Bug");
    assert_eq!(IssueKind::Feature.display(), "Feature request");
    assert_eq!(IssueKind::Other.display(), "Question / other");
    assert_eq!(IssueKind::Bug.title_prefix(), "bug: ");
    assert_eq!(IssueKind::Feature.title_prefix(), "feat: ");
    assert_eq!(IssueKind::Other.title_prefix(), "other: ");
    assert_eq!(IssueKind::default(), IssueKind::Bug);
}

#[test]
fn diagnostics_off_by_default() {
    let st = IssueIntakeState::default();
    assert!(
        !st.include_diagnostics,
        "diagnostics MUST default OFF (privacy-conservative)"
    );
    assert!(!st.open, "dialog defaults closed");
}

#[test]
fn open_fresh_resets_diagnostics_off() {
    let mut st = IssueIntakeState::default();
    st.include_diagnostics = true;
    st.description = "old text".into();
    st.open_fresh();
    assert!(
        !st.include_diagnostics,
        "reopening must reset diagnostics to OFF (no silent re-enable)"
    );
    assert!(st.description.is_empty());
    assert!(st.open);
}

#[test]
fn open_from_failure_prefills_bug_and_keeps_diagnostics_off() {
    let mut st = IssueIntakeState::default();
    st.open_from_failure("mkdir C:\\Program Files\\x: access denied");
    assert!(st.open);
    assert_eq!(st.kind, IssueKind::Bug);
    assert!(st.description.contains("Install failed"));
    assert!(st.description.contains("access denied"));
    assert!(
        !st.include_diagnostics,
        "a failure-seeded dialog still defaults diagnostics OFF"
    );
}

#[test]
fn open_from_failure_writes_the_exact_template() {
    let mut st = IssueIntakeState::default();
    st.kind = IssueKind::Feature;
    st.last_outcome = Some(IntakeOutcome::OpenedMailto);
    st.open_from_failure("boom");
    assert_eq!(
        st.description,
        "Install failed.\n\nError: boom\n\nWhat I was doing:\n"
    );
    assert_eq!(st.kind, IssueKind::Bug);
    assert!(st.last_outcome.is_none());
}

#[test]
fn body_excludes_diagnostics_when_toggle_off() {
    let body = build_body("my description", false, &diag());
    assert_eq!(body, "my description");
    assert!(!body.contains("App version"));
    assert!(!body.contains("Arch"));
}

#[test]
fn body_includes_diagnostics_only_when_toggle_on() {
    let body = build_body("my description", true, &diag());
    assert!(body.starts_with("my description"));
    assert!(body.contains("App version:"));
    assert!(body.contains("OS:"));
    assert!(body.contains("Arch:"));
}

#[test]
fn diagnostics_block_has_the_exact_layout() {
    assert_eq!(
        diagnostics_block(&diag()),
        "\n\n---\nApp version: 0.1.0\nOS: linux\nArch: x86_64"
    );
    assert_eq!(
        build_body("d", true, &diag()),
        "d\n\n---\nApp version: 0.1.0\nOS: linux\nArch: x86_64"
    );
}

#[test]
fn preview_body_is_exactly_what_request_carries() {
    let mut st = IssueIntakeState::default();
    st.description = "a bug".into();
    st.include_diagnostics = true;
    let preview = st.preview_body(&diag());
    let req = st.request("o/r", &diag());
    assert_eq!(req.body, preview, "preview must equal the sent body");
}

#[test]
fn request_targets_correct_template_and_label() {
    let mut st = IssueIntakeState::default();
    st.kind = IssueKind::Feature;
    st.description = "please add silent retry".into();
    let req = st.request("owner/repo", &diag());
    assert_eq!(req.template.as_deref(), Some("feature.yml"));
    assert_eq!(req.labels, vec!["enhancement".to_string()]);
    assert!(req.title.starts_with("feat: "));
    assert!(req.title.contains("please add silent retry"));
    assert_eq!(req.repo, "owner/repo");
}

#[test]
fn build_request_trims_the_title_tail() {
    let req = build_request("o/r", IssueKind::Other, "  why?  ", "body");
    assert_eq!(req.title, "other: why?");
    assert_eq!(req.body, "body");
    assert_eq!(req.template.as_deref(), Some("other.yml"));
    assert_eq!(req.labels, vec!["question".to_string()]);
}

#[test]
fn title_tail_takes_first_nonempty_line_capped() {
    assert_eq!(
        title_tail_from("\n\n  hello world  \nsecond"),
        "hello world"
    );
    assert_eq!(title_tail_from(""), "");
    let long = "x".repeat(200);
    assert_eq!(title_tail_from(&long).chars().count(), 80);
}

#[test]
fn title_tail_handles_crlf_blank_lines_and_unicode() {
    assert_eq!(title_tail_from("\r\n \t\r\nfirst\r\nsecond"), "first");
    assert_eq!(title_tail_from("   \n\t\n"), "");
    let wide = "é".repeat(100);
    assert_eq!(title_tail_from(&wide), "é".repeat(80));
    assert_eq!(title_tail_from("\u{3000}x\u{3000}"), "x");
}

#[test]
fn built_title_and_body_carry_no_persistent_id() {
    let mut st = IssueIntakeState::default();
    st.kind = IssueKind::Bug;
    st.description = "crash on open".into();
    st.include_diagnostics = true;
    let req = st.request("o/r", &diag());
    assert_no_persistent_id(&req.title);
    assert_no_persistent_id(&req.body);
}

#[test]
fn link_plan_follows_the_url_ceiling() {
    assert_eq!(plan_link(10, 8000), LinkPlan::Launch);
    assert_eq!(plan_link(8000, 8000), LinkPlan::Launch);
    assert_eq!(plan_link(8001, 8000), LinkPlan::Copy);
}

#[test]
fn failed_launch_falls_back_to_the_clipboard_body() {
    assert_eq!(
        action_after_launch(true, "b".to_string()),
        IntakeAction::Opened(IntakeOutcome::OpenedDeepLink)
    );
    assert_eq!(
        action_after_launch(false, "the report".to_string()),
        IntakeAction::CopyToClipboard("the report".to_string())
    );
}

#[test]
fn mailto_outcome_reports_the_launch() {
    assert_eq!(mailto_outcome(Ok(())), IntakeOutcome::OpenedMailto);
    assert_eq!(
        mailto_outcome(Err("no handler".to_string())),
        IntakeOutcome::Failed("could not open mail client: no handler".to_string())
    );
}

#[test]
fn issue_intake_outcome_log_details_are_stable_and_non_identifying() {
    assert_eq!(IntakeOutcome::OpenedDeepLink.log_detail(), "deep-link");
    assert_eq!(IntakeOutcome::CopiedToClipboard.log_detail(), "clipboard");
    assert_eq!(IntakeOutcome::OpenedMailto.log_detail(), "mailto");
    assert_eq!(
        IntakeOutcome::Failed("clipboard unavailable: secret/path".into()).log_detail(),
        "failed"
    );
}

#[test]
fn intake_log_line_never_carries_the_failure_reason() {
    let line = intake_log_line(&IntakeOutcome::Failed("secret/path".into()));
    assert_eq!(line, "f0rg3::issue_intake detail=failed");
    assert_eq!(
        intake_log_line(&IntakeOutcome::OpenedDeepLink),
        "f0rg3::issue_intake detail=deep-link"
    );
}

#[test]
fn default_intake_coords_target_the_installer_repo() {
    assert_eq!(ISSUE_REPO, "46b-ETYKiAL/Itasha.Corp_F0RG3-W1R3");
    assert!(MAILTO_ALIAS.contains('@'));
}
