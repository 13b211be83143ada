use itasha_installer::console::{
    browsed_install_dir, can_initiate, default_dir, install_finished, status_label, wrap, Phase,
    PlacementAction, ProvisionLog, WindowPlacement, MAX_PLACEMENT_FRAMES,
};

#[test]
fn default_dir_is_under_program_files() {
    assert_eq!(
        default_dir("Itasha.Corp", "C0PL4ND"),
        "C:\\Program Files\\Itasha.Corp\\C0PL4ND"
    );
}

#[test]
fn wrap_leaves_short_text_alone() {
    assert_eq!(wrap("short tagline", 34), "short tagline");
    assert_eq!(wrap("", 0), "");
}

#[test]
fn wrap_reflows_words_greedily() {
    assert_eq!(wrap("aaa bbb ccc ddd", 8), "aaa bbb\nccc ddd");
    assert_eq!(wrap("one  two\tthree", 9), "one two\nthree");
    // A first word that reaches the width starts with a line break, as the
    // console's wrapping always did.
    assert_eq!(wrap("abcdefgh ij", 8), "\nabcdefgh\nij");
}

#[test]
fn wrap_counts_bytes() {
    // "é" is two bytes: "éé éé" is 9 bytes.
    assert_eq!(wrap("éé éé", 9), "éé éé");
    assert_eq!(wrap("éé éé", 8), "éé\néé");
}

#[test]
fn provision_log_marks_previous_steps_done() {
    let mut log = ProvisionLog::new();
    assert!(log.lines().is_empty());
    log.push_step("designate partition".to_string());
    log.push_step("provision payload".to_string());
    assert_eq!(
        log.lines(),
        &vec![
            ("designate partition".to_string(), true),
            ("provision payload".to_string(), false),
        ]
    );
    let (phase, err) = install_finished(&mut log, Ok(()));
    assert_eq!(phase, Phase::Online);
    assert_eq!(err, None);
    assert!(log.lines().iter().all(|(_, done)| *done));
}

#[test]
fn failed_install_reports_the_error() {
    let mut log = ProvisionLog::new();
    log.push_step("designate partition".to_string());
    let (phase, err) = install_finished(&mut log, Err("create: denied".to_string()));
    assert_eq!(phase, Phase::Failed);
    assert_eq!(err, Some("create: denied".to_string()));
    assert_eq!(log.lines(), &vec![("designate partition".to_string(), true)]);
}

#[test]
fn initiate_needs_a_location() {
    assert!(can_initiate("C:\\x"));
    assert!(!can_initiate("   "));
    assert!(!can_initiate(""));
}

#[test]
fn browsing_places_the_app_in_the_picked_folder() {
    assert_eq!(browsed_install_dir("D:\\Apps\\\\", "C0PL4ND"), "D:\\Apps\\C0PL4ND");
    assert_eq!(browsed_install_dir("D:\\Apps", "C0PL4ND"), "D:\\Apps\\C0PL4ND");
    assert_eq!(browsed_install_dir("", "X"), "\\X");
}

#[test]
fn hidden_window_is_revealed_at_the_frame_limit() {
    let mut w = WindowPlacement::new();
    for _ in 1..MAX_PLACEMENT_FRAMES {
        assert_eq!(w.on_frame(false), PlacementAction::Wait);
    }
    assert_eq!(w.on_frame(false), PlacementAction::Reveal);
    assert_eq!(w.on_frame(true), PlacementAction::Settled);
    assert_eq!(w.on_frame(false), PlacementAction::Settled);
}

#[test]
fn window_is_centred_on_the_first_frame_that_knows_the_monitor() {
    let mut w = WindowPlacement::new();
    assert_eq!(w.on_frame(false), PlacementAction::Wait);
    assert_eq!(w.on_frame(false), PlacementAction::Wait);
    assert_eq!(w.on_frame(true), PlacementAction::CentreAndReveal);
    assert_eq!(w.on_frame(true), PlacementAction::Settled);
}

#[test]
fn gauge_status_follows_the_phase() {
    assert_eq!(status_label(Phase::Online), "NODE ONLINE");
    assert_eq!(status_label(Phase::Failed), "FAULT");
    assert_eq!(status_label(Phase::Provision), "PROVISIONING");
}

#[test]
fn log_panel_shows_the_latest_lines_in_order() {
    let mut log = ProvisionLog::new();
    for k in 0..12 {
        log.push_step(format!("step {}", k));
    }
    let shown = log.recent(10);
    assert_eq!(shown.len(), 10);
    assert_eq!(shown[0], ("step 2".to_string(), true));
    assert_eq!(shown[9], ("step 11".to_string(), false));
    assert_eq!(log.recent(50).len(), 12);
    assert!(ProvisionLog::new().recent(10).is_empty());
}
