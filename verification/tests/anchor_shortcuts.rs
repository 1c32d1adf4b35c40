use openwidget::anchor_shortcuts::{
    build_anchor_plan, choose_desktop_dir, desktop_candidates, desktop_folder_names,
    desktop_root_env_keys, find_stale_anchor_shortcuts_in, generate_session_id, choose_state_dir,
    state_dir_folder_name, DesktopDirSource, StateDirSource,
    is_openwidget_anchor_shortcut, is_stale_anchor_shortcut, powershell_single_quote,
    resolve_desktop_dir_from_parts, sanitize_segment, shortcut_script, AnchorLifecycleStatus,
    AnchorShortcutManager, ANCHOR_FILE_PREFIX,
};
use openwidget::desktop_grid::parse_anchor_widget_and_slot;

#[test]
fn two_by_two_widget_creates_four_anchor_definitions() {
    let anchors = build_anchor_plan("clock", 2, 2, "session-1");

    assert_eq!(anchors.len(), 4);
    assert_eq!(anchors[0].row, 1);
    assert_eq!(anchors[0].column, 1);
    assert_eq!(anchors[3].row, 2);
    assert_eq!(anchors[3].column, 2);
}

#[test]
fn anchor_filenames_are_identifiable_runtime_artifacts() {
    let anchors = build_anchor_plan("clock widget", 1, 2, "session 2");

    for anchor in anchors {
        assert!(anchor.filename.starts_with(ANCHOR_FILE_PREFIX));
        assert!(anchor.filename.ends_with(".lnk"));
        assert!(anchor
            .description
            .contains("OpenWidGet runtime Anchor Shortcut"));
        assert!(anchor.description.contains("delete-on-exit=true"));
        assert!(anchor.arguments.contains("--open-anchor"));
        assert!(is_openwidget_anchor_shortcut(&anchor.filename));
    }
}

/// The desktop candidates under `roots`, in the order the library gives them.
fn candidates_under(roots: &[&str]) -> Vec<String> {
    desktop_candidates(roots.len())
        .into_iter()
        .map(|(root, folder)| format!("{}/{}", roots[root], folder))
        .collect()
}

#[test]
fn known_desktop_beats_stale_userprofile_desktop() {
    let root = "/tmp/desktop-known-folder";
    let known_desktop = format!("{root}/OneDrive/바탕 화면");
    let candidates = candidates_under(&[&format!("{root}/UserProfile")]);
    assert_eq!(candidates[0], format!("{root}/UserProfile/Desktop"));
    let exists = vec![true, false];

    let resolved = resolve_desktop_dir_from_parts(
        Some(known_desktop.clone()),
        candidates,
        exists,
        format!("{root}/fallback/Desktop"),
    );

    assert_eq!(resolved, known_desktop);
}

#[test]
fn fallback_detects_localized_onedrive_desktop() {
    let root = "/tmp/desktop-localized-fallback";
    let onedrive_desktop = format!("{root}/OneDrive/바탕 화면");
    let userprofile_desktop = format!("{root}/UserProfile/Desktop");
    let candidates = candidates_under(&[
        &format!("{root}/OneDrive"),
        &format!("{root}/UserProfile"),
    ]);
    let exists: Vec<bool> = candidates
        .iter()
        .map(|c| *c == onedrive_desktop || *c == userprofile_desktop)
        .collect();

    let resolved = resolve_desktop_dir_from_parts(
        None,
        candidates,
        exists,
        format!("{root}/fallback/Desktop"),
    );

    assert_eq!(resolved, onedrive_desktop);
}

#[test]
fn desktop_search_order_and_fallback() {
    assert_eq!(desktop_folder_names(), vec!["Desktop", "바탕 화면"]);
    assert_eq!(
        desktop_root_env_keys(),
        vec!["USERPROFILE", "OneDrive", "OneDriveConsumer", "OneDriveCommercial"]
    );
    assert_eq!(
        candidates_under(&["a", "b"]),
        vec!["a/Desktop", "a/바탕 화면", "b/Desktop", "b/바탕 화면"]
    );
    let candidates = candidates_under(&["a", "b"]);
    assert_eq!(
        choose_desktop_dir(&None, &vec![false, false, true, true]),
        DesktopDirSource::Candidate(2)
    );
    assert_eq!(
        choose_desktop_dir(&Some(String::new()), &vec![false; 4]),
        DesktopDirSource::Fallback
    );
    assert_eq!(
        choose_desktop_dir(&Some("k".to_string()), &vec![true; 4]),
        DesktopDirSource::Known
    );
    assert_eq!(
        resolve_desktop_dir_from_parts(None, candidates.clone(), vec![false, false, false, true], "fb".to_string()),
        "b/바탕 화면"
    );
    assert_eq!(
        resolve_desktop_dir_from_parts(Some(String::new()), candidates, vec![false; 4], "fb".to_string()),
        "fb"
    );
}

#[test]
fn stale_detection_ignores_active_session_and_non_anchor_files() {
    let names = vec![
        "OpenWidGet Anchor - clock - active - r1c1.lnk".to_string(),
        "OpenWidGet Anchor - clock - old - r1c1.lnk".to_string(),
        "Normal Shortcut.lnk".to_string(),
    ];

    let stale_results = find_stale_anchor_shortcuts_in(&names, "active");

    assert_eq!(stale_results, vec![1]);
}

#[test]
fn plan_carries_exact_names_and_arguments() {
    let anchors = build_anchor_plan("clock", 2, 3, "session-1");

    assert_eq!(anchors.len(), 6);
    assert_eq!(anchors[4].row, 2);
    assert_eq!(anchors[4].column, 2);
    assert_eq!(anchors[4].anchor_id, "clock-session-1-r2c2");
    assert_eq!(
        anchors[4].filename,
        "OpenWidGet Anchor - clock - session-1 - r2c2.lnk"
    );
    assert_eq!(
        anchors[4].description,
        "OpenWidGet runtime Anchor Shortcut; widget=clock; session=session-1; slot=r2c2; delete-on-exit=true"
    );
    assert_eq!(
        anchors[4].arguments,
        "--open-anchor --widget-id clock --anchor-id clock-session-1-r2c2 --session-id session-1"
    );
    assert_eq!(anchors[4].widget_id, "clock");
    assert_eq!(anchors[4].session_id, "session-1");
}

#[test]
fn plan_with_no_rows_or_columns_is_empty() {
    assert!(build_anchor_plan("clock", 0, 3, "s").is_empty());
    assert!(build_anchor_plan("clock", 3, 0, "s").is_empty());
}

#[test]
fn plan_labels_large_grids_in_decimal() {
    let anchors = build_anchor_plan("w", 12, 105, "s");
    assert_eq!(anchors.len(), 1260);
    let last = &anchors[1259];
    assert_eq!(last.row, 12);
    assert_eq!(last.column, 105);
    assert_eq!(last.anchor_id, "w-s-r12c105");
}

#[test]
fn sanitize_replaces_and_trims() {
    assert_eq!(sanitize_segment("clock widget"), "clock-widget");
    assert_eq!(sanitize_segment("  --a_b!c--  "), "a_b-c");
    assert_eq!(sanitize_segment("바탕 화면"), "");
    assert_eq!(sanitize_segment("session 2"), "session-2");
    assert_eq!(sanitize_segment(""), "");
    let once = sanitize_segment("-x y-");
    assert_eq!(sanitize_segment(&once), once);
}

#[test]
fn recognises_anchor_file_names() {
    assert!(is_openwidget_anchor_shortcut(
        "OpenWidGet Anchor - clock - s - r1c1.lnk"
    ));
    assert!(is_openwidget_anchor_shortcut("OpenWidGet Anchor.LNK"));
    assert!(is_openwidget_anchor_shortcut("OpenWidGet Anchor x.LnK"));
    assert!(!is_openwidget_anchor_shortcut("OpenWidGet Anchor.lnk.txt"));
    assert!(!is_openwidget_anchor_shortcut("Normal Shortcut.lnk"));
    assert!(!is_openwidget_anchor_shortcut("openwidget anchor.lnk"));
    assert!(!is_openwidget_anchor_shortcut(".lnk"));
    assert!(!is_openwidget_anchor_shortcut(""));
}

#[test]
fn stale_means_anchor_of_another_session() {
    assert!(is_stale_anchor_shortcut(
        "OpenWidGet Anchor - clock - old - r1c1.lnk",
        "active"
    ));
    assert!(!is_stale_anchor_shortcut(
        "OpenWidGet Anchor - clock - active - r1c1.lnk",
        "active"
    ));
    assert!(!is_stale_anchor_shortcut("old.lnk", "active"));
    let names = vec![
        "OpenWidGet Anchor - a - x - r1c1.lnk".to_string(),
        "".to_string(),
        "OpenWidGet Anchor - b - y - r1c1.LNK".to_string(),
        "OpenWidGet Anchor - c - active - r1c1.lnk".to_string(),
    ];
    assert_eq!(find_stale_anchor_shortcuts_in(&names, "active"), vec![0, 2]);
}

#[test]
fn planned_anchors_are_recognised_and_not_stale() {
    let session = generate_session_id(1_700_000_000, 4242);
    let anchors = build_anchor_plan("clock", 2, 2, &session);
    for anchor in &anchors {
        assert!(is_openwidget_anchor_shortcut(&anchor.filename));
        assert!(!is_stale_anchor_shortcut(&anchor.filename, &session));
    }
}

#[test]
fn planned_names_parse_back_to_widget_and_slot() {
    let anchors = build_anchor_plan("launcher", 2, 4, "session 9");
    for anchor in &anchors {
        let slot = format!("r{}c{}", anchor.row, anchor.column);
        assert_eq!(
            parse_anchor_widget_and_slot(&anchor.filename),
            Some(("launcher".to_string(), slot))
        );
    }
}

#[test]
fn session_id_is_seconds_dash_pid() {
    assert_eq!(generate_session_id(1_700_000_000, 4242), "1700000000-4242");
    assert_eq!(generate_session_id(0, 0), "0-0");
    assert_eq!(
        generate_session_id(u64::MAX, u32::MAX),
        "18446744073709551615-4294967295"
    );
}

#[test]
fn powershell_quotes_are_doubled() {
    assert_eq!(powershell_single_quote("it's"), "it''s");
    assert_eq!(powershell_single_quote("''"), "''''");
    assert_eq!(powershell_single_quote("plain"), "plain");
}

#[test]
fn shortcut_script_quotes_every_value() {
    let script = shortcut_script(
        "C:\\Users\\o'neil\\Desktop\\a.lnk",
        "C:\\app.exe",
        "--open-anchor",
        "desc",
        "C:\\icon.ico",
    );
    assert_eq!(
        script,
        "$wsh = New-Object -ComObject WScript.Shell; $lnk = $wsh.CreateShortcut('C:\\Users\\o''neil\\Desktop\\a.lnk'); $lnk.TargetPath = 'C:\\app.exe'; $lnk.Arguments = '--open-anchor'; $lnk.Description = 'desc'; $lnk.IconLocation = 'C:\\icon.ico,0'; $lnk.Save()"
    );
}

fn manager() -> AnchorShortcutManager {
    AnchorShortcutManager::new(
        "123-45".to_string(),
        "/home/u/Desktop".to_string(),
        "/home/u/.openwidget/anchor-shortcuts".to_string(),
        "/usr/bin/openwidget".to_string(),
        "/home/u/.openwidget/anchor-shortcuts/openwidget-anchor-transparent.ico".to_string(),
    )
}

#[test]
fn manager_startup_plan_is_the_clock_sample() {
    let m = manager();
    let plan = m.startup_anchor_plan();
    assert_eq!(plan.len(), 4);
    assert_eq!(plan[0].filename, "OpenWidGet Anchor - clock - 123-45 - r1c1.lnk");
    assert_eq!(m.session_id(), "123-45");
    assert_eq!(m.desktop_dir(), "/home/u/Desktop");
}

#[test]
fn lifecycle_receipts() {
    let m = manager();
    let unsupported = AnchorLifecycleStatus::unsupported(&m, 4, "linux");
    assert!(!unsupported.enabled);
    assert_eq!(unsupported.platform, "linux");
    assert_eq!(unsupported.session_id, "123-45");
    assert_eq!(unsupported.anchors_planned, 4);
    assert_eq!(unsupported.anchors_created, 0);
    assert_eq!(
        unsupported.last_error.as_deref(),
        Some("Anchor Shortcut materialization is Windows-only; this platform only verifies the plan.")
    );

    let failed = AnchorLifecycleStatus::failed(&m, 4, "windows", "boom".to_string());
    assert!(!failed.enabled);
    assert_eq!(failed.last_error.as_deref(), Some("boom"));

    let done = AnchorLifecycleStatus::materialized(
        &m,
        4,
        "windows",
        3,
        2,
        vec!["a.lnk".to_string(), "b.lnk".to_string()],
    );
    assert!(done.enabled);
    assert_eq!(done.anchors_created, 2);
    assert_eq!(done.stale_detected, 3);
    assert_eq!(done.stale_deleted, 2);
    assert_eq!(done.anchor_files, vec!["a.lnk".to_string(), "b.lnk".to_string()]);
    assert!(done.last_error.is_none());

    let poisoned = AnchorLifecycleStatus::lock_poisoned("windows");
    assert_eq!(poisoned.session_id, "state-poisoned");
    assert_eq!(poisoned.desktop_dir, "unknown");
    assert_eq!(
        poisoned.last_error.as_deref(),
        Some("anchor lifecycle state lock was poisoned")
    );
}

#[test]
fn user_profile_desktop_comes_before_onedrive() {
    let keys = desktop_root_env_keys();
    let roots: Vec<String> = keys.iter().map(|k| format!("/env/{k}")).collect();
    let root_refs: Vec<&str> = roots.iter().map(|r| r.as_str()).collect();
    let candidates = candidates_under(&root_refs);
    let exists: Vec<bool> = candidates
        .iter()
        .map(|c| c == "/env/USERPROFILE/Desktop" || c == "/env/OneDrive/Desktop")
        .collect();
    assert_eq!(
        resolve_desktop_dir_from_parts(None, candidates, exists, "fb".to_string()),
        "/env/USERPROFILE/Desktop"
    );
}

#[test]
fn state_dir_prefers_local_app_data() {
    assert_eq!(choose_state_dir(true, true, true), StateDirSource::LocalAppData);
    assert_eq!(choose_state_dir(false, true, true), StateDirSource::AppData);
    assert_eq!(choose_state_dir(false, false, true), StateDirSource::Home);
    assert_eq!(choose_state_dir(false, false, false), StateDirSource::Temp);
    assert_eq!(state_dir_folder_name(StateDirSource::Home), ".openwidget");
    assert_eq!(state_dir_folder_name(StateDirSource::LocalAppData), "OpenWidGet");
    assert_eq!(state_dir_folder_name(StateDirSource::Temp), "OpenWidGet");
}
