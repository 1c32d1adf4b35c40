use openwidget::app_status::get_app_status;

#[test]
fn app_status_lists_bundled_previews() {
    let status = get_app_status("0.1.0");
    assert_eq!(status.app_name, "OpenWidGet");
    assert_eq!(status.version, "0.1.0");
    assert_eq!(status.mode, "shell-preview");
    assert_eq!(status.widgets.len(), 3);
    assert_eq!(status.widgets[0].id, "clock");
    assert_eq!(status.widgets[0].size, "2×2");
    assert_eq!(status.widgets[2].name, "Project Launcher");
    assert_eq!(status.widgets[2].size, "4×2");
    assert!(status.widgets.iter().all(|w| w.status == "bundled-preview"));
}
