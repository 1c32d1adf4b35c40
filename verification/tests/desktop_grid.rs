use openwidget::anchor_shortcuts::build_anchor_plan;
use openwidget::desktop_grid::{
    build_grid_status, build_widget_grid_plan, fallback_desktop_grid_status,
    fallback_grid_measurement, fallback_reconciliation, grid_plan_computable,
    grid_status_computable, match_anchor_to_target, parse_anchor_widget_and_slot,
    positioning_status, reconcile_anchor_positions, sanitize_icon_cell, DesktopGridMeasurement,
    GridCell, GridRect, ObservedAnchorPosition,
};
use openwidget::desktop_grid::{
    desktop_grid_status_computable, get_desktop_grid_status, probe_wait_step, GridProbe,
    ProbeWaitAction, ProbeWaitEvent, PROBE_POLL_MILLIS, PROBE_TIMEOUT_MILLIS,
};

fn test_measurement() -> DesktopGridMeasurement {
    DesktopGridMeasurement {
        work_area: GridRect {
            x: 10,
            y: 20,
            width: 800,
            height: 600,
        },
        monitor_bounds: GridRect {
            x: 0,
            y: 0,
            width: 800,
            height: 640,
        },
        icon_cell: GridCell {
            width: 80,
            height: 100,
        },
    }
}

fn unavailable_probe() -> Result<Vec<ObservedAnchorPosition>, String> {
    Err("Windows desktop ListView reconciliation is unavailable on this platform".to_string())
}

#[test]
fn computes_two_by_two_grid_rectangle_and_slots() {
    let plan = build_widget_grid_plan("clock", 2, 2, 2, 3, &test_measurement());

    assert_eq!(
        plan.rect,
        GridRect {
            x: 90,
            y: 220,
            width: 160,
            height: 200
        }
    );
    assert_eq!(plan.anchor_slots.len(), 4);
    assert_eq!(plan.anchor_slots[0].slot, "r1c1");
    assert_eq!(
        plan.anchor_slots[0].rect,
        GridRect {
            x: 90,
            y: 220,
            width: 80,
            height: 100
        }
    );
    assert_eq!(plan.anchor_slots[3].slot, "r2c2");
    assert_eq!(
        plan.anchor_slots[3].rect,
        GridRect {
            x: 170,
            y: 320,
            width: 80,
            height: 100
        }
    );
}

#[test]
fn computes_four_by_two_grid_rectangle_and_anchor_count() {
    let plan = build_widget_grid_plan("launcher", 4, 2, 1, 1, &test_measurement());

    assert_eq!(
        plan.rect,
        GridRect {
            x: 10,
            y: 20,
            width: 320,
            height: 200
        }
    );
    assert_eq!(plan.anchor_slots.len(), 8);
    assert_eq!(plan.anchor_slots.last().unwrap().slot, "r2c4");
}

#[test]
fn status_reports_reconcile_only_positioning_policy() {
    let status = build_grid_status(
        test_measurement(),
        true,
        "test-probe".to_string(),
        None,
        unavailable_probe(),
    );

    assert_eq!(status.grid_columns, 10);
    assert_eq!(status.grid_rows, 6);
    assert_eq!(status.plans.len(), 2);
    assert_eq!(status.positioning.mode, "reconcile-only");
    assert!(status.positioning.commit_policy.contains("batch-commit"));
    assert!(status
        .positioning
        .api_path
        .iter()
        .any(|step| step.contains("LVM_SETITEMPOSITION")));
}

#[test]
fn fallback_status_skips_reconciliation_probe() {
    let status = fallback_desktop_grid_status("grid probe timed out".to_string());

    assert!(!status.enabled);
    assert_eq!(status.reconciliation.mode, "unavailable");
    assert!(status.reconciliation.observed_anchors.is_empty());
    assert!(status.reconciliation.matches.is_empty());
    assert_eq!(
        status.reconciliation.last_error.as_deref(),
        Some("grid probe timed out")
    );
}

#[test]
fn parses_anchor_widget_and_slot_from_shortcut_name() {
    assert_eq!(
        parse_anchor_widget_and_slot("OpenWidGet Anchor - clock - session-1 - r2c1.lnk"),
        Some(("clock".to_string(), "r2c1".to_string()))
    );
    assert_eq!(
        parse_anchor_widget_and_slot("OpenWidGet Anchor - launcher - session-1 - r1c4.lnk"),
        Some(("launcher".to_string(), "r1c4".to_string()))
    );
    assert_eq!(parse_anchor_widget_and_slot("Normal Shortcut.lnk"), None);
}

#[test]
fn matches_observed_anchor_position_to_widget_specific_target_slot() {
    let measurement = test_measurement();
    let clock_plan = build_widget_grid_plan("clock", 2, 2, 2, 3, &measurement);
    let launcher_plan = build_widget_grid_plan("launcher", 4, 2, 1, 1, &measurement);
    let observed = ObservedAnchorPosition {
        name: "OpenWidGet Anchor - launcher - session-1 - r2c2.lnk".to_string(),
        index: 7,
        x: 100,
        y: 130,
    };

    let matched = match_anchor_to_target(&observed, &[clock_plan, launcher_plan], &measurement);

    assert_eq!(matched.target_widget_id, "launcher");
    assert_eq!(matched.target_slot, "r2c2");
    assert_eq!(
        matched.target_rect.unwrap(),
        GridRect {
            x: 90,
            y: 120,
            width: 80,
            height: 100
        }
    );
    assert_eq!(matched.delta_x, Some(10));
    assert_eq!(matched.delta_y, Some(10));
    assert_eq!(matched.status, "observed-target-view-delta");
}

#[test]
fn normalizes_screen_targets_to_listview_coordinates_before_delta() {
    let measurement = DesktopGridMeasurement {
        work_area: GridRect {
            x: 110,
            y: 70,
            width: 800,
            height: 600,
        },
        monitor_bounds: GridRect {
            x: 100,
            y: 50,
            width: 800,
            height: 640,
        },
        icon_cell: GridCell {
            width: 80,
            height: 100,
        },
    };
    let plan = build_widget_grid_plan("clock", 2, 2, 1, 1, &measurement);
    let observed = ObservedAnchorPosition {
        name: "OpenWidGet Anchor - clock - session-1 - r1c1.lnk".to_string(),
        index: 2,
        x: 10,
        y: 20,
    };

    let matched = match_anchor_to_target(&observed, &[plan], &measurement);

    assert_eq!(matched.target_view_x, Some(10));
    assert_eq!(matched.target_view_y, Some(20));
    assert_eq!(matched.delta_x, Some(0));
    assert_eq!(matched.delta_y, Some(0));
}

#[test]
fn clamps_unreasonable_icon_cell_probe_values() {
    assert_eq!(
        sanitize_icon_cell(GridCell {
            width: 10,
            height: 999
        }),
        GridCell {
            width: 48,
            height: 256
        }
    );
}

#[test]
fn keeps_reasonable_icon_cells() {
    assert_eq!(
        sanitize_icon_cell(GridCell {
            width: 48,
            height: 75
        }),
        GridCell {
            width: 48,
            height: 75
        }
    );
    assert_eq!(
        sanitize_icon_cell(GridCell {
            width: 256,
            height: 257
        }),
        GridCell {
            width: 256,
            height: 256
        }
    );
}

#[test]
fn plan_slots_are_row_major_with_size_label() {
    let plan = build_widget_grid_plan("launcher", 4, 2, 3, 1, &test_measurement());
    assert_eq!(plan.size, "4×2");
    assert_eq!(plan.start_column, 3);
    let labels: Vec<&str> = plan.anchor_slots.iter().map(|s| s.slot.as_str()).collect();
    assert_eq!(
        labels,
        vec!["r1c1", "r1c2", "r1c3", "r1c4", "r2c1", "r2c2", "r2c3", "r2c4"]
    );
    assert_eq!(plan.anchor_slots[5].row, 2);
    assert_eq!(plan.anchor_slots[5].column, 2);
    assert_eq!(
        plan.anchor_slots[5].rect,
        GridRect {
            x: 250,
            y: 120,
            width: 80,
            height: 100
        }
    );
}

#[test]
fn plan_slots_stay_inside_plan_rect() {
    let plan = build_widget_grid_plan("launcher", 4, 2, 3, 2, &test_measurement());
    for (i, a) in plan.anchor_slots.iter().enumerate() {
        let r = a.rect;
        assert!(plan.rect.x <= r.x && r.x + r.width as i32 <= plan.rect.x + plan.rect.width as i32);
        assert!(plan.rect.y <= r.y && r.y + r.height as i32 <= plan.rect.y + plan.rect.height as i32);
        for b in plan.anchor_slots.iter().skip(i + 1) {
            let s = b.rect;
            assert!(
                r.x + r.width as i32 <= s.x
                    || s.x + s.width as i32 <= r.x
                    || r.y + r.height as i32 <= s.y
                    || s.y + s.height as i32 <= r.y
            );
        }
    }
}

#[test]
fn parse_rejects_malformed_names() {
    assert_eq!(
        parse_anchor_widget_and_slot("OpenWidGet Anchor - clock - r1c1.lnk"),
        None
    );
    assert_eq!(
        parse_anchor_widget_and_slot("Other Anchor - clock - s - r1c1.lnk"),
        None
    );
    assert_eq!(
        parse_anchor_widget_and_slot("OpenWidGet Anchor -   - s - r1c1.lnk"),
        None
    );
    assert_eq!(
        parse_anchor_widget_and_slot("OpenWidGet Anchor - clock - s - x1c1.lnk"),
        None
    );
    assert_eq!(
        parse_anchor_widget_and_slot("OpenWidGet Anchor - clock - s - r11.lnk"),
        None
    );
}

#[test]
fn parse_trims_pieces_and_accepts_missing_suffix() {
    assert_eq!(
        parse_anchor_widget_and_slot("OpenWidGet Anchor -  clock  - s - x - r3c4 "),
        Some(("clock".to_string(), "r3c4".to_string()))
    );
    assert_eq!(
        parse_anchor_widget_and_slot("OpenWidGet Anchor - clock - s - r1c2"),
        Some(("clock".to_string(), "r1c2".to_string()))
    );
}

#[test]
fn unknown_anchor_has_no_target_slot() {
    let measurement = test_measurement();
    let plan = build_widget_grid_plan("clock", 2, 2, 1, 1, &measurement);
    let observed = ObservedAnchorPosition {
        name: "OpenWidGet Anchor - clock - s - r3c3.lnk".to_string(),
        index: 1,
        x: 5,
        y: 6,
    };
    let matched = match_anchor_to_target(&observed, &[plan.clone()], &measurement);
    assert_eq!(matched.target_widget_id, "clock");
    assert_eq!(matched.target_slot, "r3c3");
    assert!(matched.target_rect.is_none());
    assert!(matched.delta_x.is_none());
    assert_eq!(matched.status, "no-target-slot");

    let stranger = ObservedAnchorPosition {
        name: "Normal Shortcut.lnk".to_string(),
        index: 2,
        x: 1,
        y: 2,
    };
    let matched = match_anchor_to_target(&stranger, &[plan], &measurement);
    assert_eq!(matched.target_widget_id, "unknown");
    assert_eq!(matched.target_slot, "unknown");
    assert_eq!(matched.observed_x, 1);
    assert_eq!(matched.status, "no-target-slot");
}

#[test]
fn planned_anchor_at_its_slot_reconciles_with_zero_delta() {
    let measurement = test_measurement();
    let plan = build_widget_grid_plan("clock", 2, 2, 1, 1, &measurement);
    let anchors = build_anchor_plan("clock", 2, 2, "s1");
    for (i, anchor) in anchors.iter().enumerate() {
        let slot = &plan.anchor_slots[i];
        let observed = ObservedAnchorPosition {
            name: anchor.filename.clone(),
            index: i as u32,
            x: slot.rect.x - measurement.monitor_bounds.x,
            y: slot.rect.y - measurement.monitor_bounds.y,
        };
        let matched = match_anchor_to_target(&observed, &[plan.clone()], &measurement);
        assert_eq!(matched.target_rect, Some(slot.rect));
        assert_eq!(matched.delta_x, Some(0));
        assert_eq!(matched.delta_y, Some(0));
        assert_eq!(matched.status, "observed-target-view-delta");
    }
}

#[test]
fn reconciliation_of_a_successful_probe() {
    let measurement = test_measurement();
    let plans = vec![build_widget_grid_plan("clock", 2, 2, 1, 1, &measurement)];
    let observed = vec![ObservedAnchorPosition {
        name: "OpenWidGet Anchor - clock - s - r2c2.lnk".to_string(),
        index: 0,
        x: 95,
        y: 121,
    }];
    let rec = reconcile_anchor_positions(&plans, &measurement, Ok(observed));
    assert_eq!(rec.mode, "windows-listview-probe");
    assert_eq!(rec.observed_anchors.len(), 1);
    assert_eq!(rec.matches.len(), 1);
    assert_eq!(rec.matches[0].delta_x, Some(5));
    assert_eq!(rec.matches[0].delta_y, Some(1));
    assert!(rec.last_error.is_none());

    let rec = reconcile_anchor_positions(&plans, &measurement, Err("no desktop".to_string()));
    assert_eq!(rec.mode, "unavailable");
    assert_eq!(rec.last_error.as_deref(), Some("no desktop"));
}

#[test]
fn fallback_reconciliation_default_message() {
    let rec = fallback_reconciliation(None);
    assert_eq!(rec.mode, "unavailable");
    assert_eq!(
        rec.last_error.as_deref(),
        Some("desktop grid probing is disabled; reconciliation skipped")
    );
}

#[test]
fn fallback_status_uses_preview_geometry() {
    let status = fallback_desktop_grid_status("x".to_string());
    let m = fallback_grid_measurement();
    assert_eq!(status.work_area, m.work_area);
    assert_eq!(status.work_area.height, 1040);
    assert_eq!(status.monitor_bounds.height, 1080);
    assert_eq!(status.icon_cell, GridCell { width: 75, height: 75 });
    assert_eq!(status.grid_columns, 25);
    assert_eq!(status.grid_rows, 13);
    assert_eq!(status.source, "deterministic-preview-fallback");
    assert_eq!(status.last_error.as_deref(), Some("x"));
    assert_eq!(status.plans[1].widget_id, "launcher");
    assert_eq!(status.plans[1].rect.x, 150);
}

#[test]
fn status_with_zero_cells_counts_whole_width() {
    let mut m = test_measurement();
    m.icon_cell = GridCell { width: 0, height: 0 };
    let status = build_grid_status(m, false, "s".to_string(), None, unavailable_probe());
    assert_eq!(status.grid_columns, 800);
    assert_eq!(status.grid_rows, 600);
    assert_eq!(
        status.reconciliation.last_error.as_deref(),
        Some("desktop grid probing is disabled; reconciliation skipped")
    );
}

#[test]
fn positioning_policy_lists_limitations() {
    let p = positioning_status();
    assert_eq!(p.api_path.len(), 3);
    assert_eq!(p.limitations.len(), 4);
    assert_eq!(p.limitations[0], "primary monitor only in this spike");
}

#[test]
fn overflow_checks_for_outside_callers() {
    let m = test_measurement();
    assert!(grid_plan_computable(2, 2, 1, 1, &m));
    assert!(grid_status_computable(&m, true, &unavailable_probe()));
    let mut edge = m;
    edge.work_area.x = i32::MAX - 10;
    assert!(!grid_plan_computable(2, 2, 1, 1, &edge));
    assert!(!grid_status_computable(&edge, false, &unavailable_probe()));
    let far = Ok(vec![ObservedAnchorPosition {
        name: "OpenWidGet Anchor - clock - s - r1c1.lnk".to_string(),
        index: 0,
        x: i32::MIN,
        y: 0,
    }]);
    assert!(!grid_status_computable(&m, true, &far));
    assert!(grid_status_computable(&m, false, &far));
}

#[test]
fn probed_receipt_clamps_cell_and_reconciles() {
    let probe = GridProbe {
        measurement: DesktopGridMeasurement {
            icon_cell: GridCell { width: 10, height: 999 },
            ..test_measurement()
        },
        source: "probe".to_string(),
    };
    let grid_probe = Ok(probe);
    let anchor_probe = Ok(vec![ObservedAnchorPosition {
        name: "OpenWidGet Anchor - clock - s - r1c2.lnk".to_string(),
        index: 0,
        x: 58,
        y: 20,
    }]);
    assert!(desktop_grid_status_computable(&grid_probe, &anchor_probe));
    let status = get_desktop_grid_status(grid_probe, anchor_probe);
    assert!(status.enabled);
    assert_eq!(status.source, "probe");
    assert_eq!(status.icon_cell, GridCell { width: 48, height: 256 });
    assert_eq!(status.grid_columns, 16);
    assert_eq!(status.grid_rows, 2);
    assert!(status.last_error.is_none());
    assert_eq!(status.reconciliation.mode, "windows-listview-probe");
    assert_eq!(status.reconciliation.matches[0].delta_x, Some(0));
    assert_eq!(status.reconciliation.matches[0].delta_y, Some(0));
}

#[test]
fn failed_probe_gives_fallback_receipt() {
    let grid_probe: Result<GridProbe, String> = Err("no screen".to_string());
    let anchor_probe = Err(String::new());
    assert!(desktop_grid_status_computable(&grid_probe, &anchor_probe));
    let status = get_desktop_grid_status(grid_probe, anchor_probe);
    assert!(!status.enabled);
    assert_eq!(status.source, "deterministic-preview-fallback");
    assert_eq!(status.work_area, fallback_grid_measurement().work_area);
    assert_eq!(status.last_error.as_deref(), Some("no screen"));
    assert_eq!(status.reconciliation.mode, "unavailable");
    assert_eq!(status.reconciliation.last_error.as_deref(), Some("no screen"));
}

#[test]
fn probe_wait_polls_until_timeout() {
    assert_eq!(probe_wait_step(ProbeWaitEvent::Exited), ProbeWaitAction::CollectOutput);
    assert_eq!(
        probe_wait_step(ProbeWaitEvent::Running { elapsed_millis: 0 }),
        ProbeWaitAction::Sleep { millis: PROBE_POLL_MILLIS }
    );
    assert_eq!(
        probe_wait_step(ProbeWaitEvent::Running { elapsed_millis: 3999 }),
        ProbeWaitAction::Sleep { millis: 50 }
    );
    assert_eq!(
        probe_wait_step(ProbeWaitEvent::Running { elapsed_millis: PROBE_TIMEOUT_MILLIS }),
        ProbeWaitAction::KillForTimeout
    );
    assert_eq!(probe_wait_step(ProbeWaitEvent::WaitFailed), ProbeWaitAction::ReportWaitFailure);
    assert_eq!(PROBE_TIMEOUT_MILLIS / 1000, 4);
}

#[test]
fn moving_the_work_area_moves_the_plan() {
    let m = test_measurement();
    let mut m2 = m;
    m2.work_area.x += 7;
    m2.work_area.y -= 3;
    let a = build_widget_grid_plan("clock", 2, 2, 2, 3, &m);
    let b = build_widget_grid_plan("clock", 2, 2, 2, 3, &m2);
    assert_eq!(b.rect, GridRect { x: a.rect.x + 7, y: a.rect.y - 3, ..a.rect });
    for (sa, sb) in a.anchor_slots.iter().zip(b.anchor_slots.iter()) {
        assert_eq!(sb.slot, sa.slot);
        assert_eq!(sb.rect, GridRect { x: sa.rect.x + 7, y: sa.rect.y - 3, ..sa.rect });
    }
}

#[test]
fn start_zero_means_first_cell() {
    let m = test_measurement();
    let a = build_widget_grid_plan("clock", 2, 2, 0, 0, &m);
    let b = build_widget_grid_plan("clock", 2, 2, 1, 1, &m);
    assert_eq!(a.rect, b.rect);
    for (sa, sb) in a.anchor_slots.iter().zip(b.anchor_slots.iter()) {
        assert_eq!(sa.slot, sb.slot);
        assert_eq!(sa.rect, sb.rect);
    }
}
