//! Desktop icon-grid geometry: widget footprint plans on the measured grid, the
//! positioning policy, and the reconciliation of observed Anchor Shortcut icons
//! against their target slots.
use vstd::prelude::*;

use crate::anchor_shortcuts::opt_view;
use crate::text::{
    chars_of, decimal, ends_with_seq, has_suffix, push_decimal, range_equals, range_has_char,
    range_views, slot_label, slot_label_string, split_on, split_ranges, string_of_range,
    trim_range, trim_whitespace,
};

verus! {

/// A rectangle in desktop pixels.
#[derive(Debug, Clone, Copy, PartialEq, Eq, Structural)]
pub struct GridRect {
    pub x: i32,
    pub y: i32,
    pub width: u32,
    pub height: u32,
}

/// The size of one desktop icon cell in pixels.
#[derive(Debug, Clone, Copy, PartialEq, Eq, Structural)]
pub struct GridCell {
    pub width: u32,
    pub height: u32,
}

/// The rectangle of one Anchor Shortcut slot of a widget plan.
#[derive(Debug, Clone)]
pub struct AnchorSlotRect {
    pub slot: String,
    pub row: u8,
    pub column: u8,
    pub rect: GridRect,
}

/// A widget footprint placed on the icon grid.
#[derive(Debug, Clone)]
pub struct WidgetGridPlan {
    pub widget_id: String,
    pub size: String,
    pub start_row: u8,
    pub start_column: u8,
    pub rows: u8,
    pub columns: u8,
    pub rect: GridRect,
    pub anchor_slots: Vec<AnchorSlotRect>,
}

/// The positioning policy that the runtime follows.
#[derive(Debug, Clone)]
pub struct DesktopPositioningStatus {
    pub mode: &'static str,
    pub commit_policy: &'static str,
    pub api_path: Vec<&'static str>,
    pub fallback: &'static str,
    pub limitations: Vec<&'static str>,
}

/// An Anchor Shortcut icon as the desktop ListView reports it.
#[derive(Debug, Clone)]
pub struct ObservedAnchorPosition {
    pub name: String,
    pub index: u32,
    pub x: i32,
    pub y: i32,
}

/// An observed anchor compared with its target slot.
#[derive(Debug, Clone)]
pub struct AnchorPositionMatch {
    pub name: String,
    pub target_widget_id: String,
    pub target_slot: String,
    pub target_rect: Option<GridRect>,
    pub target_view_x: Option<i32>,
    pub target_view_y: Option<i32>,
    pub observed_x: i32,
    pub observed_y: i32,
    pub delta_x: Option<i32>,
    pub delta_y: Option<i32>,
    pub status: &'static str,
}

/// The outcome of comparing the observed anchors with the plans.
#[derive(Debug, Clone)]
pub struct DesktopGridReconciliation {
    pub mode: &'static str,
    pub observed_anchors: Vec<ObservedAnchorPosition>,
    pub matches: Vec<AnchorPositionMatch>,
    pub last_error: Option<String>,
}

/// The integer geometry of a desktop grid measurement.
#[derive(Debug, Clone, Copy, PartialEq, Eq, Structural)]
pub struct DesktopGridMeasurement {
    pub work_area: GridRect,
    pub monitor_bounds: GridRect,
    pub icon_cell: GridCell,
}

/// The grid receipt: measurement, grid size, the sample plans, the positioning
/// policy and the reconciliation.
#[derive(Debug, Clone)]
pub struct DesktopGridStatus {
    pub enabled: bool,
    pub source: String,
    pub work_area: GridRect,
    pub monitor_bounds: GridRect,
    pub icon_cell: GridCell,
    pub grid_columns: u32,
    pub grid_rows: u32,
    pub plans: Vec<WidgetGridPlan>,
    pub positioning: DesktopPositioningStatus,
    pub reconciliation: DesktopGridReconciliation,
    pub last_error: Option<String>,
}

// ---------------------------------------------------------------------------
// Geometry specifications
// ---------------------------------------------------------------------------

pub open spec fn i32_fits(v: int) -> bool {
    i32::MIN <= v <= i32::MAX
}

/// The cell width as the geometry uses it: the `u32` read as an `i32`.
pub open spec fn cell_w(m: DesktopGridMeasurement) -> int {
    (m.icon_cell.width as i32) as int
}

/// The cell height as the geometry uses it: the `u32` read as an `i32`.
pub open spec fn cell_h(m: DesktopGridMeasurement) -> int {
    (m.icon_cell.height as i32) as int
}

/// `v - 1`, stopping at 0.
pub open spec fn minus_one(v: u8) -> int {
    if v == 0 {
        0
    } else {
        v - 1
    }
}

/// The left edge of a plan starting at grid column `start_column` (1-based).
pub open spec fn plan_origin_x(m: DesktopGridMeasurement, start_column: u8) -> int {
    m.work_area.x + minus_one(start_column) * cell_w(m)
}

/// The top edge of a plan starting at grid row `start_row` (1-based).
pub open spec fn plan_origin_y(m: DesktopGridMeasurement, start_row: u8) -> int {
    m.work_area.y + minus_one(start_row) * cell_h(m)
}

/// The plan's geometry stays inside `i32`/`u32`: the condition under which it can be
/// computed without arithmetic overflow.
pub open spec fn plan_fits(
    columns: u8,
    rows: u8,
    start_column: u8,
    start_row: u8,
    m: DesktopGridMeasurement,
) -> bool {
    &&& i32_fits(minus_one(start_column) * cell_w(m))
    &&& i32_fits(plan_origin_x(m, start_column))
    &&& i32_fits(minus_one(start_row) * cell_h(m))
    &&& i32_fits(plan_origin_y(m, start_row))
    &&& columns * m.icon_cell.width <= u32::MAX
    &&& rows * m.icon_cell.height <= u32::MAX
    &&& (rows >= 1 && columns >= 1) ==> {
        &&& i32_fits((columns - 1) * cell_w(m))
        &&& i32_fits(plan_origin_x(m, start_column) + (columns - 1) * cell_w(m))
        &&& i32_fits((rows - 1) * cell_h(m))
        &&& i32_fits(plan_origin_y(m, start_row) + (rows - 1) * cell_h(m))
    }
}

/// `s` is the slot at `(row, column)` of a plan with the given start.
pub open spec fn is_slot_at(
    s: AnchorSlotRect,
    m: DesktopGridMeasurement,
    start_column: u8,
    start_row: u8,
    row: int,
    column: int,
) -> bool {
    &&& s.slot@ == slot_label(row as nat, column as nat)
    &&& s.row == row
    &&& s.column == column
    &&& s.rect.x == plan_origin_x(m, start_column) + (column - 1) * cell_w(m)
    &&& s.rect.y == plan_origin_y(m, start_row) + (row - 1) * cell_h(m)
    &&& s.rect.width == m.icon_cell.width
    &&& s.rect.height == m.icon_cell.height
}

/// The size label `{columns}×{rows}`.
pub open spec fn size_label(columns: u8, rows: u8) -> Seq<char> {
    decimal(columns as nat) + seq!['\u{d7}'] + decimal(rows as nat)
}

/// `p` is the plan of `widget_id` with `columns x rows` cells starting at
/// `(start_row, start_column)`: its rectangle spans the cells, and its slots are the
/// cells row by row.
pub open spec fn is_grid_plan(
    p: WidgetGridPlan,
    widget_id: Seq<char>,
    columns: u8,
    rows: u8,
    start_column: u8,
    start_row: u8,
    m: DesktopGridMeasurement,
) -> bool {
    &&& p.widget_id@ == widget_id
    &&& p.size@ == size_label(columns, rows)
    &&& p.start_row == start_row
    &&& p.start_column == start_column
    &&& p.rows == rows
    &&& p.columns == columns
    &&& p.rect.x == plan_origin_x(m, start_column)
    &&& p.rect.y == plan_origin_y(m, start_row)
    &&& p.rect.width == columns * m.icon_cell.width
    &&& p.rect.height == rows * m.icon_cell.height
    &&& p.anchor_slots@.len() == rows * columns
    &&& forall|i: int|
        0 <= i < p.anchor_slots@.len() ==> is_slot_at(
            #[trigger] p.anchor_slots@[i],
            m,
            start_column,
            start_row,
            i / columns as int + 1,
            i % columns as int + 1,
        )
}

/// The two sample plans that the receipt shows: a 2x2 `clock` at the first cell and a
/// 4x2 `launcher` from the third column.
pub open spec fn is_standard_plans(plans: Seq<WidgetGridPlan>, m: DesktopGridMeasurement) -> bool {
    &&& plans.len() == 2
    &&& is_grid_plan(plans[0], "clock"@, 2, 2, 1, 1, m)
    &&& is_grid_plan(plans[1], "launcher"@, 4, 2, 3, 1, m)
}

// ---------------------------------------------------------------------------
// Anchor-name parsing and matching specifications
// ---------------------------------------------------------------------------

/// The pieces of an anchor file name around ` - `, after dropping a `.lnk` suffix.
pub open spec fn anchor_name_parts(name: Seq<char>) -> Seq<Seq<char>> {
    let stem = if has_suffix(name, ".lnk"@) {
        name.subrange(0, name.len() - ".lnk"@.len())
    } else {
        name
    };
    split_on(stem, " - "@)
}

/// The widget id and slot that an Anchor Shortcut name carries: at least four pieces,
/// the first the Anchor prefix, the second (trimmed) a non-empty widget id, the last
/// (trimmed) a slot starting with `r` and holding a `c`.
pub open spec fn parsed_anchor_name(name: Seq<char>) -> Option<(Seq<char>, Seq<char>)> {
    let parts = anchor_name_parts(name);
    if parts.len() < 4 || parts[0] != "OpenWidGet Anchor"@ {
        None
    } else {
        let w = trim_whitespace(parts[1]);
        let slot = trim_whitespace(parts.last());
        if w.len() == 0 || !(slot.len() > 0 && slot[0] == 'r' && exists|i: int|
            0 <= i < slot.len() && slot[i] == 'c') {
            None
        } else {
            Some((w, slot))
        }
    }
}

/// The widget id and slot that an observed anchor targets (`unknown` when its name
/// does not parse).
pub open spec fn target_names(name: Seq<char>) -> (Seq<char>, Seq<char>) {
    match parsed_anchor_name(name) {
        Some(p) => p,
        None => ("unknown"@, "unknown"@),
    }
}

/// The first plan from index `i` on whose widget id is `w`.
pub open spec fn find_plan(plans: Seq<WidgetGridPlan>, w: Seq<char>, i: int) -> Option<int>
    decreases plans.len() - i,
{
    if i < 0 || i >= plans.len() {
        None
    } else if plans[i].widget_id@ == w {
        Some(i)
    } else {
        find_plan(plans, w, i + 1)
    }
}

/// The first slot from index `i` on whose label is `s`.
pub open spec fn find_slot(slots: Seq<AnchorSlotRect>, s: Seq<char>, i: int) -> Option<int>
    decreases slots.len() - i,
{
    if i < 0 || i >= slots.len() {
        None
    } else if slots[i].slot@ == s {
        Some(i)
    } else {
        find_slot(slots, s, i + 1)
    }
}

/// The rectangle of the slot that an anchor named `name` targets: the named slot of the
/// first plan of the named widget.
pub open spec fn target_rect(name: Seq<char>, plans: Seq<WidgetGridPlan>) -> Option<GridRect> {
    let (w, s) = target_names(name);
    match find_plan(plans, w, 0) {
        Some(p) => match find_slot(plans[p].anchor_slots@, s, 0) {
            Some(k) => Some(plans[p].anchor_slots@[k].rect),
            None => None,
        },
        None => None,
    }
}

/// The match of `anchor` can be computed without `i32` overflow.
pub open spec fn match_fits(
    anchor: ObservedAnchorPosition,
    plans: Seq<WidgetGridPlan>,
    m: DesktopGridMeasurement,
) -> bool {
    match target_rect(anchor.name@, plans) {
        Some(t) => {
            &&& i32_fits(t.x - m.monitor_bounds.x)
            &&& i32_fits(t.y - m.monitor_bounds.y)
            &&& i32_fits(anchor.x - (t.x - m.monitor_bounds.x))
            &&& i32_fits(anchor.y - (t.y - m.monitor_bounds.y))
        },
        None => true,
    }
}

/// `r` compares `anchor` with its target: the target in monitor-relative (ListView)
/// coordinates and the observed position minus it, or no target at all.
pub open spec fn is_match(
    r: AnchorPositionMatch,
    anchor: ObservedAnchorPosition,
    plans: Seq<WidgetGridPlan>,
    m: DesktopGridMeasurement,
) -> bool {
    let (w, s) = target_names(anchor.name@);
    &&& r.name@ == anchor.name@
    &&& r.target_widget_id@ == w
    &&& r.target_slot@ == s
    &&& r.target_rect == target_rect(anchor.name@, plans)
    &&& r.observed_x == anchor.x
    &&& r.observed_y == anchor.y
    &&& match target_rect(anchor.name@, plans) {
        Some(t) => {
            &&& r.target_view_x == Some((t.x - m.monitor_bounds.x) as i32)
            &&& r.target_view_y == Some((t.y - m.monitor_bounds.y) as i32)
            &&& r.delta_x == Some((anchor.x - (t.x - m.monitor_bounds.x)) as i32)
            &&& r.delta_y == Some((anchor.y - (t.y - m.monitor_bounds.y)) as i32)
            &&& r.status@ == "observed-target-view-delta"@
        },
        None => {
            &&& r.target_view_x is None
            &&& r.target_view_y is None
            &&& r.delta_x is None
            &&& r.delta_y is None
            &&& r.status@ == "no-target-slot"@
        },
    }
}

/// Every observed anchor of a successful probe can be matched against the standard
/// plans without overflow.
pub open spec fn probe_fits(
    probe: Result<Vec<ObservedAnchorPosition>, String>,
    m: DesktopGridMeasurement,
) -> bool {
    match probe {
        Ok(obs) => forall|plans: Seq<WidgetGridPlan>| #[trigger]
            is_standard_plans(plans, m) ==> forall|i: int|
                0 <= i < obs@.len() ==> match_fits(#[trigger] obs@[i], plans, m),
        Err(_) => true,
    }
}

/// The reconciliation of `probe` against `plans`.
pub open spec fn is_reconciliation(
    r: DesktopGridReconciliation,
    probe: Result<Vec<ObservedAnchorPosition>, String>,
    plans: Seq<WidgetGridPlan>,
    m: DesktopGridMeasurement,
) -> bool {
    match probe {
        Ok(obs) => {
            &&& r.mode@ == "windows-listview-probe"@
            &&& r.observed_anchors@ == obs@
            &&& r.matches@.len() == obs@.len()
            &&& forall|i: int|
                0 <= i < obs@.len() ==> is_match(#[trigger] r.matches@[i], obs@[i], plans, m)
            &&& r.last_error is None
        },
        Err(e) => {
            &&& r.mode@ == "unavailable"@
            &&& r.observed_anchors@.len() == 0
            &&& r.matches@.len() == 0
            &&& opt_view(r.last_error) == Some(e@)
        },
    }
}

/// The message of a reconciliation skipped without a reason.
pub open spec fn reconciliation_skipped_message() -> Seq<char> {
    "desktop grid probing is disabled; reconciliation skipped"@
}

/// The reconciliation when probing is off: unavailable, with `last_error` or the
/// default message.
pub open spec fn is_fallback_reconciliation(
    r: DesktopGridReconciliation,
    last_error: Option<Seq<char>>,
) -> bool {
    &&& r.mode@ == "unavailable"@
    &&& r.observed_anchors@.len() == 0
    &&& r.matches@.len() == 0
    &&& opt_view(r.last_error) == Some(
        match last_error {
            Some(e) => e,
            None => reconciliation_skipped_message(),
        },
    )
}

/// The grid receipt can be computed without overflow.
pub open spec fn grid_status_fits(
    m: DesktopGridMeasurement,
    enabled: bool,
    probe: Result<Vec<ObservedAnchorPosition>, String>,
) -> bool {
    &&& plan_fits(2, 2, 1, 1, m)
    &&& plan_fits(4, 2, 3, 1, m)
    &&& enabled ==> probe_fits(probe, m)
}

/// The number of whole cells of size `cell` in `len` (cells of size 0 count as 1).
pub open spec fn cells_in(len: u32, cell: u32) -> u32 {
    if cell == 0 {
        len
    } else {
        (len / cell) as u32
    }
}

/// `st` is the receipt for the measurement: its geometry, the standard plans, the
/// policy, and, when probing is off, the fallback reconciliation.
pub open spec fn is_grid_status(
    st: DesktopGridStatus,
    m: DesktopGridMeasurement,
    enabled: bool,
    source: Seq<char>,
    last_error: Option<Seq<char>>,
) -> bool {
    &&& st.enabled == enabled
    &&& st.source@ == source
    &&& st.work_area == m.work_area
    &&& st.monitor_bounds == m.monitor_bounds
    &&& st.icon_cell == m.icon_cell
    &&& st.grid_columns == cells_in(m.work_area.width, m.icon_cell.width)
    &&& st.grid_rows == cells_in(m.work_area.height, m.icon_cell.height)
    &&& is_standard_plans(st.plans@, m)
    &&& is_positioning_policy(st.positioning)
    &&& !enabled ==> is_fallback_reconciliation(st.reconciliation, last_error)
    &&& opt_view(st.last_error) == last_error
}

/// The reconcile-only policy: move the overlay while dragging, commit anchor positions
/// in one batch on drop.
pub open spec fn is_positioning_policy(p: DesktopPositioningStatus) -> bool {
    &&& p.mode@ == "reconcile-only"@
    &&& p.commit_policy@
        == "move overlay during drag; batch-commit Anchor Shortcut positions only on drop"@
    &&& p.api_path@.len() == 3
    &&& p.api_path@[0]@ == "Find Progman/WorkerW desktop ListView (SHELLDLL_DefView/SysListView32)"@
    &&& p.api_path@[1]@ == "read current icon cells with LVM_GETITEMPOSITION for reconciliation"@
    &&& p.api_path@[2]@
        == "batch-commit final drop positions with LVM_SETITEMPOSITION only after Windows proof"@
    &&& p.fallback@
        == "if direct ListView positioning is unreliable, keep Anchor Shortcuts materialized and align the WebView overlay from the computed grid receipt"@
    &&& p.limitations@.len() == 4
    &&& p.limitations@[0]@ == "primary monitor only in this spike"@
    &&& p.limitations@[1]@ == "auto-arrange icons can override direct shortcut positioning"@
    &&& p.limitations@[2]@ == "icon size/spacing/DPI changes require a fresh grid probe"@
    &&& p.limitations@[3]@
        == "direct mutation of Explorer icon positions is intentionally not executed on every drag frame"@
}

/// The geometry used when the desktop cannot be probed: a 1920x1080 monitor with a
/// 1920x1040 work area and 75-pixel cells.
pub open spec fn fallback_measurement() -> DesktopGridMeasurement {
    DesktopGridMeasurement {
        work_area: GridRect { x: 0, y: 0, width: 1920, height: 1040 },
        monitor_bounds: GridRect { x: 0, y: 0, width: 1920, height: 1080 },
        icon_cell: GridCell { width: 75, height: 75 },
    }
}

/// The source label of the fallback receipt.
pub open spec fn fallback_source() -> Seq<char> {
    "deterministic-preview-fallback"@
}

/// `v` clamped into `[48, 256]`.
pub open spec fn clamp_cell(v: u32) -> u32 {
    if v < 48 {
        48
    } else if v > 256 {
        256
    } else {
        v
    }
}


// ---------------------------------------------------------------------------
// Measurement and policy
// ---------------------------------------------------------------------------

/// Clamps a probed icon cell into `[48, 256]` pixels on each side.
pub fn sanitize_icon_cell(cell: GridCell) -> (r: GridCell)
    ensures
        r.width == clamp_cell(cell.width),
        r.height == clamp_cell(cell.height),
{
    GridCell { width: clamp_dimension(cell.width), height: clamp_dimension(cell.height) }
}

fn clamp_dimension(v: u32) -> (r: u32)
    ensures
        r == clamp_cell(v),
{
    if v < 48 {
        48
    } else if v > 256 {
        256
    } else {
        v
    }
}

/// The deterministic geometry used when the desktop cannot be probed.
pub fn fallback_grid_measurement() -> (m: DesktopGridMeasurement)
    ensures
        m == fallback_measurement(),
{
    DesktopGridMeasurement {
        work_area: GridRect { x: 0, y: 0, width: 1920, height: 1040 },
        monitor_bounds: GridRect { x: 0, y: 0, width: 1920, height: 1080 },
        icon_cell: GridCell { width: 75, height: 75 },
    }
}

/// The reconcile-only positioning policy.
pub fn positioning_status() -> (p: DesktopPositioningStatus)
    ensures
        is_positioning_policy(p),
{
    let mut api_path: Vec<&'static str> = Vec::new();
    api_path.push("Find Progman/WorkerW desktop ListView (SHELLDLL_DefView/SysListView32)");
    api_path.push("read current icon cells with LVM_GETITEMPOSITION for reconciliation");
    api_path.push(
        "batch-commit final drop positions with LVM_SETITEMPOSITION only after Windows proof",
    );
    let mut limitations: Vec<&'static str> = Vec::new();
    limitations.push("primary monitor only in this spike");
    limitations.push("auto-arrange icons can override direct shortcut positioning");
    limitations.push("icon size/spacing/DPI changes require a fresh grid probe");
    limitations.push(
        "direct mutation of Explorer icon positions is intentionally not executed on every drag frame",
    );
    DesktopPositioningStatus {
        mode: "reconcile-only",
        commit_policy: "move overlay during drag; batch-commit Anchor Shortcut positions only on drop",
        api_path,
        fallback: "if direct ListView positioning is unreliable, keep Anchor Shortcuts materialized and align the WebView overlay from the computed grid receipt",
        limitations,
    }
}

/// The reconciliation reported when probing is off: unavailable, carrying `last_error`
/// or a message that it was skipped.
pub fn fallback_reconciliation(last_error: Option<String>) -> (r: DesktopGridReconciliation)
    ensures
        is_fallback_reconciliation(r, opt_view(last_error)),
{
    let message = match last_error {
        Some(e) => e,
        None => String::from_str("desktop grid probing is disabled; reconciliation skipped"),
    };
    DesktopGridReconciliation {
        mode: "unavailable",
        observed_anchors: Vec::new(),
        matches: Vec::new(),
        last_error: Some(message),
    }
}

// ---------------------------------------------------------------------------
// Plans
// ---------------------------------------------------------------------------

/// `o + k * w` stays in `i32` for every `k` between 0 and `kmax` when it does at both ends.
proof fn lemma_steps_fit(o: int, w: int, k: int, kmax: int)
    requires
        0 <= k <= kmax,
        i32_fits(o),
        i32_fits(kmax * w),
        i32_fits(o + kmax * w),
    ensures
        i32_fits(k * w),
        i32_fits(o + k * w),
{
    if w >= 0 {
        assert(0 <= k * w <= kmax * w) by (nonlinear_arith)
            requires
                0 <= k <= kmax,
                w >= 0,
        ;
    } else {
        assert(kmax * w <= k * w <= 0) by (nonlinear_arith)
            requires
                0 <= k <= kmax,
                w < 0,
        ;
    }
}

/// The plan of `widget_id` with `columns x rows` cells starting at grid column
/// `start_column` and row `start_row` (1-based): the widget rectangle and one slot
/// rectangle per cell, row by row.
pub fn build_widget_grid_plan(
    widget_id: &str,
    columns: u8,
    rows: u8,
    start_column: u8,
    start_row: u8,
    measurement: &DesktopGridMeasurement,
) -> (p: WidgetGridPlan)
    requires
        plan_fits(columns, rows, start_column, start_row, *measurement),
    ensures
        is_grid_plan(p, widget_id@, columns, rows, start_column, start_row, *measurement),
{
    let ghost m = *measurement;
    let cell = measurement.icon_cell;
    let w: i32 = cell.width as i32;
    let h: i32 = cell.height as i32;
    let sc: u8 = start_column.saturating_sub(1);
    let sr: u8 = start_row.saturating_sub(1);
    let origin_x: i32 = measurement.work_area.x + (sc as i32) * w;
    let origin_y: i32 = measurement.work_area.y + (sr as i32) * h;
    let rect = GridRect {
        x: origin_x,
        y: origin_y,
        width: (columns as u32) * cell.width,
        height: (rows as u32) * cell.height,
    };

    let mut anchor_slots: Vec<AnchorSlotRect> = Vec::new();
    let mut row: u8 = 0;
    while row < rows
        invariant
            row <= rows,
            m == *measurement,
            cell == m.icon_cell,
            w == cell_w(m),
            h == cell_h(m),
            origin_x == plan_origin_x(m, start_column),
            origin_y == plan_origin_y(m, start_row),
            plan_fits(columns, rows, start_column, start_row, m),
            anchor_slots.len() == row as int * columns as int,
            forall|i: int|
                0 <= i < anchor_slots.len() ==> is_slot_at(
                    #[trigger] anchor_slots@[i],
                    m,
                    start_column,
                    start_row,
                    i / columns as int + 1,
                    i % columns as int + 1,
                ),
        decreases rows - row,
    {
        row = row + 1;
        let mut column: u8 = 0;
        while column < columns
            invariant
                1 <= row <= rows,
                column <= columns,
                m == *measurement,
                cell == m.icon_cell,
                w == cell_w(m),
                h == cell_h(m),
                origin_x == plan_origin_x(m, start_column),
                origin_y == plan_origin_y(m, start_row),
                plan_fits(columns, rows, start_column, start_row, m),
                anchor_slots.len() == (row - 1) as int * columns as int + column as int,
                forall|i: int|
                    0 <= i < anchor_slots.len() ==> is_slot_at(
                        #[trigger] anchor_slots@[i],
                        m,
                        start_column,
                        start_row,
                        i / columns as int + 1,
                        i % columns as int + 1,
                    ),
            decreases columns - column,
        {
            column = column + 1;
            proof {
                lemma_steps_fit(origin_x as int, w as int, (column - 1) as int, (columns - 1) as int);
                lemma_steps_fit(origin_y as int, h as int, (row - 1) as int, (rows - 1) as int);
            }
            let x: i32 = origin_x + ((column - 1) as i32) * w;
            let y: i32 = origin_y + ((row - 1) as i32) * h;
            let ghost idx = anchor_slots.len() as int;
            proof {
                vstd::arithmetic::div_mod::lemma_fundamental_div_mod_converse(
                    idx,
                    columns as int,
                    (row - 1) as int,
                    (column - 1) as int,
                );
            }
            let slot = slot_label_string(row, column);
            anchor_slots.push(
                AnchorSlotRect {
                    slot,
                    row,
                    column,
                    rect: GridRect { x, y, width: cell.width, height: cell.height },
                },
            );
            assert(is_slot_at(
                anchor_slots@[idx],
                m,
                start_column,
                start_row,
                idx / columns as int + 1,
                idx % columns as int + 1,
            ));
        }
        assert((row - 1) as int * columns as int + columns as int == row as int * columns as int)
            by (nonlinear_arith);
    }

    let mut size = String::new();
    push_decimal(&mut size, columns as u64);
    size.push('\u{d7}');
    push_decimal(&mut size, rows as u64);
    assert(size@ =~= size_label(columns, rows));

    WidgetGridPlan {
        widget_id: String::from_str(widget_id),
        size,
        start_row,
        start_column,
        rows,
        columns,
        rect,
        anchor_slots,
    }
}


// ---------------------------------------------------------------------------
// Reconciliation
// ---------------------------------------------------------------------------

fn copy_range(v: &Vec<char>, n: usize) -> (r: Vec<char>)
    requires
        n <= v.len(),
    ensures
        r@ == v@.subrange(0, n as int),
{
    let mut r: Vec<char> = Vec::new();
    let mut i: usize = 0;
    while i < n
        invariant
            i <= n <= v.len(),
            r@ == v@.subrange(0, i as int),
        decreases n - i,
    {
        r.push(v[i]);
        assert(v@.subrange(0, i + 1) =~= v@.subrange(0, i as int).push(v@[i as int]));
        i = i + 1;
    }
    r
}

/// The widget id and slot carried by an Anchor Shortcut name such as
/// `OpenWidGet Anchor - clock - session-1 - r2c1.lnk`, or `None` for other names.
pub fn parse_anchor_widget_and_slot(name: &str) -> (r: Option<(String, String)>)
    ensures
        match r {
            Some((w, s)) => parsed_anchor_name(name@) == Some((w@, s@)),
            None => parsed_anchor_name(name@) is None,
        },
{
    proof {
        reveal_strlit(" - ");
    }
    let v = chars_of(name);
    let lnk = chars_of(".lnk");
    let stem_end = if ends_with_seq(&v, &lnk) {
        v.len() - lnk.len()
    } else {
        v.len()
    };
    let stem = copy_range(&v, stem_end);
    let ghost stem_v = if has_suffix(name@, ".lnk"@) {
        name@.subrange(0, name@.len() - ".lnk"@.len())
    } else {
        name@
    };
    assert(stem@ =~= stem_v);
    let sep = chars_of(" - ");
    let parts = split_ranges(&stem, &sep);
    let ghost pv = range_views(stem@, parts@);
    assert(pv == anchor_name_parts(name@));
    if parts.len() < 4 {
        return None;
    }
    let prefix = chars_of("OpenWidGet Anchor");
    let first = parts[0];
    assert(pv[0] == stem@.subrange(first.0 as int, first.1 as int));
    if !range_equals(&stem, first.0, first.1, &prefix) {
        return None;
    }
    let second = parts[1];
    assert(pv[1] == stem@.subrange(second.0 as int, second.1 as int));
    let (wa, wb) = trim_range(&stem, second.0, second.1, false);
    let last = parts[parts.len() - 1];
    assert(pv.last() == stem@.subrange(last.0 as int, last.1 as int));
    let (sa, sb) = trim_range(&stem, last.0, last.1, false);
    let ghost wv = stem@.subrange(wa as int, wb as int);
    let ghost sv = stem@.subrange(sa as int, sb as int);
    assert(wv == trim_whitespace(pv[1]));
    assert(sv == trim_whitespace(pv.last()));
    if wa == wb {
        return None;
    }
    if sb == sa {
        return None;
    }
    assert(sv[0] == stem@[sa as int]);
    if stem[sa] != 'r' {
        return None;
    }
    if !range_has_char(&stem, sa, sb, 'c') {
        return None;
    }
    Some((string_of_range(&stem, wa, wb), string_of_range(&stem, sa, sb)))
}

/// The target widget id and slot of an observed anchor, and the rectangle of that
/// slot in the plans.
fn target_of(anchor: &ObservedAnchorPosition, plans: &[WidgetGridPlan]) -> (r: (
    String,
    String,
    Option<GridRect>,
))
    ensures
        r.0@ == target_names(anchor.name@).0,
        r.1@ == target_names(anchor.name@).1,
        r.2 == target_rect(anchor.name@, plans@),
{
    let (target_widget_id, target_slot) = match parse_anchor_widget_and_slot(anchor.name.as_str()) {
        Some(p) => p,
        None => (String::from_str("unknown"), String::from_str("unknown")),
    };
    let ghost w = target_widget_id@;
    let ghost s = target_slot@;
    let mut p: usize = 0;
    while p < plans.len() && !(plans[p].widget_id == target_widget_id)
        invariant
            p <= plans@.len(),
            w == target_widget_id@,
            find_plan(plans@, w, p as int) == find_plan(plans@, w, 0),
        decreases plans.len() - p,
    {
        p = p + 1;
    }
    if p == plans.len() {
        return (target_widget_id, target_slot, None);
    }
    assert(find_plan(plans@, w, 0) == Some(p as int));
    let slots = &plans[p].anchor_slots;
    let mut k: usize = 0;
    while k < slots.len() && !(slots[k].slot == target_slot)
        invariant
            k <= slots@.len(),
            s == target_slot@,
            find_slot(slots@, s, k as int) == find_slot(slots@, s, 0),
        decreases slots.len() - k,
    {
        k = k + 1;
    }
    if k == slots.len() {
        return (target_widget_id, target_slot, None);
    }
    let rect = slots[k].rect;
    (target_widget_id, target_slot, Some(rect))
}

/// Compares an observed anchor with its target slot: the slot rectangle of the named
/// widget's plan, the slot's position relative to the monitor (the ListView's
/// coordinates), and the observed position minus that target.
pub fn match_anchor_to_target(
    anchor: &ObservedAnchorPosition,
    plans: &[WidgetGridPlan],
    measurement: &DesktopGridMeasurement,
) -> (r: AnchorPositionMatch)
    requires
        match_fits(*anchor, plans@, *measurement),
    ensures
        is_match(r, *anchor, plans@, *measurement),
{
    let (target_widget_id, target_slot, target_rect) = target_of(anchor, plans);
    match target_rect {
        Some(rect) => {
            let vx: i32 = rect.x - measurement.monitor_bounds.x;
            let vy: i32 = rect.y - measurement.monitor_bounds.y;
            AnchorPositionMatch {
                name: anchor.name.clone(),
                target_widget_id,
                target_slot,
                target_rect,
                target_view_x: Some(vx),
                target_view_y: Some(vy),
                observed_x: anchor.x,
                observed_y: anchor.y,
                delta_x: Some(anchor.x - vx),
                delta_y: Some(anchor.y - vy),
                status: "observed-target-view-delta",
            }
        },
        None => AnchorPositionMatch {
            name: anchor.name.clone(),
            target_widget_id,
            target_slot,
            target_rect,
            target_view_x: None,
            target_view_y: None,
            observed_x: anchor.x,
            observed_y: anchor.y,
            delta_x: None,
            delta_y: None,
            status: "no-target-slot",
        },
    }
}

/// The reconciliation of a ListView probe with the plans: every observed anchor matched
/// against its target, or the probe's error.
pub fn reconcile_anchor_positions(
    plans: &[WidgetGridPlan],
    measurement: &DesktopGridMeasurement,
    anchor_probe: Result<Vec<ObservedAnchorPosition>, String>,
) -> (r: DesktopGridReconciliation)
    requires
        anchor_probe matches Ok(obs) ==> forall|i: int|
            0 <= i < obs@.len() ==> match_fits(#[trigger] obs@[i], plans@, *measurement),
    ensures
        is_reconciliation(r, anchor_probe, plans@, *measurement),
{
    match anchor_probe {
        Ok(observed_anchors) => {
            let mut matches: Vec<AnchorPositionMatch> = Vec::new();
            let mut i: usize = 0;
            while i < observed_anchors.len()
                invariant
                    i <= observed_anchors@.len(),
                    forall|j: int|
                        0 <= j < observed_anchors@.len() ==> match_fits(
                            #[trigger] observed_anchors@[j],
                            plans@,
                            *measurement,
                        ),
                    matches@.len() == i,
                    forall|j: int|
                        0 <= j < i ==> is_match(
                            #[trigger] matches@[j],
                            observed_anchors@[j],
                            plans@,
                            *measurement,
                        ),
                decreases observed_anchors.len() - i,
            {
                let m = match_anchor_to_target(&observed_anchors[i], plans, measurement);
                matches.push(m);
                i = i + 1;
            }
            DesktopGridReconciliation {
                mode: "windows-listview-probe",
                observed_anchors,
                matches,
                last_error: None,
            }
        },
        Err(error) => DesktopGridReconciliation {
            mode: "unavailable",
            observed_anchors: Vec::new(),
            matches: Vec::new(),
            last_error: Some(error),
        },
    }
}


// ---------------------------------------------------------------------------
// Grid receipt
// ---------------------------------------------------------------------------

fn cells_of(len: u32, cell: u32) -> (r: u32)
    ensures
        r == cells_in(len, cell),
{
    let divisor = if cell == 0 {
        1
    } else {
        cell
    };
    len / divisor
}

/// The grid receipt for a measurement: the number of whole cells in the work area,
/// the 2x2 `clock` and 4x2 `launcher` sample plans, the positioning policy, and the
/// reconciliation of `anchor_probe` against the plans when probing is `enabled`, or the
/// fallback reconciliation carrying `last_error` otherwise.
pub fn build_grid_status(
    measurement: DesktopGridMeasurement,
    enabled: bool,
    source: String,
    last_error: Option<String>,
    anchor_probe: Result<Vec<ObservedAnchorPosition>, String>,
) -> (st: DesktopGridStatus)
    requires
        grid_status_fits(measurement, enabled, anchor_probe),
    ensures
        is_grid_status(st, measurement, enabled, source@, opt_view(last_error)),
        enabled ==> is_reconciliation(st.reconciliation, anchor_probe, st.plans@, measurement),
{
    let grid_columns = cells_of(measurement.work_area.width, measurement.icon_cell.width);
    let grid_rows = cells_of(measurement.work_area.height, measurement.icon_cell.height);
    let mut plans: Vec<WidgetGridPlan> = Vec::new();
    plans.push(build_widget_grid_plan("clock", 2, 2, 1, 1, &measurement));
    plans.push(build_widget_grid_plan("launcher", 4, 2, 3, 1, &measurement));
    assert(is_standard_plans(plans@, measurement));
    let reconciliation = if enabled {
        reconcile_anchor_positions(plans.as_slice(), &measurement, anchor_probe)
    } else {
        let carried = match &last_error {
            Some(e) => Some(e.clone()),
            None => None,
        };
        fallback_reconciliation(carried)
    };
    DesktopGridStatus {
        enabled,
        source,
        work_area: measurement.work_area,
        monitor_bounds: measurement.monitor_bounds,
        icon_cell: measurement.icon_cell,
        grid_columns,
        grid_rows,
        plans,
        positioning: positioning_status(),
        reconciliation,
        last_error,
    }
}

/// The receipt when the desktop cannot be probed: the fallback geometry, probing off,
/// and `error` carried both as the receipt's and the reconciliation's last error.
pub fn fallback_desktop_grid_status(error: String) -> (st: DesktopGridStatus)
    ensures
        is_grid_status(st, fallback_measurement(), false, fallback_source(), Some(error@)),
{
    let measurement = fallback_grid_measurement();
    build_grid_status(
        measurement,
        false,
        String::from_str("deterministic-preview-fallback"),
        Some(error),
        Err(String::new()),
    )
}

// ---------------------------------------------------------------------------
// Overflow conditions that callers outside the verified code can test
// ---------------------------------------------------------------------------

fn fits_i32(v: i64) -> (r: bool)
    ensures
        r == i32_fits(v as int),
{
    -2147483648i64 <= v && v <= 2147483647i64
}

/// Whether `plan_fits` holds, so that `build_widget_grid_plan` may be called.
pub fn grid_plan_computable(
    columns: u8,
    rows: u8,
    start_column: u8,
    start_row: u8,
    measurement: &DesktopGridMeasurement,
) -> (r: bool)
    ensures
        r == plan_fits(columns, rows, start_column, start_row, *measurement),
{
    let m = measurement;
    let w = (#[verifier::truncate] (m.icon_cell.width as i32)) as i64;
    let h = (#[verifier::truncate] (m.icon_cell.height as i32)) as i64;
    let sc = (start_column.saturating_sub(1)) as i64;
    let sr = (start_row.saturating_sub(1)) as i64;
    assert(-2147483648 <= w <= 2147483647);
    assert(-2147483648 <= h <= 2147483647);
    assert(-256 * 2147483648 <= sc * w <= 256 * 2147483647) by (nonlinear_arith)
        requires
            0 <= sc <= 255,
            -2147483648 <= w <= 2147483647,
    ;
    assert(-256 * 2147483648 <= sr * h <= 256 * 2147483647) by (nonlinear_arith)
        requires
            0 <= sr <= 255,
            -2147483648 <= h <= 2147483647,
    ;
    let ox = (m.work_area.x as i64) + sc * w;
    let oy = (m.work_area.y as i64) + sr * h;
    let base = fits_i32(sc * w) && fits_i32(ox) && fits_i32(sr * h) && fits_i32(oy);
    let cw = m.icon_cell.width as u64;
    let ch = m.icon_cell.height as u64;
    let cols = columns as u64;
    let rws = rows as u64;
    assert(cols * cw <= 255 * 4294967295) by (nonlinear_arith)
        requires
            cols <= 255,
            cw <= 4294967295,
    ;
    assert(rws * ch <= 255 * 4294967295) by (nonlinear_arith)
        requires
            rws <= 255,
            ch <= 4294967295,
    ;
    let widths = cols * cw <= 4294967295u64 && rws * ch <= 4294967295u64;
    if !(rows >= 1 && columns >= 1) {
        return base && widths;
    }
    let cm = (columns - 1) as i64;
    let rm = (rows - 1) as i64;
    assert(-256 * 2147483648 <= cm * w <= 256 * 2147483647) by (nonlinear_arith)
        requires
            0 <= cm <= 255,
            -2147483648 <= w <= 2147483647,
    ;
    assert(-256 * 2147483648 <= rm * h <= 256 * 2147483647) by (nonlinear_arith)
        requires
            0 <= rm <= 255,
            -2147483648 <= h <= 2147483647,
    ;
    let ends = fits_i32(cm * w) && fits_i32(ox + cm * w) && fits_i32(rm * h) && fits_i32(
        oy + rm * h,
    );
    base && widths && ends
}

/// Whether `match_fits` holds, so that `match_anchor_to_target` may be called.
pub fn anchor_match_computable(
    anchor: &ObservedAnchorPosition,
    plans: &[WidgetGridPlan],
    measurement: &DesktopGridMeasurement,
) -> (r: bool)
    ensures
        r == match_fits(*anchor, plans@, *measurement),
{
    let (_w, _s, target) = target_of(anchor, plans);
    match target {
        Some(t) => {
            let vx = (t.x as i64) - (measurement.monitor_bounds.x as i64);
            let vy = (t.y as i64) - (measurement.monitor_bounds.y as i64);
            fits_i32(vx) && fits_i32(vy) && fits_i32((anchor.x as i64) - vx) && fits_i32(
                (anchor.y as i64) - vy,
            )
        },
        None => true,
    }
}

/// Two standard plan lists direct every anchor name to the same target rectangle.
pub proof fn lemma_standard_plans_same_target(
    name: Seq<char>,
    plans1: Seq<WidgetGridPlan>,
    plans2: Seq<WidgetGridPlan>,
    m: DesktopGridMeasurement,
)
    requires
        is_standard_plans(plans1, m),
        is_standard_plans(plans2, m),
    ensures
        target_rect(name, plans1) == target_rect(name, plans2),
{
    let (w, s) = target_names(name);
    lemma_find_plan_same(plans1, plans2, w, 0);
    match find_plan(plans1, w, 0) {
        Some(p) => {
            lemma_find_plan_bounds(plans1, w, 0);
            let s1 = plans1[p].anchor_slots@;
            let s2 = plans2[p].anchor_slots@;
            assert forall|j: int| 0 <= j < s1.len() implies s1[j].slot@ == s2[j].slot@
                && s1[j].rect == s2[j].rect by {
                assert(is_slot_at(s1[j], m, plans1[p].start_column, plans1[p].start_row,
                    j / plans1[p].columns as int + 1, j % plans1[p].columns as int + 1));
                assert(is_slot_at(s2[j], m, plans2[p].start_column, plans2[p].start_row,
                    j / plans2[p].columns as int + 1, j % plans2[p].columns as int + 1));
            }
            lemma_find_slot_same(s1, s2, s, 0);
            match find_slot(s1, s, 0) {
                Some(k) => {
                    lemma_find_slot_bounds(s1, s, 0);
                },
                None => {},
            }
        },
        None => {},
    }
}

proof fn lemma_find_plan_same(
    plans1: Seq<WidgetGridPlan>,
    plans2: Seq<WidgetGridPlan>,
    w: Seq<char>,
    i: int,
)
    requires
        plans1.len() == plans2.len(),
        forall|j: int| 0 <= j < plans1.len() ==> plans1[j].widget_id@ == plans2[j].widget_id@,
    ensures
        find_plan(plans1, w, i) == find_plan(plans2, w, i),
    decreases plans1.len() - i,
{
    if i < 0 || i >= plans1.len() {
    } else if plans1[i].widget_id@ == w {
    } else {
        lemma_find_plan_same(plans1, plans2, w, i + 1);
    }
}

proof fn lemma_find_plan_bounds(plans: Seq<WidgetGridPlan>, w: Seq<char>, i: int)
    ensures
        find_plan(plans, w, i) matches Some(p) ==> 0 <= i <= p < plans.len(),
    decreases plans.len() - i,
{
    if i < 0 || i >= plans.len() {
    } else if plans[i].widget_id@ == w {
    } else {
        lemma_find_plan_bounds(plans, w, i + 1);
    }
}

proof fn lemma_find_slot_same(s1: Seq<AnchorSlotRect>, s2: Seq<AnchorSlotRect>, s: Seq<char>, i: int)
    requires
        s1.len() == s2.len(),
        forall|j: int| 0 <= j < s1.len() ==> s1[j].slot@ == s2[j].slot@,
    ensures
        find_slot(s1, s, i) == find_slot(s2, s, i),
    decreases s1.len() - i,
{
    if i < 0 || i >= s1.len() {
    } else if s1[i].slot@ == s {
    } else {
        lemma_find_slot_same(s1, s2, s, i + 1);
    }
}

proof fn lemma_find_slot_bounds(slots: Seq<AnchorSlotRect>, s: Seq<char>, i: int)
    ensures
        find_slot(slots, s, i) matches Some(k) ==> 0 <= i <= k < slots.len(),
    decreases slots.len() - i,
{
    if i < 0 || i >= slots.len() {
    } else if slots[i].slot@ == s {
    } else {
        lemma_find_slot_bounds(slots, s, i + 1);
    }
}

/// Whether `grid_status_fits` holds, so that `build_grid_status` may be called.
pub fn grid_status_computable(
    measurement: &DesktopGridMeasurement,
    enabled: bool,
    anchor_probe: &Result<Vec<ObservedAnchorPosition>, String>,
) -> (r: bool)
    ensures
        r == grid_status_fits(*measurement, enabled, *anchor_probe),
{
    if !grid_plan_computable(2, 2, 1, 1, measurement) || !grid_plan_computable(
        4,
        2,
        3,
        1,
        measurement,
    ) {
        return false;
    }
    if !enabled {
        return true;
    }
    match anchor_probe {
        Err(_) => true,
        Ok(obs) => {
            let mut plans: Vec<WidgetGridPlan> = Vec::new();
            plans.push(build_widget_grid_plan("clock", 2, 2, 1, 1, measurement));
            plans.push(build_widget_grid_plan("launcher", 4, 2, 3, 1, measurement));
            assert(is_standard_plans(plans@, *measurement));
            let mut i: usize = 0;
            while i < obs.len()
                invariant
                    i <= obs@.len(),
                    is_standard_plans(plans@, *measurement),
                    *anchor_probe == Ok::<Vec<ObservedAnchorPosition>, String>(*obs),
                    enabled,
                    plan_fits(2, 2, 1, 1, *measurement),
                    plan_fits(4, 2, 3, 1, *measurement),
                    forall|j: int| 0 <= j < i ==> match_fits(#[trigger] obs@[j], plans@, *measurement),
                decreases obs.len() - i,
            {
                if !anchor_match_computable(&obs[i], plans.as_slice(), measurement) {
                    proof {
                        if probe_fits(*anchor_probe, *measurement) {
                            let o = anchor_probe->Ok_0;
                            assert(o == *obs);
                            assert(is_standard_plans(plans@, *measurement));
                            assert(forall|j: int|
                                0 <= j < o@.len() ==> match_fits(
                                    #[trigger] o@[j],
                                    plans@,
                                    *measurement,
                                ));
                            assert(match_fits(o@[i as int], plans@, *measurement));
                        }
                    }
                    return false;
                }
                i = i + 1;
            }
            assert forall|other: Seq<WidgetGridPlan>| #[trigger]
                is_standard_plans(other, *measurement) implies forall|j: int|
                0 <= j < obs@.len() ==> match_fits(#[trigger] obs@[j], other, *measurement) by {
                assert forall|j: int| 0 <= j < obs@.len() implies match_fits(
                    #[trigger] obs@[j],
                    other,
                    *measurement,
                ) by {
                    lemma_standard_plans_same_target(obs@[j].name@, plans@, other, *measurement);
                }
            }
            true
        },
    }
}


// ---------------------------------------------------------------------------
// Grid receipt from the probe outcome
// ---------------------------------------------------------------------------

/// The integer part of a successful desktop probe: the measured geometry (with the icon
/// cell as the registry reports it) and a description of where it came from.
#[derive(Debug, Clone)]
pub struct GridProbe {
    pub measurement: DesktopGridMeasurement,
    pub source: String,
}

/// The measurement that a probe outcome leads to: the probed geometry with its icon
/// cell clamped, or the fallback geometry when the probe failed.
pub open spec fn probed_measurement(grid_probe: Result<GridProbe, String>) -> DesktopGridMeasurement {
    match grid_probe {
        Ok(g) => DesktopGridMeasurement {
            work_area: g.measurement.work_area,
            monitor_bounds: g.measurement.monitor_bounds,
            icon_cell: GridCell {
                width: clamp_cell(g.measurement.icon_cell.width),
                height: clamp_cell(g.measurement.icon_cell.height),
            },
        },
        Err(_) => fallback_measurement(),
    }
}

/// The source label that a probe outcome leads to.
pub open spec fn probed_source(grid_probe: Result<GridProbe, String>) -> Seq<char> {
    match grid_probe {
        Ok(g) => g.source@,
        Err(_) => fallback_source(),
    }
}

/// The last error that a probe outcome leads to.
pub open spec fn probed_error(grid_probe: Result<GridProbe, String>) -> Option<Seq<char>> {
    match grid_probe {
        Ok(_) => None,
        Err(e) => Some(e@),
    }
}

/// The grid receipt for a desktop probe outcome: on success the probed geometry with a
/// clamped icon cell, probing on, and the reconciliation of `anchor_probe`; on failure
/// the fallback geometry, probing off, and the probe's error.
pub fn get_desktop_grid_status(
    grid_probe: Result<GridProbe, String>,
    anchor_probe: Result<Vec<ObservedAnchorPosition>, String>,
) -> (st: DesktopGridStatus)
    requires
        grid_status_fits(probed_measurement(grid_probe), grid_probe is Ok, anchor_probe),
    ensures
        is_grid_status(
            st,
            probed_measurement(grid_probe),
            grid_probe is Ok,
            probed_source(grid_probe),
            probed_error(grid_probe),
        ),
        grid_probe is Ok ==> is_reconciliation(
            st.reconciliation,
            anchor_probe,
            st.plans@,
            probed_measurement(grid_probe),
        ),
        (grid_probe matches Ok(g) ==> st.work_area == g.measurement.work_area
            && st.monitor_bounds == g.measurement.monitor_bounds && st.grid_rows as int
            == g.measurement.work_area.height as int / st.icon_cell.height as int
            && st.grid_columns as int == g.measurement.work_area.width as int
            / st.icon_cell.width as int),
        (grid_probe is Err ==> st.work_area == (GridRect { x: 0, y: 0, width: 1920, height: 1040 })),
{
    match grid_probe {
        Ok(probe) => {
            let measurement = DesktopGridMeasurement {
                work_area: probe.measurement.work_area,
                monitor_bounds: probe.measurement.monitor_bounds,
                icon_cell: sanitize_icon_cell(probe.measurement.icon_cell),
            };
            build_grid_status(measurement, true, probe.source, None, anchor_probe)
        },
        Err(error) => build_grid_status(
            fallback_grid_measurement(),
            false,
            String::from_str("deterministic-preview-fallback"),
            Some(error),
            anchor_probe,
        ),
    }
}

/// Whether the `requires` of `get_desktop_grid_status` holds for these probe outcomes.
pub fn desktop_grid_status_computable(
    grid_probe: &Result<GridProbe, String>,
    anchor_probe: &Result<Vec<ObservedAnchorPosition>, String>,
) -> (r: bool)
    ensures
        r == grid_status_fits(probed_measurement(*grid_probe), *grid_probe is Ok, *anchor_probe),
{
    match grid_probe {
        Ok(probe) => {
            let measurement = DesktopGridMeasurement {
                work_area: probe.measurement.work_area,
                monitor_bounds: probe.measurement.monitor_bounds,
                icon_cell: sanitize_icon_cell(probe.measurement.icon_cell),
            };
            grid_status_computable(&measurement, true, anchor_probe)
        },
        Err(_) => grid_status_computable(&fallback_grid_measurement(), false, anchor_probe),
    }
}

// ---------------------------------------------------------------------------
// Waiting for a probe process
// ---------------------------------------------------------------------------

/// How long a probe process may run before it is killed, in milliseconds.
pub const PROBE_TIMEOUT_MILLIS: u64 = 4000;

/// How long to sleep between polls of a running probe process, in milliseconds.
pub const PROBE_POLL_MILLIS: u64 = 50;

/// What a poll of a probe process found.
#[derive(Debug, Clone, Copy, PartialEq, Eq, Structural)]
pub enum ProbeWaitEvent {
    /// The process has exited.
    Exited,
    /// The process is still running, this long after it started.
    Running { elapsed_millis: u64 },
    /// Asking for the process state failed.
    WaitFailed,
}

/// What to do next while waiting for a probe process.
#[derive(Debug, Clone, Copy, PartialEq, Eq, Structural)]
pub enum ProbeWaitAction {
    /// Collect the output of the exited process.
    CollectOutput,
    /// Kill the process and report that it timed out.
    KillForTimeout,
    /// Sleep this long, then poll again.
    Sleep { millis: u64 },
    /// Report that waiting failed.
    ReportWaitFailure,
}

/// One step of waiting for a probe process: collect an exited process, kill one that
/// has run for the timeout or longer, else sleep for the poll interval.
pub fn probe_wait_step(event: ProbeWaitEvent) -> (a: ProbeWaitAction)
    ensures
        a == match event {
            ProbeWaitEvent::Exited => ProbeWaitAction::CollectOutput,
            ProbeWaitEvent::Running { elapsed_millis } => if elapsed_millis >= PROBE_TIMEOUT_MILLIS {
                ProbeWaitAction::KillForTimeout
            } else {
                ProbeWaitAction::Sleep { millis: PROBE_POLL_MILLIS }
            },
            ProbeWaitEvent::WaitFailed => ProbeWaitAction::ReportWaitFailure,
        },
{
    match event {
        ProbeWaitEvent::Exited => ProbeWaitAction::CollectOutput,
        ProbeWaitEvent::Running { elapsed_millis } => if elapsed_millis >= PROBE_TIMEOUT_MILLIS {
            ProbeWaitAction::KillForTimeout
        } else {
            ProbeWaitAction::Sleep { millis: PROBE_POLL_MILLIS }
        },
        ProbeWaitEvent::WaitFailed => ProbeWaitAction::ReportWaitFailure,
    }
}

} // verus!
