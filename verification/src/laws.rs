//! Properties of the anchor plan, the grid plan and the reconciliation, stated
//! independently of the definitions they are proved from.
use vstd::prelude::*;

use crate::anchor_shortcuts::{
    anchor_filename_text, file_extension, is_anchor_at, is_anchor_file_name, is_anchor_plan,
    is_segment_char, is_stale_anchor_file_name, last_dot_before, lemma_sanitized_shape,
    powershell_quoted, sanitized, segment_char, AnchorShortcut, ANCHOR_FILE_PREFIX,
};
use crate::desktop_grid::{
    anchor_name_parts, cell_h, cell_w, find_plan, find_slot, is_grid_plan, is_grid_status,
    is_match, is_slot_at, minus_one, parsed_anchor_name, probed_error, probed_measurement,
    probed_source, target_names, target_rect, AnchorPositionMatch, AnchorSlotRect,
    DesktopGridMeasurement, DesktopGridStatus, GridProbe, ObservedAnchorPosition,
    WidgetGridPlan,
};
use crate::text::{
    ascii_fold, dash_pred, decimal, digit_char, eq_ignore_ascii_case, has_prefix, has_suffix,
    is_whitespace, lemma_decimal_digits, lemma_slot_label_chars, lemma_slot_label_injective,
    lemma_split_last, lemma_split_step, lemma_trim_by_identity, lemma_trim_by_untouched,
    occurs_at, slot_label, split_from, trim_whitespace, whitespace_pred,
};

verus! {

/// No occurrence of ` - ` starts inside `s[lo..hi]` when that range holds no space.
proof fn lemma_no_separator_in(s: Seq<char>, lo: int, hi: int)
    requires
        forall|k: int| lo <= k < hi ==> s[k] != ' ',
    ensures
        forall|k: int| lo <= k < hi ==> !occurs_at(s, " - "@, k),
{
    reveal_strlit(" - ");
    assert forall|k: int| lo <= k < hi implies !occurs_at(s, " - "@, k) by {
        if occurs_at(s, " - "@, k) {
            assert(s.subrange(k, k + 3)[0] == s[k]);
        }
    }
}

/// The stem of a planned anchor file name, before `.lnk`.
pub open spec fn anchor_stem(w: Seq<char>, s: Seq<char>, slot: Seq<char>) -> Seq<char> {
    "OpenWidGet Anchor"@ + " - "@ + w + " - "@ + s + " - "@ + slot
}

/// No occurrence of ` - ` starts inside the Anchor prefix of a stem.
proof fn lemma_no_separator_in_prefix(stem: Seq<char>)
    requires
        stem.len() >= 17,
        stem.subrange(0, 17) == "OpenWidGet Anchor"@,
    ensures
        forall|k: int| 0 <= k < 17 ==> !occurs_at(stem, " - "@, k),
{
    reveal_strlit(" - ");
    reveal_strlit("OpenWidGet Anchor");
    let p = "OpenWidGet Anchor"@;
    assert forall|k: int| 0 <= k < 17 implies !occurs_at(stem, " - "@, k) by {
        if occurs_at(stem, " - "@, k) {
            assert(stem.subrange(k, k + 3)[0] == stem[k]);
            assert(stem.subrange(k, k + 3)[1] == stem[k + 1]);
            assert(stem[k] == stem.subrange(0, 17)[k]);
            if k + 1 < 17 {
                assert(stem[k + 1] == stem.subrange(0, 17)[k + 1]);
            }
            assert(p[k] == ' ' ==> k == 10);
        }
    }
}

/// A stem whose widget id, session id and slot hold no space splits back into them.
proof fn lemma_anchor_stem_splits(w: Seq<char>, s: Seq<char>, slot: Seq<char>)
    requires
        forall|i: int| 0 <= i < w.len() ==> w[i] != ' ',
        forall|i: int| 0 <= i < s.len() ==> s[i] != ' ',
        forall|i: int| 0 <= i < slot.len() ==> slot[i] != ' ',
    ensures
        split_from(anchor_stem(w, s, slot), " - "@, 0) == seq![
            "OpenWidGet Anchor"@,
            w,
            s,
            slot,
        ],
{
    reveal_strlit(" - ");
    reveal_strlit("OpenWidGet Anchor");
    let stem = anchor_stem(w, s, slot);
    let sep = " - "@;
    let ws = w.len() as int;
    let ss = s.len() as int;
    let ls = slot.len() as int;
    assert(stem.len() == 26 + ws + ss + ls);
    assert(stem.subrange(0, 17) =~= "OpenWidGet Anchor"@);
    assert(stem.subrange(17, 20) =~= sep);
    assert(stem.subrange(20, 20 + ws) =~= w);
    assert(stem.subrange(20 + ws, 23 + ws) =~= sep);
    assert(stem.subrange(23 + ws, 23 + ws + ss) =~= s);
    assert(stem.subrange(23 + ws + ss, 26 + ws + ss) =~= sep);
    assert(stem.subrange(26 + ws + ss, stem.len() as int) =~= slot);
    lemma_no_separator_in_prefix(stem);
    assert forall|k: int| 20 <= k < 20 + ws implies stem[k] != ' ' by {
        assert(stem[k] == stem.subrange(20, 20 + ws)[k - 20]);
    }
    lemma_no_separator_in(stem, 20, 20 + ws);
    assert forall|k: int| 23 + ws <= k < 23 + ws + ss implies stem[k] != ' ' by {
        assert(stem[k] == stem.subrange(23 + ws, 23 + ws + ss)[k - 23 - ws]);
    }
    lemma_no_separator_in(stem, 23 + ws, 23 + ws + ss);
    assert forall|k: int| 26 + ws + ss <= k < stem.len() implies stem[k] != ' ' by {
        assert(stem[k] == stem.subrange(26 + ws + ss, stem.len() as int)[k - 26 - ws - ss]);
    }
    lemma_no_separator_in(stem, 26 + ws + ss, stem.len() as int);
    assert forall|k: int| 26 + ws + ss <= k implies !occurs_at(stem, sep, k) by {
        if k < stem.len() {
        }
    }
    lemma_split_step(stem, sep, 0, 17);
    lemma_split_step(stem, sep, 20, 20 + ws);
    lemma_split_step(stem, sep, 23 + ws, 23 + ws + ss);
    lemma_split_last(stem, sep, 26 + ws + ss);
    assert(split_from(stem, sep, 0) =~= seq!["OpenWidGet Anchor"@, w, s, slot]);
}

/// A planned anchor file name splits back into the prefix, the widget id, the session
/// id and the slot label, and so parses to its widget id and slot.
pub proof fn lemma_anchor_filename_parses(w: Seq<char>, s: Seq<char>, row: nat, column: nat)
    requires
        w.len() > 0,
        forall|i: int| 0 <= i < w.len() ==> is_segment_char(#[trigger] w[i]),
        forall|i: int| 0 <= i < s.len() ==> is_segment_char(#[trigger] s[i]),
    ensures
        parsed_anchor_name(anchor_filename_text(w, s, slot_label(row, column))) == Some(
            (w, slot_label(row, column)),
        ),
{
    reveal_strlit(".lnk");
    reveal_strlit("OpenWidGet Anchor");
    let slot = slot_label(row, column);
    lemma_slot_label_chars(row, column);
    let f = anchor_filename_text(w, s, slot);
    let stem = anchor_stem(w, s, slot);
    assert(f =~= stem + ".lnk"@);
    assert(f.subrange(f.len() - 4, f.len() as int) =~= ".lnk"@);
    assert(has_suffix(f, ".lnk"@));
    assert(f.subrange(0, f.len() - 4) =~= stem);
    assert forall|i: int| 0 <= i < w.len() implies w[i] != ' ' && !(whitespace_pred())(
        #[trigger] w[i],
    ) by {
        assert(is_segment_char(w[i]));
    }
    assert forall|i: int| 0 <= i < s.len() implies s[i] != ' ' by {
        assert(is_segment_char(s[i]));
    }
    assert forall|i: int| 0 <= i < slot.len() implies slot[i] != ' ' && !(whitespace_pred())(
        #[trigger] slot[i],
    ) by {
        assert(!is_whitespace(slot[i]));
    }
    lemma_anchor_stem_splits(w, s, slot);
    assert(anchor_name_parts(f) == seq!["OpenWidGet Anchor"@, w, s, slot]);
    lemma_trim_by_untouched(w, whitespace_pred());
    lemma_trim_by_untouched(slot, whitespace_pred());
    assert(trim_whitespace(w) == w);
    assert(trim_whitespace(slot) == slot);
    assert(slot[1 + decimal(row).len() as int] == 'c');
}

/// Every file name of an anchor plan parses back to the plan's widget id and the
/// anchor's slot label, so an observed Anchor Shortcut can always be traced to its slot
/// (when the sanitised widget id is not empty).
pub proof fn lemma_planned_names_parse_back(
    plan: Seq<AnchorShortcut>,
    widget: Seq<char>,
    session: Seq<char>,
    rows: nat,
    columns: nat,
)
    requires
        is_anchor_plan(plan, widget, session, rows, columns),
        sanitized(widget).len() > 0,
    ensures
        forall|i: int|
            0 <= i < plan.len() ==> parsed_anchor_name(#[trigger] plan[i].filename@) == Some(
                (plan[i].widget_id@, slot_label(plan[i].row as nat, plan[i].column as nat)),
            ),
{
    lemma_sanitized_shape(widget);
    lemma_sanitized_shape(session);
    assert forall|i: int| 0 <= i < plan.len() implies parsed_anchor_name(
        #[trigger] plan[i].filename@,
    ) == Some((plan[i].widget_id@, slot_label(plan[i].row as nat, plan[i].column as nat))) by {
        let row = (i / columns as int + 1) as nat;
        let column = (i % columns as int + 1) as nat;
        assert(is_anchor_at(plan[i], sanitized(widget), sanitized(session), row, column));
        lemma_anchor_filename_parses(sanitized(widget), sanitized(session), row, column);
    }
}


/// `k * w` for the 0-based cell index `k < n`: the cell starts at or after 0 and ends
/// at or before `n * w`, and a later cell starts at or after this one ends.
proof fn lemma_cell_span(k: int, k2: int, n: int, w: int)
    requires
        0 <= k < n,
        0 <= k2 < n,
        w >= 0,
    ensures
        0 <= k * w,
        k * w + w <= n * w,
        k < k2 ==> k * w + w <= k2 * w,
{
    assert(0 <= k * w) by (nonlinear_arith)
        requires
            0 <= k,
            w >= 0,
    ;
    assert(k * w + w <= n * w) by (nonlinear_arith)
        requires
            k + 1 <= n,
            w >= 0,
    ;
    if k < k2 {
        assert(k * w + w <= k2 * w) by (nonlinear_arith)
            requires
                k + 1 <= k2,
                w >= 0,
        ;
    }
}

/// The slots of a grid plan tile its rectangle: each slot lies inside the plan's
/// rectangle and no two slots overlap. This holds for cells whose sides fit in `i32`
/// (a larger `u32` side reads as a negative `i32` step).
pub proof fn lemma_grid_slots_tile_plan(
    p: WidgetGridPlan,
    widget_id: Seq<char>,
    columns: u8,
    rows: u8,
    start_column: u8,
    start_row: u8,
    m: DesktopGridMeasurement,
)
    requires
        is_grid_plan(p, widget_id, columns, rows, start_column, start_row, m),
        m.icon_cell.width <= i32::MAX,
        m.icon_cell.height <= i32::MAX,
    ensures
        forall|i: int|
            0 <= i < p.anchor_slots@.len() ==> {
                let r = (#[trigger] p.anchor_slots@[i]).rect;
                &&& p.rect.x <= r.x
                &&& r.x + r.width <= p.rect.x + p.rect.width
                &&& p.rect.y <= r.y
                &&& r.y + r.height <= p.rect.y + p.rect.height
            },
        forall|i: int, j: int|
            0 <= i < p.anchor_slots@.len() && 0 <= j < p.anchor_slots@.len() && i != j ==> {
                let a = (#[trigger] p.anchor_slots@[i]).rect;
                let b = (#[trigger] p.anchor_slots@[j]).rect;
                ||| a.x + a.width <= b.x
                ||| b.x + b.width <= a.x
                ||| a.y + a.height <= b.y
                ||| b.y + b.height <= a.y
            },
{
    let w = cell_w(m);
    let h = cell_h(m);
    assert(w == m.icon_cell.width);
    assert(h == m.icon_cell.height);
    let c = columns as int;
    let slots = p.anchor_slots@;
    assert forall|i: int| 0 <= i < slots.len() implies {
        let r = (#[trigger] slots[i]).rect;
        &&& p.rect.x <= r.x
        &&& r.x + r.width <= p.rect.x + p.rect.width
        &&& p.rect.y <= r.y
        &&& r.y + r.height <= p.rect.y + p.rect.height
    } by {
        assert(is_slot_at(slots[i], m, start_column, start_row, i / c + 1, i % c + 1));
        assert(0 <= i / c < rows) by (nonlinear_arith)
            requires
                0 <= i < rows * c,
                c > 0,
        ;
        lemma_cell_span(i % c, i % c, c, w);
        lemma_cell_span(i / c, i / c, rows as int, h);
    }
    assert forall|i: int, j: int|
        0 <= i < slots.len() && 0 <= j < slots.len() && i != j implies {
        let a = (#[trigger] slots[i]).rect;
        let b = (#[trigger] slots[j]).rect;
        ||| a.x + a.width <= b.x
        ||| b.x + b.width <= a.x
        ||| a.y + a.height <= b.y
        ||| b.y + b.height <= a.y
    } by {
        assert(is_slot_at(slots[i], m, start_column, start_row, i / c + 1, i % c + 1));
        assert(is_slot_at(slots[j], m, start_column, start_row, j / c + 1, j % c + 1));
        assert(0 <= i / c < rows && 0 <= j / c < rows) by (nonlinear_arith)
            requires
                0 <= i < rows * c,
                0 <= j < rows * c,
                c > 0,
        ;
        vstd::arithmetic::div_mod::lemma_fundamental_div_mod(i, c);
        vstd::arithmetic::div_mod::lemma_fundamental_div_mod(j, c);
        lemma_cell_span(i % c, j % c, c, w);
        lemma_cell_span(j % c, i % c, c, w);
        lemma_cell_span(i / c, j / c, rows as int, h);
        lemma_cell_span(j / c, i / c, rows as int, h);
    }
}


proof fn lemma_find_plan_first(plans: Seq<WidgetGridPlan>, w: Seq<char>, i: int, k: int)
    requires
        0 <= i <= k < plans.len(),
        plans[k].widget_id@ == w,
        forall|j: int| i <= j < k ==> plans[j].widget_id@ != w,
    ensures
        find_plan(plans, w, i) == Some(k),
    decreases k - i,
{
    if i < k {
        lemma_find_plan_first(plans, w, i + 1, k);
    }
}

proof fn lemma_find_slot_first(slots: Seq<AnchorSlotRect>, s: Seq<char>, i: int, k: int)
    requires
        0 <= i <= k < slots.len(),
        slots[k].slot@ == s,
        forall|j: int| i <= j < k ==> slots[j].slot@ != s,
    ensures
        find_slot(slots, s, i) == Some(k),
    decreases k - i,
{
    if i < k {
        lemma_find_slot_first(slots, s, i + 1, k);
    }
}

/// The slots of a grid plan carry distinct labels, so the `i`-th is the first one
/// labelled like it.
proof fn lemma_grid_slot_found(
    p: WidgetGridPlan,
    widget_id: Seq<char>,
    m: DesktopGridMeasurement,
    i: int,
)
    requires
        is_grid_plan(p, widget_id, p.columns, p.rows, p.start_column, p.start_row, m),
        0 <= i < p.anchor_slots@.len(),
    ensures
        find_slot(p.anchor_slots@, p.anchor_slots@[i].slot@, 0) == Some(i),
{
    let slots = p.anchor_slots@;
    let c = p.columns as int;
    assert forall|j: int| 0 <= j < i implies slots[j].slot@ != slots[i].slot@ by {
        assert(is_slot_at(slots[i], m, p.start_column, p.start_row, i / c + 1, i % c + 1));
        assert(is_slot_at(slots[j], m, p.start_column, p.start_row, j / c + 1, j % c + 1));
        assert(c > 0) by (nonlinear_arith)
            requires
                0 <= i < p.rows * c,
        ;
        vstd::arithmetic::div_mod::lemma_fundamental_div_mod(i, c);
        vstd::arithmetic::div_mod::lemma_fundamental_div_mod(j, c);
        vstd::arithmetic::div_mod::lemma_div_pos_is_pos(i, c);
        vstd::arithmetic::div_mod::lemma_div_pos_is_pos(j, c);
        vstd::arithmetic::div_mod::lemma_mod_pos_bound(i, c);
        vstd::arithmetic::div_mod::lemma_mod_pos_bound(j, c);
        if slots[j].slot@ == slots[i].slot@ {
            lemma_slot_label_injective(
                (j / c + 1) as nat,
                (j % c + 1) as nat,
                (i / c + 1) as nat,
                (i % c + 1) as nat,
            );
        }
    }
    lemma_find_slot_first(slots, slots[i].slot@, 0, i);
}

/// Reconciliation is exact: an Anchor Shortcut that the anchor plan of a widget names,
/// observed exactly at its grid slot in the monitor-relative (ListView) coordinates,
/// is matched to that slot with a zero delta. The widget id must be its own sanitised
/// form (so that the anchor file names and the grid plan carry the same id), and the
/// widget's grid plan must be the first plan of that id.
pub proof fn lemma_exact_anchor_reconciles(
    anchors: Seq<AnchorShortcut>,
    widget: Seq<char>,
    session: Seq<char>,
    plans: Seq<WidgetGridPlan>,
    k: int,
    m: DesktopGridMeasurement,
    i: int,
    observed: ObservedAnchorPosition,
    r: AnchorPositionMatch,
)
    requires
        sanitized(widget) == widget,
        widget.len() > 0,
        0 <= k < plans.len(),
        is_grid_plan(
            plans[k],
            widget,
            plans[k].columns,
            plans[k].rows,
            plans[k].start_column,
            plans[k].start_row,
            m,
        ),
        forall|j: int| 0 <= j < k ==> plans[j].widget_id@ != widget,
        is_anchor_plan(anchors, widget, session, plans[k].rows as nat, plans[k].columns as nat),
        0 <= i < anchors.len(),
        observed.name@ == anchors[i].filename@,
        observed.x == plans[k].anchor_slots@[i].rect.x - m.monitor_bounds.x,
        observed.y == plans[k].anchor_slots@[i].rect.y - m.monitor_bounds.y,
        is_match(r, observed, plans, m),
    ensures
        r.target_widget_id@ == widget,
        r.target_slot@ == plans[k].anchor_slots@[i].slot@,
        r.target_rect == Some(plans[k].anchor_slots@[i].rect),
        r.delta_x == Some(0i32),
        r.delta_y == Some(0i32),
        r.status@ == "observed-target-view-delta"@,
{
    let p = plans[k];
    let c = p.columns as int;
    lemma_planned_names_parse_back(anchors, widget, session, p.rows as nat, p.columns as nat);
    assert(parsed_anchor_name(anchors[i].filename@) == Some(
        (anchors[i].widget_id@, slot_label(anchors[i].row as nat, anchors[i].column as nat)),
    ));
    assert(is_anchor_at(
        anchors[i],
        sanitized(widget),
        sanitized(session),
        (i / c + 1) as nat,
        (i % c + 1) as nat,
    ));
    assert(is_slot_at(p.anchor_slots@[i], m, p.start_column, p.start_row, i / c + 1, i % c + 1));
    let label = p.anchor_slots@[i].slot@;
    assert(target_names(observed.name@) == (widget, label));
    lemma_find_plan_first(plans, widget, 0, k);
    lemma_grid_slot_found(p, widget, m, i);
    assert(target_rect(observed.name@, plans) == Some(p.anchor_slots@[i].rect));
}


/// Moving the work area moves every plan with it: a plan computed on a work area
/// shifted by `(dx, dy)` (same cells) has its rectangle and every slot rectangle shifted
/// by `(dx, dy)`, with the same slot labels and sizes.
pub proof fn lemma_grid_plan_translates(
    a: WidgetGridPlan,
    b: WidgetGridPlan,
    widget_id: Seq<char>,
    columns: u8,
    rows: u8,
    start_column: u8,
    start_row: u8,
    m: DesktopGridMeasurement,
    m2: DesktopGridMeasurement,
    dx: int,
    dy: int,
)
    requires
        is_grid_plan(a, widget_id, columns, rows, start_column, start_row, m),
        is_grid_plan(b, widget_id, columns, rows, start_column, start_row, m2),
        m2.icon_cell == m.icon_cell,
        m2.work_area.x == m.work_area.x + dx,
        m2.work_area.y == m.work_area.y + dy,
    ensures
        b.rect.x == a.rect.x + dx,
        b.rect.y == a.rect.y + dy,
        b.rect.width == a.rect.width,
        b.rect.height == a.rect.height,
        b.anchor_slots@.len() == a.anchor_slots@.len(),
        forall|i: int|
            0 <= i < a.anchor_slots@.len() ==> {
                let sa = #[trigger] a.anchor_slots@[i];
                let sb = b.anchor_slots@[i];
                &&& sb.slot@ == sa.slot@
                &&& sb.row == sa.row
                &&& sb.column == sa.column
                &&& sb.rect.x == sa.rect.x + dx
                &&& sb.rect.y == sa.rect.y + dy
                &&& sb.rect.width == sa.rect.width
                &&& sb.rect.height == sa.rect.height
            },
{
    let c = columns as int;
    assert forall|i: int| 0 <= i < a.anchor_slots@.len() implies {
        let sa = #[trigger] a.anchor_slots@[i];
        let sb = b.anchor_slots@[i];
        &&& sb.slot@ == sa.slot@
        &&& sb.row == sa.row
        &&& sb.column == sa.column
        &&& sb.rect.x == sa.rect.x + dx
        &&& sb.rect.y == sa.rect.y + dy
        &&& sb.rect.width == sa.rect.width
        &&& sb.rect.height == sa.rect.height
    } by {
        assert(is_slot_at(a.anchor_slots@[i], m, start_column, start_row, i / c + 1, i % c + 1));
        assert(is_slot_at(b.anchor_slots@[i], m2, start_column, start_row, i / c + 1, i % c + 1));
    }
}

/// A start of 0 means the first row or column, as 1 does: plans whose starts agree
/// once 0 is read as 1 have the same rectangle and the same slots.
pub proof fn lemma_grid_plan_start_zero_is_first(
    a: WidgetGridPlan,
    b: WidgetGridPlan,
    widget_id: Seq<char>,
    columns: u8,
    rows: u8,
    start_column_a: u8,
    start_row_a: u8,
    start_column_b: u8,
    start_row_b: u8,
    m: DesktopGridMeasurement,
)
    requires
        is_grid_plan(a, widget_id, columns, rows, start_column_a, start_row_a, m),
        is_grid_plan(b, widget_id, columns, rows, start_column_b, start_row_b, m),
        minus_one(start_column_a) == minus_one(start_column_b),
        minus_one(start_row_a) == minus_one(start_row_b),
    ensures
        b.rect == a.rect,
        b.anchor_slots@.len() == a.anchor_slots@.len(),
        forall|i: int|
            0 <= i < a.anchor_slots@.len() ==> (#[trigger] b.anchor_slots@[i]).slot@
                == a.anchor_slots@[i].slot@ && b.anchor_slots@[i].rect == a.anchor_slots@[i].rect,
{
    let c = columns as int;
    assert forall|i: int| 0 <= i < a.anchor_slots@.len() implies (
    #[trigger] b.anchor_slots@[i]).slot@ == a.anchor_slots@[i].slot@ && b.anchor_slots@[i].rect
        == a.anchor_slots@[i].rect by {
        assert(is_slot_at(a.anchor_slots@[i], m, start_column_a, start_row_a, i / c + 1, i % c + 1));
        assert(is_slot_at(b.anchor_slots@[i], m, start_column_b, start_row_b, i / c + 1, i % c + 1));
    }
}


/// Sanitising keeps what is already safe: a string of ASCII letters (either case),
/// digits, `-` and `_` that neither begins nor ends with `-` is its own sanitised form
/// (so `Clock` stays `Clock`).
pub proof fn lemma_sanitize_keeps_safe_ids(s: Seq<char>)
    requires
        forall|i: int|
            0 <= i < s.len() ==> {
                let u = (#[trigger] s[i]) as u32;
                ||| 0x30 <= u && u <= 0x39
                ||| 0x41 <= u && u <= 0x5a
                ||| 0x61 <= u && u <= 0x7a
                ||| s[i] == '-'
                ||| s[i] == '_'
            },
        s.len() > 0 ==> s[0] != '-' && s[s.len() - 1] != '-',
    ensures
        sanitized(s) == s,
{
    assert forall|i: int| 0 <= i < s.len() implies is_segment_char(#[trigger] s[i]) by {}
    assert(s.map_values(|c: char| segment_char(c)) =~= s);
    lemma_trim_by_identity(s, dash_pred());
}

/// Before trimming, sanitising maps every ASCII letter (either case) and digit to itself.
pub proof fn lemma_sanitize_keeps_alphanumerics(s: Seq<char>, i: int)
    requires
        0 <= i < s.len(),
        ({
            let u = s[i] as u32;
            ||| 0x30 <= u && u <= 0x39
            ||| 0x41 <= u && u <= 0x5a
            ||| 0x61 <= u && u <= 0x7a
        }),
    ensures
        s.map_values(|c: char| segment_char(c))[i] == s[i],
{
}

/// `'` collapsed back from `''`, reading from the end.
pub open spec fn collapse_doubled_quotes(t: Seq<char>) -> Seq<char>
    decreases t.len(),
{
    if t.len() >= 2 && t[t.len() - 1] == '\'' && t[t.len() - 2] == '\'' {
        collapse_doubled_quotes(t.subrange(0, t.len() - 2)).push('\'')
    } else if t.len() > 0 {
        collapse_doubled_quotes(t.drop_last()).push(t.last())
    } else {
        Seq::empty()
    }
}

/// PowerShell quoting changes nothing but apostrophes: text without `'` is quoted as
/// itself.
pub proof fn lemma_quote_without_apostrophes_is_identity(s: Seq<char>)
    requires
        forall|i: int| 0 <= i < s.len() ==> s[i] != '\'',
    ensures
        powershell_quoted(s) == s,
    decreases s.len(),
{
    if s.len() > 0 {
        lemma_quote_without_apostrophes_is_identity(s.drop_last());
        assert(s.drop_last().push(s.last()) =~= s);
    }
}

/// PowerShell quoting is undone by collapsing every `''` back to `'`: it only doubles
/// apostrophes.
pub proof fn lemma_quote_collapses_back(s: Seq<char>)
    ensures
        collapse_doubled_quotes(powershell_quoted(s)) == s,
        powershell_quoted(s).len() >= s.len(),
    decreases s.len(),
{
    if s.len() > 0 {
        let q = powershell_quoted(s.drop_last());
        lemma_quote_collapses_back(s.drop_last());
        let t = powershell_quoted(s);
        if s.last() == '\'' {
            assert(t =~= q + seq!['\'', '\'']);
            assert(t.subrange(0, t.len() - 2) =~= q);
        } else {
            assert(t =~= q.push(s.last()));
            assert(t.drop_last() =~= q);
        }
        assert(s.drop_last().push(s.last()) =~= s);
    }
}

/// A file name is stale for the active session exactly when it is an Anchor Shortcut
/// file name and the active session id occurs nowhere in it.
pub proof fn lemma_stale_means_other_session(name: Seq<char>, active: Seq<char>)
    ensures
        is_stale_anchor_file_name(name, active) <==> (is_anchor_file_name(name) && !exists|i: int|
            0 <= i && i + active.len() <= name.len() && #[trigger] name.subrange(
                i,
                i + active.len(),
            ) == active),
{
    if is_anchor_file_name(name) && !is_stale_anchor_file_name(name, active) {
        let i = choose|i: int| occurs_at(name, active, i);
        assert(name.subrange(i, i + active.len()) == active);
    }
    if is_stale_anchor_file_name(name, active) {
        assert forall|i: int|
            0 <= i && i + active.len() <= name.len() implies #[trigger] name.subrange(
            i,
            i + active.len(),
        ) != active by {
            if name.subrange(i, i + active.len()) == active {
                assert(occurs_at(name, active, i));
            }
        }
    }
}

/// A grid plan is labelled by its column count, `×`, then its row count, for every
/// footprint: a 2-column, 4-row widget is `2×4`.
pub proof fn lemma_plan_size_is_columns_by_rows(
    p: WidgetGridPlan,
    widget_id: Seq<char>,
    columns: u8,
    rows: u8,
    start_column: u8,
    start_row: u8,
    m: DesktopGridMeasurement,
)
    requires
        is_grid_plan(p, widget_id, columns, rows, start_column, start_row, m),
    ensures
        p.size@ == decimal(columns as nat) + seq!['\u{d7}'] + decimal(rows as nat),
        p.size@.subrange(0, decimal(columns as nat).len() as int) == decimal(columns as nat),
{
    assert((decimal(columns as nat) + seq!['\u{d7}'] + decimal(rows as nat)).subrange(
        0,
        decimal(columns as nat).len() as int,
    ) =~= decimal(columns as nat));
}

/// A successful probe's receipt reports the probed work area and monitor bounds
/// unchanged, the icon cell clamped into `[48, 256]`, and as many grid rows and columns
/// as whole clamped cells fit in the probed work area.
pub proof fn lemma_probed_receipt_keeps_probe(
    g: GridProbe,
    st: DesktopGridStatus,
)
    requires
        is_grid_status(
            st,
            probed_measurement(Ok::<GridProbe, String>(g)),
            true,
            probed_source(Ok::<GridProbe, String>(g)),
            probed_error(Ok::<GridProbe, String>(g)),
        ),
    ensures
        st.work_area == g.measurement.work_area,
        st.monitor_bounds == g.measurement.monitor_bounds,
        st.icon_cell.width == (if g.measurement.icon_cell.width < 48 {
            48
        } else if g.measurement.icon_cell.width > 256 {
            256
        } else {
            g.measurement.icon_cell.width
        }),
        st.icon_cell.height == (if g.measurement.icon_cell.height < 48 {
            48
        } else if g.measurement.icon_cell.height > 256 {
            256
        } else {
            g.measurement.icon_cell.height
        }),
        st.grid_rows as int == g.measurement.work_area.height as int / st.icon_cell.height as int,
        st.grid_columns as int == g.measurement.work_area.width as int / st.icon_cell.width as int,
        st.source@ == g.source@,
        st.last_error is None,
        st.enabled,
{
}


/// The index of the last `.` before `end`: it holds a `.`, and no later character does.
proof fn lemma_last_dot_before_props(name: Seq<char>, end: int)
    ensures
        last_dot_before(name, end) matches Some(k) ==> 0 <= k < end <= name.len() && name[k]
            == '.' && forall|j: int| k < j < end ==> name[j] != '.',
        last_dot_before(name, end) is None && 0 <= end <= name.len() ==> forall|j: int|
            0 <= j < end ==> name[j] != '.',
    decreases end,
{
    if end <= 0 || end > name.len() {
    } else if name[end - 1] == '.' {
    } else {
        lemma_last_dot_before_props(name, end - 1);
    }
}

/// A file name is an Anchor Shortcut exactly when it begins with `OpenWidGet Anchor`
/// and ends with `.lnk` in any ASCII case.
pub proof fn lemma_anchor_file_name_shape(n: Seq<char>)
    ensures
        is_anchor_file_name(n) <==> ({
            let l = n.len() as int;
            &&& l >= 21
            &&& n.subrange(0, 17) == "OpenWidGet Anchor"@
            &&& n[l - 4] == '.'
            &&& (n[l - 3] == 'l' || n[l - 3] == 'L')
            &&& (n[l - 2] == 'n' || n[l - 2] == 'N')
            &&& (n[l - 1] == 'k' || n[l - 1] == 'K')
        }),
{
    reveal_strlit("OpenWidGet Anchor");
    reveal_strlit("lnk");
    let l = n.len() as int;
    let p = "OpenWidGet Anchor"@;
    assert(ANCHOR_FILE_PREFIX@ == p);
    lemma_last_dot_before_props(n, l);
    if is_anchor_file_name(n) {
        let k = last_dot_before(n, l)->Some_0;
        let e = n.subrange(k + 1, l);
        assert(e.len() == 3);
        assert(n.subrange(0, 17) == p);
        assert forall|j: int| 0 <= j < 17 implies n[j] != '.' by {
            assert(n[j] == n.subrange(0, 17)[j]);
        }
        assert(k == l - 4);
        assert(e[0] == n[l - 3] && e[1] == n[l - 2] && e[2] == n[l - 1]);
        assert(ascii_fold(e[0]) == ascii_fold("lnk"@[0]));
        assert(ascii_fold(e[1]) == ascii_fold("lnk"@[1]));
        assert(ascii_fold(e[2]) == ascii_fold("lnk"@[2]));
        lemma_fold_is(n[l - 3], 'l', 'L');
        lemma_fold_is(n[l - 2], 'n', 'N');
        lemma_fold_is(n[l - 1], 'k', 'K');
        assert(k >= 17);
    }
    if l >= 21 && n.subrange(0, 17) == p && n[l - 4] == '.' && (n[l - 3] == 'l' || n[l - 3]
        == 'L') && (n[l - 2] == 'n' || n[l - 2] == 'N') && (n[l - 1] == 'k' || n[l - 1] == 'K') {
        assert(last_dot_before(n, l) == last_dot_before(n, l - 1));
        assert(last_dot_before(n, l - 1) == last_dot_before(n, l - 2));
        assert(last_dot_before(n, l - 2) == last_dot_before(n, l - 3));
        assert(last_dot_before(n, l - 3) == Some(l - 4));
        assert(n != seq!['.', '.']);
        let e = n.subrange(l - 3, l);
        assert(file_extension(n) == Some(e));
        assert(eq_ignore_ascii_case(e, "lnk"@));
        assert(has_prefix(n, ANCHOR_FILE_PREFIX@));
    }
}

/// A character that folds to the code of lower-case `lo` is `lo` or its upper case `up`.
proof fn lemma_fold_is(c: char, lo: char, up: char)
    requires
        0x61 <= lo as u32 <= 0x7a,
        up as u32 == lo as u32 - 0x20,
        ascii_fold(c) == ascii_fold(lo),
    ensures
        c == lo || c == up,
{
    assert(ascii_fold(lo) == lo as u32);
    assert(c as u32 == lo as u32 || c as u32 == up as u32);
}

/// The number that a string of decimal digits denotes, most significant digit first.
pub open spec fn digits_value(s: Seq<char>) -> int
    decreases s.len(),
{
    if s.len() == 0 {
        0
    } else {
        digits_value(s.drop_last()) * 10 + (s.last() as u32 - 0x30)
    }
}

/// The decimal rendering of `n` reads back as `n`, and it has no leading zero.
pub proof fn lemma_decimal_reads_back(n: nat)
    ensures
        digits_value(decimal(n)) == n,
        n > 0 ==> decimal(n)[0] != '0',
    decreases n,
{
    lemma_decimal_digits(n);
    let dn = decimal(n);
    let d = digit_char(n % 10);
    assert(d as u32 - 0x30 == n % 10);
    if n >= 10 {
        lemma_decimal_reads_back(n / 10);
        assert(dn.drop_last() =~= decimal(n / 10));
        assert(dn.last() == d);
        assert(dn[0] == decimal(n / 10)[0]);
        assert(digits_value(dn) == digits_value(dn.drop_last()) * 10 + (dn.last() as u32 - 0x30));
        assert((n / 10) * 10 + n % 10 == n);
    } else {
        assert(dn == seq![d]);
        assert(dn.drop_last() =~= Seq::<char>::empty());
        assert(digits_value(dn) == digits_value(dn.drop_last()) * 10 + (dn.last() as u32 - 0x30));
    }
}

} // verus!
