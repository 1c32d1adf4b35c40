//! Anchor Shortcut planning: the runtime-owned `.lnk` files that make a widget occupy
//! desktop icon-grid cells, how they are named and recognised, which of them are
//! stale, and the lifecycle receipt shown to the user.
use vstd::prelude::*;

use crate::text::{
    chars_of, contains_seq, dash_pred, decimal, eq_ignore_ascii_case, has_prefix, has_substring,
    lemma_decimal_digits, lemma_trim_by_identity, lemma_trim_by_shape, occurs_at, push_decimal,
    range_eq_ignore_ascii_case, slot_label, slot_label_string, starts_with_seq, string_of_range,
    trim_dashes, trim_range,
};

verus! {

/// The file-name prefix that marks a desktop shortcut as an OpenWidGet Anchor.
pub const ANCHOR_FILE_PREFIX: &'static str = "OpenWidGet Anchor";

/// One planned Anchor Shortcut of a widget footprint.
#[derive(Debug, Clone)]
pub struct AnchorShortcut {
    pub anchor_id: String,
    pub widget_id: String,
    pub session_id: String,
    pub row: u8,
    pub column: u8,
    pub filename: String,
    pub description: String,
    pub arguments: String,
}

/// The receipt of one startup pass over the desktop's Anchor Shortcuts.
#[derive(Debug, Clone)]
pub struct AnchorLifecycleStatus {
    pub platform: &'static str,
    pub enabled: bool,
    pub session_id: String,
    pub desktop_dir: String,
    pub state_dir: String,
    pub anchors_planned: usize,
    pub anchors_created: usize,
    pub stale_detected: usize,
    pub stale_deleted: usize,
    pub anchor_files: Vec<String>,
    pub last_error: Option<String>,
}

/// The runtime session and the directories that its Anchor Shortcuts live in.
#[derive(Debug, Clone)]
pub struct AnchorShortcutManager {
    session_id: String,
    desktop_dir: String,
    state_dir: String,
    target_exe: String,
    icon_path: String,
}

// ---------------------------------------------------------------------------
// Specifications
// ---------------------------------------------------------------------------

/// Characters that survive sanitising unchanged: ASCII letters, digits, `-` and `_`.
pub open spec fn is_segment_char(c: char) -> bool {
    let u = c as u32;
    ||| 0x30 <= u && u <= 0x39
    ||| 0x41 <= u && u <= 0x5a
    ||| 0x61 <= u && u <= 0x7a
    ||| c == '-'
    ||| c == '_'
}

/// A character as sanitising writes it.
pub open spec fn segment_char(c: char) -> char {
    if is_segment_char(c) {
        c
    } else {
        '-'
    }
}

/// Every other character replaced by `-`, then `-` trimmed from both ends.
pub open spec fn sanitized(s: Seq<char>) -> Seq<char> {
    trim_dashes(s.map_values(|c: char| segment_char(c)))
}

/// `{widget}-{session}-{slot}`.
pub open spec fn anchor_id_text(w: Seq<char>, s: Seq<char>, slot: Seq<char>) -> Seq<char> {
    w + "-"@ + s + "-"@ + slot
}

/// `OpenWidGet Anchor - {widget} - {session} - {slot}.lnk`.
pub open spec fn anchor_filename_text(w: Seq<char>, s: Seq<char>, slot: Seq<char>) -> Seq<char> {
    ANCHOR_FILE_PREFIX@ + " - "@ + w + " - "@ + s + " - "@ + slot + ".lnk"@
}

/// The shortcut description that marks the file as a runtime artifact.
pub open spec fn anchor_description_text(w: Seq<char>, s: Seq<char>, slot: Seq<char>) -> Seq<
    char,
> {
    "OpenWidGet runtime Anchor Shortcut; widget="@ + w + "; session="@ + s + "; slot="@ + slot
        + "; delete-on-exit=true"@
}

/// The command-line arguments the shortcut passes back to OpenWidGet.
pub open spec fn anchor_arguments_text(w: Seq<char>, s: Seq<char>, slot: Seq<char>) -> Seq<
    char,
> {
    "--open-anchor --widget-id "@ + w + " --anchor-id "@ + anchor_id_text(w, s, slot)
        + " --session-id "@ + s
}

/// `a` is the anchor of the sanitised widget `w` and session `s` at `(row, column)`.
pub open spec fn is_anchor_at(a: AnchorShortcut, w: Seq<char>, s: Seq<char>, row: nat, column: nat) -> bool {
    let slot = slot_label(row, column);
    &&& a.anchor_id@ == anchor_id_text(w, s, slot)
    &&& a.widget_id@ == w
    &&& a.session_id@ == s
    &&& a.row == row
    &&& a.column == column
    &&& a.filename@ == anchor_filename_text(w, s, slot)
    &&& a.description@ == anchor_description_text(w, s, slot)
    &&& a.arguments@ == anchor_arguments_text(w, s, slot)
}

/// `plan` is the row-major list of the `rows x columns` anchors of `widget` in `session`.
pub open spec fn is_anchor_plan(
    plan: Seq<AnchorShortcut>,
    widget: Seq<char>,
    session: Seq<char>,
    rows: nat,
    columns: nat,
) -> bool {
    &&& plan.len() == rows * columns
    &&& forall|i: int|
        0 <= i < plan.len() ==> is_anchor_at(
            #[trigger] plan[i],
            sanitized(widget),
            sanitized(session),
            (i / columns as int + 1) as nat,
            (i % columns as int + 1) as nat,
        )
}

/// The index of the last `.` in `name[..end]`, if any.
pub open spec fn last_dot_before(name: Seq<char>, end: int) -> Option<int>
    decreases end,
{
    if end <= 0 || end > name.len() {
        None
    } else if name[end - 1] == '.' {
        Some(end - 1)
    } else {
        last_dot_before(name, end - 1)
    }
}

/// The extension of a file name as `Path::extension` reads it: the text after the last
/// `.`, unless that `.` is the first character or the name is `..`.
pub open spec fn file_extension(name: Seq<char>) -> Option<Seq<char>> {
    if name == seq!['.', '.'] {
        None
    } else {
        match last_dot_before(name, name.len() as int) {
            Some(k) => if k == 0 {
                None
            } else {
                Some(name.subrange(k + 1, name.len() as int))
            },
            None => None,
        }
    }
}

/// A file name that OpenWidGet owns: extension `lnk` in any ASCII case, and the
/// Anchor prefix.
pub open spec fn is_anchor_file_name(name: Seq<char>) -> bool {
    &&& file_extension(name) matches Some(e) && eq_ignore_ascii_case(e, "lnk"@)
    &&& has_prefix(name, ANCHOR_FILE_PREFIX@)
}

/// An Anchor Shortcut left behind by another session than `active`.
pub open spec fn is_stale_anchor_file_name(name: Seq<char>, active: Seq<char>) -> bool {
    is_anchor_file_name(name) && !has_substring(name, active)
}

/// PowerShell single-quoted text: every `'` doubled.
pub open spec fn powershell_quoted(s: Seq<char>) -> Seq<char>
    decreases s.len(),
{
    if s.len() == 0 {
        Seq::empty()
    } else {
        powershell_quoted(s.drop_last()) + if s.last() == '\'' {
            seq!['\'', '\'']
        } else {
            seq![s.last()]
        }
    }
}

/// The PowerShell script that writes one `.lnk` through `WScript.Shell`.
pub open spec fn shortcut_script_text(
    shortcut_path: Seq<char>,
    target_path: Seq<char>,
    arguments: Seq<char>,
    description: Seq<char>,
    icon_path: Seq<char>,
) -> Seq<char> {
    "$wsh = New-Object -ComObject WScript.Shell; $lnk = $wsh.CreateShortcut('"@
        + powershell_quoted(shortcut_path) + "'); $lnk.TargetPath = '"@ + powershell_quoted(
        target_path,
    ) + "'; $lnk.Arguments = '"@ + powershell_quoted(arguments) + "'; $lnk.Description = '"@
        + powershell_quoted(description) + "'; $lnk.IconLocation = '"@ + powershell_quoted(
        icon_path + ",0"@,
    ) + "'; $lnk.Save()"@
}

/// The message that the receipt carries on a platform without shortcut materialisation.
pub open spec fn unsupported_message() -> Seq<char> {
    "Anchor Shortcut materialization is Windows-only; this platform only verifies the plan."@
}

/// The views of an optional string.
pub open spec fn opt_view(o: Option<String>) -> Option<Seq<char>> {
    match o {
        Some(s) => Some(s@),
        None => None,
    }
}

// ---------------------------------------------------------------------------
// Sanitising and planning
// ---------------------------------------------------------------------------

fn segment_char_of(c: char) -> (r: char)
    ensures
        r == segment_char(c),
{
    let u = c as u32;
    if (0x30 <= u && u <= 0x39) || (0x41 <= u && u <= 0x5a) || (0x61 <= u && u <= 0x7a) || c
        == '-' || c == '_' {
        c
    } else {
        '-'
    }
}

/// Makes `value` safe for file names and arguments: every character other than an
/// ASCII letter, digit, `-` or `_` becomes `-`, and `-` is trimmed from both ends.
pub fn sanitize_segment(value: &str) -> (r: String)
    ensures
        r@ == sanitized(value@),
{
    let v = chars_of(value);
    let mut mapped: Vec<char> = Vec::new();
    let mut i: usize = 0;
    while i < v.len()
        invariant
            i <= v.len(),
            v@ == value@,
            mapped@ == v@.take(i as int).map_values(|c: char| segment_char(c)),
        decreases v.len() - i,
    {
        mapped.push(segment_char_of(v[i]));
        assert(v@.take(i + 1) =~= v@.take(i as int).push(v@[i as int]));
        assert(v@.take(i + 1).map_values(|c: char| segment_char(c)) =~= v@.take(
            i as int,
        ).map_values(|c: char| segment_char(c)).push(segment_char(v@[i as int])));
        i = i + 1;
    }
    assert(v@.take(v.len() as int) =~= v@);
    let (a, b) = trim_range(&mapped, 0, mapped.len(), true);
    assert(mapped@.subrange(0, mapped.len() as int) =~= mapped@);
    string_of_range(&mapped, a, b)
}

fn anchor_for(widget: &String, session: &String, row: u8, column: u8) -> (a: AnchorShortcut)
    ensures
        is_anchor_at(a, widget@, session@, row as nat, column as nat),
{
    let slot = slot_label_string(row, column);
    let ghost slot_v = slot_label(row as nat, column as nat);

    let mut anchor_id = String::new();
    anchor_id.append(widget.as_str());
    anchor_id.append("-");
    anchor_id.append(session.as_str());
    anchor_id.append("-");
    anchor_id.append(slot.as_str());
    assert(anchor_id@ =~= anchor_id_text(widget@, session@, slot_v));

    let mut filename = String::new();
    filename.append(ANCHOR_FILE_PREFIX);
    filename.append(" - ");
    filename.append(widget.as_str());
    filename.append(" - ");
    filename.append(session.as_str());
    filename.append(" - ");
    filename.append(slot.as_str());
    filename.append(".lnk");
    assert(filename@ =~= anchor_filename_text(widget@, session@, slot_v));

    let mut description = String::new();
    description.append("OpenWidGet runtime Anchor Shortcut; widget=");
    description.append(widget.as_str());
    description.append("; session=");
    description.append(session.as_str());
    description.append("; slot=");
    description.append(slot.as_str());
    description.append("; delete-on-exit=true");
    assert(description@ =~= anchor_description_text(widget@, session@, slot_v));

    let mut arguments = String::new();
    arguments.append("--open-anchor --widget-id ");
    arguments.append(widget.as_str());
    arguments.append(" --anchor-id ");
    arguments.append(anchor_id.as_str());
    arguments.append(" --session-id ");
    arguments.append(session.as_str());
    assert(arguments@ =~= anchor_arguments_text(widget@, session@, slot_v));

    AnchorShortcut {
        anchor_id,
        widget_id: widget.clone(),
        session_id: session.clone(),
        row,
        column,
        filename,
        description,
        arguments,
    }
}

/// The Anchor Shortcuts of a `rows x columns` widget footprint, row by row: the anchor
/// at index `i` sits at row `i / columns + 1`, column `i % columns + 1`, and carries the
/// sanitised widget and session ids in its id, file name, description and arguments.
pub fn build_anchor_plan(widget_id: &str, rows: u8, columns: u8, session_id: &str) -> (plan: Vec<
    AnchorShortcut,
>)
    ensures
        is_anchor_plan(plan@, widget_id@, session_id@, rows as nat, columns as nat),
{
    let widget = sanitize_segment(widget_id);
    let session = sanitize_segment(session_id);
    let ghost w = sanitized(widget_id@);
    let ghost s = sanitized(session_id@);
    let mut anchors: Vec<AnchorShortcut> = Vec::new();
    let mut row: u8 = 0;
    while row < rows
        invariant
            row <= rows,
            widget@ == w,
            session@ == s,
            anchors.len() == row as int * columns as int,
            forall|i: int|
                0 <= i < anchors.len() ==> is_anchor_at(
                    #[trigger] anchors@[i],
                    w,
                    s,
                    (i / columns as int + 1) as nat,
                    (i % columns as int + 1) as nat,
                ),
        decreases rows - row,
    {
        row = row + 1;
        let mut column: u8 = 0;
        while column < columns
            invariant
                1 <= row <= rows,
                column <= columns,
                widget@ == w,
                session@ == s,
                anchors.len() == (row - 1) as int * columns as int + column as int,
                forall|i: int|
                    0 <= i < anchors.len() ==> is_anchor_at(
                        #[trigger] anchors@[i],
                        w,
                        s,
                        (i / columns as int + 1) as nat,
                        (i % columns as int + 1) as nat,
                    ),
            decreases columns - column,
        {
            column = column + 1;
            let ghost idx = anchors.len() as int;
            proof {
                vstd::arithmetic::div_mod::lemma_fundamental_div_mod_converse(
                    idx,
                    columns as int,
                    (row - 1) as int,
                    (column - 1) as int,
                );
            }
            let a = anchor_for(&widget, &session, row, column);
            anchors.push(a);
            assert(is_anchor_at(
                anchors@[idx],
                w,
                s,
                (idx / columns as int + 1) as nat,
                (idx % columns as int + 1) as nat,
            ));
        }
        assert((row - 1) as int * columns as int + columns as int == row as int * columns as int)
            by (nonlinear_arith);
    }
    anchors
}

/// The session id of a runtime started `seconds` after the Unix epoch by process `pid`:
/// `{seconds}-{pid}`, sanitised (which leaves it as it is).
pub fn generate_session_id(seconds: u64, pid: u32) -> (r: String)
    ensures
        r@ == sanitized(decimal(seconds as nat) + "-"@ + decimal(pid as nat)),
        r@ == decimal(seconds as nat) + "-"@ + decimal(pid as nat),
{
    let mut raw = String::new();
    push_decimal(&mut raw, seconds);
    raw.append("-");
    push_decimal(&mut raw, pid as u64);
    proof {
        lemma_digits_dash_digits_sanitized(seconds as nat, pid as nat);
    }
    sanitize_segment(raw.as_str())
}

/// `{a}-{b}` is left unchanged by sanitising.
proof fn lemma_digits_dash_digits_sanitized(a: nat, b: nat)
    ensures
        sanitized(decimal(a) + "-"@ + decimal(b)) == decimal(a) + "-"@ + decimal(b),
{
    reveal_strlit("-");
    lemma_decimal_digits(a);
    lemma_decimal_digits(b);
    let t = decimal(a) + "-"@ + decimal(b);
    let da = decimal(a);
    let db = decimal(b);
    assert forall|i: int| 0 <= i < t.len() implies is_segment_char(#[trigger] t[i]) by {
        if i < da.len() {
            assert(t[i] == da[i]);
        } else if i == da.len() {
        } else {
            assert(t[i] == db[i - da.len() - 1]);
        }
    }
    assert(t.map_values(|c: char| segment_char(c)) =~= t);
    assert(t[0] == da[0]);
    assert(t.last() == db[db.len() - 1]);
    lemma_trim_by_identity(t, dash_pred());
}

// ---------------------------------------------------------------------------
// Recognising and selecting anchor files
// ---------------------------------------------------------------------------

fn extension_is_lnk(name: &Vec<char>) -> (r: bool)
    ensures
        r == (file_extension(name@) matches Some(e) && eq_ignore_ascii_case(e, "lnk"@)),
{
    let dotdot = name.len() == 2 && name[0] == '.' && name[1] == '.';
    if dotdot {
        assert(name@ =~= seq!['.', '.']);
        return false;
    }
    assert(name@ != seq!['.', '.']);
    let mut end = name.len();
    while end > 0 && name[end - 1] != '.'
        invariant
            end <= name.len(),
            last_dot_before(name@, end as int) == last_dot_before(name@, name.len() as int),
        decreases end,
    {
        end = end - 1;
    }
    if end == 0 {
        return false;
    }
    let k = end - 1;
    assert(last_dot_before(name@, name.len() as int) == Some(k as int));
    if k == 0 {
        return false;
    }
    let lnk = chars_of("lnk");
    range_eq_ignore_ascii_case(name, k + 1, name.len(), &lnk)
}

/// Whether a desktop file name is an OpenWidGet Anchor Shortcut: its extension is
/// `lnk` in any ASCII case and it begins with [`ANCHOR_FILE_PREFIX`]. The argument is
/// the file-name component of the path.
pub fn is_openwidget_anchor_shortcut(file_name: &str) -> (r: bool)
    ensures
        r == is_anchor_file_name(file_name@),
{
    let name = chars_of(file_name);
    if !extension_is_lnk(&name) {
        return false;
    }
    let prefix = chars_of(ANCHOR_FILE_PREFIX);
    starts_with_seq(&name, &prefix)
}

/// Whether `file_name` is an Anchor Shortcut of another session than `active_session_id`
/// (its name does not contain the active session id).
pub fn is_stale_anchor_shortcut(file_name: &str, active_session_id: &str) -> (r: bool)
    ensures
        r == is_stale_anchor_file_name(file_name@, active_session_id@),
{
    if !is_openwidget_anchor_shortcut(file_name) {
        return false;
    }
    let name = chars_of(file_name);
    let active = chars_of(active_session_id);
    !contains_seq(&name, &active)
}

/// The indices, in increasing order, of the desktop file names that are stale Anchor
/// Shortcuts for `active_session_id`.
pub fn find_stale_anchor_shortcuts_in(file_names: &Vec<String>, active_session_id: &str) -> (r:
    Vec<usize>)
    ensures
        forall|k: int|
            0 <= k < r.len() ==> (#[trigger] r@[k]) < file_names.len()
                && is_stale_anchor_file_name(file_names@[r@[k] as int]@, active_session_id@),
        forall|k1: int, k2: int| 0 <= k1 < k2 < r.len() ==> r@[k1] < r@[k2],
        forall|i: int|
            0 <= i < file_names.len() && is_stale_anchor_file_name(
                #[trigger] file_names@[i]@,
                active_session_id@,
            ) ==> exists|k: int| 0 <= k < r.len() && r@[k] == i,
{
    let mut stale: Vec<usize> = Vec::new();
    let mut i: usize = 0;
    while i < file_names.len()
        invariant
            i <= file_names.len(),
            forall|k: int|
                0 <= k < stale.len() ==> (#[trigger] stale@[k]) < i
                    && is_stale_anchor_file_name(
                    file_names@[stale@[k] as int]@,
                    active_session_id@,
                ),
            forall|k1: int, k2: int| 0 <= k1 < k2 < stale.len() ==> stale@[k1] < stale@[k2],
            forall|j: int|
                0 <= j < i && is_stale_anchor_file_name(
                    #[trigger] file_names@[j]@,
                    active_session_id@,
                ) ==> exists|k: int| 0 <= k < stale.len() && stale@[k] == j,
        decreases file_names.len() - i,
    {
        let ghost before = stale@;
        let is_stale = is_stale_anchor_shortcut(file_names[i].as_str(), active_session_id);
        if is_stale {
            stale.push(i);
        }
        assert forall|j: int|
            0 <= j < i + 1 && is_stale_anchor_file_name(
                #[trigger] file_names@[j]@,
                active_session_id@,
            ) implies exists|k: int| 0 <= k < stale.len() && stale@[k] == j by {
            if j < i {
                let k = choose|k: int| 0 <= k < before.len() && before[k] == j;
                assert(stale@[k] == j);
            } else {
                assert(stale@[stale.len() - 1] == j);
            }
        }
        i = i + 1;
    }
    stale
}

// ---------------------------------------------------------------------------
// Shortcut script
// ---------------------------------------------------------------------------

/// `value` quoted for a PowerShell single-quoted string: every `'` becomes `''`.
pub fn powershell_single_quote(value: &str) -> (r: String)
    ensures
        r@ == powershell_quoted(value@),
{
    let v = chars_of(value);
    let mut r = String::new();
    let mut i: usize = 0;
    while i < v.len()
        invariant
            i <= v.len(),
            v@ == value@,
            r@ == powershell_quoted(v@.take(i as int)),
        decreases v.len() - i,
    {
        let c = v[i];
        if c == '\'' {
            r.push('\'');
            r.push('\'');
        } else {
            r.push(c);
        }
        assert(v@.take(i + 1).drop_last() =~= v@.take(i as int));
        assert(r@ =~= powershell_quoted(v@.take(i + 1)));
        i = i + 1;
    }
    assert(v@.take(v.len() as int) =~= v@);
    r
}

/// The PowerShell script that writes the shortcut at `shortcut_path` to `target_path`
/// with the given arguments, description and icon (icon index 0).
pub fn shortcut_script(
    shortcut_path: &str,
    target_path: &str,
    arguments: &str,
    description: &str,
    icon_path: &str,
) -> (r: String)
    ensures
        r@ == shortcut_script_text(
            shortcut_path@,
            target_path@,
            arguments@,
            description@,
            icon_path@,
        ),
{
    let mut icon = String::new();
    icon.append(icon_path);
    icon.append(",0");
    let mut r = String::new();
    r.append("$wsh = New-Object -ComObject WScript.Shell; $lnk = $wsh.CreateShortcut('");
    r.append(powershell_single_quote(shortcut_path).as_str());
    r.append("'); $lnk.TargetPath = '");
    r.append(powershell_single_quote(target_path).as_str());
    r.append("'; $lnk.Arguments = '");
    r.append(powershell_single_quote(arguments).as_str());
    r.append("'; $lnk.Description = '");
    r.append(powershell_single_quote(description).as_str());
    r.append("'; $lnk.IconLocation = '");
    r.append(powershell_single_quote(icon.as_str()).as_str());
    r.append("'; $lnk.Save()");
    assert(r@ =~= shortcut_script_text(
        shortcut_path@,
        target_path@,
        arguments@,
        description@,
        icon_path@,
    ));
    r
}

// ---------------------------------------------------------------------------
// Desktop folder resolution
// ---------------------------------------------------------------------------

/// Which folder the desktop resolves to.
#[derive(Debug, Clone, Copy, PartialEq, Eq, Structural)]
pub enum DesktopDirSource {
    /// The known folder that the shell reports.
    Known,
    /// The candidate at this index, the first that exists.
    Candidate(usize),
    /// The fallback folder.
    Fallback,
}

/// The first index from `i` on at which `v` holds `true`.
pub open spec fn first_true_from(v: Seq<bool>, i: int) -> Option<int>
    decreases v.len() - i,
{
    if i < 0 || i >= v.len() {
        None
    } else if v[i] {
        Some(i)
    } else {
        first_true_from(v, i + 1)
    }
}

/// The known folder when it is given and not empty, else the first candidate that
/// exists, else the fallback.
pub open spec fn desktop_dir_source(known: Option<Seq<char>>, exists: Seq<bool>) -> DesktopDirSource {
    match known {
        Some(k) if k.len() > 0 => DesktopDirSource::Known,
        _ => match first_true_from(exists, 0) {
            Some(i) => DesktopDirSource::Candidate(i as usize),
            None => DesktopDirSource::Fallback,
        },
    }
}

/// The environment variables whose folders are searched for a desktop, in order: the
/// user profile first, then the OneDrive roots as fallbacks.
pub fn desktop_root_env_keys() -> (keys: Vec<&'static str>)
    ensures
        keys@.len() == 4,
        keys@[0]@ == "USERPROFILE"@,
        keys@[1]@ == "OneDrive"@,
        keys@[2]@ == "OneDriveConsumer"@,
        keys@[3]@ == "OneDriveCommercial"@,
{
    let mut keys: Vec<&'static str> = Vec::new();
    keys.push("USERPROFILE");
    keys.push("OneDrive");
    keys.push("OneDriveConsumer");
    keys.push("OneDriveCommercial");
    keys
}

/// Where the state folder lives.
#[derive(Debug, Clone, Copy, PartialEq, Eq, Structural)]
pub enum StateDirSource {
    /// `OpenWidGet` under `LOCALAPPDATA`.
    LocalAppData,
    /// `OpenWidGet` under `APPDATA`.
    AppData,
    /// `.openwidget` under `HOME`.
    Home,
    /// `OpenWidGet` under the temporary folder.
    Temp,
}

/// The state folder's root: `LOCALAPPDATA` when it is set, else `APPDATA`, else `HOME`,
/// else the temporary folder.
pub fn choose_state_dir(local_app_data_set: bool, app_data_set: bool, home_set: bool) -> (r:
    StateDirSource)
    ensures
        r == if local_app_data_set {
            StateDirSource::LocalAppData
        } else if app_data_set {
            StateDirSource::AppData
        } else if home_set {
            StateDirSource::Home
        } else {
            StateDirSource::Temp
        },
{
    if local_app_data_set {
        StateDirSource::LocalAppData
    } else if app_data_set {
        StateDirSource::AppData
    } else if home_set {
        StateDirSource::Home
    } else {
        StateDirSource::Temp
    }
}

/// The folder name placed under the chosen root: `.openwidget` under `HOME`, else
/// `OpenWidGet`.
pub fn state_dir_folder_name(source: StateDirSource) -> (name: &'static str)
    ensures
        name@ == if source == StateDirSource::Home {
            ".openwidget"@
        } else {
            "OpenWidGet"@
        },
{
    match source {
        StateDirSource::Home => ".openwidget",
        _ => "OpenWidGet",
    }
}

/// The desktop folder names tried under each root, in order: `Desktop`, then the
/// Korean localised name `바탕 화면`.
pub fn desktop_folder_names() -> (names: Vec<&'static str>)
    ensures
        names@.len() == 2,
        names@[0]@ == "Desktop"@,
        names@[1]@ == "\u{BC14}\u{D0D5} \u{D654}\u{BA74}"@,
{
    let mut names: Vec<&'static str> = Vec::new();
    names.push("Desktop");
    names.push("\u{BC14}\u{D0D5} \u{D654}\u{BA74}");
    names
}

/// The desktop candidates for `root_count` roots, as (root index, folder name) pairs
/// ordered by root first, then by folder name: candidate `k` is root `k / 2` with
/// folder name `k % 2` of [`desktop_folder_names`].
pub fn desktop_candidates(root_count: usize) -> (r: Vec<(usize, &'static str)>)
    requires
        root_count <= usize::MAX / 2,
    ensures
        r@.len() == 2 * root_count,
        forall|k: int|
            0 <= k < r@.len() ==> (#[trigger] r@[k]).0 == k / 2 && (if k % 2 == 0 {
                r@[k].1@ == "Desktop"@
            } else {
                r@[k].1@ == "\u{BC14}\u{D0D5} \u{D654}\u{BA74}"@
            }),
{
    let names = desktop_folder_names();
    let mut r: Vec<(usize, &'static str)> = Vec::new();
    let mut root: usize = 0;
    while root < root_count
        invariant
            root <= root_count <= usize::MAX / 2,
            names@.len() == 2,
            names@[0]@ == "Desktop"@,
            names@[1]@ == "\u{BC14}\u{D0D5} \u{D654}\u{BA74}"@,
            r@.len() == 2 * root,
            forall|k: int|
                0 <= k < r@.len() ==> (#[trigger] r@[k]).0 == k / 2 && (if k % 2 == 0 {
                    r@[k].1@ == "Desktop"@
                } else {
                    r@[k].1@ == "\u{BC14}\u{D0D5} \u{D654}\u{BA74}"@
                }),
        decreases root_count - root,
    {
        r.push((root, names[0]));
        r.push((root, names[1]));
        root = root + 1;
    }
    r
}

/// Which folder the desktop resolves to, given whether the known folder is set and
/// which candidates exist.
pub fn choose_desktop_dir(known_desktop: &Option<String>, candidate_exists: &Vec<bool>) -> (r:
    DesktopDirSource)
    ensures
        r == desktop_dir_source(opt_view(*known_desktop), candidate_exists@),
{
    if let Some(path) = known_desktop {
        if !path.as_str().is_empty() {
            return DesktopDirSource::Known;
        }
    }
    let mut i: usize = 0;
    while i < candidate_exists.len()
        invariant
            i <= candidate_exists@.len(),
            opt_view(*known_desktop) matches Some(k) ==> k.len() == 0,
            first_true_from(candidate_exists@, i as int) == first_true_from(candidate_exists@, 0),
        decreases candidate_exists.len() - i,
    {
        if candidate_exists[i] {
            return DesktopDirSource::Candidate(i);
        }
        i = i + 1;
    }
    DesktopDirSource::Fallback
}

/// The desktop folder to use: the known folder when it is given and not empty, else
/// the first candidate that exists, else the fallback.
pub fn resolve_desktop_dir_from_parts(
    known_desktop: Option<String>,
    candidates: Vec<String>,
    candidate_exists: Vec<bool>,
    fallback_desktop: String,
) -> (r: String)
    requires
        candidates@.len() == candidate_exists@.len(),
    ensures
        r@ == match desktop_dir_source(opt_view(known_desktop), candidate_exists@) {
            DesktopDirSource::Known => known_desktop->Some_0@,
            DesktopDirSource::Candidate(i) => candidates@[i as int]@,
            DesktopDirSource::Fallback => fallback_desktop@,
        },
{
    proof {
        lemma_first_true_bounds(candidate_exists@, 0);
    }
    match choose_desktop_dir(&known_desktop, &candidate_exists) {
        DesktopDirSource::Known => match known_desktop {
            Some(path) => path,
            None => fallback_desktop,
        },
        DesktopDirSource::Candidate(i) => candidates[i].clone(),
        DesktopDirSource::Fallback => fallback_desktop,
    }
}

proof fn lemma_first_true_bounds(v: Seq<bool>, i: int)
    ensures
        first_true_from(v, i) matches Some(j) ==> 0 <= j < v.len() && v[j],
    decreases v.len() - i,
{
    if i < 0 || i >= v.len() {
    } else if v[i] {
    } else {
        lemma_first_true_bounds(v, i + 1);
    }
}

// ---------------------------------------------------------------------------
// Manager and lifecycle receipts
// ---------------------------------------------------------------------------

impl AnchorShortcutManager {
    /// The session id of this runtime.
    pub closed spec fn session_view(&self) -> Seq<char> {
        self.session_id@
    }

    /// The desktop folder, as shown in receipts.
    pub closed spec fn desktop_view(&self) -> Seq<char> {
        self.desktop_dir@
    }

    /// The state folder, as shown in receipts.
    pub closed spec fn state_view(&self) -> Seq<char> {
        self.state_dir@
    }

    /// The executable the shortcuts point at.
    pub closed spec fn target_view(&self) -> Seq<char> {
        self.target_exe@
    }

    /// The transparent icon the shortcuts show.
    pub closed spec fn icon_view(&self) -> Seq<char> {
        self.icon_path@
    }

    /// A manager for the given session and paths.
    pub fn new(
        session_id: String,
        desktop_dir: String,
        state_dir: String,
        target_exe: String,
        icon_path: String,
    ) -> (m: Self)
        ensures
            m.session_view() == session_id@,
            m.desktop_view() == desktop_dir@,
            m.state_view() == state_dir@,
            m.target_view() == target_exe@,
            m.icon_view() == icon_path@,
    {
        AnchorShortcutManager { session_id, desktop_dir, state_dir, target_exe, icon_path }
    }

    pub fn session_id(&self) -> (r: &String)
        ensures
            r@ == self.session_view(),
    {
        &self.session_id
    }

    pub fn desktop_dir(&self) -> (r: &String)
        ensures
            r@ == self.desktop_view(),
    {
        &self.desktop_dir
    }

    pub fn state_dir(&self) -> (r: &String)
        ensures
            r@ == self.state_view(),
    {
        &self.state_dir
    }

    pub fn target_exe(&self) -> (r: &String)
        ensures
            r@ == self.target_view(),
    {
        &self.target_exe
    }

    pub fn icon_path(&self) -> (r: &String)
        ensures
            r@ == self.icon_view(),
    {
        &self.icon_path
    }

    /// The startup sample: the 2x2 `clock` widget's anchors for this session.
    pub fn startup_anchor_plan(&self) -> (plan: Vec<AnchorShortcut>)
        ensures
            is_anchor_plan(plan@, "clock"@, self.session_view(), 2, 2),
    {
        build_anchor_plan("clock", 2, 2, self.session_id.as_str())
    }
}

/// The receipt fields that every lifecycle status built from a manager shares.
pub open spec fn receipt_from(
    st: AnchorLifecycleStatus,
    manager: AnchorShortcutManager,
    platform: &'static str,
    anchors_planned: usize,
) -> bool {
    &&& st.platform == platform
    &&& st.session_id@ == manager.session_view()
    &&& st.desktop_dir@ == manager.desktop_view()
    &&& st.state_dir@ == manager.state_view()
    &&& st.anchors_planned == anchors_planned
}

impl AnchorLifecycleStatus {
    /// The receipt on a platform that only verifies the plan: nothing created or
    /// deleted, and a message saying why.
    pub fn unsupported(
        manager: &AnchorShortcutManager,
        anchors_planned: usize,
        platform: &'static str,
    ) -> (st: Self)
        ensures
            receipt_from(st, *manager, platform, anchors_planned),
            !st.enabled,
            st.anchors_created == 0,
            st.stale_detected == 0,
            st.stale_deleted == 0,
            st.anchor_files@.len() == 0,
            opt_view(st.last_error) == Some(unsupported_message()),
    {
        AnchorLifecycleStatus {
            platform,
            enabled: false,
            session_id: manager.session_id.clone(),
            desktop_dir: manager.desktop_dir.clone(),
            state_dir: manager.state_dir.clone(),
            anchors_planned,
            anchors_created: 0,
            stale_detected: 0,
            stale_deleted: 0,
            anchor_files: Vec::new(),
            last_error: Some(
                String::from_str(
                    "Anchor Shortcut materialization is Windows-only; this platform only verifies the plan.",
                ),
            ),
        }
    }

    /// The receipt when materialising the anchors failed with `error`.
    pub fn failed(
        manager: &AnchorShortcutManager,
        anchors_planned: usize,
        platform: &'static str,
        error: String,
    ) -> (st: Self)
        ensures
            receipt_from(st, *manager, platform, anchors_planned),
            !st.enabled,
            st.anchors_created == 0,
            st.stale_detected == 0,
            st.stale_deleted == 0,
            st.anchor_files@.len() == 0,
            opt_view(st.last_error) == Some(error@),
    {
        AnchorLifecycleStatus {
            platform,
            enabled: false,
            session_id: manager.session_id.clone(),
            desktop_dir: manager.desktop_dir.clone(),
            state_dir: manager.state_dir.clone(),
            anchors_planned,
            anchors_created: 0,
            stale_detected: 0,
            stale_deleted: 0,
            anchor_files: Vec::new(),
            last_error: Some(error),
        }
    }

    /// The receipt after the anchors were written: the created files, in order, and the
    /// stale counts.
    pub fn materialized(
        manager: &AnchorShortcutManager,
        anchors_planned: usize,
        platform: &'static str,
        stale_detected: usize,
        stale_deleted: usize,
        anchor_files: Vec<String>,
    ) -> (st: Self)
        requires
            stale_deleted <= stale_detected,
        ensures
            receipt_from(st, *manager, platform, anchors_planned),
            st.enabled,
            st.anchors_created == anchor_files.len(),
            st.stale_detected == stale_detected,
            st.stale_deleted == stale_deleted,
            st.anchor_files@ == anchor_files@,
            st.last_error.is_none(),
    {
        let anchors_created = anchor_files.len();
        AnchorLifecycleStatus {
            platform,
            enabled: true,
            session_id: manager.session_id.clone(),
            desktop_dir: manager.desktop_dir.clone(),
            state_dir: manager.state_dir.clone(),
            anchors_planned,
            anchors_created,
            stale_detected,
            stale_deleted,
            anchor_files,
            last_error: None,
        }
    }

    /// The receipt reported when the shared lifecycle state cannot be read.
    pub fn lock_poisoned(platform: &'static str) -> (st: Self)
        ensures
            st.platform == platform,
            !st.enabled,
            st.session_id@ == "state-poisoned"@,
            st.desktop_dir@ == "unknown"@,
            st.state_dir@ == "unknown"@,
            st.anchors_planned == 0,
            st.anchors_created == 0,
            st.stale_detected == 0,
            st.stale_deleted == 0,
            st.anchor_files@.len() == 0,
            opt_view(st.last_error) == Some("anchor lifecycle state lock was poisoned"@),
    {
        AnchorLifecycleStatus {
            platform,
            enabled: false,
            session_id: String::from_str("state-poisoned"),
            desktop_dir: String::from_str("unknown"),
            state_dir: String::from_str("unknown"),
            anchors_planned: 0,
            anchors_created: 0,
            stale_detected: 0,
            stale_deleted: 0,
            anchor_files: Vec::new(),
            last_error: Some(String::from_str("anchor lifecycle state lock was poisoned")),
        }
    }
}

// ---------------------------------------------------------------------------
// Laws
// ---------------------------------------------------------------------------

/// A sanitised segment holds only ASCII letters, digits, `-` and `_`, and neither
/// begins nor ends with `-`.
pub proof fn lemma_sanitized_shape(s: Seq<char>)
    ensures
        forall|i: int| 0 <= i < sanitized(s).len() ==> is_segment_char(#[trigger] sanitized(s)[i]),
        sanitized(s).len() > 0 ==> sanitized(s)[0] != '-' && sanitized(s).last() != '-',
{
    let t = s.map_values(|c: char| segment_char(c));
    assert forall|i: int| 0 <= i < t.len() implies is_segment_char(#[trigger] t[i]) by {}
    let (a, b) = lemma_trim_by_shape(t, dash_pred());
    assert(sanitized(s) == t.subrange(a, b));
    assert forall|i: int| 0 <= i < sanitized(s).len() implies is_segment_char(
        #[trigger] sanitized(s)[i],
    ) by {
        assert(sanitized(s)[i] == t[a + i]);
    }
}

/// Sanitising is idempotent: a sanitised id is left as it is.
pub proof fn lemma_sanitize_idempotent(s: Seq<char>)
    ensures
        sanitized(sanitized(s)) == sanitized(s),
{
    let r = sanitized(s);
    lemma_sanitized_shape(s);
    assert(r.map_values(|c: char| segment_char(c)) =~= r);
    lemma_trim_by_identity(r, dash_pred());
}

/// The characters of a planned anchor file name, piece by piece.
pub proof fn lemma_anchor_filename_layout(w: Seq<char>, s: Seq<char>, slot: Seq<char>)
    ensures
        ({
            let f = anchor_filename_text(w, s, slot);
            let p = ANCHOR_FILE_PREFIX@;
            let ws = w.len() as int;
            let ss = s.len() as int;
            let ls = slot.len() as int;
            &&& p == "OpenWidGet Anchor"@
            &&& p.len() == 17
            &&& f.len() == 17 + 3 + ws + 3 + ss + 3 + ls + 4
            &&& f.subrange(0, 17) == p
            &&& f.subrange(17, 20) == " - "@
            &&& f.subrange(20, 20 + ws) == w
            &&& f.subrange(20 + ws, 23 + ws) == " - "@
            &&& f.subrange(23 + ws, 23 + ws + ss) == s
            &&& f.subrange(23 + ws + ss, 26 + ws + ss) == " - "@
            &&& f.subrange(26 + ws + ss, 26 + ws + ss + ls) == slot
            &&& f.subrange(f.len() - 4, f.len() as int) == ".lnk"@
        }),
{
    reveal_strlit("OpenWidGet Anchor");
    reveal_strlit(" - ");
    reveal_strlit(".lnk");
    let f = anchor_filename_text(w, s, slot);
    let p = ANCHOR_FILE_PREFIX@;
    let ws = w.len() as int;
    let ss = s.len() as int;
    let ls = slot.len() as int;
    assert(f.subrange(0, 17) =~= p);
    assert(f.subrange(17, 20) =~= " - "@);
    assert(f.subrange(20, 20 + ws) =~= w);
    assert(f.subrange(20 + ws, 23 + ws) =~= " - "@);
    assert(f.subrange(23 + ws, 23 + ws + ss) =~= s);
    assert(f.subrange(23 + ws + ss, 26 + ws + ss) =~= " - "@);
    assert(f.subrange(26 + ws + ss, 26 + ws + ss + ls) =~= slot);
    assert(f.subrange(f.len() - 4, f.len() as int) =~= ".lnk"@);
}

/// Every file that `build_anchor_plan` plans is recognised by
/// `is_openwidget_anchor_shortcut`: the runtime can always find its own artifacts.
pub proof fn lemma_planned_files_are_anchor_shortcuts(
    plan: Seq<AnchorShortcut>,
    widget: Seq<char>,
    session: Seq<char>,
    rows: nat,
    columns: nat,
)
    requires
        is_anchor_plan(plan, widget, session, rows, columns),
    ensures
        forall|i: int| 0 <= i < plan.len() ==> is_anchor_file_name(#[trigger] plan[i].filename@),
{
    assert forall|i: int| 0 <= i < plan.len() implies is_anchor_file_name(
        #[trigger] plan[i].filename@,
    ) by {
        let row = (i / columns as int + 1) as nat;
        let column = (i % columns as int + 1) as nat;
        assert(is_anchor_at(plan[i], sanitized(widget), sanitized(session), row, column));
        lemma_anchor_file_name_recognised(
            sanitized(widget),
            sanitized(session),
            slot_label(row, column),
        );
    }
}

proof fn lemma_anchor_file_name_recognised(w: Seq<char>, s: Seq<char>, slot: Seq<char>)
    ensures
        is_anchor_file_name(anchor_filename_text(w, s, slot)),
{
    lemma_anchor_filename_layout(w, s, slot);
    reveal_strlit(".lnk");
    reveal_strlit("lnk");
    let f = anchor_filename_text(w, s, slot);
    let n = f.len() as int;
    let tail = f.subrange(n - 4, n);
    assert(tail[0] == '.' && tail[1] == 'l' && tail[2] == 'n' && tail[3] == 'k');
    assert(f[n - 1] == 'k');
    assert(f[n - 2] == 'n');
    assert(f[n - 3] == 'l');
    assert(f[n - 4] == '.');
    assert(last_dot_before(f, n) == last_dot_before(f, n - 1));
    assert(last_dot_before(f, n - 1) == last_dot_before(f, n - 2));
    assert(last_dot_before(f, n - 2) == last_dot_before(f, n - 3));
    assert(last_dot_before(f, n - 3) == Some(n - 4));
    assert(f.len() != 2);
    assert(f != seq!['.', '.']);
    assert(file_extension(f) == Some(f.subrange(n - 3, n)));
    assert(f.subrange(n - 3, n) =~= "lnk"@);
    assert(has_prefix(f, ANCHOR_FILE_PREFIX@));
}

/// An anchor planned for a session is never stale for that session: the session id
/// that the plan carries occurs in every planned file name.
pub proof fn lemma_plan_not_stale_for_own_session(
    plan: Seq<AnchorShortcut>,
    widget: Seq<char>,
    session: Seq<char>,
    rows: nat,
    columns: nat,
)
    requires
        is_anchor_plan(plan, widget, session, rows, columns),
    ensures
        forall|i: int|
            0 <= i < plan.len() ==> !is_stale_anchor_file_name(
                #[trigger] plan[i].filename@,
                sanitized(session),
            ),
{
    assert forall|i: int| 0 <= i < plan.len() implies !is_stale_anchor_file_name(
        #[trigger] plan[i].filename@,
        sanitized(session),
    ) by {
        let row = (i / columns as int + 1) as nat;
        let column = (i % columns as int + 1) as nat;
        let w = sanitized(widget);
        let s = sanitized(session);
        assert(is_anchor_at(plan[i], w, s, row, column));
        lemma_anchor_filename_layout(w, s, slot_label(row, column));
        assert(occurs_at(plan[i].filename@, s, 23 + w.len() as int));
    }
}


/// An anchor plan is determined by its widget, session and footprint: two plans built
/// from the same inputs name the same files with the same descriptions and arguments,
/// so the session cleanup deletes exactly the files that startup created.
pub proof fn lemma_anchor_plan_deterministic(
    p1: Seq<AnchorShortcut>,
    p2: Seq<AnchorShortcut>,
    widget: Seq<char>,
    session: Seq<char>,
    rows: nat,
    columns: nat,
)
    requires
        is_anchor_plan(p1, widget, session, rows, columns),
        is_anchor_plan(p2, widget, session, rows, columns),
    ensures
        p1.len() == p2.len(),
        forall|i: int|
            0 <= i < p1.len() ==> {
                &&& (#[trigger] p1[i]).filename@ == p2[i].filename@
                &&& p1[i].anchor_id@ == p2[i].anchor_id@
                &&& p1[i].description@ == p2[i].description@
                &&& p1[i].arguments@ == p2[i].arguments@
                &&& p1[i].row == p2[i].row
                &&& p1[i].column == p2[i].column
            },
{
    assert forall|i: int| 0 <= i < p1.len() implies {
        &&& (#[trigger] p1[i]).filename@ == p2[i].filename@
        &&& p1[i].anchor_id@ == p2[i].anchor_id@
        &&& p1[i].description@ == p2[i].description@
        &&& p1[i].arguments@ == p2[i].arguments@
        &&& p1[i].row == p2[i].row
        &&& p1[i].column == p2[i].column
    } by {
        let row = (i / columns as int + 1) as nat;
        let column = (i % columns as int + 1) as nat;
        assert(is_anchor_at(p1[i], sanitized(widget), sanitized(session), row, column));
        assert(is_anchor_at(p2[i], sanitized(widget), sanitized(session), row, column));
    }
}


/// The startup pass never deletes its own anchors: when the manager's session id is
/// already sanitised (as `generate_session_id` makes it), none of the startup plan's
/// files counts as stale for that session.
pub proof fn lemma_startup_plan_never_stale(
    manager: AnchorShortcutManager,
    plan: Seq<AnchorShortcut>,
)
    requires
        is_anchor_plan(plan, "clock"@, manager.session_view(), 2, 2),
        sanitized(manager.session_view()) == manager.session_view(),
    ensures
        forall|i: int|
            0 <= i < plan.len() ==> !is_stale_anchor_file_name(
                #[trigger] plan[i].filename@,
                manager.session_view(),
            ),
{
    lemma_plan_not_stale_for_own_session(plan, "clock"@, manager.session_view(), 2, 2);
}

} // verus!
