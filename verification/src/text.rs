//! Character-level text model shared by the anchor and grid modules: substring
//! search, trimming, splitting on a separator, and decimal rendering of small
//! numbers, each with the mathematical statement it is proved against.
use vstd::prelude::*;

verus! {

/// Contract of std's `String::push`, believed rather than proved: pushing `ch` leaves
/// the string's characters followed by exactly `ch` (its documented behaviour).
pub assume_specification[ String::push ](s: &mut String, ch: char)
    ensures
        final(s)@ == old(s)@.push(ch),
;

// ---------------------------------------------------------------------------
// Specifications
// ---------------------------------------------------------------------------

/// `pat` occurs in `s` starting at index `i`.
pub open spec fn occurs_at(s: Seq<char>, pat: Seq<char>, i: int) -> bool {
    &&& 0 <= i
    &&& i + pat.len() <= s.len()
    &&& s.subrange(i, i + pat.len()) == pat
}

/// `pat` occurs somewhere in `s` (what `str::contains` answers).
pub open spec fn has_substring(s: Seq<char>, pat: Seq<char>) -> bool {
    exists|i: int| occurs_at(s, pat, i)
}

/// `s` begins with `p`.
pub open spec fn has_prefix(s: Seq<char>, p: Seq<char>) -> bool {
    p.len() <= s.len() && s.subrange(0, p.len() as int) == p
}

/// `s` ends with `p`.
pub open spec fn has_suffix(s: Seq<char>, p: Seq<char>) -> bool {
    p.len() <= s.len() && s.subrange(s.len() - p.len(), s.len() as int) == p
}

/// The code of a character with ASCII upper-case letters folded to lower case.
pub open spec fn ascii_fold(c: char) -> u32 {
    let u = c as u32;
    if 0x41 <= u && u <= 0x5a {
        (u + 0x20) as u32
    } else {
        u
    }
}

/// Equality of two strings up to ASCII case (what `str::eq_ignore_ascii_case` answers).
pub open spec fn eq_ignore_ascii_case(a: Seq<char>, b: Seq<char>) -> bool {
    a.len() == b.len() && forall|i: int| 0 <= i < a.len() ==> ascii_fold(a[i]) == ascii_fold(b[i])
}

/// The characters with the Unicode `White_Space` property (what `char::is_whitespace` answers).
pub open spec fn is_whitespace(c: char) -> bool {
    let u = c as u32;
    ||| 0x09 <= u && u <= 0x0d
    ||| u == 0x20
    ||| u == 0x85
    ||| u == 0xa0
    ||| u == 0x1680
    ||| 0x2000 <= u && u <= 0x200a
    ||| u == 0x2028
    ||| u == 0x2029
    ||| u == 0x202f
    ||| u == 0x205f
    ||| u == 0x3000
}

/// Drops the leading characters of `s` that satisfy `p`.
pub open spec fn trim_start_by(s: Seq<char>, p: spec_fn(char) -> bool) -> Seq<char>
    decreases s.len(),
{
    if s.len() > 0 && p(s[0]) {
        trim_start_by(s.drop_first(), p)
    } else {
        s
    }
}

/// Drops the trailing characters of `s` that satisfy `p`.
pub open spec fn trim_end_by(s: Seq<char>, p: spec_fn(char) -> bool) -> Seq<char>
    decreases s.len(),
{
    if s.len() > 0 && p(s.last()) {
        trim_end_by(s.drop_last(), p)
    } else {
        s
    }
}

/// Drops the characters satisfying `p` at both ends (what `str::trim_matches` gives).
pub open spec fn trim_by(s: Seq<char>, p: spec_fn(char) -> bool) -> Seq<char> {
    trim_end_by(trim_start_by(s, p), p)
}

/// The predicate that `trim_dashes` removes.
pub open spec fn dash_pred() -> spec_fn(char) -> bool {
    |c: char| c == '-'
}

/// The predicate that `str::trim` removes.
pub open spec fn whitespace_pred() -> spec_fn(char) -> bool {
    |c: char| is_whitespace(c)
}

/// `s` with surrounding white space removed (what `str::trim` gives).
pub open spec fn trim_whitespace(s: Seq<char>) -> Seq<char> {
    trim_by(s, whitespace_pred())
}

/// `s` with surrounding `-` removed (what `str::trim_matches('-')` gives).
pub open spec fn trim_dashes(s: Seq<char>) -> Seq<char> {
    trim_by(s, dash_pred())
}

/// The leftmost index `j >= i` at which `sep` occurs in `s`.
pub open spec fn find_from(s: Seq<char>, sep: Seq<char>, i: int) -> Option<int>
    decreases s.len() + 1 - i,
{
    if i < 0 || i + sep.len() > s.len() {
        None
    } else if occurs_at(s, sep, i) {
        Some(i)
    } else {
        find_from(s, sep, i + 1)
    }
}

/// The pieces of `s[start..]` between the non-overlapping, leftmost occurrences of
/// `sep` (what `str::split` yields for a non-empty pattern).
pub open spec fn split_from(s: Seq<char>, sep: Seq<char>, start: int) -> Seq<Seq<char>>
    decreases s.len() - start,
{
    if sep.len() == 0 || start < 0 || start > s.len() {
        Seq::empty()
    } else {
        match find_from(s, sep, start) {
            Some(j) => {
                proof {
                    lemma_find_from_bounds(s, sep, start);
                }
                seq![s.subrange(start, j)] + split_from(s, sep, j + sep.len())
            },
            None => seq![s.subrange(start, s.len() as int)],
        }
    }
}

/// The pieces of `s` around the occurrences of the non-empty `sep`.
pub open spec fn split_on(s: Seq<char>, sep: Seq<char>) -> Seq<Seq<char>> {
    split_from(s, sep, 0)
}

/// The decimal digit for `d < 10`.
pub open spec fn digit_char(d: nat) -> char {
    if d == 0 {
        '0'
    } else if d == 1 {
        '1'
    } else if d == 2 {
        '2'
    } else if d == 3 {
        '3'
    } else if d == 4 {
        '4'
    } else if d == 5 {
        '5'
    } else if d == 6 {
        '6'
    } else if d == 7 {
        '7'
    } else if d == 8 {
        '8'
    } else {
        '9'
    }
}

/// The decimal rendering of `n`, without leading zeros (what `Display` for integers writes).
pub open spec fn decimal(n: nat) -> Seq<char>
    decreases n,
{
    if n < 10 {
        seq![digit_char(n)]
    } else {
        decimal(n / 10).push(digit_char(n % 10))
    }
}

/// The slot label `r{row}c{column}` shared by anchor plans and grid plans.
pub open spec fn slot_label(row: nat, column: nat) -> Seq<char> {
    seq!['r'] + decimal(row) + seq!['c'] + decimal(column)
}

/// The character views of the ranges `r` of `s`.
pub open spec fn range_views(s: Seq<char>, r: Seq<(usize, usize)>) -> Seq<Seq<char>> {
    r.map_values(|p: (usize, usize)| s.subrange(p.0 as int, p.1 as int))
}

// ---------------------------------------------------------------------------
// Lemmas
// ---------------------------------------------------------------------------

/// A found separator lies inside the string, at or after the search start.
pub proof fn lemma_find_from_bounds(s: Seq<char>, sep: Seq<char>, i: int)
    ensures
        find_from(s, sep, i) matches Some(j) ==> i <= j && j + sep.len() <= s.len() && occurs_at(
            s,
            sep,
            j,
        ),
    decreases s.len() + 1 - i,
{
    if i < 0 || i + sep.len() > s.len() {
    } else if occurs_at(s, sep, i) {
    } else {
        lemma_find_from_bounds(s, sep, i + 1);
    }
}

/// Every decimal rendering is non-empty and made of digits.
pub proof fn lemma_decimal_digits(n: nat)
    ensures
        decimal(n).len() >= 1,
        forall|i: int| 0 <= i < decimal(n).len() ==> 0x30 <= (#[trigger] decimal(n)[i]) as u32 <= 0x39,
    decreases n,
{
    if n >= 10 {
        lemma_decimal_digits(n / 10);
    }
}

/// Trimming keeps a contiguous piece of the input whose end characters are not trimmed.
pub proof fn lemma_trim_start_shape(s: Seq<char>, p: spec_fn(char) -> bool) -> (a: int)
    ensures
        0 <= a <= s.len(),
        trim_start_by(s, p) == s.subrange(a, s.len() as int),
        a < s.len() ==> !p(s[a]),
    decreases s.len(),
{
    if s.len() > 0 && p(s[0]) {
        let a1 = lemma_trim_start_shape(s.drop_first(), p);
        assert(s.drop_first().subrange(a1, s.drop_first().len() as int) =~= s.subrange(
            a1 + 1,
            s.len() as int,
        ));
        assert(a1 < s.drop_first().len() ==> s.drop_first()[a1] == s[a1 + 1]);
        a1 + 1
    } else {
        assert(s.subrange(0, s.len() as int) =~= s);
        0
    }
}

/// Trimming the end keeps a prefix whose last character is not trimmed.
pub proof fn lemma_trim_end_shape(s: Seq<char>, p: spec_fn(char) -> bool) -> (b: int)
    ensures
        0 <= b <= s.len(),
        trim_end_by(s, p) == s.subrange(0, b),
        b > 0 ==> !p(s[b - 1]),
    decreases s.len(),
{
    if s.len() > 0 && p(s.last()) {
        let b1 = lemma_trim_end_shape(s.drop_last(), p);
        assert(s.drop_last().subrange(0, b1) =~= s.subrange(0, b1));
        b1
    } else {
        assert(s.subrange(0, s.len() as int) =~= s);
        s.len() as int
    }
}

/// `trim_by` keeps `s[a..b]`, whose first and last characters are not trimmed.
pub proof fn lemma_trim_by_shape(s: Seq<char>, p: spec_fn(char) -> bool) -> (r: (int, int))
    ensures
        0 <= r.0 <= r.1 <= s.len(),
        trim_by(s, p) == s.subrange(r.0, r.1),
        r.0 < r.1 ==> !p(s[r.0]) && !p(s[r.1 - 1]),
{
    let a = lemma_trim_start_shape(s, p);
    let u = s.subrange(a, s.len() as int);
    let b = lemma_trim_end_shape(u, p);
    assert(u.subrange(0, b) =~= s.subrange(a, a + b));
    if 0 < b {
        assert(u[0] == s[a]);
        assert(u[b - 1] == s[a + b - 1]);
    }
    (a, a + b)
}

/// A string without trimmed characters at its ends is its own trim.
pub proof fn lemma_trim_by_identity(s: Seq<char>, p: spec_fn(char) -> bool)
    requires
        s.len() == 0 || (!p(s[0]) && !p(s.last())),
    ensures
        trim_by(s, p) == s,
{
}

/// A string none of whose characters is trimmed is its own trim.
pub proof fn lemma_trim_by_untouched(s: Seq<char>, p: spec_fn(char) -> bool)
    requires
        forall|i: int| 0 <= i < s.len() ==> !p(#[trigger] s[i]),
    ensures
        trim_by(s, p) == s,
{
    if s.len() > 0 {
        assert(!p(s[0]));
        assert(!p(s[s.len() - 1]));
    }
    lemma_trim_by_identity(s, p);
}

/// Searching from `i` finds the same as searching from `j` when nothing occurs in between.
pub proof fn lemma_find_from_skip(s: Seq<char>, sep: Seq<char>, i: int, j: int)
    requires
        0 <= i <= j,
        forall|k: int| i <= k < j ==> !occurs_at(s, sep, k),
    ensures
        find_from(s, sep, i) == find_from(s, sep, j),
    decreases j - i,
{
    if i < j {
        lemma_find_from_skip(s, sep, i + 1, j);
        if i + sep.len() > s.len() {
            lemma_find_from_none_beyond(s, sep, j);
        }
    }
}

proof fn lemma_find_from_none_beyond(s: Seq<char>, sep: Seq<char>, j: int)
    requires
        j + sep.len() > s.len(),
    ensures
        find_from(s, sep, j) is None,
{
}

/// No occurrence from `i` on: the search fails.
pub proof fn lemma_find_from_absent(s: Seq<char>, sep: Seq<char>, i: int)
    requires
        0 <= i,
        forall|k: int| i <= k ==> !occurs_at(s, sep, k),
    ensures
        find_from(s, sep, i) is None,
    decreases s.len() + 1 - i,
{
    if i + sep.len() > s.len() {
    } else {
        lemma_find_from_absent(s, sep, i + 1);
    }
}

/// One split step: the first occurrence from `start` is at `j`.
pub proof fn lemma_split_step(s: Seq<char>, sep: Seq<char>, start: int, j: int)
    requires
        sep.len() > 0,
        0 <= start <= j,
        occurs_at(s, sep, j),
        forall|k: int| start <= k < j ==> !occurs_at(s, sep, k),
    ensures
        split_from(s, sep, start) == seq![s.subrange(start, j)] + split_from(
            s,
            sep,
            j + sep.len(),
        ),
{
    lemma_find_from_skip(s, sep, start, j);
}

/// The last split piece: nothing occurs from `start` on.
pub proof fn lemma_split_last(s: Seq<char>, sep: Seq<char>, start: int)
    requires
        sep.len() > 0,
        0 <= start <= s.len(),
        forall|k: int| start <= k ==> !occurs_at(s, sep, k),
    ensures
        split_from(s, sep, start) == seq![s.subrange(start, s.len() as int)],
{
    lemma_find_from_absent(s, sep, start);
}

/// The characters of a slot label: `r`, digits, `c`, digits.
pub proof fn lemma_slot_label_chars(row: nat, column: nat)
    ensures
        slot_label(row, column)[0] == 'r',
        slot_label(row, column)[1 + decimal(row).len() as int] == 'c',
        slot_label(row, column).len() == 2 + decimal(row).len() + decimal(column).len(),
        forall|i: int|
            0 <= i < slot_label(row, column).len() ==> !is_whitespace(
                #[trigger] slot_label(row, column)[i],
            ) && slot_label(row, column)[i] != '.' && (slot_label(row, column)[i] == 'r'
                || slot_label(row, column)[i] == 'c' || 0x30 <= slot_label(row, column)[i] as u32
                <= 0x39),
{
    lemma_decimal_digits(row);
    lemma_decimal_digits(column);
    let l = slot_label(row, column);
    let dr = decimal(row);
    let dc = decimal(column);
    assert forall|i: int| 0 <= i < l.len() implies !is_whitespace(#[trigger] l[i]) && l[i] != '.'
        && (l[i] == 'r' || l[i] == 'c' || 0x30 <= l[i] as u32 <= 0x39) by {
        if i == 0 {
        } else if i < 1 + dr.len() {
            assert(l[i] == dr[i - 1]);
        } else if i == 1 + dr.len() {
        } else {
            assert(l[i] == dc[i - 2 - dr.len()]);
        }
    }
}

/// Decimal renderings of numbers from 10 on have at least two digits.
pub proof fn lemma_decimal_len(n: nat)
    ensures
        n < 10 <==> decimal(n).len() == 1,
    decreases n,
{
    if n >= 10 {
        lemma_decimal_digits(n / 10);
    }
}

/// Distinct numbers have distinct decimal renderings.
pub proof fn lemma_decimal_injective(a: nat, b: nat)
    requires
        decimal(a) == decimal(b),
    ensures
        a == b,
    decreases a,
{
    lemma_decimal_len(a);
    lemma_decimal_len(b);
    if a < 10 {
        assert(decimal(a)[0] == digit_char(a));
        assert(decimal(b)[0] == digit_char(b));
    } else {
        let da = decimal(a);
        let db = decimal(b);
        assert(da.drop_last() =~= decimal(a / 10));
        assert(db.drop_last() =~= decimal(b / 10));
        assert(da.last() == digit_char(a % 10));
        assert(db.last() == digit_char(b % 10));
        lemma_decimal_injective(a / 10, b / 10);
    }
}

/// Distinct cells have distinct slot labels.
pub proof fn lemma_slot_label_injective(r1: nat, c1: nat, r2: nat, c2: nat)
    requires
        slot_label(r1, c1) == slot_label(r2, c2),
    ensures
        r1 == r2,
        c1 == c2,
{
    lemma_slot_label_chars(r1, c1);
    lemma_slot_label_chars(r2, c2);
    lemma_decimal_digits(r1);
    lemma_decimal_digits(r2);
    let l = slot_label(r1, c1);
    let d1 = decimal(r1);
    let d2 = decimal(r2);
    if d1.len() < d2.len() {
        assert(l[1 + d1.len() as int] == 'c');
        assert(slot_label(r2, c2)[1 + d1.len() as int] == d2[d1.len() as int]);
        assert(false);
    } else if d2.len() < d1.len() {
        assert(slot_label(r2, c2)[1 + d2.len() as int] == 'c');
        assert(l[1 + d2.len() as int] == d1[d2.len() as int]);
        assert(false);
    }
    assert(l.subrange(1, 1 + d1.len() as int) =~= d1);
    assert(slot_label(r2, c2).subrange(1, 1 + d2.len() as int) =~= d2);
    lemma_decimal_injective(r1, r2);
    assert(l.subrange(2 + d1.len() as int, l.len() as int) =~= decimal(c1));
    assert(slot_label(r2, c2).subrange(2 + d2.len() as int, l.len() as int) =~= decimal(c2));
    lemma_decimal_injective(c1, c2);
}

// ---------------------------------------------------------------------------
// Executable helpers
// ---------------------------------------------------------------------------

/// The characters of a string slice, in order.
pub fn chars_of(s: &str) -> (v: Vec<char>)
    ensures
        v@ == s@,
{
    broadcast use vstd::string::group_string_axioms;

    let mut v: Vec<char> = Vec::new();
    for c in it: s.chars()
        invariant
            v@ == it.seq().take(it.index() as int),
            it.seq() == s@,
    {
        v.push(c);
    }
    v
}

/// A string made of the characters `v[lo..hi]`.
pub fn string_of_range(v: &Vec<char>, lo: usize, hi: usize) -> (s: String)
    requires
        lo <= hi <= v.len(),
    ensures
        s@ == v@.subrange(lo as int, hi as int),
{
    let mut s = String::new();
    let mut i = lo;
    while i < hi
        invariant
            lo <= i <= hi <= v.len(),
            s@ == v@.subrange(lo as int, i as int),
        decreases hi - i,
    {
        s.push(v[i]);
        assert(v@.subrange(lo as int, i + 1) =~= v@.subrange(lo as int, i as int).push(v@[i as int]));
        i = i + 1;
    }
    s
}

/// Whether `pat` occurs in `s` at index `i`.
pub fn matches_at(s: &Vec<char>, pat: &Vec<char>, i: usize) -> (r: bool)
    ensures
        r == occurs_at(s@, pat@, i as int),
{
    if pat.len() > s.len() || i > s.len() - pat.len() {
        return false;
    }
    let mut j: usize = 0;
    while j < pat.len()
        invariant
            i + pat.len() <= s.len(),
            j <= pat.len(),
            forall|k: int| 0 <= k < j ==> s@[i + k] == pat@[k],
        decreases pat.len() - j,
    {
        if s[i + j] != pat[j] {
            assert(s@.subrange(i as int, i + pat.len())[j as int] != pat@[j as int]);
            return false;
        }
        j = j + 1;
    }
    assert(s@.subrange(i as int, i + pat.len()) =~= pat@);
    true
}

/// Whether `v[lo..hi]` equals `p`.
pub fn range_equals(v: &Vec<char>, lo: usize, hi: usize, p: &Vec<char>) -> (r: bool)
    requires
        lo <= hi <= v.len(),
    ensures
        r == (v@.subrange(lo as int, hi as int) == p@),
{
    if hi - lo != p.len() {
        return false;
    }
    let r = matches_at(v, p, lo);
    proof {
        if r {
            assert(v@.subrange(lo as int, hi as int) == p@);
        } else {
            assert(!occurs_at(v@, p@, lo as int));
        }
    }
    r
}

/// Whether `v[lo..hi]` holds the character `c`.
pub fn range_has_char(v: &Vec<char>, lo: usize, hi: usize, c: char) -> (r: bool)
    requires
        lo <= hi <= v.len(),
    ensures
        r == (exists|i: int| 0 <= i < hi - lo && v@.subrange(lo as int, hi as int)[i] == c),
{
    let ghost sub = v@.subrange(lo as int, hi as int);
    let mut i = lo;
    while i < hi
        invariant
            lo <= i <= hi <= v.len(),
            sub == v@.subrange(lo as int, hi as int),
            forall|k: int| 0 <= k < i - lo ==> sub[k] != c,
        decreases hi - i,
    {
        if v[i] == c {
            assert(sub[i - lo] == c);
            return true;
        }
        i = i + 1;
    }
    false
}

/// Whether `pat` occurs anywhere in `s`.
pub fn contains_seq(s: &Vec<char>, pat: &Vec<char>) -> (r: bool)
    ensures
        r == has_substring(s@, pat@),
{
    if pat.len() > s.len() {
        assert forall|i: int| !occurs_at(s@, pat@, i) by {}
        return false;
    }
    let last = s.len() - pat.len();
    let mut i: usize = 0;
    while i < last
        invariant
            last == s.len() - pat.len(),
            pat.len() <= s.len(),
            i <= last,
            forall|k: int| 0 <= k < i ==> !occurs_at(s@, pat@, k),
        decreases last - i,
    {
        if matches_at(s, pat, i) {
            return true;
        }
        i = i + 1;
    }
    if matches_at(s, pat, last) {
        return true;
    }
    assert forall|k: int| !occurs_at(s@, pat@, k) by {
        if 0 <= k < i {
        }
    }
    false
}

/// Whether `s` begins with `p`.
pub fn starts_with_seq(s: &Vec<char>, p: &Vec<char>) -> (r: bool)
    ensures
        r == has_prefix(s@, p@),
{
    let r = matches_at(s, p, 0);
    proof {
        if has_prefix(s@, p@) {
            assert(occurs_at(s@, p@, 0));
        }
    }
    r
}

/// Whether `s` ends with `p`.
pub fn ends_with_seq(s: &Vec<char>, p: &Vec<char>) -> (r: bool)
    ensures
        r == has_suffix(s@, p@),
{
    if p.len() > s.len() {
        return false;
    }
    matches_at(s, p, s.len() - p.len())
}

/// `c` with an ASCII upper-case letter folded to lower case, as a code.
pub fn fold_ascii(c: char) -> (r: u32)
    ensures
        r == ascii_fold(c),
{
    let u = c as u32;
    if 0x41 <= u && u <= 0x5a {
        u + 0x20
    } else {
        u
    }
}

/// Whether `a[lo..hi]` equals `b` up to ASCII case.
pub fn range_eq_ignore_ascii_case(a: &Vec<char>, lo: usize, hi: usize, b: &Vec<char>) -> (r: bool)
    requires
        lo <= hi <= a.len(),
    ensures
        r == eq_ignore_ascii_case(a@.subrange(lo as int, hi as int), b@),
{
    let ghost sub = a@.subrange(lo as int, hi as int);
    if hi - lo != b.len() {
        return false;
    }
    let mut j: usize = 0;
    while j < b.len()
        invariant
            sub == a@.subrange(lo as int, hi as int),
            lo <= hi <= a.len(),
            hi - lo == b.len(),
            j <= b.len(),
            forall|k: int| 0 <= k < j ==> ascii_fold(sub[k]) == ascii_fold(b@[k]),
        decreases b.len() - j,
    {
        if fold_ascii(a[lo + j]) != fold_ascii(b[j]) {
            assert(sub[j as int] == a@[lo + j]);
            return false;
        }
        assert(sub[j as int] == a@[lo + j]);
        j = j + 1;
    }
    true
}

/// Whether `c` has the Unicode `White_Space` property.
pub fn char_is_whitespace(c: char) -> (r: bool)
    ensures
        r == is_whitespace(c),
{
    let u = c as u32;
    (0x09 <= u && u <= 0x0d) || u == 0x20 || u == 0x85 || u == 0xa0 || u == 0x1680 || (0x2000
        <= u && u <= 0x200a) || u == 0x2028 || u == 0x2029 || u == 0x202f || u == 0x205f || u
        == 0x3000
}

/// The spec predicate behind `trim_range`: dashes when `dashes`, else white space.
pub open spec fn trim_pred(dashes: bool) -> spec_fn(char) -> bool {
    if dashes {
        dash_pred()
    } else {
        whitespace_pred()
    }
}

fn trims(c: char, dashes: bool) -> (r: bool)
    ensures
        r == (trim_pred(dashes))(c),
{
    if dashes {
        c == '-'
    } else {
        char_is_whitespace(c)
    }
}

/// The bounds of `v[lo..hi]` once the characters that `trim_pred(dashes)` names are
/// removed from both ends.
pub fn trim_range(v: &Vec<char>, lo: usize, hi: usize, dashes: bool) -> (r: (usize, usize))
    requires
        lo <= hi <= v.len(),
    ensures
        lo <= r.0 <= r.1 <= hi,
        v@.subrange(r.0 as int, r.1 as int) == trim_by(
            v@.subrange(lo as int, hi as int),
            trim_pred(dashes),
        ),
{
    let ghost p = trim_pred(dashes);
    let mut a = lo;
    while a < hi && trims(v[a], dashes)
        invariant
            lo <= a <= hi <= v.len(),
            p == trim_pred(dashes),
            trim_start_by(v@.subrange(a as int, hi as int), p) == trim_start_by(
                v@.subrange(lo as int, hi as int),
                p,
            ),
        decreases hi - a,
    {
        assert(v@.subrange(a + 1, hi as int) =~= v@.subrange(a as int, hi as int).drop_first());
        a = a + 1;
    }
    assert(trim_start_by(v@.subrange(a as int, hi as int), p) == v@.subrange(a as int, hi as int));
    let mut b = hi;
    while b > a && trims(v[b - 1], dashes)
        invariant
            lo <= a <= b <= hi <= v.len(),
            p == trim_pred(dashes),
            trim_end_by(v@.subrange(a as int, b as int), p) == trim_end_by(
                v@.subrange(a as int, hi as int),
                p,
            ),
        decreases b - a,
    {
        assert(v@.subrange(a as int, b - 1) =~= v@.subrange(a as int, b as int).drop_last());
        b = b - 1;
    }
    assert(trim_end_by(v@.subrange(a as int, b as int), p) == v@.subrange(a as int, b as int));
    (a, b)
}

/// The ranges of the pieces of `s` around the occurrences of the non-empty `sep`.
pub fn split_ranges(s: &Vec<char>, sep: &Vec<char>) -> (r: Vec<(usize, usize)>)
    requires
        sep.len() > 0,
    ensures
        range_views(s@, r@) == split_on(s@, sep@),
        forall|k: int| 0 <= k < r.len() ==> (#[trigger] r@[k]).0 <= r@[k].1 <= s.len(),
{
    let n = s.len();
    let m = sep.len();
    let mut parts: Vec<(usize, usize)> = Vec::new();
    let mut start: usize = 0;
    let mut i: usize = 0;
    while m <= n && i <= n - m
        invariant
            n == s.len(),
            m == sep.len(),
            m > 0,
            start <= i <= n,
            find_from(s@, sep@, start as int) == find_from(s@, sep@, i as int),
            range_views(s@, parts@) + split_from(s@, sep@, start as int) == split_on(s@, sep@),
            forall|k: int| 0 <= k < parts.len() ==> (#[trigger] parts@[k]).0 <= parts@[k].1 <= n,
        decreases n - i,
    {
        if matches_at(s, sep, i) {
            proof {
                assert(find_from(s@, sep@, i as int) == Some(i as int));
                assert(split_from(s@, sep@, start as int) == seq![
                    s@.subrange(start as int, i as int),
                ] + split_from(s@, sep@, i + m));
                assert(range_views(s@, parts@.push((start, i))) =~= range_views(s@, parts@).push(
                    s@.subrange(start as int, i as int),
                ));
            }
            parts.push((start, i));
            start = i + m;
            i = start;
        } else {
            i = i + 1;
        }
    }
    proof {
        assert(find_from(s@, sep@, i as int) == None::<int>);
        assert(split_from(s@, sep@, start as int) == seq![s@.subrange(start as int, n as int)]);
        assert(range_views(s@, parts@.push((start, n))) =~= range_views(s@, parts@).push(
            s@.subrange(start as int, n as int),
        ));
    }
    parts.push((start, n));
    parts
}

/// The decimal digit character for `d < 10`.
pub fn digit(d: u8) -> (c: char)
    requires
        d < 10,
    ensures
        c == digit_char(d as nat),
{
    if d == 0 {
        '0'
    } else if d == 1 {
        '1'
    } else if d == 2 {
        '2'
    } else if d == 3 {
        '3'
    } else if d == 4 {
        '4'
    } else if d == 5 {
        '5'
    } else if d == 6 {
        '6'
    } else if d == 7 {
        '7'
    } else if d == 8 {
        '8'
    } else {
        '9'
    }
}

/// Appends the decimal rendering of `n` to `s`.
pub fn push_decimal(s: &mut String, n: u64)
    ensures
        final(s)@ == old(s)@ + decimal(n as nat),
    decreases n,
{
    if n >= 10 {
        push_decimal(s, n / 10);
    }
    s.push(digit((n % 10) as u8));
    assert(final(s)@ =~= old(s)@ + decimal(n as nat));
}

/// The slot label `r{row}c{column}`.
pub fn slot_label_string(row: u8, column: u8) -> (s: String)
    ensures
        s@ == slot_label(row as nat, column as nat),
{
    let mut s = String::new();
    s.push('r');
    push_decimal(&mut s, row as u64);
    s.push('c');
    push_decimal(&mut s, column as u64);
    assert(s@ =~= slot_label(row as nat, column as nat));
    s
}

} // verus!
