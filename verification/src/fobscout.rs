//! Parsing of the system table that FOBScout exports.
//!
//! An export is free text; the table starts at the first line whose first
//! four pipe-separated columns are `System | Region | Last Seen UTC |
//! Claimed By` (in any letter case) and runs until the first blank line or
//! the first line without a pipe.  Separator lines made of dashes are
//! ignored, rows with fewer than four columns or an empty system are
//! reported, and a system that appears twice (ignoring ASCII case) is kept
//! only once.

use vstd::prelude::*;
use crate::text::{
    chars_eq, chars_of, decimal, lines, lines_of, lower_chars, lower_seq, push_decimal, push_str,
    split_chars, split_on, string_of, trim, trim_char, trim_char_chars, trim_chars, views,
};

verus! {

broadcast use vstd::string::group_string_axioms;

#[derive(Clone, Debug, Default, PartialEq, Eq)]
pub struct FobScoutImport {
    pub rows: Vec<FobScoutRow>,
    pub messages: Vec<String>,
}

#[derive(Clone, Debug, PartialEq, Eq)]
pub struct FobScoutRow {
    pub import_index: usize,
    pub system: String,
    pub region: String,
    pub last_seen_utc: String,
    pub claimed_by: String,
}

pub struct RowView {
    pub import_index: nat,
    pub system: Seq<char>,
    pub region: Seq<char>,
    pub last_seen_utc: Seq<char>,
    pub claimed_by: Seq<char>,
}

pub struct ImportView {
    pub rows: Seq<RowView>,
    pub messages: Seq<Seq<char>>,
}

impl View for FobScoutRow {
    type V = RowView;

    open spec fn view(&self) -> RowView {
        RowView {
            import_index: self.import_index as nat,
            system: self.system@,
            region: self.region@,
            last_seen_utc: self.last_seen_utc@,
            claimed_by: self.claimed_by@,
        }
    }
}

pub open spec fn string_views(v: Seq<String>) -> Seq<Seq<char>> {
    v.map_values(|s: String| s@)
}

pub open spec fn row_views(v: Seq<FobScoutRow>) -> Seq<RowView> {
    v.map_values(|r: FobScoutRow| r@)
}

impl View for FobScoutImport {
    type V = ImportView;

    open spec fn view(&self) -> ImportView {
        ImportView { rows: row_views(self.rows@), messages: string_views(self.messages@) }
    }
}

// ---------------------------------------------------------------------
// What a parse gives back
// ---------------------------------------------------------------------

/// The cells of a table line: the line without surrounding white space and
/// pipes, split at each pipe, each cell trimmed.
pub open spec fn cells(line: Seq<char>) -> Seq<Seq<char>> {
    split_on(trim_char(trim(line), '|'), '|').map_values(|c: Seq<char>| trim(c))
}

pub open spec fn is_header(line: Seq<char>) -> bool {
    let c = cells(line);
    &&& c.len() >= 4
    &&& lower_seq(c[0]) == "system"@
    &&& lower_seq(c[1]) == "region"@
    &&& lower_seq(c[2]) == "last seen utc"@
    &&& lower_seq(c[3]) == "claimed by"@
}

/// Every non-empty cell is made of dashes only.
pub open spec fn is_separator(line: Seq<char>) -> bool {
    forall|i: int, j: int|
        0 <= i < cells(line).len() && 0 <= j < cells(line)[i].len() ==> #[trigger] cells(line)[i][j]
            == '-'
}

/// Index of the first header line at or after `i`.
pub open spec fn first_header_from(ls: Seq<Seq<char>>, i: int) -> Option<int>
    decreases ls.len() - i,
{
    if i < 0 || i >= ls.len() {
        None
    } else if is_header(ls[i]) {
        Some(i)
    } else {
        first_header_from(ls, i + 1)
    }
}

pub struct ScanState {
    pub rows: Seq<RowView>,
    pub messages: Seq<Seq<char>>,
    pub seen: Seq<Seq<char>>,
    pub stopped: bool,
}

pub open spec fn columns_message(line_number: nat) -> Seq<char> {
    "Line "@ + decimal(line_number) + " was skipped because it did not include all table columns"@
}

pub open spec fn empty_system_message(line_number: nat) -> Seq<char> {
    "Line "@ + decimal(line_number) + " was skipped because the system was empty"@
}

pub open spec fn duplicate_message(system: Seq<char>) -> Seq<char> {
    system + " appeared more than once and was de-duplicated"@
}

/// The effect of one table line (numbered from one) on the scan.
pub open spec fn step(st: ScanState, line: Seq<char>, line_number: nat) -> ScanState {
    let t = trim(line);
    if st.stopped {
        st
    } else if t.len() == 0 || !t.contains('|') {
        ScanState { stopped: true, ..st }
    } else if is_separator(t) {
        st
    } else if cells(t).len() < 4 {
        ScanState { messages: st.messages.push(columns_message(line_number)), ..st }
    } else if cells(t)[0].len() == 0 {
        ScanState { messages: st.messages.push(empty_system_message(line_number)), ..st }
    } else if st.seen.contains(lower_seq(cells(t)[0])) {
        ScanState { messages: st.messages.push(duplicate_message(cells(t)[0])), ..st }
    } else {
        ScanState {
            rows: st.rows.push(
                RowView {
                    import_index: st.rows.len(),
                    system: cells(t)[0],
                    region: cells(t)[1],
                    last_seen_utc: cells(t)[2],
                    claimed_by: cells(t)[3],
                },
            ),
            seen: st.seen.push(lower_seq(cells(t)[0])),
            ..st
        }
    }
}

pub open spec fn initial_scan() -> ScanState {
    ScanState { rows: Seq::empty(), messages: Seq::empty(), seen: Seq::empty(), stopped: false }
}

/// The scan state after the lines `ls[start..k]`.
pub open spec fn scan(ls: Seq<Seq<char>>, start: int, k: int) -> ScanState
    decreases k - start,
{
    if k <= start {
        initial_scan()
    } else {
        step(scan(ls, start, k - 1), ls[k - 1], k as nat)
    }
}

pub open spec fn no_table_message() -> Seq<char> {
    "No FOBScout system table was found"@
}

pub open spec fn paste_message() -> Seq<char> {
    "Paste a FOBScout export to preview systems"@
}

/// What `parse_export` gives back for `input`.
pub open spec fn parse_export_spec(input: Seq<char>) -> ImportView {
    let ls = lines(input);
    match first_header_from(ls, 0) {
        None => ImportView {
            rows: Seq::empty(),
            messages: if trim(input).len() > 0 { seq![no_table_message()] } else { Seq::empty() },
        },
        Some(h) => {
            let st = scan(ls, h + 1, ls.len() as int);
            ImportView {
                rows: st.rows,
                messages: if st.rows.len() == 0 && trim(input).len() == 0 {
                    st.messages.push(paste_message())
                } else {
                    st.messages
                },
            }
        },
    }
}

// ---------------------------------------------------------------------
// Implementation
// ---------------------------------------------------------------------

fn cells_of(line: &Vec<char>) -> (r: Vec<Vec<char>>)
    ensures
        views(r@) == cells(line@),
{
    let t = trim_chars(line);
    let u = trim_char_chars(&t, '|');
    let parts = split_chars(&u, '|');
    let ghost p = split_on(u@, '|');
    let mut r: Vec<Vec<char>> = Vec::new();
    let mut i: usize = 0;
    while i < parts.len()
        invariant
            i <= parts.len(),
            views(parts@) == p,
            views(r@) == p.take(i as int).map_values(|c: Seq<char>| trim(c)),
        decreases parts.len() - i,
    {
        let c = trim_chars(&parts[i]);
        let ghost old_r = r@;
        r.push(c);
        assert(views(r@) =~= views(old_r).push(c@));
        assert(views(r@) =~= p.take(i + 1).map_values(|c: Seq<char>| trim(c)));
        i = i + 1;
    }
    assert(p.take(parts.len() as int) =~= p);
    r
}

fn is_header_line(line: &Vec<char>) -> (r: bool)
    ensures
        r == is_header(line@),
{
    let c = cells_of(line);
    if c.len() < 4 {
        return false;
    }
    let c0 = lower_chars(&c[0]);
    let c1 = lower_chars(&c[1]);
    let c2 = lower_chars(&c[2]);
    let c3 = lower_chars(&c[3]);
    chars_eq(&c0, &chars_of("system")) && chars_eq(&c1, &chars_of("region")) && chars_eq(
        &c2,
        &chars_of("last seen utc"),
    ) && chars_eq(&c3, &chars_of("claimed by"))
}

fn all_dashes(v: &Vec<char>) -> (r: bool)
    ensures
        r == (forall|j: int| 0 <= j < v@.len() ==> #[trigger] v@[j] == '-'),
{
    let mut j: usize = 0;
    while j < v.len()
        invariant
            j <= v.len(),
            forall|k: int| 0 <= k < j ==> #[trigger] v@[k] == '-',
        decreases v.len() - j,
    {
        if v[j] != '-' {
            return false;
        }
        j = j + 1;
    }
    true
}

fn is_separator_line(line: &Vec<char>) -> (r: bool)
    ensures
        r == is_separator(line@),
{
    let c = cells_of(line);
    let mut i: usize = 0;
    while i < c.len()
        invariant
            i <= c.len(),
            views(c@) == cells(line@),
            forall|a: int, b: int|
                0 <= a < i && 0 <= b < cells(line@)[a].len() ==> #[trigger] cells(line@)[a][b] == '-',
        decreases c.len() - i,
    {
        assert(c[i as int]@ == cells(line@)[i as int]);
        if !all_dashes(&c[i]) {
            return false;
        }
        i = i + 1;
    }
    true
}

fn has_pipe(v: &Vec<char>) -> (r: bool)
    ensures
        r == v@.contains('|'),
{
    let mut j: usize = 0;
    while j < v.len()
        invariant
            j <= v.len(),
            forall|k: int| 0 <= k < j ==> v@[k] != '|',
        decreases v.len() - j,
    {
        if v[j] == '|' {
            assert(v@[j as int] == '|');
            return true;
        }
        j = j + 1;
    }
    false
}

fn seen_contains(seen: &Vec<Vec<char>>, x: &Vec<char>) -> (r: bool)
    ensures
        r == views(seen@).contains(x@),
{
    let mut i: usize = 0;
    while i < seen.len()
        invariant
            i <= seen.len(),
            forall|k: int| 0 <= k < i ==> views(seen@)[k] != x@,
        decreases seen.len() - i,
    {
        if chars_eq(&seen[i], x) {
            assert(views(seen@)[i as int] == x@);
            return true;
        }
        i = i + 1;
    }
    false
}

fn line_message(line_number: usize, tail: &str) -> (r: String)
    ensures
        r@ == "Line "@ + decimal(line_number as nat) + tail@,
{
    let mut m: Vec<char> = Vec::new();
    push_str(&mut m, "Line ");
    push_decimal(&mut m, line_number as u64);
    push_str(&mut m, tail);
    string_of(&m)
}

proof fn lemma_scan_stopped(ls: Seq<Seq<char>>, start: int, k: int, m: int)
    requires
        start <= k <= m,
        scan(ls, start, k).stopped,
    ensures
        scan(ls, start, m) == scan(ls, start, k),
    decreases m - k,
{
    if m > k {
        lemma_scan_stopped(ls, start, k, m - 1);
    }
}

pub fn parse_export(input: &str) -> (import: FobScoutImport)
    ensures
        import@ == parse_export_spec(input@),
{
    let text = chars_of(input);
    let ls = lines_of(&text);
    let ghost lv = views(ls@);
    let blank_input = trim_chars(&text).len() == 0;

    let mut h: usize = 0;
    while h < ls.len() && !is_header_line(&ls[h])
        invariant
            h <= ls.len(),
            lv == views(ls@),
            first_header_from(lv, 0) == first_header_from(lv, h as int),
        decreases ls.len() - h,
    {
        h = h + 1;
    }
    if h == ls.len() {
        let mut messages: Vec<String> = Vec::new();
        if !blank_input {
            messages.push(String::from_str("No FOBScout system table was found"));
        }
        let import = FobScoutImport { rows: Vec::new(), messages };
        assert(import@.rows =~= parse_export_spec(input@).rows);
        assert(import@.messages =~= parse_export_spec(input@).messages);
        return import;
    }
    assert(first_header_from(lv, 0) == Some(h as int));

    let mut rows: Vec<FobScoutRow> = Vec::new();
    let mut messages: Vec<String> = Vec::new();
    let mut seen: Vec<Vec<char>> = Vec::new();
    let start = h + 1;
    let mut k: usize = start;
    while k < ls.len()
        invariant_except_break
            ({
                let st = scan(lv, start as int, k as int);
                &&& row_views(rows@) == st.rows
                &&& string_views(messages@) == st.messages
                &&& views(seen@) == st.seen
                &&& !st.stopped
            }),
        invariant
            start <= k <= ls.len(),
            lv == views(ls@),
            start == h + 1,
            first_header_from(lv, 0) == Some(h as int),
        ensures
            ({
                let st = scan(lv, start as int, ls.len() as int);
                &&& row_views(rows@) == st.rows
                &&& string_views(messages@) == st.messages
            }),
        decreases ls.len() - k,
    {
        let ghost st = scan(lv, start as int, k as int);
        let line_number = k + 1;
        let t = trim_chars(&ls[k]);
        assert(t@ == trim(lv[k as int]));
        if t.len() == 0 || !has_pipe(&t) {
            proof {
                lemma_scan_stopped(lv, start as int, (k + 1) as int, ls.len() as int);
            }
            break;
        }
        if !is_separator_line(&t) {
            let c = cells_of(&t);
            if c.len() < 4 {
                let ghost old_m = messages@;
                messages.push(
                    line_message(line_number, " was skipped because it did not include all table columns"),
                );
                assert(string_views(messages@) =~= string_views(old_m).push(columns_message(line_number as nat)));
            } else if c[0].len() == 0 {
                let ghost old_m = messages@;
                messages.push(line_message(line_number, " was skipped because the system was empty"));
                assert(string_views(messages@) =~= string_views(old_m).push(empty_system_message(line_number as nat)));
            } else {
                let normalized = lower_chars(&c[0]);
                assert(c[0]@ == cells(t@)[0]);
                if seen_contains(&seen, &normalized) {
                    let mut m = c[0].clone();
                    assert(m@ == c[0]@);
                    push_str(&mut m, " appeared more than once and was de-duplicated");
                    let ghost old_m = messages@;
                    messages.push(string_of(&m));
                    assert(string_views(messages@) =~= string_views(old_m).push(duplicate_message(cells(t@)[0])));
                } else {
                    let row = FobScoutRow {
                        import_index: rows.len(),
                        system: string_of(&c[0]),
                        region: string_of(&c[1]),
                        last_seen_utc: string_of(&c[2]),
                        claimed_by: string_of(&c[3]),
                    };
                    let ghost old_rows = rows@;
                    rows.push(row);
                    assert(row_views(rows@) =~= row_views(old_rows).push(row@));
                    let ghost old_seen = seen@;
                    seen.push(normalized);
                    assert(views(seen@) =~= views(old_seen).push(lower_seq(cells(t@)[0])));
                }
            }
        }
        k = k + 1;
    }
    let ghost st = scan(lv, start as int, ls.len() as int);
    if rows.len() == 0 && blank_input {
        let ghost old_m = messages@;
        messages.push(String::from_str("Paste a FOBScout export to preview systems"));
        assert(string_views(messages@) =~= string_views(old_m).push(paste_message()));
    }
    FobScoutImport { rows, messages }
}

// ---------------------------------------------------------------------
// What every import keeps
// ---------------------------------------------------------------------

/// The rows of a scan so far: numbered from zero in order, each with a
/// system, no two with the same system ignoring ASCII case, and `seen`
/// holding their lowered systems.
pub open spec fn scan_rows_ok(st: ScanState) -> bool {
    &&& st.seen.len() == st.rows.len()
    &&& forall|i: int| 0 <= i < st.rows.len() ==> (#[trigger] st.rows[i]).import_index == i && st.rows[i].system.len()
        > 0 && st.seen[i] == lower_seq(st.rows[i].system)
    &&& forall|i: int, j: int|
        0 <= i < j < st.rows.len() ==> lower_seq(#[trigger] st.rows[i].system) != lower_seq(
            #[trigger] st.rows[j].system,
        )
}

proof fn lemma_scan_rows_ok(ls: Seq<Seq<char>>, start: int, k: int)
    ensures
        scan_rows_ok(scan(ls, start, k)),
    decreases k - start,
{
    if k > start {
        lemma_scan_rows_ok(ls, start, k - 1);
        let st = scan(ls, start, k - 1);
        let t = trim(ls[k - 1]);
        let next = scan(ls, start, k);
        if !st.stopped && t.len() > 0 && t.contains('|') && !is_separator(t) && cells(t).len() >= 4
            && cells(t)[0].len() > 0 && !st.seen.contains(lower_seq(cells(t)[0])) {
            assert forall|i: int, j: int| 0 <= i < j < next.rows.len() implies lower_seq(
                #[trigger] next.rows[i].system,
            ) != lower_seq(#[trigger] next.rows[j].system) by {
                if j == st.rows.len() {
                    assert(st.rows[i] == st.rows[i]);
                    assert(st.seen[i] == lower_seq(st.rows[i].system));
                    assert(st.seen.contains(st.seen[i]));
                } else {
                    assert(next.rows[i] == st.rows[i] && next.rows[j] == st.rows[j]);
                }
            }
            assert forall|i: int| 0 <= i < next.rows.len() implies (#[trigger] next.rows[i]).import_index == i
                && next.rows[i].system.len() > 0 && next.seen[i] == lower_seq(next.rows[i].system) by {
                if i < st.rows.len() {
                    assert(next.rows[i] == st.rows[i]);
                }
            }
        }
    }
}

/// Every imported row has a system, rows are numbered from zero in the
/// order they were read, and no two rows name the same system ignoring
/// ASCII case.
pub proof fn law_import_rows_are_distinct(input: Seq<char>)
    ensures
        ({
            let rows = parse_export_spec(input).rows;
            &&& forall|i: int| 0 <= i < rows.len() ==> (#[trigger] rows[i]).import_index == i && rows[i].system.len() > 0
            &&& forall|i: int, j: int|
                0 <= i < j < rows.len() ==> lower_seq(#[trigger] rows[i].system) != lower_seq(#[trigger] rows[j].system)
        }),
{
    let ls = lines(input);
    match first_header_from(ls, 0) {
        None => {},
        Some(h) => {
            lemma_scan_rows_ok(ls, h + 1, ls.len() as int);
        },
    }
}

/// Two scans that hold the same rows, remembered systems and stop flag;
/// their messages may differ.
spec fn same_table(a: ScanState, b: ScanState) -> bool {
    a.rows == b.rows && a.seen == b.seen && a.stopped == b.stopped
}

proof fn lemma_step_same_table(a: ScanState, b: ScanState, line: Seq<char>, n1: nat, n2: nat)
    requires
        same_table(a, b),
    ensures
        same_table(step(a, line, n1), step(b, line, n2)),
{
}

proof fn lemma_scan_same_prefix(ls: Seq<Seq<char>>, ls2: Seq<Seq<char>>, start: int, k: int)
    requires
        0 <= start,
        0 <= k <= ls.len(),
        k <= ls2.len(),
        forall|x: int| 0 <= x < k ==> #[trigger] ls2[x] == ls[x],
    ensures
        scan(ls, start, k) == scan(ls2, start, k),
    decreases k - start,
{
    if k > start {
        lemma_scan_same_prefix(ls, ls2, start, k - 1);
        assert(ls2[k - 1] == ls[k - 1]);
    }
}

proof fn lemma_first_header_same_prefix(ls: Seq<Seq<char>>, ls2: Seq<Seq<char>>, i: int, h: int)
    requires
        0 <= i <= h < ls.len(),
        h < ls2.len(),
        forall|x: int| 0 <= x <= h ==> #[trigger] ls2[x] == ls[x],
        first_header_from(ls, i) == Some(h),
    ensures
        first_header_from(ls2, i) == Some(h),
    decreases h - i,
{
    assert(ls2[i] == ls[i]);
    if i < h {
        assert(!is_header(ls[i]));
        assert(first_header_from(ls, i + 1) == Some(h));
        lemma_first_header_same_prefix(ls, ls2, i + 1, h);
        assert(first_header_from(ls2, i) == first_header_from(ls2, i + 1));
    } else {
        lemma_first_header_range(ls, i + 1);
        assert(is_header(ls[i]));
    }
}

proof fn lemma_first_header_range(ls: Seq<Seq<char>>, i: int)
    requires
        0 <= i,
    ensures
        first_header_from(ls, i) matches Some(h) ==> i <= h < ls.len(),
    decreases ls.len() - i,
{
    if i < ls.len() {
        lemma_first_header_range(ls, i + 1);
    }
}

/// Without line `j`, the table reads the same rows from every later line.
proof fn lemma_scan_without_line(ls: Seq<Seq<char>>, start: int, j: int, k: int)
    requires
        0 <= start <= j < k <= ls.len(),
        trim(ls[j]).contains('|'),
        cells(trim(ls[j])).len() < 4,
    ensures
        same_table(scan(ls, start, k), scan(ls.remove(j), start, k - 1)),
    decreases k - j,
{
    let ls2 = ls.remove(j);
    if k == j + 1 {
        lemma_scan_same_prefix(ls, ls2, start, j);
        let t = trim(ls[j]);
        assert(t.len() > 0) by {
            let x = choose|x: int| 0 <= x < t.len() && t[x] == '|';
        }
    } else {
        lemma_scan_without_line(ls, start, j, k - 1);
        assert(ls2[k - 2] == ls[k - 1]);
        lemma_step_same_table(scan(ls, start, k - 1), scan(ls2, start, k - 2), ls[k - 1], k as nat, (k - 1) as nat);
    }
}

/// A table line with fewer than four columns only adds a message: the
/// export gives the same rows as it would without that line, so the table
/// goes on past it to the first blank or pipe-less line.
pub proof fn law_short_table_line_keeps_later_rows(a: Seq<char>, b: Seq<char>, j: int)
    requires
        0 <= j < lines(a).len(),
        lines(b) == lines(a).remove(j),
        first_header_from(lines(a), 0) matches Some(h) && h < j,
        trim(lines(a)[j]).contains('|'),
        cells(trim(lines(a)[j])).len() < 4,
    ensures
        parse_export_spec(b).rows == parse_export_spec(a).rows,
{
    let ls = lines(a);
    let ls2 = lines(b);
    let h = first_header_from(ls, 0)->0;
    lemma_first_header_range(ls, 0);
    assert forall|x: int| 0 <= x <= h implies #[trigger] ls2[x] == ls[x] by {}
    lemma_first_header_same_prefix(ls, ls2, 0, h);
    lemma_scan_without_line(ls, h + 1, j, ls.len() as int);
}

} // verus!
