//! Parsing a unified diff into per-file records of added lines and hunk
//! ranges.
//!
//! Two interchangeable entry points exist: [`parse_diff_from_buf`], which
//! takes the raw byte buffer a platform hands back, and the line-oriented
//! [`brute_force_parse_diff::parse_diff`] over text. Both are proved against
//! the same parsing model, [`spec_parse_diff`], so they produce identical
//! file sets for any diff both can read.

pub mod brute_force_parse_diff;

use vstd::prelude::*;

use crate::common_fs::{starts_with, str_starts_with, FileFilter, FileObj, FileObjModel};

verus! {

/// The views of a list of text lines.
pub open spec fn lines_view(v: Seq<String>) -> Seq<Seq<char>> {
    v.map_values(|l: String| l@)
}

/// The views of a list of parsed file records.
pub open spec fn files_view(v: Seq<FileObj>) -> Seq<FileObjModel> {
    v.map_values(|f: FileObj| f@)
}

// ---------------------------------------------------------------------------
// Splitting the buffer into lines.
// ---------------------------------------------------------------------------

/// The first newline at or after `from`, or the length of `s` when none is
/// left.
pub open spec fn first_nl_in(s: Seq<char>, from: int) -> int
    decreases s.len() - from,
{
    if from < 0 || from >= s.len() {
        s.len() as int
    } else if s[from] == '\n' {
        from
    } else {
        first_nl_in(s, from + 1)
    }
}

/// The lines of `s` from position `from` on: every newline ends a line, and a
/// final fragment without one is a line of its own.
pub open spec fn spec_split_lines_from(s: Seq<char>, from: int) -> Seq<Seq<char>>
    decreases s.len() - from,
{
    if from < 0 || from >= s.len() {
        Seq::empty()
    } else {
        let i = first_nl_in(s, from);
        if i < from {
            Seq::empty()
        } else if i >= s.len() {
            seq![s.subrange(from, s.len() as int)]
        } else {
            seq![s.subrange(from, i)] + spec_split_lines_from(s, i + 1)
        }
    }
}

/// The lines of the whole buffer.
pub open spec fn spec_split_lines(s: Seq<char>) -> Seq<Seq<char>> {
    spec_split_lines_from(s, 0)
}

fn first_nl_exec(s: &str, from: usize) -> (r: usize)
    ensures
        r == first_nl_in(s@, from as int),
        r <= s@.len(),
        from as int <= s@.len() ==> from <= r,
    decreases s@.len() - from as int,
{
    if from >= s.unicode_len() {
        s.unicode_len()
    } else if s.get_char(from) == '\n' {
        from
    } else {
        first_nl_exec(s, from + 1)
    }
}

/// Split a buffer into its lines.
pub fn split_lines(s: &str) -> (r: Vec<String>)
    ensures
        lines_view(r@) == spec_split_lines(s@),
{
    let n = s.unicode_len();
    let mut r: Vec<String> = Vec::new();
    let mut pos: usize = 0;
    while pos < n
        invariant
            n == s@.len(),
            spec_split_lines(s@) == lines_view(r@) + spec_split_lines_from(s@, pos as int),
        decreases n - pos,
    {
        let i = first_nl_exec(s, pos);
        let line = s.substring_char(pos, i).to_owned();
        let ghost old_r = r@;
        r.push(line);
        proof {
            assert(lines_view(r@) =~= lines_view(old_r) + seq![s@.subrange(pos as int, i as int)]);
        }
        if i >= n {
            pos = n;
            proof {
                assert(lines_view(r@) + spec_split_lines_from(s@, n as int) =~= lines_view(r@));
            }
        } else {
            pos = i + 1;
        }
        proof {
            assert(lines_view(r@) + spec_split_lines_from(s@, pos as int) =~= spec_split_lines(
                s@,
            ));
        }
    }
    proof {
        assert(lines_view(r@) + spec_split_lines_from(s@, pos as int) =~= lines_view(r@));
    }
    r
}

// ---------------------------------------------------------------------------
// Numbers and hunk headers.
// ---------------------------------------------------------------------------

/// A decimal digit.
pub open spec fn is_digit(c: char) -> bool {
    48 <= c as u32 <= 57
}

/// The first position at or after `from` that does not hold a digit.
pub open spec fn scan_digits(l: Seq<char>, from: int) -> int
    decreases l.len() - from,
{
    if from < 0 || from >= l.len() {
        l.len() as int
    } else if is_digit(l[from]) {
        scan_digits(l, from + 1)
    } else {
        from
    }
}

/// The value of the decimal digits in `[from, end)` of `l`.
pub open spec fn digits_value(l: Seq<char>, from: int, end: int) -> int
    decreases end - from,
{
    if end <= from {
        0
    } else {
        digits_value(l, from, end - 1) * 10 + (l[end - 1] as u32 - 48)
    }
}

/// Parse a decimal number at `from`: its value and the position after it.
/// Fails when no digit stands at `from` or the value exceeds the line-number
/// bound a diff can sensibly hold.
pub open spec fn spec_parse_num(l: Seq<char>, from: int) -> Option<(int, int)> {
    let end = scan_digits(l, from);
    if end <= from {
        None
    } else if digits_value(l, from, end) > u32::MAX {
        None
    } else {
        Some((digits_value(l, from, end), end))
    }
}

/// True when `pat` occurs in `l` at position `p`.
pub open spec fn match_at(l: Seq<char>, p: int, pat: Seq<char>) -> bool {
    0 <= p && p + pat.len() <= l.len() && l.subrange(p, p + pat.len() as int) == pat
}

/// A line that opens a hunk.
pub open spec fn is_hunk_start(l: Seq<char>) -> bool {
    starts_with(l, "@@ -"@)
}

/// Parse a hunk header `@@ -old_start[,old_count] +new_start[,new_count] @@`,
/// returning the new-file side: its start line and its line count (1 when
/// omitted). A line that opens like a hunk but does not fit this shape is
/// malformed and fails the whole segment.
pub open spec fn spec_parse_hunk_header(l: Seq<char>) -> Option<(u64, u64)> {
    if !is_hunk_start(l) {
        None
    } else {
        match spec_parse_num(l, 4) {
            None => None,
            Some((_old_start, p0)) => {
                let after_old = if p0 < l.len() && l[p0] == ',' {
                    spec_parse_num(l, p0 + 1)
                } else {
                    Some((1int, p0))
                };
                match after_old {
                    None => None,
                    Some((_old_count, p1)) => {
                        if !match_at(l, p1, " +"@) {
                            None
                        } else {
                            match spec_parse_num(l, p1 + 2) {
                                None => None,
                                Some((new_start, p2)) => {
                                    let after_new = if p2 < l.len() && l[p2] == ',' {
                                        spec_parse_num(l, p2 + 1)
                                    } else {
                                        Some((1int, p2))
                                    };
                                    match after_new {
                                        None => None,
                                        Some((new_count, p3)) => {
                                            if !match_at(l, p3, " @@"@) {
                                                None
                                            } else {
                                                Some((new_start as u64, new_count as u64))
                                            }
                                        },
                                    }
                                },
                            }
                        }
                    },
                }
            },
        }
    }
}

// ---------------------------------------------------------------------------
// Segments.
// ---------------------------------------------------------------------------

/// A line that opens a new per-file segment.
pub open spec fn is_boundary_line(l: Seq<char>) -> bool {
    starts_with(l, "diff --git "@)
}

/// The first segment boundary at or after `from`, or the number of lines.
pub open spec fn next_boundary(lines: Seq<Seq<char>>, from: int) -> int
    decreases lines.len() - from,
{
    if from < 0 || from >= lines.len() {
        lines.len() as int
    } else if is_boundary_line(lines[from]) {
        from
    } else {
        next_boundary(lines, from + 1)
    }
}

/// The first hunk line of a segment at or after `i`, or the segment's length.
pub open spec fn first_hunk_from(seg: Seq<Seq<char>>, i: int) -> int
    decreases seg.len() - i,
{
    if i < 0 || i >= seg.len() {
        seg.len() as int
    } else if is_hunk_start(seg[i]) {
        i
    } else {
        first_hunk_from(seg, i + 1)
    }
}

/// Whether a binary-file marker stands in `[i, h)` of the segment.
pub open spec fn binary_in(seg: Seq<Seq<char>>, i: int, h: int) -> bool
    decreases h - i,
{
    if i < 0 || i >= h || i >= seg.len() {
        false
    } else if starts_with(seg[i], "Binary files "@) {
        true
    } else {
        binary_in(seg, i + 1, h)
    }
}

/// The new-file path taken from the first `+++ b/` line in `[i, h)`.
pub open spec fn front_name_from(seg: Seq<Seq<char>>, i: int, h: int) -> Option<Seq<char>>
    decreases h - i,
{
    if i < 0 || i >= h || i >= seg.len() {
        None
    } else if starts_with(seg[i], "+++ b/"@) {
        Some(seg[i].skip(6))
    } else {
        front_name_from(seg, i + 1, h)
    }
}

/// Walk a hunk body line by line from index `i`, with `pos` the new-file line
/// number of the next line. Hunk headers reset `pos` and record a range;
/// lines opening with `+` (but not `+++`) are added lines; lines opening with
/// `-` do not advance the counter; every other line does. The counter
/// saturates just past the largest line number a header can carry: an added
/// line beyond that bound, like a malformed header, fails the segment.
pub open spec fn spec_parse_patch(
    seg: Seq<Seq<char>>,
    i: int,
    pos: int,
    added: Seq<u64>,
    ranges: Seq<(u64, u64)>,
) -> Option<(Seq<u64>, Seq<(u64, u64)>)>
    decreases seg.len() - i,
{
    if i < 0 || i >= seg.len() {
        Some((added, ranges))
    } else {
        let l = seg[i];
        if is_hunk_start(l) {
            match spec_parse_hunk_header(l) {
                None => None,
                Some((start, count)) => spec_parse_patch(
                    seg,
                    i + 1,
                    start as int,
                    added,
                    if count >= 1 {
                        ranges.push((start, (start + count - 1) as u64))
                    } else {
                        ranges
                    },
                ),
            }
        } else if l.len() > 0 && l[0] == '-' {
            spec_parse_patch(seg, i + 1, pos, added, ranges)
        } else if l.len() > 0 && l[0] == '+' && !starts_with(l, "+++"@) {
            if pos > u32::MAX {
                None
            } else {
                spec_parse_patch(seg, i + 1, pos + 1, added.push(pos as u64), ranges)
            }
        } else {
            spec_parse_patch(
                seg,
                i + 1,
                if pos > u32::MAX {
                    pos
                } else {
                    pos + 1
                },
                added,
                ranges,
            )
        }
    }
}

/// Parse one per-file segment. A segment without a hunk header (a pure
/// rename, a mode change or a binary file), with a binary marker, without a
/// `+++ b/` path, with a path the filter rejects, or with a malformed hunk
/// yields no record.
pub open spec fn spec_parse_segment(seg: Seq<Seq<char>>, filter: FileFilter) -> Option<
    FileObjModel,
> {
    let h = first_hunk_from(seg, 0);
    if h >= seg.len() {
        None
    } else if binary_in(seg, 0, h) {
        None
    } else {
        match front_name_from(seg, 0, h) {
            None => None,
            Some(name) => {
                if !filter.spec_is_source_or_ignored(name) {
                    None
                } else {
                    match spec_parse_patch(seg, h, 0, Seq::empty(), Seq::empty()) {
                        None => None,
                        Some((added, ranges)) => Some(
                            FileObjModel {
                                name,
                                added_lines: added,
                                diff_chunks: ranges,
                                format_advice: None,
                            },
                        ),
                    }
                }
            },
        }
    }
}

/// Parse every segment from boundary `i` on, in diff order, keeping the
/// records of the segments that parse.
pub open spec fn spec_parse_segments(
    lines: Seq<Seq<char>>,
    i: int,
    filter: FileFilter,
) -> Seq<FileObjModel>
    decreases lines.len() - i,
{
    if i < 0 || i >= lines.len() {
        Seq::empty()
    } else {
        let j = next_boundary(lines, i + 1);
        if j <= i || j > lines.len() {
            Seq::empty()
        } else {
            let rest = spec_parse_segments(lines, j, filter);
            match spec_parse_segment(lines.subrange(i, j), filter) {
                Some(m) => seq![m] + rest,
                None => rest,
            }
        }
    }
}

/// The parse of a whole diff: its lines, split at the `diff --git `
/// boundaries, one record per segment the filter accepts.
pub open spec fn spec_parse_diff(s: Seq<char>, filter: FileFilter) -> Seq<FileObjModel> {
    let lines = spec_split_lines(s);
    spec_parse_segments(lines, next_boundary(lines, 0), filter)
}

// ---------------------------------------------------------------------------
// Executable scanning helpers.
// ---------------------------------------------------------------------------

proof fn lemma_digits_value_nonneg(l: Seq<char>, from: int, end: int)
    requires
        forall|k: int| from <= k < end ==> is_digit(l[k]),
    ensures
        digits_value(l, from, end) >= 0,
    decreases end - from,
{
    if end > from {
        lemma_digits_value_nonneg(l, from, end - 1);
    }
}

proof fn lemma_digits_value_monotone(l: Seq<char>, from: int, mid: int, end: int)
    requires
        from <= mid <= end,
        forall|k: int| from <= k < end ==> is_digit(l[k]),
    ensures
        digits_value(l, from, end) >= digits_value(l, from, mid),
    decreases end - mid,
{
    if mid < end {
        lemma_digits_value_monotone(l, from, mid, end - 1);
        lemma_digits_value_nonneg(l, from, end - 1);
    }
}

pub(crate) fn parse_num_exec(l: &str, from: usize) -> (r: Option<(u64, usize)>)
    ensures
        match r {
            Some((v, next)) => {
                &&& spec_parse_num(l@, from as int) == Some((v as int, next as int))
                &&& v <= u32::MAX
                &&& from < next <= l@.len()
            },
            None => spec_parse_num(l@, from as int) is None,
        },
{
    let n = l.unicode_len();
    if from >= n {
        return None;
    }
    let mut i = from;
    let mut v: u64 = 0;
    let mut stop = false;
    while i < n && !stop
        invariant
            n == l@.len(),
            from <= i <= n,
            scan_digits(l@, from as int) == scan_digits(l@, i as int),
            forall|k: int| from <= k < i ==> is_digit(l@[k]),
            v == digits_value(l@, from as int, i as int),
            v <= u32::MAX,
            stop ==> i < n && !is_digit(l@[i as int]),
        decreases n - i, 1int - if stop {
            1int
        } else {
            0int
        },
    {
        let c = l.get_char(i) as u32;
        if 48 <= c && c <= 57 {
            let d = c - 48;
            let next = v * 10 + d as u64;
            if next > 0xFFFF_FFFF {
                proof {
                    let end = scan_digits(l@, from as int);
                    assert(scan_digits(l@, i as int) == scan_digits(l@, i + 1));
                    lemma_scan_digits_bounds(l@, i + 1);
                    lemma_digits_value_monotone(l@, from as int, i + 1, end);
                }
                return None;
            }
            v = next;
            i += 1;
        } else {
            stop = true;
        }
    }
    proof {
        assert(scan_digits(l@, i as int) == i);
    }
    if i == from {
        None
    } else {
        Some((v, i))
    }
}

proof fn lemma_scan_digits_bounds(l: Seq<char>, from: int)
    requires
        0 <= from,
    ensures
        scan_digits(l, from) <= l.len(),
        from <= l.len() ==> from <= scan_digits(l, from),
        forall|k: int| from <= k < scan_digits(l, from) ==> is_digit(l[k]),
    decreases l.len() - from,
{
    if from < l.len() && is_digit(l[from]) {
        lemma_scan_digits_bounds(l, from + 1);
    }
}

pub(crate) fn match_at_exec(l: &str, p: usize, pat: &str) -> (r: bool)
    ensures
        r == match_at(l@, p as int, pat@),
{
    let n = l.unicode_len();
    let m = pat.unicode_len();
    if p > n || m > n - p {
        return false;
    }
    let mut k: usize = 0;
    while k < m
        invariant
            n == l@.len(),
            m == pat@.len(),
            p + m <= n,
            k <= m,
            forall|j: int| 0 <= j < k ==> l@[p + j] == pat@[j],
        decreases m - k,
    {
        if l.get_char(p + k) != pat.get_char(k) {
            proof {
                assert(l@.subrange(p as int, p + pat@.len() as int)[k as int] != pat@[k as int]);
            }
            return false;
        }
        k += 1;
    }
    proof {
        assert(l@.subrange(p as int, p + pat@.len() as int) =~= pat@);
    }
    true
}

fn parse_hunk_header_exec(l: &str) -> (r: Option<(u64, u64)>)
    ensures
        match r {
            Some((start, count)) => {
                &&& spec_parse_hunk_header(l@) == Some((start, count))
                &&& start <= u32::MAX
                &&& count <= u32::MAX
            },
            None => spec_parse_hunk_header(l@) is None,
        },
{
    if !str_starts_with(l, "@@ -") {
        return None;
    }
    let n = l.unicode_len();
    let (_old_start, p0) = match parse_num_exec(l, 4) {
        None => {
            return None;
        },
        Some(x) => x,
    };
    let p1 = if p0 < n && l.get_char(p0) == ',' {
        match parse_num_exec(l, p0 + 1) {
            None => {
                return None;
            },
            Some((_v, q)) => q,
        }
    } else {
        p0
    };
    if !match_at_exec(l, p1, " +") {
        return None;
    }
    proof {
        reveal_strlit(" +");
        assert(p1 + 2 <= n);
    }
    let (new_start, p2) = match parse_num_exec(l, p1 + 2) {
        None => {
            return None;
        },
        Some(x) => x,
    };
    let (new_count, p3) = if p2 < n && l.get_char(p2) == ',' {
        match parse_num_exec(l, p2 + 1) {
            None => {
                return None;
            },
            Some(x) => x,
        }
    } else {
        (1u64, p2)
    };
    if !match_at_exec(l, p3, " @@") {
        return None;
    }
    Some((new_start, new_count))
}

pub(crate) fn next_boundary_exec(lines: &Vec<String>, from: usize) -> (r: usize)
    ensures
        r == next_boundary(lines_view(lines@), from as int),
        r <= lines@.len(),
        from as int <= lines@.len() ==> from <= r,
    decreases lines@.len() - from as int,
{
    if from >= lines.len() {
        lines.len()
    } else if str_starts_with(lines[from].as_str(), "diff --git ") {
        from
    } else {
        next_boundary_exec(lines, from + 1)
    }
}

fn first_hunk_exec(seg: &Vec<String>, i: usize) -> (r: usize)
    ensures
        r == first_hunk_from(lines_view(seg@), i as int),
        i <= r || r == seg@.len(),
        r <= seg@.len(),
    decreases seg@.len() - i as int,
{
    if i >= seg.len() {
        seg.len()
    } else if str_starts_with(seg[i].as_str(), "@@ -") {
        i
    } else {
        first_hunk_exec(seg, i + 1)
    }
}

fn binary_in_exec(seg: &Vec<String>, i: usize, h: usize) -> (r: bool)
    ensures
        r == binary_in(lines_view(seg@), i as int, h as int),
    decreases seg@.len() + 1 - i as int,
{
    if i >= h || i >= seg.len() {
        false
    } else if str_starts_with(seg[i].as_str(), "Binary files ") {
        true
    } else {
        binary_in_exec(seg, i + 1, h)
    }
}

fn front_name_exec(seg: &Vec<String>, i: usize, h: usize) -> (r: Option<String>)
    ensures
        match r {
            Some(name) => front_name_from(lines_view(seg@), i as int, h as int) == Some(name@),
            None => front_name_from(lines_view(seg@), i as int, h as int) is None,
        },
    decreases seg@.len() + 1 - i as int,
{
    if i >= h || i >= seg.len() {
        None
    } else if str_starts_with(seg[i].as_str(), "+++ b/") {
        let line = seg[i].as_str();
        proof {
            reveal_strlit("+++ b/");
            assert(line@.len() >= 6);
        }
        let name = line.substring_char(6, line.unicode_len()).to_owned();
        proof {
            assert(name@ =~= lines_view(seg@)[i as int].skip(6));
        }
        Some(name)
    } else {
        front_name_exec(seg, i + 1, h)
    }
}

fn parse_patch_exec(
    seg: &Vec<String>,
    i: usize,
    pos: u64,
    added: &mut Vec<u64>,
    ranges: &mut Vec<(u64, u64)>,
) -> (ok: bool)
    requires
        pos <= 0x1_0000_0000,
    ensures
        ({
            let res = spec_parse_patch(
                lines_view(seg@),
                i as int,
                pos as int,
                old(added)@,
                old(ranges)@,
            );
            if ok {
                res == Some((final(added)@, final(ranges)@))
            } else {
                res is None
            }
        }),
    decreases seg@.len() - i as int,
{
    if i >= seg.len() {
        true
    } else {
        let line = seg[i].as_str();
        if str_starts_with(line, "@@ -") {
            match parse_hunk_header_exec(line) {
                None => false,
                Some((start, count)) => {
                    if count >= 1 {
                        ranges.push((start, start + count - 1));
                    }
                    parse_patch_exec(seg, i + 1, start, added, ranges)
                },
            }
        } else if line.unicode_len() > 0 && line.get_char(0) == '-' {
            parse_patch_exec(seg, i + 1, pos, added, ranges)
        } else if line.unicode_len() > 0 && line.get_char(0) == '+' && !str_starts_with(
            line,
            "+++",
        ) {
            if pos > 0xFFFF_FFFF {
                false
            } else {
                added.push(pos);
                parse_patch_exec(seg, i + 1, pos + 1, added, ranges)
            }
        } else {
            let next = if pos > 0xFFFF_FFFF {
                pos
            } else {
                pos + 1
            };
            parse_patch_exec(seg, i + 1, next, added, ranges)
        }
    }
}

/// Parse one per-file segment of the diff into a file record, or nothing when
/// the segment is binary, rename-only, malformed or filtered out.
pub fn parse_segment(seg: &Vec<String>, file_filter: &FileFilter) -> (r: Option<FileObj>)
    ensures
        match r {
            Some(f) => spec_parse_segment(lines_view(seg@), *file_filter) == Some(f@),
            None => spec_parse_segment(lines_view(seg@), *file_filter) is None,
        },
{
    let n = seg.len();
    let h = first_hunk_exec(seg, 0);
    if h >= n {
        return None;
    }
    if binary_in_exec(seg, 0, h) {
        return None;
    }
    let name = match front_name_exec(seg, 0, h) {
        None => {
            return None;
        },
        Some(nm) => nm,
    };
    if !file_filter.is_source_or_ignored(name.as_str()) {
        return None;
    }
    let mut added: Vec<u64> = Vec::new();
    let mut ranges: Vec<(u64, u64)> = Vec::new();
    if !parse_patch_exec(seg, h, 0, &mut added, &mut ranges) {
        return None;
    }
    Some(FileObj::from(name, added, ranges))
}

pub(crate) fn copy_lines(lines: &Vec<String>, from: usize, to: usize) -> (r: Vec<String>)
    requires
        from <= to <= lines@.len(),
    ensures
        lines_view(r@) == lines_view(lines@).subrange(from as int, to as int),
{
    let mut r: Vec<String> = Vec::new();
    let mut k = from;
    while k < to
        invariant
            from <= k <= to <= lines@.len(),
            lines_view(r@) == lines_view(lines@).subrange(from as int, k as int),
        decreases to - k,
    {
        let ghost old_r = r@;
        r.push(lines[k].clone());
        proof {
            assert(lines_view(r@) =~= lines_view(old_r).push(lines@[k as int]@));
            assert(lines_view(r@) =~= lines_view(lines@).subrange(from as int, k + 1));
        }
        k += 1;
    }
    r
}

fn parse_segments_rec(lines: &Vec<String>, i: usize, file_filter: &FileFilter) -> (r: Vec<
    FileObj,
>)
    ensures
        files_view(r@) == spec_parse_segments(lines_view(lines@), i as int, *file_filter),
    decreases lines@.len() - i as int,
{
    if i >= lines.len() {
        Vec::new()
    } else {
        let j = next_boundary_exec(lines, i + 1);
        let mut rest = parse_segments_rec(lines, j, file_filter);
        let seg = copy_lines(lines, i, j);
        match parse_segment(&seg, file_filter) {
            Some(f) => {
                let ghost old_rest = rest@;
                rest.insert(0, f);
                proof {
                    assert(files_view(rest@) =~= seq![f@] + files_view(old_rest));
                }
            },
            None => {},
        }
        rest
    }
}

/// Relies on `String::from_utf8_lossy`: valid UTF-8 bytes decode to exactly
/// their characters (invalid sequences are replaced, about which nothing is
/// claimed here).
#[verifier::external_body]
fn from_utf8_lossy(b: &[u8]) -> (r: String)
    ensures
        vstd::utf8::valid_utf8(b@) ==> r@ == vstd::utf8::decode_utf8(b@),
{
    String::from_utf8_lossy(b).into_owned()
}

/// Parse a unified diff handed over as a raw byte buffer, one record per file
/// the filter accepts. The buffer is decoded as UTF-8; on a valid buffer the
/// result is exactly the parsing model's, and on any buffer it is the model's
/// parse of the decoded text.
pub fn parse_diff_from_buf(buff: &[u8], file_filter: &FileFilter) -> (r: Vec<FileObj>)
    ensures
        vstd::utf8::valid_utf8(buff@) ==> files_view(r@) == spec_parse_diff(
            vstd::utf8::decode_utf8(buff@),
            *file_filter,
        ),
        exists|s: Seq<char>| files_view(r@) == spec_parse_diff(s, *file_filter),
{
    let text = from_utf8_lossy(buff);
    let lines = split_lines(text.as_str());
    let start = next_boundary_exec(&lines, 0);
    let r = parse_segments_rec(&lines, start, file_filter);
    proof {
        assert(files_view(r@) == spec_parse_diff(text@, *file_filter));
    }
    r
}

/// Both diff parsers are proved against the one parsing model
/// [`spec_parse_diff`], so for any diff both can read — handed to one as
/// UTF-8 bytes and to the other as the same text — they produce identical
/// file sets under the same filter.
pub proof fn lemma_parsers_agree(bytes: Seq<u8>, s: Seq<char>, filter: FileFilter)
    requires
        vstd::utf8::valid_utf8(bytes),
        vstd::utf8::decode_utf8(bytes) == s,
    ensures
        spec_parse_diff(vstd::utf8::decode_utf8(bytes), filter) == spec_parse_diff(s, filter),
{
}


proof fn lemma_next_boundary_bounds(lines: Seq<Seq<char>>, from: int)
    requires
        0 <= from,
    ensures
        next_boundary(lines, from) <= lines.len(),
        from <= lines.len() ==> from <= next_boundary(lines, from),
    decreases lines.len() - from,
{
    if from < lines.len() && !is_boundary_line(lines[from]) {
        lemma_next_boundary_bounds(lines, from + 1);
    }
}

proof fn lemma_first_hunk_none(seg: Seq<Seq<char>>, k: int)
    requires
        0 <= k,
        forall|j: int| k <= j < seg.len() ==> !is_hunk_start(#[trigger] seg[j]),
    ensures
        first_hunk_from(seg, k) == seg.len(),
    decreases seg.len() - k,
{
    if k < seg.len() {
        lemma_first_hunk_none(seg, k + 1);
    }
}

proof fn lemma_segments_no_hunks(lines: Seq<Seq<char>>, i: int, filter: FileFilter)
    requires
        0 <= i,
        forall|k: int| 0 <= k < lines.len() ==> !is_hunk_start(#[trigger] lines[k]),
    ensures
        spec_parse_segments(lines, i, filter) == Seq::<FileObjModel>::empty(),
    decreases lines.len() - i,
{
    if i < lines.len() {
        let j = next_boundary(lines, i + 1);
        lemma_next_boundary_bounds(lines, i + 1);
        let seg = lines.subrange(i, j);
        assert(forall|k: int| 0 <= k < seg.len() ==> !is_hunk_start(#[trigger] seg[k]));
        lemma_first_hunk_none(seg, 0);
        lemma_segments_no_hunks(lines, j, filter);
    }
}

proof fn lemma_segments_pass_filter(lines: Seq<Seq<char>>, i: int, filter: FileFilter)
    ensures
        forall|k: int|
            0 <= k < spec_parse_segments(lines, i, filter).len() ==> {
                let f = #[trigger] spec_parse_segments(lines, i, filter)[k];
                filter.spec_is_source_or_ignored(f.name) && f.format_advice is None
            },
    decreases lines.len() - i,
{
    if 0 <= i < lines.len() {
        let j = next_boundary(lines, i + 1);
        if i < j <= lines.len() {
            lemma_segments_pass_filter(lines, j, filter);
            let rest = spec_parse_segments(lines, j, filter);
            match spec_parse_segment(lines.subrange(i, j), filter) {
                Some(m) => {
                    assert(spec_parse_segments(lines, i, filter) == seq![m] + rest);
                    assert(filter.spec_is_source_or_ignored(m.name) && m.format_advice is None);
                    assert(forall|k: int|
                        1 <= k < (seq![m] + rest).len() ==> (seq![m] + rest)[k] == rest[k - 1]);
                },
                None => {},
            }
        }
    }
}

/// Every record the parse hands back belongs to a file the filter accepts —
/// a source file by extension, or an ignored-but-reported one — and carries
/// no advice yet.
pub proof fn lemma_parsed_files_pass_filter(s: Seq<char>, filter: FileFilter)
    ensures
        forall|k: int|
            0 <= k < spec_parse_diff(s, filter).len() ==> {
                let f = #[trigger] spec_parse_diff(s, filter)[k];
                filter.spec_is_source_or_ignored(f.name) && f.format_advice is None
            },
{
    let lines = spec_split_lines(s);
    lemma_segments_pass_filter(lines, next_boundary(lines, 0), filter);
}

/// A diff none of whose lines opens a hunk -- one holding only binary-file
/// changes, pure renames or mode changes -- parses to an empty file list,
/// under any filter that does not special-case such segments.
pub proof fn lemma_no_hunks_no_files(s: Seq<char>, filter: FileFilter)
    requires
        forall|i: int|
            0 <= i < spec_split_lines(s).len() ==> !is_hunk_start(
                #[trigger] spec_split_lines(s)[i],
            ),
    ensures
        spec_parse_diff(s, filter) == Seq::<FileObjModel>::empty(),
{
    let lines = spec_split_lines(s);
    lemma_next_boundary_bounds(lines, 0);
    lemma_segments_no_hunks(lines, next_boundary(lines, 0), filter);
}

} // verus!
