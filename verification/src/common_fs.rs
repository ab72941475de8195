//! File-oriented utilities: the in-scope file filter, the per-file diff
//! record, and the resolver from byte offsets to line/column positions.

use vstd::prelude::*;

use crate::clang_tools::clang_format::{FormatAdvice, ReplacementModel};
use crate::cli::LinesChangedOnly;
use crate::lint_error::LintError;

verus! {

// ---------------------------------------------------------------------------
// Text helpers shared by the parsers.
// ---------------------------------------------------------------------------

/// True when `p` is a prefix of `s`.
pub open spec fn starts_with(s: Seq<char>, p: Seq<char>) -> bool {
    p.len() <= s.len() && s.subrange(0, p.len() as int) == p
}

/// Character-by-character prefix test, the executable side of [`starts_with`].
pub fn str_starts_with(s: &str, p: &str) -> (r: bool)
    ensures
        r == starts_with(s@, p@),
{
    let n = p.unicode_len();
    if n > s.unicode_len() {
        return false;
    }
    let mut i: usize = 0;
    while i < n
        invariant
            i <= n,
            n == p@.len(),
            n <= s@.len(),
            forall|j: int| 0 <= j < i ==> s@[j] == p@[j],
        decreases n - i,
    {
        if s.get_char(i) != p.get_char(i) {
            proof {
                assert(s@.subrange(0, p@.len() as int)[i as int] != p@[i as int]);
            }
            return false;
        }
        i += 1;
    }
    proof {
        assert(s@.subrange(0, p@.len() as int) =~= p@);
    }
    true
}

/// Character-by-character equality of two string slices.
pub fn str_eq(a: &str, b: &str) -> (r: bool)
    ensures
        r == (a@ == b@),
{
    let n = a.unicode_len();
    if n != b.unicode_len() {
        return false;
    }
    let mut i: usize = 0;
    while i < n
        invariant
            i <= n,
            n == a@.len(),
            n == b@.len(),
            forall|j: int| 0 <= j < i ==> a@[j] == b@[j],
        decreases n - i,
    {
        if a.get_char(i) != b.get_char(i) {
            return false;
        }
        i += 1;
    }
    proof {
        assert(a@ =~= b@);
    }
    true
}

// ---------------------------------------------------------------------------
// The offset resolver.
// ---------------------------------------------------------------------------

/// True of a byte that continues a multi-byte UTF-8 character, so that it does
/// not begin a new character.
pub open spec fn is_continuation(b: u8) -> bool {
    0x80 <= b < 0xC0
}

/// How many newline bytes stand before position `end` of `s`.
pub open spec fn newlines_before(s: Seq<u8>, end: int) -> int
    decreases end,
{
    if end <= 0 {
        0
    } else {
        newlines_before(s, end - 1) + if s[end - 1] == 10 {
            1int
        } else {
            0int
        }
    }
}

/// The position of the first byte of the line holding position `end`: the
/// position right after the newline closest before `end`, or 0 on the first
/// line.
pub open spec fn line_start(s: Seq<u8>, end: int) -> int
    decreases end,
{
    if end <= 0 {
        0
    } else if s[end - 1] == 10 {
        end
    } else {
        line_start(s, end - 1)
    }
}

/// How many character-starting bytes lie in `[from, end)` of `s`.
pub open spec fn chars_between(s: Seq<u8>, from: int, end: int) -> int
    decreases end - from,
{
    if end <= from {
        0
    } else {
        chars_between(s, from, end - 1) + if is_continuation(s[end - 1]) {
            0int
        } else {
            1int
        }
    }
}

/// The 1-indexed line number of the byte offset `off` in content `s`.
pub open spec fn line_of_offset(s: Seq<u8>, off: int) -> int {
    newlines_before(s, off) + 1
}

/// The 1-indexed column of the byte offset `off` in content `s`: the count
/// of UTF-8 characters from the start of the offset's line up to and
/// including the character the offset points at, uniform across all lines.
pub open spec fn col_of_offset(s: Seq<u8>, off: int) -> int {
    chars_between(s, line_start(s, off), off) + 1
}

proof fn lemma_newlines_before_bounds(s: Seq<u8>, end: int)
    ensures
        0 <= newlines_before(s, end) <= if end >= 0 {
            end
        } else {
            0
        },
    decreases end,
{
    if end > 0 {
        lemma_newlines_before_bounds(s, end - 1);
    }
}

proof fn lemma_line_start_bounds(s: Seq<u8>, end: int)
    requires
        end >= 0,
    ensures
        0 <= line_start(s, end) <= end,
    decreases end,
{
    if end > 0 && s[end - 1] != 10 {
        lemma_line_start_bounds(s, end - 1);
    }
}

proof fn lemma_chars_between_bounds(s: Seq<u8>, from: int, end: int)
    requires
        from >= 0,
    ensures
        0 <= chars_between(s, from, end) <= if end >= from {
            end - from
        } else {
            0
        },
    decreases end,
{
    if end > from {
        lemma_chars_between_bounds(s, from, end - 1);
    }
}

/// Resolve a byte offset within `contents` (the file's current, on-disk bytes)
/// into its 1-indexed line number and column. Content is treated as UTF-8: the
/// offset is a byte index while the column counts characters. An offset past
/// the end of the content is rejected as [`LintError::InvalidOffset`].
pub fn get_line_cols_from_offset(contents: &[u8], offset: usize) -> (r: Result<
    (usize, usize),
    LintError,
>)
    requires
        contents@.len() < usize::MAX,
    ensures
        match r {
            Ok((line, cols)) => {
                &&& offset <= contents@.len()
                &&& line == line_of_offset(contents@, offset as int)
                &&& cols == col_of_offset(contents@, offset as int)
            },
            Err(e) => offset > contents@.len() && e == LintError::InvalidOffset,
        },
{
    if offset > contents.len() {
        return Err(LintError::InvalidOffset);
    }
    let mut line: usize = 1;
    let mut cols: usize = 1;
    let mut i: usize = 0;
    while i < offset
        invariant
            i <= offset <= contents@.len() < usize::MAX,
            line == line_of_offset(contents@, i as int),
            cols == col_of_offset(contents@, i as int),
            line <= i + 1,
            cols <= i + 1,
        decreases offset - i,
    {
        let ghost s = contents@;
        proof {
            lemma_line_start_bounds(s, i as int);
            lemma_line_start_bounds(s, i + 1);
            lemma_chars_between_bounds(s, line_start(s, i + 1), i + 1);
            lemma_newlines_before_bounds(s, i + 1);
        }
        let b = contents[i];
        if b == 10 {
            line = line + 1;
            cols = 1;
            proof {
                assert(line_start(s, i + 1) == i + 1);
                assert(chars_between(s, i + 1, i + 1) == 0);
            }
        } else if b < 0x80 || b >= 0xC0 {
            cols = cols + 1;
            proof {
                assert(line_start(s, i + 1) == line_start(s, i as int));
                assert(chars_between(s, line_start(s, i as int), i + 1) == chars_between(
                    s,
                    line_start(s, i as int),
                    i as int,
                ) + 1);
            }
        } else {
            proof {
                assert(line_start(s, i + 1) == line_start(s, i as int));
                assert(chars_between(s, line_start(s, i as int), i + 1) == chars_between(
                    s,
                    line_start(s, i as int),
                    i as int,
                ));
            }
        }
        i += 1;
    }
    Ok((line, cols))
}

// ---------------------------------------------------------------------------
// Re-deriving an offset from a resolved line/column pair.
// ---------------------------------------------------------------------------

/// How many newline bytes lie in `[from, end)` of `s`.
pub open spec fn newlines_in(s: Seq<u8>, from: int, end: int) -> int
    decreases end - from,
{
    if end <= from {
        0
    } else {
        newlines_in(s, from, end - 1) + if s[end - 1] == 10 {
            1int
        } else {
            0int
        }
    }
}

/// The position of the `k`-th newline (1-indexed) at or after `p`, or the
/// length of `s` when there are fewer.
pub open spec fn nth_newline_from(s: Seq<u8>, p: int, k: int) -> int
    decreases s.len() - p,
{
    if p < 0 || p >= s.len() {
        s.len() as int
    } else if s[p] == 10 {
        if k <= 1 {
            p
        } else {
            nth_newline_from(s, p + 1, k - 1)
        }
    } else {
        nth_newline_from(s, p + 1, k)
    }
}

/// The position of the first character-starting byte at or after `p`, or the
/// length of `s` when there is none.
pub open spec fn next_char_start(s: Seq<u8>, p: int) -> int
    decreases s.len() - p,
{
    if p < 0 || p >= s.len() {
        s.len() as int
    } else if !is_continuation(s[p]) {
        p
    } else {
        next_char_start(s, p + 1)
    }
}

/// The position of the character-starting byte that has exactly `n`
/// character starts in `[p, ..)` before it, or the length of `s`.
pub open spec fn char_pos(s: Seq<u8>, p: int, n: int) -> int
    decreases n,
{
    if n <= 0 {
        next_char_start(s, p)
    } else {
        char_pos(s, next_char_start(s, p) + 1, n - 1)
    }
}

/// The byte offset that resolves to the given 1-indexed line and column: the
/// inverse of [`line_of_offset`] and [`col_of_offset`] on character-boundary
/// offsets. The line's first byte stands right after the `line - 1`-th
/// newline, and the column's character is the `col - 1`-th character start
/// from there.
pub open spec fn offset_of_line_col(s: Seq<u8>, line: int, col: int) -> int {
    let start = if line <= 1 {
        0int
    } else {
        nth_newline_from(s, 0, line - 1) + 1
    };
    char_pos(s, start, col - 1)
}

proof fn lemma_chars_between_left(s: Seq<u8>, from: int, end: int)
    requires
        from < end,
    ensures
        chars_between(s, from, end) == (if is_continuation(s[from]) {
            0int
        } else {
            1int
        }) + chars_between(s, from + 1, end),
    decreases end - from,
{
    if from + 1 < end {
        lemma_chars_between_left(s, from, end - 1);
    } else {
        assert(chars_between(s, from + 1, end) == 0);
        assert(chars_between(s, from, from) == 0);
    }
}

proof fn lemma_newlines_in_left(s: Seq<u8>, from: int, end: int)
    requires
        from < end,
    ensures
        newlines_in(s, from, end) == (if s[from] == 10 {
            1int
        } else {
            0int
        }) + newlines_in(s, from + 1, end),
    decreases end - from,
{
    if from + 1 < end {
        lemma_newlines_in_left(s, from, end - 1);
    } else {
        assert(newlines_in(s, from + 1, end) == 0);
        assert(newlines_in(s, from, from) == 0);
    }
}

proof fn lemma_newlines_in_is_before(s: Seq<u8>, end: int)
    ensures
        newlines_in(s, 0, end) == newlines_before(s, end),
    decreases end,
{
    if end > 0 {
        lemma_newlines_in_is_before(s, end - 1);
    }
}

proof fn lemma_char_pos_cont(s: Seq<u8>, p: int, n: int)
    requires
        0 <= p < s.len(),
        is_continuation(s[p]),
    ensures
        char_pos(s, p, n) == char_pos(s, p + 1, n),
{
    assert(next_char_start(s, p) == next_char_start(s, p + 1));
}

proof fn lemma_char_pos_of_count(s: Seq<u8>, p: int, off: int)
    requires
        0 <= p <= off <= s.len(),
        off == s.len() || !is_continuation(s[off]),
    ensures
        char_pos(s, p, chars_between(s, p, off)) == off,
    decreases off - p,
{
    if p == off {
        assert(chars_between(s, p, off) == 0);
        assert(next_char_start(s, p) == off);
    } else {
        lemma_chars_between_left(s, p, off);
        lemma_chars_between_bounds(s, p + 1, off);
        if is_continuation(s[p]) {
            lemma_char_pos_cont(s, p, chars_between(s, p, off));
            lemma_char_pos_of_count(s, p + 1, off);
        } else {
            assert(next_char_start(s, p) == p);
            lemma_char_pos_of_count(s, p + 1, off);
        }
    }
}

proof fn lemma_line_start_no_newline(s: Seq<u8>, off: int)
    requires
        0 <= off,
        newlines_before(s, off) == 0,
    ensures
        line_start(s, off) == 0,
    decreases off,
{
    if off > 0 {
        lemma_newlines_before_bounds(s, off - 1);
        lemma_line_start_no_newline(s, off - 1);
    }
}

proof fn lemma_line_start_newline(s: Seq<u8>, off: int)
    requires
        0 <= off,
        newlines_before(s, off) >= 1,
    ensures
        1 <= line_start(s, off) <= off,
        s[line_start(s, off) - 1] == 10,
        newlines_before(s, line_start(s, off) - 1) == newlines_before(s, off) - 1,
    decreases off,
{
    if off > 0 && s[off - 1] != 10 {
        lemma_line_start_newline(s, off - 1);
    }
}

proof fn lemma_nth_newline_unique(s: Seq<u8>, p: int, q: int, k: int)
    requires
        0 <= p <= q < s.len(),
        s[q] == 10,
        newlines_in(s, p, q) == k - 1,
        k >= 1,
    ensures
        nth_newline_from(s, p, k) == q,
    decreases q - p,
{
    if p == q {
        assert(newlines_in(s, p, q) == 0);
    } else {
        lemma_newlines_in_left(s, p, q);
        lemma_newlines_in_bounds(s, p + 1, q);
        if s[p] == 10 {
            lemma_nth_newline_unique(s, p + 1, q, k - 1);
        } else {
            lemma_nth_newline_unique(s, p + 1, q, k);
        }
    }
}

proof fn lemma_newlines_in_bounds(s: Seq<u8>, from: int, end: int)
    ensures
        0 <= newlines_in(s, from, end) <= if end >= from {
            end - from
        } else {
            0
        },
    decreases end - from,
{
    if end > from {
        lemma_newlines_in_bounds(s, from, end - 1);
    }
}

/// Resolving a character-boundary byte offset to its line and column and then
/// re-deriving an offset from that line and column against the same content
/// yields the original offset, for single-byte and multi-byte UTF-8 content
/// alike.
pub proof fn lemma_offset_round_trip(s: Seq<u8>, off: int)
    requires
        0 <= off <= s.len(),
        off == s.len() || !is_continuation(s[off]),
    ensures
        offset_of_line_col(s, line_of_offset(s, off), col_of_offset(s, off)) == off,
{
    let k = newlines_before(s, off);
    lemma_newlines_before_bounds(s, off);
    if k == 0 {
        lemma_line_start_no_newline(s, off);
        lemma_char_pos_of_count(s, 0, off);
    } else {
        lemma_line_start_newline(s, off);
        let ls = line_start(s, off);
        lemma_line_start_bounds(s, off);
        lemma_newlines_in_is_before(s, ls - 1);
        lemma_nth_newline_unique(s, 0, ls - 1, k);
        lemma_char_pos_of_count(s, ls, off);
    }
}

fn nth_newline_from_exec(s: &[u8], p: usize, k: usize) -> (r: usize)
    requires
        k >= 1,
    ensures
        r == nth_newline_from(s@, p as int, k as int),
        r <= s@.len(),
    decreases s@.len() - p as int,
{
    if p >= s.len() {
        s.len()
    } else if s[p] == 10 {
        if k <= 1 {
            p
        } else {
            nth_newline_from_exec(s, p + 1, k - 1)
        }
    } else {
        nth_newline_from_exec(s, p + 1, k)
    }
}

fn next_char_start_exec(s: &[u8], p: usize) -> (r: usize)
    ensures
        r == next_char_start(s@, p as int),
        r <= s@.len(),
    decreases s@.len() - p as int,
{
    if p >= s.len() {
        s.len()
    } else if s[p] < 0x80 || s[p] >= 0xC0 {
        p
    } else {
        next_char_start_exec(s, p + 1)
    }
}

fn char_pos_exec(s: &[u8], p: usize, n: usize) -> (r: usize)
    requires
        s@.len() < usize::MAX,
    ensures
        r == char_pos(s@, p as int, n as int),
    decreases n,
{
    if n == 0 {
        next_char_start_exec(s, p)
    } else {
        let q = next_char_start_exec(s, p);
        char_pos_exec(s, q + 1, n - 1)
    }
}

/// Re-derive the byte offset that a 1-indexed line and column name within
/// `contents`: the executable inverse of [`get_line_cols_from_offset`].
pub fn get_offset_from_line_col(contents: &[u8], line: usize, cols: usize) -> (r: usize)
    requires
        contents@.len() < usize::MAX,
    ensures
        r == offset_of_line_col(contents@, line as int, cols as int),
{
    let start = if line <= 1 {
        0
    } else {
        nth_newline_from_exec(contents, 0, line - 1) + 1
    };
    let n = if cols == 0 {
        0
    } else {
        cols - 1
    };
    proof {
        if cols == 0 {
            assert(char_pos(contents@, start as int, -1) == next_char_start(
                contents@,
                start as int,
            ));
            assert(char_pos(contents@, start as int, 0) == next_char_start(
                contents@,
                start as int,
            ));
        }
    }
    char_pos_exec(contents, start, n)
}

// ---------------------------------------------------------------------------
// The file filter.
// ---------------------------------------------------------------------------

/// The position of the dot closest before `end` in `s`, or -1 when none
/// stands there.
pub open spec fn last_dot_before(s: Seq<char>, end: int) -> int
    decreases end,
{
    if end <= 0 {
        -1
    } else if s[end - 1] == '.' {
        end - 1
    } else {
        last_dot_before(s, end - 1)
    }
}

/// The position of the first character of the final path component: right
/// after the separator closest before `end`, or 0 when none stands there.
pub open spec fn component_start_before(s: Seq<char>, end: int) -> int
    decreases end,
{
    if end <= 0 {
        0
    } else if s[end - 1] == '/' {
        end
    } else {
        component_start_before(s, end - 1)
    }
}

/// The extension of a path: the characters after the last dot of its final
/// component. A path without a dot there has none, and neither has a
/// dotfile — a name whose only dot leads it.
pub open spec fn spec_extension(s: Seq<char>) -> Option<Seq<char>> {
    let c = component_start_before(s, s.len() as int);
    let d = last_dot_before(s, s.len() as int);
    if d <= c {
        None
    } else {
        Some(s.subrange(d + 1, s.len() as int))
    }
}

proof fn lemma_component_start_bounds(s: Seq<char>, end: int)
    requires
        end >= 0,
    ensures
        0 <= component_start_before(s, end) <= end,
    decreases end,
{
    if end > 0 && s[end - 1] != '/' {
        lemma_component_start_bounds(s, end - 1);
    }
}

/// Decides whether a path is in scope: either its extension is on the
/// allow-list, or it falls under an ignore pattern and is still reported.
pub struct FileFilter {
    /// Path prefixes of files that are ignored but still reported.
    pub ignored: Vec<String>,
    /// The allowed source-file extensions, without the leading dot.
    pub extensions: Vec<String>,
}

impl FileFilter {
    /// True when the path's extension is on the allow-list.
    pub open spec fn spec_is_source(&self, path: Seq<char>) -> bool {
        match spec_extension(path) {
            None => false,
            Some(e) => exists|i: int|
                0 <= i < self.extensions@.len() && self.extensions@[i]@ == e,
        }
    }

    /// True when the path falls under one of the ignore prefixes.
    pub open spec fn spec_is_ignored(&self, path: Seq<char>) -> bool {
        exists|i: int| 0 <= i < self.ignored@.len() && starts_with(path, self.ignored@[i]@)
    }

    /// True when the path belongs in the parsed result at all.
    pub open spec fn spec_is_source_or_ignored(&self, path: Seq<char>) -> bool {
        self.spec_is_source(path) || self.spec_is_ignored(path)
    }

    pub fn new(ignored: Vec<String>, extensions: Vec<String>) -> (r: Self)
        ensures
            r.ignored == ignored,
            r.extensions == extensions,
    {
        FileFilter { ignored, extensions }
    }

    /// Whether `path` names a file the run cares about: a source file by
    /// extension, or an ignored-but-reported file by prefix.
    pub fn is_source_or_ignored(&self, path: &str) -> (r: bool)
        ensures
            r == self.spec_is_source_or_ignored(path@),
    {
        let n = path.unicode_len();
        let mut dot: usize = 0;
        let mut has_dot = false;
        let mut comp_start: usize = 0;
        let mut i: usize = 0;
        while i < n
            invariant
                i <= n,
                n == path@.len(),
                has_dot ==> last_dot_before(path@, i as int) == dot && dot < i,
                !has_dot ==> last_dot_before(path@, i as int) == -1,
                comp_start == component_start_before(path@, i as int),
            decreases n - i,
        {
            let c = path.get_char(i);
            if c == '.' {
                dot = i;
                has_dot = true;
            } else if c == '/' {
                comp_start = i + 1;
            }
            i += 1;
        }
        if has_dot && dot > comp_start {
            let ext = path.substring_char(dot + 1, n);
            let mut j: usize = 0;
            while j < self.extensions.len()
                invariant
                    j <= self.extensions@.len(),
                    spec_extension(path@) == Some(ext@),
                    forall|k: int| 0 <= k < j ==> self.extensions@[k]@ != ext@,
                decreases self.extensions@.len() - j,
            {
                if str_eq(ext, self.extensions[j].as_str()) {
                    proof {
                        assert(self.extensions@[j as int]@ == ext@);
                    }
                    return true;
                }
                j += 1;
            }
            proof {
                assert(!self.spec_is_source(path@));
            }
        } else {
            proof {
                assert(component_start_before(path@, path@.len() as int) >= 0) by {
                    lemma_component_start_bounds(path@, path@.len() as int);
                }
                assert(spec_extension(path@) is None);
            }
        }
        let mut j: usize = 0;
        while j < self.ignored.len()
            invariant
                j <= self.ignored@.len(),
                !self.spec_is_source(path@),
                forall|k: int| 0 <= k < j ==> !starts_with(path@, self.ignored@[k]@),
            decreases self.ignored@.len() - j,
        {
            if str_starts_with(path, self.ignored[j].as_str()) {
                return true;
            }
            j += 1;
        }
        false
    }
}

// ---------------------------------------------------------------------------
// The per-file diff record.
// ---------------------------------------------------------------------------

/// The mathematical value of a [`FileObj`].
pub struct FileObjModel {
    pub name: Seq<char>,
    pub added_lines: Seq<u64>,
    pub diff_chunks: Seq<(u64, u64)>,
    pub format_advice: Option<Seq<ReplacementModel>>,
}

/// One file of the change set: its path, the 1-indexed lines the diff added
/// (strictly increasing for a well-formed diff), the hunks' closed line
/// ranges, and, once an analysis pass has run, the tool's advice.
#[derive(Debug, PartialEq)]
pub struct FileObj {
    /// The file's path, relative, with POSIX-style separators.
    pub name: String,
    /// The 1-indexed line numbers the diff added, in diff order.
    pub added_lines: Vec<u64>,
    /// The closed `[start, end]` line intervals of the diff's hunks.
    pub diff_chunks: Vec<(u64, u64)>,
    /// clang-format's advice for this file, once computed.
    pub format_advice: Option<FormatAdvice>,
}

impl View for FileObj {
    type V = FileObjModel;

    open spec fn view(&self) -> FileObjModel {
        FileObjModel {
            name: self.name@,
            added_lines: self.added_lines@,
            diff_chunks: self.diff_chunks@,
            format_advice: match self.format_advice {
                Some(a) => Some(a@),
                None => None,
            },
        }
    }
}

/// Consecutive added lines folded into maximal closed ranges.
pub open spec fn spec_consolidate(lines: Seq<u64>) -> Seq<(u64, u64)>
    decreases lines.len(),
{
    if lines.len() == 0 {
        Seq::empty()
    } else {
        let init = spec_consolidate(lines.drop_last());
        let x = lines.last();
        if init.len() > 0 && init.last().1 + 1 == x {
            init.update(init.len() - 1, (init.last().0, x))
        } else {
            init.push((x, x))
        }
    }
}

/// Consolidating a strictly increasing line list yields well-formed ranges:
/// each is a non-empty closed interval, they are sorted ascending and
/// pairwise disjoint with a true gap between neighbours (each run maximal),
/// and the last range ends at the last line.
pub proof fn lemma_consolidate_well_formed(lines: Seq<u64>)
    requires
        forall|i: int, j: int| 0 <= i < j < lines.len() ==> lines[i] < lines[j],
    ensures
        ({
            let r = spec_consolidate(lines);
            &&& forall|k: int| 0 <= k < r.len() ==> (#[trigger] r[k]).0 <= r[k].1
            &&& forall|k: int| 0 <= k < r.len() - 1 ==> (#[trigger] r[k]).1 + 1 < r[k + 1].0
            &&& lines.len() > 0 ==> r.len() > 0 && r.last().1 == lines.last()
        }),
    decreases lines.len(),
{
    if lines.len() > 0 {
        let init = lines.drop_last();
        lemma_consolidate_well_formed(init);
        let ri = spec_consolidate(init);
        let x = lines.last();
        let r = spec_consolidate(lines);
        assert(forall|i: int, j: int| 0 <= i < j < init.len() ==> init[i] < init[j]);
        if init.len() > 0 {
            assert(init.last() == lines[lines.len() - 2] && init.last() < x);
        }
        if ri.len() > 0 && ri.last().1 + 1 == x {
            assert(r == ri.update(ri.len() - 1, (ri.last().0, x)));
            assert(forall|k: int| 0 <= k < r.len() - 1 ==> r[k] == ri[k]);
        } else {
            assert(r == ri.push((x, x)));
            assert(forall|k: int| 0 <= k < ri.len() ==> r[k] == ri[k]);
            if ri.len() > 0 {
                assert(ri.last().1 == init.last());
                assert(ri.last().1 + 1 < x);
            }
        }
    }
}

/// The ranges that scope an analysis run over this file, by mode: none at all
/// (whole file), the diff's hunks, or the added lines consolidated.
pub open spec fn spec_ranges(f: FileObjModel, mode: LinesChangedOnly) -> Seq<(u64, u64)> {
    match mode {
        LinesChangedOnly::Off => Seq::empty(),
        LinesChangedOnly::Diff => f.diff_chunks,
        LinesChangedOnly::On => spec_consolidate(f.added_lines),
    }
}

impl FileObj {
    /// A fresh record for one parsed diff segment, with no advice yet.
    pub fn from(name: String, added_lines: Vec<u64>, diff_chunks: Vec<(u64, u64)>) -> (r: Self)
        ensures
            r.name == name,
            r.added_lines == added_lines,
            r.diff_chunks == diff_chunks,
            r.format_advice is None,
    {
        FileObj { name, added_lines, diff_chunks, format_advice: None }
    }

    /// The line ranges an analysis run over this file is restricted to.
    pub fn get_ranges(&self, lines_changed_only: &LinesChangedOnly) -> (r: Vec<(u64, u64)>)
        ensures
            r@ == spec_ranges(self@, *lines_changed_only),
    {
        match lines_changed_only {
            LinesChangedOnly::Off => Vec::new(),
            LinesChangedOnly::Diff => {
                let mut r: Vec<(u64, u64)> = Vec::new();
                let mut i: usize = 0;
                while i < self.diff_chunks.len()
                    invariant
                        i <= self.diff_chunks@.len(),
                        r@ == self.diff_chunks@.take(i as int),
                    decreases self.diff_chunks@.len() - i,
                {
                    r.push(self.diff_chunks[i]);
                    proof {
                        assert(self.diff_chunks@.take(i + 1) =~= self.diff_chunks@.take(i as int).push(
                            self.diff_chunks@[i as int],
                        ));
                    }
                    i += 1;
                }
                proof {
                    assert(self.diff_chunks@.take(self.diff_chunks@.len() as int)
                        =~= self.diff_chunks@);
                }
                r
            },
            LinesChangedOnly::On => {
                let mut r: Vec<(u64, u64)> = Vec::new();
                let mut i: usize = 0;
                while i < self.added_lines.len()
                    invariant
                        i <= self.added_lines@.len(),
                        r@ == spec_consolidate(self.added_lines@.take(i as int)),
                    decreases self.added_lines@.len() - i,
                {
                    let x = self.added_lines[i];
                    let ghost pre = self.added_lines@.take(i + 1);
                    proof {
                        assert(pre.drop_last() =~= self.added_lines@.take(i as int));
                        assert(pre.last() == self.added_lines@[i as int]);
                    }
                    let rlen = r.len();
                    let mut merged = false;
                    if rlen > 0 {
                        let last = r[rlen - 1];
                        if last.1 < u64::MAX && last.1 + 1 == x {
                            merged = true;
                        }
                    }
                    if merged {
                        let last = r[rlen - 1];
                        let _ = r.pop();
                        r.push((last.0, x));
                        proof {
                            assert(r@ =~= spec_consolidate(pre));
                        }
                    } else {
                        r.push((x, x));
                        proof {
                            assert(r@ =~= spec_consolidate(pre));
                        }
                    }
                    i += 1;
                }
                proof {
                    assert(self.added_lines@.take(self.added_lines@.len() as int)
                        =~= self.added_lines@);
                }
                r
            },
        }
    }
}

} // verus!
