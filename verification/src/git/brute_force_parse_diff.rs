//! The line-oriented fallback diff parser, for diffs that structured
//! acquisition cannot hand over (odd path escaping, renames with spaces): it
//! walks the text a line at a time, accumulating one file record per
//! accepted segment. It is proved against the same model,
//! [`spec_parse_diff`](crate::git::spec_parse_diff), as the buffer-based
//! parser.

use vstd::prelude::*;

use crate::common_fs::{FileFilter, FileObj};
use crate::git::{
    copy_lines, files_view, lines_view, next_boundary, next_boundary_exec, parse_segment,
    spec_parse_diff, spec_parse_segment, spec_parse_segments, split_lines,
};

verus! {

/// Parse a unified diff given as text, one record per file the filter
/// accepts, in diff order.
pub fn parse_diff(diff: &str, file_filter: &FileFilter) -> (r: Vec<FileObj>)
    ensures
        files_view(r@) == spec_parse_diff(diff@, *file_filter),
{
    let lines = split_lines(diff);
    let n = lines.len();
    let mut out: Vec<FileObj> = Vec::new();
    let mut i = next_boundary_exec(&lines, 0);
    proof {
        assert(files_view(out@) + spec_parse_segments(lines_view(lines@), i as int, *file_filter)
            =~= spec_parse_diff(diff@, *file_filter));
    }
    while i < n
        invariant
            n == lines@.len(),
            lines_view(lines@) == crate::git::spec_split_lines(diff@),
            files_view(out@) + spec_parse_segments(lines_view(lines@), i as int, *file_filter)
                == spec_parse_diff(diff@, *file_filter),
        decreases n - i,
    {
        let j = next_boundary_exec(&lines, i + 1);
        let seg = copy_lines(&lines, i, j);
        let ghost lv = lines_view(lines@);
        let ghost rest = spec_parse_segments(lv, j as int, *file_filter);
        match parse_segment(&seg, file_filter) {
            Some(f) => {
                let ghost old_out = out@;
                out.push(f);
                proof {
                    assert(files_view(out@) =~= files_view(old_out).push(f@));
                    assert(files_view(old_out).push(f@) + rest =~= files_view(old_out) + (seq![f@]
                        + rest));
                }
            },
            None => {},
        }
        i = j;
    }
    proof {
        assert(files_view(out@) + spec_parse_segments(
            lines_view(lines@),
            i as int,
            *file_filter,
        ) =~= files_view(out@));
    }
    out
}

} // verus!
