//! Tests of the two diff parsers and the range computation.

use cpp_linter::cli::LinesChangedOnly;
use cpp_linter::common_fs::{FileFilter, FileObj};
use cpp_linter::git::brute_force_parse_diff;
use cpp_linter::git::parse_diff_from_buf;

fn cpp_filter() -> FileFilter {
    FileFilter::new(
        vec![String::from("target")],
        vec![String::from("cpp"), String::from("hpp")],
    )
}

const SIMPLE_DIFF: &str = "diff --git a/src/demo.cpp b/src/demo.cpp\n\
--- a/src/demo.cpp\n\
+++ b/src/demo.cpp\n\
@@ -3,2 +3,3 @@\n\
 ctx\n\
+added\n\
 ctx\n\
diff --git a/pic.png b/pic.png\n\
Binary files a/pic.png and b/pic.png differ\n";

#[test]
fn simple_diff_added_lines_and_ranges() {
    let filter = cpp_filter();
    let files = brute_force_parse_diff::parse_diff(SIMPLE_DIFF, &filter);
    assert_eq!(files.len(), 1);
    assert_eq!(files[0].name, String::from("src/demo.cpp"));
    assert_eq!(files[0].added_lines, vec![4]);
    assert_eq!(files[0].diff_chunks, vec![(3, 5)]);
    assert!(files[0].format_advice.is_none());
}

#[test]
fn both_parsers_agree() {
    // the structured-buffer parser and the brute-force parser produce
    // identical file sets for a diff both can read
    let filter = cpp_filter();
    for diff in [
        SIMPLE_DIFF,
        "",
        "junk before\ndiff --git a/x.cpp b/x.cpp\n+++ b/x.cpp\n@@ -1 +1 @@\n+x\n",
        "diff --git a/a.cpp b/a.cpp\n+++ b/a.cpp\n@@ -1,0 +1,2 @@\n+one\n+two\n",
    ] {
        let from_buf: Vec<FileObj> = parse_diff_from_buf(diff.as_bytes(), &filter);
        let from_str: Vec<FileObj> = brute_force_parse_diff::parse_diff(diff, &filter);
        assert_eq!(from_buf, from_str);
    }
}

#[test]
fn binary_only_diff_yields_nothing() {
    let diff = "diff --git a/some picture.png b/some picture.png\n\
new file mode 100644\n\
Binary files /dev/null and b/some picture.png differ\n";
    let filter = FileFilter::new(vec![String::from("target")], vec![String::from("png")]);
    let files = parse_diff_from_buf(diff.as_bytes(), &filter);
    assert!(files.is_empty());
}

#[test]
fn rename_without_hunks_yields_nothing() {
    let diff = "diff --git a/tests/demo/some source.cpp b/tests/demo/some source.cpp\n\
similarity index 100%\n\
rename from tests/demo/some source.cpp\n\
rename to tests/demo/some source.cpp\n";
    let filter = cpp_filter();
    let files = brute_force_parse_diff::parse_diff(diff, &filter);
    assert!(files.is_empty());
}

#[test]
fn rename_with_hunks_is_kept() {
    let diff = "diff --git a/old dir/demo.cpp b/new dir/demo.cpp\n\
rename from old dir/demo.cpp\n\
rename to new dir/demo.cpp\n\
--- a/old dir/demo.cpp\n\
+++ b/new dir/demo.cpp\n\
@@ -1 +1,2 @@\n\
 ctx\n\
+fresh\n";
    let filter = cpp_filter();
    let files = brute_force_parse_diff::parse_diff(diff, &filter);
    assert_eq!(files.len(), 1);
    assert_eq!(files[0].name, String::from("new dir/demo.cpp"));
    assert_eq!(files[0].added_lines, vec![2]);
    assert_eq!(files[0].diff_chunks, vec![(1, 2)]);
}

#[test]
fn malformed_hunk_header_skips_only_that_file() {
    let diff = "diff --git a/bad.cpp b/bad.cpp\n\
+++ b/bad.cpp\n\
@@ -oops +1 @@\n\
+zzz\n\
diff --git a/good.cpp b/good.cpp\n\
+++ b/good.cpp\n\
@@ -1 +1 @@\n\
+ok\n";
    let filter = cpp_filter();
    let files = brute_force_parse_diff::parse_diff(diff, &filter);
    assert_eq!(files.len(), 1);
    assert_eq!(files[0].name, String::from("good.cpp"));
}

#[test]
fn filter_rejects_unlisted_extension() {
    let filter = FileFilter::new(vec![], vec![String::from("rs")]);
    let files = brute_force_parse_diff::parse_diff(SIMPLE_DIFF, &filter);
    assert!(files.is_empty());
}

#[test]
fn get_ranges_by_mode() {
    let file = FileObj {
        name: String::from("demo.cpp"),
        added_lines: vec![1, 2, 3, 7],
        diff_chunks: vec![(1, 4), (6, 8)],
        format_advice: None,
    };
    assert!(file.get_ranges(&LinesChangedOnly::Off).is_empty());
    assert_eq!(file.get_ranges(&LinesChangedOnly::Diff), vec![(1, 4), (6, 8)]);
    assert_eq!(file.get_ranges(&LinesChangedOnly::On), vec![(1, 3), (7, 7)]);
}

#[test]
fn omitted_counts_default_to_one() {
    let diff = "diff --git a/one.cpp b/one.cpp\n\
+++ b/one.cpp\n\
@@ -5 +9 @@\n\
+only\n";
    let filter = cpp_filter();
    let files = brute_force_parse_diff::parse_diff(diff, &filter);
    assert_eq!(files.len(), 1);
    assert_eq!(files[0].diff_chunks, vec![(9, 9)]);
    assert_eq!(files[0].added_lines, vec![9]);
}

#[test]
fn ignored_prefix_is_still_reported() {
    // a file under an ignore prefix is kept in the parse (ignored but still
    // reported), even though its extension is not on the allow-list
    let diff = "diff --git a/target/gen.txt b/target/gen.txt\n\
+++ b/target/gen.txt\n\
@@ -1 +1 @@\n\
+x\n";
    let filter = cpp_filter();
    let files = brute_force_parse_diff::parse_diff(diff, &filter);
    assert_eq!(files.len(), 1);
    assert_eq!(files[0].name, String::from("target/gen.txt"));
}

#[test]
fn deleted_file_without_new_path_is_skipped() {
    let diff = "diff --git a/gone.cpp b/gone.cpp\n\
--- a/gone.cpp\n\
+++ /dev/null\n\
@@ -1,2 +0,0 @@\n\
-was\n\
-here\n";
    let filter = cpp_filter();
    let files = brute_force_parse_diff::parse_diff(diff, &filter);
    assert!(files.is_empty());
}

#[test]
fn deletion_only_hunk_adds_no_range() {
    let diff = "diff --git a/d.cpp b/d.cpp\n\
--- a/d.cpp\n\
+++ b/d.cpp\n\
@@ -5,2 +4,0 @@\n\
-gone\n\
-gone too\n";
    let filter = cpp_filter();
    let files = brute_force_parse_diff::parse_diff(diff, &filter);
    assert_eq!(files.len(), 1);
    assert!(files[0].added_lines.is_empty());
    assert!(files[0].diff_chunks.is_empty());
}

#[test]
fn dotfile_has_no_extension() {
    // a name whose only dot leads it is not a source file ...
    let diff = "diff --git a/.cpp b/.cpp\n\
+++ b/.cpp\n\
@@ -1 +1 @@\n\
+x\n\
diff --git a/sub/.cpp b/sub/.cpp\n\
+++ b/sub/.cpp\n\
@@ -1 +1 @@\n\
+x\n";
    let filter = FileFilter::new(vec![], vec![String::from("cpp")]);
    let files = brute_force_parse_diff::parse_diff(diff, &filter);
    assert!(files.is_empty());
}

#[test]
fn dot_in_directory_is_not_an_extension() {
    // ... and a dot inside a directory name gives the file none either
    let diff = "diff --git a/v1.cpp/readme b/v1.cpp/readme\n\
+++ b/v1.cpp/readme\n\
@@ -1 +1 @@\n\
+x\n";
    let filter = FileFilter::new(vec![], vec![String::from("cpp")]);
    let files = brute_force_parse_diff::parse_diff(diff, &filter);
    assert!(files.is_empty());
}
