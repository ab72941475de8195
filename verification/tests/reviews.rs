//! Tests of the review aggregator's decisions, mirroring one run each:
//! which reviews are dismissed, what is posted, and with what disposition.

use cpp_linter::cli::LinesChangedOnly;
use cpp_linter::clang_tools::clang_format::{
    process_format_replacements, tally_format_advice, FormatAdvice, Replacement,
};
use cpp_linter::common_fs::FileFilter;
use cpp_linter::git::brute_force_parse_diff::parse_diff;
use cpp_linter::rest_api::{
    build_review_body, build_review_plan, run_outcome, select_dismissals, ExistingReview,
    PrState, PullRequest, ReviewComment, ReviewConfig, ReviewEvent, ReviewPlan, COMMENT_MARKER,
    USER_OUTREACH,
};

const DIFF: &str = "diff --git a/src/demo.cpp b/src/demo.cpp\n\
--- a/src/demo.cpp\n\
+++ b/src/demo.cpp\n\
@@ -3,2 +3,3 @@\n\
 ctx\n\
+added\n\
 ctx\n";

const CONTENT: &[u8] = b"ln_1\nln_2\nln_3\nln_4\nln_5\nln_6\n";

const SUMMARY: &str = "## Cpp-linter Review\nClick here for the full clang-format patch";

const LGTM: &str = "No concerns reported by clang-format. Great job! :tada:";

fn open_pr() -> PullRequest {
    PullRequest { state: PrState::Open, draft: false }
}

fn config(passive: bool, no_lgtm: bool, summary_only: bool) -> ReviewConfig {
    ReviewConfig { passive_reviews: passive, no_lgtm, summary_only }
}

fn existing_reviews(new_body: &str) -> Vec<ExistingReview> {
    vec![
        ExistingReview {
            id: 1807607546,
            body: format!("{}something that went stale", COMMENT_MARKER),
        },
        ExistingReview { id: 5, body: String::from("a human review, hands off") },
        ExistingReview { id: 9, body: String::from(new_body) },
    ]
}

/// One run at the given range mode: parse the diff, process the tool's
/// advice for the file, tally, and build the plan.
fn run(mode: LinesChangedOnly, passive: bool, no_lgtm: bool, summary_only: bool) -> ReviewPlan {
    let filter = FileFilter::new(vec![], vec![String::from("cpp")]);
    let mut files = parse_diff(DIFF, &filter);
    assert_eq!(files.len(), 1);
    let ranges = files[0].get_ranges(&mode);
    let advice = FormatAdvice {
        replacements: vec![
            Replacement { offset: 12, length: 1, value: None, line: None, cols: None },
            Replacement { offset: 26, length: 0, value: None, line: None, cols: None },
        ],
    };
    let advice = process_format_replacements(advice, CONTENT, &ranges);
    let comments: Vec<ReviewComment> = advice
        .replacements
        .iter()
        .map(|r| ReviewComment {
            path: files[0].name.clone(),
            start_line: r.line.unwrap() as u64,
            end_line: r.line.unwrap() as u64,
            suggestion: String::from("suggested fix"),
        })
        .collect();
    files[0].format_advice = Some(advice);
    let findings = tally_format_advice(&files);
    let body = build_review_body(SUMMARY);
    build_review_plan(
        &open_pr(),
        &config(passive, no_lgtm, summary_only),
        &existing_reviews(&body),
        findings,
        SUMMARY,
        comments,
    )
}

fn expect_posted(plan: &ReviewPlan, event: ReviewEvent, n_comments: usize) {
    assert_eq!(plan.dismissals, vec![1807607546]);
    let payload = plan.payload.as_ref().unwrap();
    assert_eq!(payload.event, event);
    assert!(payload.body.starts_with(COMMENT_MARKER));
    assert!(payload.body.contains(SUMMARY));
    assert!(payload.body.ends_with(USER_OUTREACH));
    assert_eq!(payload.comments.len(), n_comments);
}

#[test]
fn all_lines() {
    // no range restriction: both advice items survive
    let plan = run(LinesChangedOnly::Off, false, true, false);
    expect_posted(&plan, ReviewEvent::RequestChanges, 2);
}

#[test]
fn changed_lines() {
    // restricted to the hunk's range [3, 5]: only the item at line 6 is dropped
    let plan = run(LinesChangedOnly::Diff, false, true, false);
    expect_posted(&plan, ReviewEvent::RequestChanges, 1);
}

#[test]
fn all_lines_passive() {
    let plan = run(LinesChangedOnly::Off, true, true, false);
    expect_posted(&plan, ReviewEvent::Comment, 2);
}

#[test]
fn changed_lines_passive() {
    let plan = run(LinesChangedOnly::Diff, true, true, false);
    expect_posted(&plan, ReviewEvent::Comment, 1);
}

#[test]
fn summary_only() {
    let plan = run(LinesChangedOnly::Off, false, true, true);
    expect_posted(&plan, ReviewEvent::RequestChanges, 0);
}

fn lgtm_plan(passive: bool, no_lgtm: bool) -> ReviewPlan {
    let body = build_review_body(LGTM);
    build_review_plan(
        &open_pr(),
        &config(passive, no_lgtm, false),
        &existing_reviews(&body),
        0,
        LGTM,
        Vec::new(),
    )
}

#[test]
fn lgtm() {
    let plan = lgtm_plan(false, false);
    assert_eq!(plan.dismissals, vec![1807607546]);
    let payload = plan.payload.as_ref().unwrap();
    assert_eq!(payload.event, ReviewEvent::Approve);
    assert!(payload.body.contains(LGTM));
    assert!(payload.comments.is_empty());
}

#[test]
fn lgtm_passive() {
    let plan = lgtm_plan(true, false);
    let payload = plan.payload.as_ref().unwrap();
    assert_eq!(payload.event, ReviewEvent::Comment);
    assert!(payload.comments.is_empty());
}

#[test]
fn no_lgtm() {
    // a clean run with approvals suppressed posts nothing at all
    let plan = lgtm_plan(false, true);
    assert_eq!(plan.dismissals, vec![1807607546]);
    assert!(plan.payload.is_none());
}

#[test]
fn is_draft() {
    let pr = PullRequest { state: PrState::Open, draft: true };
    let body = build_review_body(SUMMARY);
    let plan = build_review_plan(
        &pr,
        &config(false, true, false),
        &existing_reviews(&body),
        3,
        SUMMARY,
        Vec::new(),
    );
    assert!(plan.dismissals.is_empty());
    assert!(plan.payload.is_none());
}

#[test]
fn is_closed() {
    let pr = PullRequest { state: PrState::Closed, draft: false };
    let body = build_review_body(SUMMARY);
    let plan = build_review_plan(
        &pr,
        &config(false, true, false),
        &existing_reviews(&body),
        3,
        SUMMARY,
        Vec::new(),
    );
    assert!(plan.dismissals.is_empty());
    assert!(plan.payload.is_none());
}

#[test]
fn only_stale_fingerprinted_reviews_are_dismissed() {
    let body = build_review_body(SUMMARY);
    let existing = existing_reviews(&body);
    let dismissals = select_dismissals(&existing, &body);
    // the stale own review goes; the human review and the up-to-date own
    // review are untouched
    assert_eq!(dismissals, vec![1807607546]);
}

#[test]
fn fail_posting() {
    // a failed posting call is the run's failure, even after dismissal worked
    assert_eq!(run_outcome(0), 0);
    assert_ne!(run_outcome(1), 0);
}

#[test]
fn fail_dismissal() {
    // every failed dismissal counts toward the run's outcome
    assert_ne!(run_outcome(2), 0);
}

#[test]
fn fail_get_existing_reviews() {
    // a failure before anything was posted still fails the run
    assert_ne!(run_outcome(1), 0);
}
