//! The review aggregator: it combines the per-file advice tallies into one
//! review decision, reconciles the platform's existing reviews against the
//! freshly computed body, and hands the surrounding transport a plan — which
//! reviews to dismiss and what, if anything, to post.

use vstd::prelude::*;

use crate::common_fs::{starts_with, str_eq, str_starts_with};

verus! {

/// The marker embedded in every review this tool posts: the content
/// fingerprint by which it recognises its own prior reviews. Reviews without
/// it are never touched.
pub const COMMENT_MARKER: &'static str = "<!-- cpp linter action -->\n";

/// A closing note appended to every review body.
pub const USER_OUTREACH: &'static str = "\n\nHave any feedback or feature suggestions? [Share it here.](https://github.com/cpp-linter/cpp-linter/issues)";

/// The state a pull request is in.
#[derive(Debug, PartialEq, Eq, Structural, Clone, Copy)]
pub enum PrState {
    Open,
    Closed,
}

/// What the platform reports of the target pull request.
#[derive(Debug, PartialEq, Eq, Structural, Clone, Copy)]
pub struct PullRequest {
    pub state: PrState,
    pub draft: bool,
}

/// The configuration flags the aggregator acts on.
#[derive(Debug, PartialEq, Eq, Structural, Clone, Copy)]
pub struct ReviewConfig {
    /// Post findings as a plain comment instead of requesting changes.
    pub passive_reviews: bool,
    /// Suppress the approval review that a clean run would otherwise post.
    pub no_lgtm: bool,
    /// Suppress inline comments and post only the aggregate body.
    pub summary_only: bool,
}

/// The disposition of the review to post.
#[derive(Debug, PartialEq, Eq, Structural, Clone, Copy)]
pub enum ReviewEvent {
    Approve,
    RequestChanges,
    Comment,
}

/// The mathematical value of an [`ExistingReview`].
pub struct ExistingReviewModel {
    pub id: u64,
    pub body: Seq<char>,
}

/// One review already present on the pull request.
#[derive(Debug, PartialEq)]
pub struct ExistingReview {
    /// The platform's identifier for the review.
    pub id: u64,
    /// The review's body text.
    pub body: String,
}

impl View for ExistingReview {
    type V = ExistingReviewModel;

    open spec fn view(&self) -> ExistingReviewModel {
        ExistingReviewModel { id: self.id, body: self.body@ }
    }
}

/// The views of a list of existing reviews.
pub open spec fn reviews_view(v: Seq<ExistingReview>) -> Seq<ExistingReviewModel> {
    v.map_values(|r: ExistingReview| r@)
}

/// One inline comment of the review payload.
#[derive(Debug, PartialEq)]
pub struct ReviewComment {
    /// The file the comment attaches to.
    pub path: String,
    /// The first line of the commented range.
    pub start_line: u64,
    /// The last line of the commented range.
    pub end_line: u64,
    /// The comment's text.
    pub suggestion: String,
}

/// The review to post: its disposition, aggregate body and inline comments.
#[derive(Debug, PartialEq)]
pub struct ReviewPayload {
    pub event: ReviewEvent,
    pub body: String,
    pub comments: Vec<ReviewComment>,
}

/// What one run decides to do against the platform: which existing reviews
/// to dismiss, in order, and what to post afterwards, if anything.
#[derive(Debug)]
pub struct ReviewPlan {
    /// The identifiers of the reviews to dismiss, before posting.
    pub dismissals: Vec<u64>,
    /// The review to post once the dismissals went through.
    pub payload: Option<ReviewPayload>,
}

/// The full body of a posted review: the fingerprint marker, the summary,
/// and the outreach note.
pub open spec fn spec_review_body(summary: Seq<char>) -> Seq<char> {
    COMMENT_MARKER@ + summary + USER_OUTREACH@
}

/// A review bears this tool's fingerprint when its body opens with the
/// marker.
pub open spec fn spec_bears_fingerprint(body: Seq<char>) -> bool {
    starts_with(body, COMMENT_MARKER@)
}

/// A fingerprinted review is stale when its content differs from the freshly
/// computed body.
pub open spec fn spec_is_stale(body: Seq<char>, new_body: Seq<char>) -> bool {
    spec_bears_fingerprint(body) && body != new_body
}

/// The identifiers of exactly the stale fingerprinted reviews, in order.
pub open spec fn spec_dismissals(existing: Seq<ExistingReviewModel>, new_body: Seq<char>) -> Seq<
    u64,
>
    decreases existing.len(),
{
    if existing.len() == 0 {
        Seq::empty()
    } else {
        let init = spec_dismissals(existing.drop_last(), new_body);
        if spec_is_stale(existing.last().body, new_body) {
            init.push(existing.last().id)
        } else {
            init
        }
    }
}

/// Dismissal touches exactly this tool's own stale reviews: every selected
/// identifier belongs to an existing review that bears the fingerprint and
/// whose content went stale, and every such review's identifier is selected.
/// A review without the fingerprint — a human's — is never selected.
pub open spec fn spec_dismissed_id_ok(
    existing: Seq<ExistingReviewModel>,
    new_body: Seq<char>,
    id: u64,
) -> bool {
    exists|i: int|
        0 <= i < existing.len() && (#[trigger] existing[i]).id == id && spec_is_stale(
            existing[i].body,
            new_body,
        )
}

pub proof fn lemma_dismissals_exact(existing: Seq<ExistingReviewModel>, new_body: Seq<char>)
    ensures
        forall|k: int|
            0 <= k < spec_dismissals(existing, new_body).len() ==> spec_dismissed_id_ok(
                existing,
                new_body,
                #[trigger] spec_dismissals(existing, new_body)[k],
            ),
        forall|i: int|
            0 <= i < existing.len() && spec_is_stale((#[trigger] existing[i]).body, new_body)
                ==> spec_dismissals(existing, new_body).contains(existing[i].id),
    decreases existing.len(),
{
    if existing.len() > 0 {
        let init = existing.drop_last();
        lemma_dismissals_exact(init, new_body);
        let d = spec_dismissals(existing, new_body);
        let di = spec_dismissals(init, new_body);
        assert(forall|i: int| 0 <= i < init.len() ==> init[i] == existing[i]);
        let last_stale = spec_is_stale(existing.last().body, new_body);
        assert forall|k: int| 0 <= k < d.len() implies spec_dismissed_id_ok(
            existing,
            new_body,
            d[k],
        ) by {
            if k < di.len() {
                assert(d[k] == di[k]);
                let i = choose|i: int|
                    0 <= i < init.len() && (#[trigger] init[i]).id == di[k] && spec_is_stale(
                        init[i].body,
                        new_body,
                    );
                assert(existing[i].id == d[k] && spec_is_stale(existing[i].body, new_body));
            } else {
                assert(last_stale && k == di.len());
                assert(existing[existing.len() - 1].id == d[k]);
            }
        }
        assert forall|i: int|
            0 <= i < existing.len() && spec_is_stale(
                (#[trigger] existing[i]).body,
                new_body,
            ) implies d.contains(existing[i].id) by {
            if i < existing.len() - 1 {
                let k = choose|k: int| 0 <= k < di.len() && di[k] == existing[i].id;
                assert(d[k] == existing[i].id);
            } else {
                assert(last_stale);
                assert(d[d.len() - 1] == existing[i].id);
            }
        }
    }
}

/// Assemble the full review body around the caller's summary text.
pub fn build_review_body(summary: &str) -> (r: String)
    ensures
        r@ == spec_review_body(summary@),
{
    let body = String::from_str(COMMENT_MARKER);
    let body = body.concat(summary);
    body.concat(USER_OUTREACH)
}

/// Select exactly the reviews to dismiss: those bearing the fingerprint
/// whose content no longer matches `new_body`. Reviews without the
/// fingerprint are never selected.
pub fn select_dismissals(existing: &Vec<ExistingReview>, new_body: &String) -> (r: Vec<u64>)
    ensures
        r@ == spec_dismissals(reviews_view(existing@), new_body@),
{
    let mut out: Vec<u64> = Vec::new();
    let mut i: usize = 0;
    proof {
        assert(reviews_view(existing@).take(0) =~= Seq::<ExistingReviewModel>::empty());
    }
    while i < existing.len()
        invariant
            i <= existing@.len(),
            out@ == spec_dismissals(reviews_view(existing@).take(i as int), new_body@),
        decreases existing@.len() - i,
    {
        let ghost pre = reviews_view(existing@).take(i + 1);
        proof {
            assert(pre.drop_last() =~= reviews_view(existing@).take(i as int));
            assert(pre.last() == existing@[i as int]@);
        }
        let review = &existing[i];
        if str_starts_with(review.body.as_str(), COMMENT_MARKER) && !str_eq(
            review.body.as_str(),
            new_body.as_str(),
        ) {
            out.push(review.id);
        }
        i += 1;
    }
    proof {
        assert(reviews_view(existing@).take(existing@.len() as int) =~= reviews_view(existing@));
    }
    out
}

/// The disposition a tally of findings earns: a passive run only ever
/// comments; otherwise a clean run is approved and findings request changes.
pub fn review_event(findings: u64, passive: bool) -> (r: ReviewEvent)
    ensures
        passive ==> r == ReviewEvent::Comment,
        !passive && findings == 0 ==> r == ReviewEvent::Approve,
        !passive && findings > 0 ==> r == ReviewEvent::RequestChanges,
{
    if passive {
        ReviewEvent::Comment
    } else if findings == 0 {
        ReviewEvent::Approve
    } else {
        ReviewEvent::RequestChanges
    }
}

/// Decide one run's actions against the platform.
///
/// A draft or closed pull request is skipped outright: nothing is dismissed
/// and nothing is posted, and the run still counts as a success. Otherwise
/// exactly the stale fingerprinted reviews are dismissed; a clean run posts
/// an approval bearing the caller's summary unless approvals are suppressed,
/// and findings post a request for changes — or a passive comment — whose
/// inline comments are dropped in summary-only mode.
pub fn build_review_plan(
    pr: &PullRequest,
    cfg: &ReviewConfig,
    existing: &Vec<ExistingReview>,
    findings: u64,
    summary: &str,
    comments: Vec<ReviewComment>,
) -> (plan: ReviewPlan)
    ensures
        (pr.draft || pr.state != PrState::Open) ==> plan.dismissals@ == Seq::<u64>::empty()
            && plan.payload is None,
        (!pr.draft && pr.state == PrState::Open) ==> plan.dismissals@ == spec_dismissals(
            reviews_view(existing@),
            spec_review_body(summary@),
        ),
        (!pr.draft && pr.state == PrState::Open && findings == 0 && cfg.no_lgtm)
            ==> plan.payload is None,
        (!pr.draft && pr.state == PrState::Open && findings == 0 && !cfg.no_lgtm) ==> match plan
            .payload {
            Some(p) => p.event == (if cfg.passive_reviews {
                ReviewEvent::Comment
            } else {
                ReviewEvent::Approve
            }) && p.body@ == spec_review_body(summary@) && p.comments@ == Seq::<
                ReviewComment,
            >::empty(),
            None => false,
        },
        (!pr.draft && pr.state == PrState::Open && findings > 0) ==> match plan.payload {
            Some(p) => {
                &&& p.event == (if cfg.passive_reviews {
                    ReviewEvent::Comment
                } else {
                    ReviewEvent::RequestChanges
                })
                &&& p.body@ == spec_review_body(summary@)
                &&& p.comments@ == (if cfg.summary_only {
                    Seq::<ReviewComment>::empty()
                } else {
                    comments@
                })
            },
            None => false,
        },
{
    if pr.draft || !matches!(pr.state, PrState::Open) {
        return ReviewPlan { dismissals: Vec::new(), payload: None };
    }
    let body = build_review_body(summary);
    let dismissals = select_dismissals(existing, &body);
    if findings == 0 && cfg.no_lgtm {
        return ReviewPlan { dismissals, payload: None };
    }
    let event = review_event(findings, cfg.passive_reviews);
    let kept_comments = if findings == 0 || cfg.summary_only {
        Vec::new()
    } else {
        comments
    };
    ReviewPlan {
        dismissals,
        payload: Some(ReviewPayload { event, body, comments: kept_comments }),
    }
}

/// The run's exit disposition: success exactly when no fatal failure —
/// a missing tool, an authentication or network error — was counted.
pub fn run_outcome(fatal_failures: u64) -> (r: u64)
    ensures
        (r == 0) <==> (fatal_failures == 0),
{
    if fatal_failures == 0 {
        0
    } else {
        1
    }
}

} // verus!
