//! Posting a comment whose visibility may be restricted to a role.
//!
//! Where a role is configured, the comment is first posted restricted to
//! it. If that call fails, for whatever reason, the same comment is posted
//! once more without a restriction, and what comes of this second call is
//! the result. A comment meant to be restricted can so end up visible to
//! all: that is the price for never dropping a comment because of a role
//! that is misconfigured or absent from a project. Without a role there is
//! one call, unrestricted.
//!
//! The library decides; the caller runs the calls: it sends the request of
//! an attempt and hands what the transport reports to [`next_step`].

use crate::model::{
    annotate, Operation, SessionError, SessionErrorView, TransportFailure, TransportFailureView,
};
use crate::request::{json_string, post_of, push_json, push_text, Request, RequestView};
use vstd::prelude::*;

verus! {

/// One call that posts the comment.
#[derive(Debug)]
pub struct CommentAttempt {
    pub request: Request,
    /// Whether the request restricts the comment's visibility.
    pub restricted: bool,
}

/// An attempt as plain values.
pub struct CommentAttemptView {
    pub request: RequestView,
    pub restricted: bool,
}

impl View for CommentAttempt {
    type V = CommentAttemptView;

    open spec fn view(&self) -> CommentAttemptView {
        CommentAttemptView { request: self.request@, restricted: self.restricted }
    }
}

/// What follows an attempt.
#[derive(Debug)]
pub enum CommentStep {
    /// Another call is to be made.
    Retry(CommentAttempt),
    /// The operation is over, with this result.
    Done(Result<(), SessionError>),
}

/// A step as plain values.
pub enum CommentStepView {
    Retry(CommentAttemptView),
    Done(Result<(), SessionErrorView>),
}

impl View for CommentStep {
    type V = CommentStepView;

    open spec fn view(&self) -> CommentStepView {
        match self {
            CommentStep::Retry(attempt) => CommentStepView::Retry(attempt@),
            CommentStep::Done(result) => CommentStepView::Done(
                match result {
                    Ok(_) => Ok(()),
                    Err(e) => Err(e@),
                },
            ),
        }
    }
}

/// What the transport reports of a call, as plain values.
pub open spec fn outcome_view(outcome: Result<(), TransportFailure>) -> Result<
    (),
    TransportFailureView,
> {
    match outcome {
        Ok(_) => Ok(()),
        Err(failure) => Err(failure@),
    }
}

/// Where comments on the issue `key` are posted.
pub open spec fn comment_path(key: Seq<char>) -> Seq<char> {
    "/issue/"@ + key + "/comment"@
}

/// The JSON body for a comment: with a role, visibility is restricted to
/// it; without one the body has no visibility member.
pub open spec fn comment_body(comment: Seq<char>, role: Option<Seq<char>>) -> Seq<char> {
    match role {
        Some(r) => "{\"body\":"@ + json_string(comment)
            + ",\"visibility\":{\"type\":\"role\",\"value\":"@ + json_string(r) + "}}"@,
        None => "{\"body\":"@ + json_string(comment) + "}"@,
    }
}

/// The call that posts `comment` on the issue `key`.
pub open spec fn comment_request(key: Seq<char>, comment: Seq<char>, role: Option<Seq<char>>)
    -> RequestView {
    post_of(comment_path(key), comment_body(comment, role))
}

/// The first attempt: restricted exactly where a role is configured.
pub open spec fn first_attempt_of(role: Option<Seq<char>>, key: Seq<char>, comment: Seq<char>)
    -> CommentAttemptView {
    CommentAttemptView { request: comment_request(key, comment, role), restricted: role is Some }
}

/// The result of the operation when `outcome` is what the last call gave.
pub open spec fn comment_result(key: Seq<char>, outcome: Result<(), TransportFailureView>)
    -> Result<(), SessionErrorView> {
    match outcome {
        Ok(_) => Ok(()),
        Err(failure) => Err(
            SessionErrorView::Transport {
                operation: Operation::CommentIssue,
                target: key,
                failure,
            },
        ),
    }
}

/// What follows an attempt that the transport answered with `outcome`:
/// success ends the operation; a failed restricted attempt is followed by
/// one unrestricted attempt; a failed unrestricted attempt ends it in error.
pub open spec fn next_step_of(
    key: Seq<char>,
    comment: Seq<char>,
    restricted: bool,
    outcome: Result<(), TransportFailureView>,
) -> CommentStepView {
    if outcome is Err && restricted {
        CommentStepView::Retry(
            CommentAttemptView { request: comment_request(key, comment, None), restricted: false },
        )
    } else {
        CommentStepView::Done(comment_result(key, outcome))
    }
}

/// The calls made and the result reached.
pub struct CommentRun {
    pub sent: Seq<RequestView>,
    pub result: Result<(), SessionErrorView>,
}

/// The course of the operation from `attempt` on, where the transport
/// answers the calls, counted from `n`, with `answers(n)`, `answers(n + 1)`
/// and so on.
pub open spec fn run_from(
    key: Seq<char>,
    comment: Seq<char>,
    attempt: CommentAttemptView,
    answers: spec_fn(nat) -> Result<(), TransportFailureView>,
    n: nat,
) -> CommentRun
    decreases
            (if attempt.restricted {
                1nat
            } else {
                0nat
            }),
{
    match next_step_of(key, comment, attempt.restricted, answers(n)) {
        CommentStepView::Done(result) => CommentRun { sent: seq![attempt.request], result },
        CommentStepView::Retry(next) => {
            let rest = run_from(key, comment, next, answers, n + 1);
            CommentRun { sent: seq![attempt.request] + rest.sent, result: rest.result }
        },
    }
}

/// The course of posting `comment` on `key` with the configured `role`.
pub open spec fn comment_run(
    role: Option<Seq<char>>,
    key: Seq<char>,
    comment: Seq<char>,
    answers: spec_fn(nat) -> Result<(), TransportFailureView>,
) -> CommentRun {
    run_from(key, comment, first_attempt_of(role, key, comment), answers, 0)
}

/// The sequence of calls. Without a role exactly one call is made,
/// unrestricted, and its outcome is the result. With a role the first call
/// is restricted; if it succeeds it is the only one; if it fails exactly
/// one more call is made, with the same comment and no restriction, and the
/// outcome of that second call is the result.
pub proof fn lemma_comment_sequencing(
    role: Option<Seq<char>>,
    key: Seq<char>,
    comment: Seq<char>,
    answers: spec_fn(nat) -> Result<(), TransportFailureView>,
)
    ensures
        role is None ==> comment_run(role, key, comment, answers) == (CommentRun {
            sent: seq![comment_request(key, comment, None)],
            result: comment_result(key, answers(0)),
        }),
        role is Some && answers(0) is Ok ==> comment_run(role, key, comment, answers)
            == (CommentRun {
            sent: seq![comment_request(key, comment, role)],
            result: Ok(()),
        }),
        role is Some && answers(0) is Err ==> comment_run(role, key, comment, answers)
            == (CommentRun {
            sent: seq![comment_request(key, comment, role), comment_request(key, comment, None)],
            result: comment_result(key, answers(1)),
        }),
        1 <= comment_run(role, key, comment, answers).sent.len() <= 2,
{
    let first = first_attempt_of(role, key, comment);
    let second = CommentAttemptView {
        request: comment_request(key, comment, None),
        restricted: false,
    };
    assert(run_from(key, comment, second, answers, 1) == (CommentRun {
        sent: seq![second.request],
        result: comment_result(key, answers(1)),
    }));
    if role is Some && answers(0) is Err {
        assert(seq![first.request] + seq![second.request] == seq![first.request, second.request]);
    }
}

/// The request that posts `comment` on the issue `key`, restricted to
/// `role` where one is given.
pub fn build_comment_request(key: &str, comment: &str, role: Option<&str>) -> (r: Request)
    ensures
        r@ == comment_request(
            key@,
            comment@,
            match role {
                Some(name) => Some(name@),
                None => None,
            },
        ),
{
    let mut path = String::new();
    push_text(&mut path, "/issue/");
    push_text(&mut path, key);
    push_text(&mut path, "/comment");
    let mut body = String::new();
    push_text(&mut body, "{\"body\":");
    push_json(&mut body, comment);
    match role {
        Some(name) => {
            push_text(&mut body, ",\"visibility\":{\"type\":\"role\",\"value\":");
            push_json(&mut body, name);
            push_text(&mut body, "}}");
        },
        None => {
            push_text(&mut body, "}");
        },
    }
    assert(path@ == comment_path(key@));
    Request::post(path, body)
}

/// The first attempt at posting `comment` on the issue `key`.
pub fn first_attempt(role: Option<&str>, key: &str, comment: &str) -> (r: CommentAttempt)
    ensures
        r@ == first_attempt_of(
            match role {
                Some(name) => Some(name@),
                None => None,
            },
            key@,
            comment@,
        ),
{
    let restricted = role.is_some();
    CommentAttempt { request: build_comment_request(key, comment, role), restricted }
}

/// What follows an attempt that the transport answered with `outcome`.
/// `restricted` says whether that attempt was restricted.
pub fn next_step(key: &str, comment: &str, restricted: bool, outcome: Result<(), TransportFailure>)
    -> (r: CommentStep)
    ensures
        r@ == next_step_of(key@, comment@, restricted, outcome_view(outcome)),
{
    match outcome {
        Ok(_) => CommentStep::Done(Ok(())),
        Err(failure) => {
            if restricted {
                CommentStep::Retry(
                    CommentAttempt {
                        request: build_comment_request(key, comment, None),
                        restricted: false,
                    },
                )
            } else {
                CommentStep::Done(Err(annotate(Operation::CommentIssue, key, failure)))
            }
        },
    }
}

} // verus!
