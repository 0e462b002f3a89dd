//! What went wrong, in words.
use vstd::prelude::*;
use vstd::string::*;

use crate::text;

verus! {

/// A sentence that says what could not be done, and the sentence that says
/// why, when something below it failed.
#[derive(Debug, PartialEq, Eq)]
pub struct Failure {
    pub summary: String,
    pub cause: Option<String>,
}

/// A failure, mathematically.
pub struct FailureView {
    pub summary: Seq<char>,
    pub cause: Option<Seq<char>>,
}

impl View for Failure {
    type V = FailureView;

    open spec fn view(&self) -> FailureView {
        FailureView { summary: self.summary@, cause: text::optional(self.cause) }
    }
}

/// A failure with nothing below it.
pub open spec fn plain(summary: Seq<char>) -> FailureView {
    FailureView { summary, cause: None }
}

/// A failure of something above what failed with `cause`.
pub open spec fn caused(summary: Seq<char>, cause: Seq<char>) -> FailureView {
    FailureView { summary, cause: Some(cause) }
}

impl FailureView {
    /// The whole of it in one line.
    pub open spec fn in_full(self) -> Seq<char> {
        match self.cause {
            Some(cause) => self.summary + ": "@ + cause,
            None => self.summary,
        }
    }
}

impl Failure {
    /// A failure with nothing below it.
    pub fn new(summary: &str) -> (r: Failure)
        ensures
            r@ == plain(summary@),
    {
        Failure { summary: summary.to_owned(), cause: None }
    }

    /// A failure of something above what failed with `cause`.
    pub fn because(summary: &str, cause: &str) -> (r: Failure)
        ensures
            r@ == caused(summary@, cause@),
    {
        Failure { summary: summary.to_owned(), cause: Some(cause.to_owned()) }
    }

    /// The whole of it in one line: the summary, and behind a colon the cause.
    pub fn full(&self) -> (r: String)
        ensures
            r@ == self@.in_full(),
    {
        let mut out: String = self.summary.clone();
        match &self.cause {
            Some(cause) => {
                out.append(": ");
                out.append(cause.as_str());
            },
            None => {},
        }
        out
    }
}

/// What is said of a failure holds what could not be done, and why.
pub proof fn a_failure_is_told_in_full(e: Failure, r: String)
    requires
        call_ensures(Failure::full, (&e,), r),
    ensures
        text::has_prefix(r@, e.summary@),
        e.cause is Some ==> text::has_suffix(r@, e.cause->0@),
        e.cause is None ==> r@ == e.summary@,
        e.cause is Some ==> r@ == e.summary@ + ": "@ + e.cause->0@,
{
    assert(e@.cause == text::optional(e.cause));
    match e.cause {
        Some(cause) => {
            assert(r@.take(e.summary@.len() as int) =~= e.summary@);
            assert(r@.skip(r@.len() - cause@.len()) =~= cause@);
        },
        None => {
            assert(r@.take(e.summary@.len() as int) =~= e.summary@);
        },
    }
}

} // verus!
