//! The classifier behind the sentiment pipeline.
//!
//! Classifiers belong to the host. The engine has only one that replays what it was given.

use std::collections::VecDeque;

use vstd::prelude::*;

use super::types::{ClassificationRequest, RawClassification};
use crate::engine::context::Context;
use crate::text::{concat2, decimal, push_u64};

verus! {

/// How a classifier fails.
#[derive(Debug, Clone, PartialEq, Eq)]
#[non_exhaustive]
pub enum ClassifierError {
    /// The call did not go through.
    Transport(String),
    /// The answer could not be understood.
    InvalidOutput(String),
    RateLimited { retry_after_secs: u32 },
    Timeout { elapsed_ms: u64 },
}

impl ClassifierError {
    pub open spec fn text(self) -> Seq<char> {
        match self {
            ClassifierError::Transport(e) => "classifier transport error: "@ + e@,
            ClassifierError::InvalidOutput(e) => "classifier returned unparseable output: "@ + e@,
            ClassifierError::RateLimited { retry_after_secs } =>
                "classifier rate-limited; retry after "@ + decimal(retry_after_secs as nat) + "s"@,
            ClassifierError::Timeout { elapsed_ms } => "classifier timeout after "@ + decimal(
                elapsed_ms as nat,
            ) + "ms"@,
        }
    }

    /// Wraps the message of a transport failure.
    pub fn transport(err: String) -> (e: ClassifierError)
        ensures
            e == ClassifierError::Transport(err),
    {
        ClassifierError::Transport(err)
    }

    /// The message shown for this error.
    pub fn message(&self) -> (m: String)
        ensures
            m@ == self.text(),
    {
        match self {
            ClassifierError::Transport(e) => concat2("classifier transport error: ", e.as_str()),
            ClassifierError::InvalidOutput(e) => concat2(
                "classifier returned unparseable output: ",
                e.as_str(),
            ),
            ClassifierError::RateLimited { retry_after_secs } => {
                let mut m = "classifier rate-limited; retry after ".to_owned();
                push_u64(&mut m, *retry_after_secs as u64);
                m.append("s");
                m
            },
            ClassifierError::Timeout { elapsed_ms } => {
                let mut m = "classifier timeout after ".to_owned();
                push_u64(&mut m, *elapsed_ms);
                m.append("ms");
                m
            },
        }
    }
}

/// A classifier. It abstains rather than fail when it has nothing to say.
pub trait SentimentClassifier {
    /// Classifies the request.
    fn classify(&mut self, ctx: &Context, request: &ClassificationRequest) -> (r: Result<
        RawClassification,
        ClassifierError,
    >);

    /// Name for logs.
    fn name(&self) -> (n: &'static str);
}

/// Replays results in the order in which they were given, and abstains once they are used up.
#[derive(Debug)]
pub struct MockSentimentClassifier {
    responses: VecDeque<Result<RawClassification, ClassifierError>>,
    call_count: usize,
}

impl Default for MockSentimentClassifier {
    fn default() -> (m: MockSentimentClassifier)
        ensures
            m.queue().len() == 0,
            m.calls() == 0,
    {
        MockSentimentClassifier { responses: VecDeque::new(), call_count: 0 }
    }
}

impl MockSentimentClassifier {
    /// What is still to be replayed.
    pub closed spec fn queue(self) -> Seq<Result<RawClassification, ClassifierError>> {
        self.responses@
    }

    /// How often it was asked.
    pub closed spec fn calls(self) -> usize {
        self.call_count
    }

    /// Adds a result to replay.
    pub fn with_response(self, response: RawClassification) -> (m: MockSentimentClassifier)
        ensures
            m.queue() == self.queue().push(Ok(response)),
            m.calls() == self.calls(),
    {
        let mut m = self;
        m.responses.push_back(Ok(response));
        m
    }

    /// Adds a failure to replay.
    pub fn with_error(self, error: ClassifierError) -> (m: MockSentimentClassifier)
        ensures
            m.queue() == self.queue().push(Err(error)),
            m.calls() == self.calls(),
    {
        let mut m = self;
        m.responses.push_back(Err(error));
        m
    }

    /// How often it was asked.
    pub fn call_count(&self) -> (n: usize)
        ensures
            n == self.calls(),
    {
        self.call_count
    }
}

impl SentimentClassifier for MockSentimentClassifier {
    fn classify(&mut self, ctx: &Context, request: &ClassificationRequest) -> (r: Result<
        RawClassification,
        ClassifierError,
    >)
        ensures
            final(self).calls() == old(self).calls().wrapping_add(1),
            if old(self).queue().len() > 0 {
                r == old(self).queue()[0] && final(self).queue() == old(self).queue().skip(1)
            } else {
                r is Ok && r->Ok_0.abstains() && final(self).queue() == old(self).queue()
            },
    {
        self.call_count = self.call_count.wrapping_add(1);
        match self.responses.pop_front() {
            Some(result) => result,
            None => Ok(RawClassification::abstain()),
        }
    }

    fn name(&self) -> (n: &'static str)
        ensures
            n@ == "mock"@,
    {
        "mock"
    }
}

// ---- Laws --------------------------------------------------------------------

/// The message of an error tells what failed and ends in the cause or in the time.
pub proof fn law_classifier_errors_tell_their_cause(e: &ClassifierError, m: String)
    requires
        call_ensures(ClassifierError::message, (e,), m),
    ensures
        e matches ClassifierError::Transport(c) ==> m@ == "classifier transport error: "@ + c@,
        e matches ClassifierError::InvalidOutput(c) ==> m@
            == "classifier returned unparseable output: "@ + c@,
        e matches ClassifierError::RateLimited { retry_after_secs } ==> m@
            == "classifier rate-limited; retry after "@ + decimal(retry_after_secs as nat) + "s"@,
        e matches ClassifierError::Timeout { elapsed_ms } ==> m@ == "classifier timeout after "@
            + decimal(elapsed_ms as nat) + "ms"@,
{
}

} // verus!
