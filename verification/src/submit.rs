//! The entity submitter's decision: what the destination's answer to a
//! submitted entity means.

use crate::http::{classify_status, status_class, HttpOutcome, StatusClass};
use vstd::prelude::*;
use vstd::string::StringExecFns;

verus! {

/// What came of submitting one entity. Each of the five ends the entity's
/// part in this run: nothing is tried again.
#[derive(Debug, Clone, PartialEq, Eq)]
pub enum SubmissionResult {
    /// The destination created the entity: its reference for it.
    Success(String),
    /// The destination refused the entity, with a status from 400 to 499.
    ClientRejected,
    /// The destination failed, with a status from 500 to 599.
    ServerFailed,
    /// The request failed on the network.
    TransportFailed,
    /// The destination answered with a status of no known family, or
    /// accepted the entity with a body of another shape than expected.
    UnmappedResponse,
}

/// What the outcome `outcome` of a submission means.
pub open spec fn submission_verdict(outcome: HttpOutcome) -> SubmissionResult {
    match outcome {
        HttpOutcome::Transport => SubmissionResult::TransportFailed,
        HttpOutcome::Response { status, body } => match status_class(status) {
            StatusClass::Success => match body {
                Some(reference) => SubmissionResult::Success(reference),
                None => SubmissionResult::UnmappedResponse,
            },
            StatusClass::ClientError => SubmissionResult::ClientRejected,
            StatusClass::ServerError => SubmissionResult::ServerFailed,
            StatusClass::Other => SubmissionResult::UnmappedResponse,
        },
    }
}

/// Decides what came of a submission. It succeeded exactly where the
/// destination answered with a status from 200 to 299 and a body that held
/// its reference for the entity.
pub fn conclude_submission(outcome: HttpOutcome) -> (result: SubmissionResult)
    ensures
        result == submission_verdict(outcome),
{
    match outcome {
        HttpOutcome::Transport => SubmissionResult::TransportFailed,
        HttpOutcome::Response { status, body } => match classify_status(status) {
            StatusClass::Success => match body {
                Some(reference) => SubmissionResult::Success(reference),
                None => SubmissionResult::UnmappedResponse,
            },
            StatusClass::ClientError => SubmissionResult::ClientRejected,
            StatusClass::ServerError => SubmissionResult::ServerFailed,
            StatusClass::Other => SubmissionResult::UnmappedResponse,
        },
    }
}

/// The words for a failed submission; none for a success.
pub open spec fn failure_words(result: SubmissionResult) -> Option<Seq<char>> {
    match result {
        SubmissionResult::Success(_) => None,
        SubmissionResult::ClientRejected => Some("Fail to env"@),
        SubmissionResult::ServerFailed => Some("Fail to env"@),
        SubmissionResult::TransportFailed => Some("error request"@),
        SubmissionResult::UnmappedResponse => Some("request not mapped"@),
    }
}

impl SubmissionResult {
    /// Whether the destination created the entity.
    pub fn is_success(&self) -> (b: bool)
        ensures
            b == (*self is Success),
    {
        match self {
            SubmissionResult::Success(_) => true,
            _ => false,
        }
    }

    /// The words for a failed submission; `None` for a success.
    pub fn error_text(&self) -> (words: Option<String>)
        ensures
            match failure_words(*self) {
                Some(text) => words matches Some(w) && w@ == text,
                None => words is None,
            },
    {
        match self {
            SubmissionResult::Success(_) => None,
            SubmissionResult::ClientRejected => Some(String::from_str("Fail to env")),
            SubmissionResult::ServerFailed => Some(String::from_str("Fail to env")),
            SubmissionResult::TransportFailed => Some(String::from_str("error request")),
            SubmissionResult::UnmappedResponse => Some(String::from_str("request not mapped")),
        }
    }
}

} // verus!
