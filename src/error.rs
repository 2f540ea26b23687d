use vstd::prelude::*;

verus! {

/// Every way an instruction can be rejected.
#[derive(Clone, Copy, Debug, PartialEq, Eq, Structural)]
pub enum Error {
    PollAlreadyExists,
    AlreadyVoted,
    VotingEnded,
    CandidateNotFound,
    InvalidPollName,
    InvalidPollDescription,
    InvalidCandidateName,
    InvalidCandidatesCount,
    /// The slot to edit holds no poll yet.
    PollNotInitialized,
    /// A slot handed in is not at the address derived for the instruction.
    AddressMismatch,
    /// A slot has no room for the record to be stored in it.
    AccountTooSmall,
    /// Stored or submitted bytes do not form a record of the expected shape.
    MalformedRecord,
}

/// The sentence that describes each error.
pub open spec fn error_message(e: Error) -> Seq<char> {
    match e {
        Error::PollAlreadyExists => "Poll already exists"@,
        Error::AlreadyVoted => "Already voted"@,
        Error::VotingEnded => "Voting ended"@,
        Error::CandidateNotFound => "Candidate not found"@,
        Error::InvalidPollName => "Invalid poll name"@,
        Error::InvalidPollDescription => "Invalid poll description"@,
        Error::InvalidCandidateName => "Invalid candidate name"@,
        Error::InvalidCandidatesCount => "Invalid candidates count"@,
        Error::PollNotInitialized => "Poll not initialized"@,
        Error::AddressMismatch => "Account address mismatch"@,
        Error::AccountTooSmall => "Account too small"@,
        Error::MalformedRecord => "Malformed record"@,
    }
}

impl Error {
    pub fn message(&self) -> (r: &'static str)
        ensures
            r@ == error_message(*self),
    {
        match self {
            Error::PollAlreadyExists => "Poll already exists",
            Error::AlreadyVoted => "Already voted",
            Error::VotingEnded => "Voting ended",
            Error::CandidateNotFound => "Candidate not found",
            Error::InvalidPollName => "Invalid poll name",
            Error::InvalidPollDescription => "Invalid poll description",
            Error::InvalidCandidateName => "Invalid candidate name",
            Error::InvalidCandidatesCount => "Invalid candidates count",
            Error::PollNotInitialized => "Poll not initialized",
            Error::AddressMismatch => "Account address mismatch",
            Error::AccountTooSmall => "Account too small",
            Error::MalformedRecord => "Malformed record",
        }
    }
}

} // verus!
