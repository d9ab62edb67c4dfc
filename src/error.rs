use vstd::prelude::*;

verus! {

/// Every way an action on the election engine can fail.
#[derive(Debug, Clone, Copy, PartialEq, Eq, Structural)]
pub enum AppError {
    BadInput,
    DuplicateAdmin,
    UnknownAdmin,
    NotEnoughAdmins,
    UnknownElection,
    InvalidDateRange,
    ElectionCandidacyAfterVoting,
    ElectionWithUnverifiedNomination,
    UnknownVoteOption,
    DuplicateVote,
    DuplicateNomination,
    DuplicateElection,
    InvalidRound,
    InvalidDegree,
    OutsideCandidacyPeriod,
    OutsideVotingPeriod,
    ElectionUnauthorized,
    InvalidPersonSignature,
    UnknownNomination,
    Unauthorized,
    Forbidden,
    FenixError,
    SessionSerializationError,
    DbError,
}

/// HTTP status code that reports an error to a client.
pub open spec fn status_of(e: AppError) -> u16 {
    match e {
        AppError::BadInput => 400,
        AppError::DuplicateAdmin => 409,
        AppError::UnknownAdmin => 404,
        AppError::NotEnoughAdmins => 404,
        AppError::UnknownElection => 404,
        AppError::InvalidDateRange => 400,
        AppError::ElectionCandidacyAfterVoting => 400,
        AppError::ElectionWithUnverifiedNomination => 409,
        AppError::UnknownVoteOption => 400,
        AppError::DuplicateVote => 403,
        AppError::DuplicateNomination => 403,
        AppError::DuplicateElection => 409,
        AppError::InvalidRound => 409,
        AppError::InvalidDegree => 409,
        AppError::OutsideCandidacyPeriod => 403,
        AppError::OutsideVotingPeriod => 403,
        AppError::ElectionUnauthorized => 403,
        AppError::InvalidPersonSignature => 401,
        AppError::UnknownNomination => 404,
        AppError::Unauthorized => 401,
        AppError::Forbidden => 403,
        AppError::FenixError => 502,
        AppError::SessionSerializationError => 500,
        AppError::DbError => 500,
    }
}

/// Whether the error is transient (worth retrying later) rather than a
/// verdict that the action can never succeed.
pub open spec fn is_transient(e: AppError) -> bool {
    e == AppError::DbError || e == AppError::FenixError
}

impl AppError {
    /// The status code under which the error is reported.
    pub fn status_code(&self) -> (r: u16)
        ensures
            r == status_of(*self),
    {
        match self {
            AppError::BadInput => 400,
            AppError::DuplicateAdmin => 409,
            AppError::UnknownAdmin => 404,
            AppError::NotEnoughAdmins => 404,
            AppError::UnknownElection => 404,
            AppError::InvalidDateRange => 400,
            AppError::ElectionCandidacyAfterVoting => 400,
            AppError::ElectionWithUnverifiedNomination => 409,
            AppError::UnknownVoteOption => 400,
            AppError::DuplicateVote => 403,
            AppError::DuplicateNomination => 403,
            AppError::DuplicateElection => 409,
            AppError::InvalidRound => 409,
            AppError::InvalidDegree => 409,
            AppError::OutsideCandidacyPeriod => 403,
            AppError::OutsideVotingPeriod => 403,
            AppError::ElectionUnauthorized => 403,
            AppError::InvalidPersonSignature => 401,
            AppError::UnknownNomination => 404,
            AppError::Unauthorized => 401,
            AppError::Forbidden => 403,
            AppError::FenixError => 502,
            AppError::SessionSerializationError => 500,
            AppError::DbError => 500,
        }
    }

    /// Whether a caller may retry the same action later.
    pub fn is_retryable(&self) -> (r: bool)
        ensures
            r == is_transient(*self),
    {
        match self {
            AppError::DbError | AppError::FenixError => true,
            _ => false,
        }
    }
}

} // verus!
