use election_core::election::{
    is_in_candidacy_period_at, is_in_voting_period_at, Election, ElectionDto, ElectionStatusDto,
};
use election_core::error::AppError;

fn election(candidacy: Option<(i64, i64)>, voting: (i64, i64)) -> Election {
    Election {
        id: 1,
        academic_year: "2023/2024".to_string(),
        degree_id: "D1".to_string(),
        curricular_year: None,
        candidacy_period_start: candidacy.map(|c| c.0),
        candidacy_period_end: candidacy.map(|c| c.1),
        voting_period_start: voting.0,
        voting_period_end: voting.1,
        round: 1,
    }
}

#[test]
fn phases_over_time() {
    let e = election(Some((10, 20)), (30, 40));
    let at = |t: i64| ElectionStatusDto::from_election_at(&e, t);
    assert_eq!(at(9), ElectionStatusDto::NotStarted);
    assert_eq!(at(10), ElectionStatusDto::Candidacy);
    assert_eq!(at(20), ElectionStatusDto::Candidacy);
    assert_eq!(at(21), ElectionStatusDto::Processing);
    assert_eq!(at(29), ElectionStatusDto::Processing);
    assert_eq!(at(30), ElectionStatusDto::Voting);
    assert_eq!(at(40), ElectionStatusDto::Voting);
    assert_eq!(at(41), ElectionStatusDto::Ended);
}

#[test]
fn voting_dominates_overlapping_candidacy() {
    let e = election(Some((10, 50)), (30, 40));
    assert_eq!(ElectionStatusDto::from_election_at(&e, 35), ElectionStatusDto::Voting);
    let no_candidacy = election(None, (30, 40));
    assert_eq!(ElectionStatusDto::from_election_at(&no_candidacy, 5), ElectionStatusDto::NotStarted);
    assert_eq!(ElectionStatusDto::from_election_at(&no_candidacy, 30), ElectionStatusDto::Voting);
}

#[test]
fn guards_are_inclusive() {
    let e = election(Some((10, 20)), (30, 40));
    assert_eq!(is_in_candidacy_period_at(&e, 10), Ok(()));
    assert_eq!(is_in_candidacy_period_at(&e, 20), Ok(()));
    assert_eq!(is_in_candidacy_period_at(&e, 21), Err(AppError::OutsideCandidacyPeriod));
    assert_eq!(is_in_voting_period_at(&e, 30), Ok(()));
    assert_eq!(is_in_voting_period_at(&e, 40), Ok(()));
    assert_eq!(is_in_voting_period_at(&e, 29), Err(AppError::OutsideVotingPeriod));
    let half = Election { candidacy_period_end: None, ..election(Some((10, 20)), (30, 40)) };
    assert_eq!(is_in_candidacy_period_at(&half, 15), Err(AppError::OutsideCandidacyPeriod));
}

#[test]
fn summary_shows_both_windows_or_none() {
    let e = election(Some((10, 20)), (30, 40));
    let dto = ElectionDto::from_entity_at(&e, 15);
    assert_eq!(dto.status, ElectionStatusDto::Candidacy);
    let c = dto.candidacy_period.unwrap();
    assert_eq!((c.start, c.end), (10, 20));
    assert_eq!((dto.voting_period.start, dto.voting_period.end), (30, 40));
    assert_eq!(dto.has_voted, None);
    let half = Election { candidacy_period_start: None, ..election(Some((10, 20)), (30, 40)) };
    assert!(ElectionDto::from_entity_at(&half, 15).candidacy_period.is_none());
    let for_user = ElectionDto::from_entity_for_user_at(&e, 45, true, false);
    assert_eq!(for_user.status, ElectionStatusDto::Ended);
    assert_eq!(for_user.has_nominated, Some(true));
    assert_eq!(for_user.has_voted, Some(false));
}

#[test]
fn error_status_codes() {
    assert_eq!(AppError::UnknownElection.status_code(), 404);
    assert_eq!(AppError::ElectionWithUnverifiedNomination.status_code(), 409);
    assert_eq!(AppError::DuplicateVote.status_code(), 403);
    assert_eq!(AppError::InvalidPersonSignature.status_code(), 401);
    assert_eq!(AppError::UnknownVoteOption.status_code(), 400);
    assert_eq!(AppError::FenixError.status_code(), 502);
    assert_eq!(AppError::DbError.status_code(), 500);
    assert!(AppError::DbError.is_retryable());
    assert!(!AppError::DuplicateElection.is_retryable());
}
