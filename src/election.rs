use vstd::prelude::*;

use crate::error::AppError;
use crate::store::DateRangeDto;

verus! {

/// An election as stored: timestamps are milliseconds since the Unix epoch.
pub struct Election {
    pub id: i32,
    pub academic_year: String,
    pub degree_id: String,
    /// Curricular year the election is restricted to; `None` admits all years.
    pub curricular_year: Option<i32>,
    pub candidacy_period_start: Option<i64>,
    pub candidacy_period_end: Option<i64>,
    pub voting_period_start: i64,
    pub voting_period_end: i64,
    pub round: i32,
}

/// Lifecycle phase of an election at a given instant.
#[derive(Debug, Clone, Copy, PartialEq, Eq, Structural)]
pub enum ElectionStatusDto {
    NotStarted,
    Candidacy,
    Processing,
    Voting,
    Ended,
}

/// The phase of `e` at instant `now`: the voting window takes precedence over
/// the candidacy window.
pub open spec fn phase_of(e: Election, now: int) -> ElectionStatusDto {
    if now > e.voting_period_end {
        ElectionStatusDto::Ended
    } else if now >= e.voting_period_start {
        ElectionStatusDto::Voting
    } else if e.candidacy_period_end is Some && now > e.candidacy_period_end->Some_0 {
        ElectionStatusDto::Processing
    } else if e.candidacy_period_start is Some && now >= e.candidacy_period_start->Some_0 {
        ElectionStatusDto::Candidacy
    } else {
        ElectionStatusDto::NotStarted
    }
}

/// Nominations are accepted: both candidacy bounds exist and `now` lies
/// between them, inclusive.
pub open spec fn candidacy_open(e: Election, now: int) -> bool {
    &&& e.candidacy_period_start is Some
    &&& e.candidacy_period_end is Some
    &&& e.candidacy_period_start->Some_0 <= now
    &&& now <= e.candidacy_period_end->Some_0
}

/// Ballots are accepted: `now` lies in the voting window, inclusive.
pub open spec fn voting_open(e: Election, now: int) -> bool {
    e.voting_period_start <= now <= e.voting_period_end
}

impl Election {
    /// Copies every field.
    pub fn copy(&self) -> (r: Election)
        ensures
            r == *self,
    {
        Election {
            id: self.id,
            academic_year: self.academic_year.clone(),
            degree_id: self.degree_id.clone(),
            curricular_year: self.curricular_year,
            candidacy_period_start: self.candidacy_period_start,
            candidacy_period_end: self.candidacy_period_end,
            voting_period_start: self.voting_period_start,
            voting_period_end: self.voting_period_end,
            round: self.round,
        }
    }
}

impl ElectionStatusDto {
    /// The phase of `election` at instant `now`.
    pub fn from_election_at(election: &Election, now: i64) -> (r: ElectionStatusDto)
        ensures
            r == phase_of(*election, now as int),
    {
        if now > election.voting_period_end {
            return ElectionStatusDto::Ended;
        }
        if now >= election.voting_period_start {
            return ElectionStatusDto::Voting;
        }
        if let Some(end) = election.candidacy_period_end {
            if now > end {
                return ElectionStatusDto::Processing;
            }
        }
        if let Some(start) = election.candidacy_period_start {
            if now >= start {
                return ElectionStatusDto::Candidacy;
            }
        }
        ElectionStatusDto::NotStarted
    }
}

/// What a client is shown of an election.
pub struct ElectionDto {
    pub id: i32,
    pub academic_year: String,
    pub degree_id: String,
    pub curricular_year: Option<i32>,
    pub candidacy_period: Option<DateRangeDto>,
    pub voting_period: DateRangeDto,
    pub round: i32,
    pub status: ElectionStatusDto,
    /// For a user's listing: whether the user has nominated someone.
    pub has_nominated: Option<bool>,
    /// For a user's listing: whether the user has voted.
    pub has_voted: Option<bool>,
}

/// `d` summarises election `e` at instant `now` (flags aside).
pub open spec fn summarises(d: ElectionDto, e: Election, now: int) -> bool {
    &&& d.id == e.id
    &&& d.academic_year == e.academic_year
    &&& d.degree_id == e.degree_id
    &&& d.curricular_year == e.curricular_year
    &&& d.round == e.round
    &&& d.status == phase_of(e, now)
    &&& d.voting_period.start == e.voting_period_start
    &&& d.voting_period.end == e.voting_period_end
    &&& (d.candidacy_period is Some <==> e.candidacy_period_start is Some
        && e.candidacy_period_end is Some)
    &&& (d.candidacy_period is Some ==> d.candidacy_period->Some_0.start
        == e.candidacy_period_start->Some_0 && d.candidacy_period->Some_0.end
        == e.candidacy_period_end->Some_0)
}

impl ElectionDto {
    /// The summary of `entity` at instant `now`; the candidacy window is
    /// shown only when both of its bounds are set.
    pub fn from_entity_at(entity: &Election, now: i64) -> (r: ElectionDto)
        ensures
            r.id == entity.id,
            r.academic_year == entity.academic_year,
            r.degree_id == entity.degree_id,
            r.curricular_year == entity.curricular_year,
            r.round == entity.round,
            r.status == phase_of(*entity, now as int),
            r.voting_period.start == entity.voting_period_start,
            r.voting_period.end == entity.voting_period_end,
            r.candidacy_period is Some <==> entity.candidacy_period_start is Some
                && entity.candidacy_period_end is Some,
            r.candidacy_period is Some ==> r.candidacy_period->Some_0.start
                == entity.candidacy_period_start->Some_0 && r.candidacy_period->Some_0.end
                == entity.candidacy_period_end->Some_0,
            summarises(r, *entity, now as int),
            r.has_nominated is None,
            r.has_voted is None,
    {
        let candidacy_period = match (entity.candidacy_period_start, entity.candidacy_period_end) {
            (Some(start), Some(end)) => Some(DateRangeDto { start, end }),
            _ => None,
        };
        ElectionDto {
            id: entity.id,
            academic_year: entity.academic_year.clone(),
            degree_id: entity.degree_id.clone(),
            curricular_year: entity.curricular_year,
            candidacy_period,
            voting_period: DateRangeDto {
                start: entity.voting_period_start,
                end: entity.voting_period_end,
            },
            round: entity.round,
            status: ElectionStatusDto::from_election_at(entity, now),
            has_nominated: None,
            has_voted: None,
        }
    }

    /// The summary shown to a user, with whether they have nominated and
    /// voted.
    pub fn from_entity_for_user_at(entity: &Election, now: i64, has_nominated: bool, has_voted: bool) -> (r:
        ElectionDto)
        ensures
            summarises(r, *entity, now as int),
            r.has_nominated == Some(has_nominated),
            r.has_voted == Some(has_voted),
    {
        let mut dto = Self::from_entity_at(entity, now);
        dto.has_nominated = Some(has_nominated);
        dto.has_voted = Some(has_voted);
        dto
    }
}

/// Succeeds exactly when nominations for `election` are accepted at `now`.
pub fn is_in_candidacy_period_at(election: &Election, now: i64) -> (r: Result<(), AppError>)
    ensures
        r is Ok <==> candidacy_open(*election, now as int),
        r is Err ==> r == Err::<(), AppError>(AppError::OutsideCandidacyPeriod),
{
    match (election.candidacy_period_start, election.candidacy_period_end) {
        (Some(start), Some(end)) => {
            if now >= start && now <= end {
                Ok(())
            } else {
                Err(AppError::OutsideCandidacyPeriod)
            }
        },
        _ => Err(AppError::OutsideCandidacyPeriod),
    }
}

/// Succeeds exactly when ballots for `election` are accepted at `now`.
pub fn is_in_voting_period_at(election: &Election, now: i64) -> (r: Result<(), AppError>)
    ensures
        r is Ok <==> voting_open(*election, now as int),
        r is Err ==> r == Err::<(), AppError>(AppError::OutsideVotingPeriod),
{
    if now >= election.voting_period_start && now <= election.voting_period_end {
        Ok(())
    } else {
        Err(AppError::OutsideVotingPeriod)
    }
}

/// The phase is a total function of the instant: exactly one phase holds, and
/// once the voting window has started (and not ended) the election is in
/// `Voting`, whatever its candidacy window says.
pub proof fn lemma_phase_partition(e: Election, now: int)
    ensures
        phase_of(e, now) == ElectionStatusDto::Ended <==> now > e.voting_period_end,
        phase_of(e, now) == ElectionStatusDto::Voting <==> voting_open(e, now),
        phase_of(e, now) == ElectionStatusDto::Candidacy ==> now < e.voting_period_start
            && e.candidacy_period_start is Some && e.candidacy_period_start->Some_0 <= now,
        phase_of(e, now) == ElectionStatusDto::Processing ==> now < e.voting_period_start
            && e.candidacy_period_end is Some && now > e.candidacy_period_end->Some_0,
        phase_of(e, now) == ElectionStatusDto::NotStarted ==> now < e.voting_period_start,
        (candidacy_open(e, now) && now < e.voting_period_start <= e.voting_period_end) ==> (phase_of(e, now)
            == ElectionStatusDto::Candidacy),
{
}

} // verus!
