use vstd::prelude::*;

use crate::election::Election;
use crate::error::AppError;

verus! {

/// One degree a user is enrolled in, with the curricular year.
pub struct DegreeEntryDto {
    pub degree_id: String,
    pub curricular_year: u8,
    /// Whether this enrolment also lets the user's own pending nominations be
    /// confirmed automatically.
    pub nomination_elegible: bool,
}

/// An authenticated user with the degrees the user is enrolled in.
pub struct UserDto {
    pub username: String,
    pub name: String,
    pub display_name: String,
    pub degree_entries: Vec<DegreeEntryDto>,
}

/// One enrolment admits the election: same degree, and the election either
/// has no year restriction or is restricted to the entry's year.
pub open spec fn entry_admits(entry: DegreeEntryDto, e: Election) -> bool {
    &&& entry.degree_id@ == e.degree_id@
    &&& (e.curricular_year is None || e.curricular_year->Some_0 == entry.curricular_year as i32)
}

/// Some enrolment in `entries` admits the election.
pub open spec fn eligible(entries: Seq<DegreeEntryDto>, e: Election) -> bool {
    exists|i: int| 0 <= i < entries.len() && entry_admits(#[trigger] entries[i], e)
}

/// Whether some entry of `entries` admits `election`.
pub fn entries_admit(entries: &Vec<DegreeEntryDto>, election: &Election) -> (r: bool)
    ensures
        r == eligible(entries@, *election),
{
    let mut i: usize = 0;
    while i < entries.len()
        invariant
            0 <= i <= entries@.len(),
            forall|j: int| 0 <= j < i ==> !entry_admits(#[trigger] entries@[j], *election),
        decreases entries@.len() - i,
    {
        let entry = &entries[i];
        if entry.degree_id == election.degree_id {
            match election.curricular_year {
                None => {
                    return true;
                },
                Some(year) => {
                    if year == entry.curricular_year as i32 {
                        return true;
                    }
                },
            }
        }
        i = i + 1;
    }
    false
}

/// Some enrolment flagged for nominations admits the election.
pub open spec fn nomination_eligible(entries: Seq<DegreeEntryDto>, e: Election) -> bool {
    exists|i: int|
        0 <= i < entries.len() && (#[trigger] entries[i]).nomination_elegible && entry_admits(
            entries[i],
            e,
        )
}

/// Whether some entry of `entries` flagged for nominations admits `election`.
pub fn nomination_entries_admit(entries: &Vec<DegreeEntryDto>, election: &Election) -> (r: bool)
    ensures
        r == nomination_eligible(entries@, *election),
{
    let mut i: usize = 0;
    while i < entries.len()
        invariant
            0 <= i <= entries@.len(),
            forall|j: int|
                0 <= j < i ==> !((#[trigger] entries@[j]).nomination_elegible && entry_admits(
                    entries@[j],
                    *election,
                )),
        decreases entries@.len() - i,
    {
        let entry = &entries[i];
        if entry.nomination_elegible && entry.degree_id == election.degree_id {
            match election.curricular_year {
                None => {
                    return true;
                },
                Some(year) => {
                    if year == entry.curricular_year as i32 {
                        return true;
                    }
                },
            }
        }
        i = i + 1;
    }
    false
}

/// A user can vote on (and nominate in) an election when attending its
/// degree and, if the election names a curricular year, that year.
pub fn can_vote_on_election(user: &UserDto, election: &Election) -> (r: Result<(), AppError>)
    ensures
        r is Ok <==> eligible(user.degree_entries@, *election),
        r is Err ==> r == Err::<(), AppError>(AppError::ElectionUnauthorized),
{
    if entries_admit(&user.degree_entries, election) {
        Ok(())
    } else {
        Err(AppError::ElectionUnauthorized)
    }
}

/// Whether `election` is among those that `entries` give access to; the
/// restriction used to list a user's elections.
pub fn get_user_in_election_condition(entries: &Vec<DegreeEntryDto>, election: &Election) -> (r:
    bool)
    ensures
        r == eligible(entries@, *election),
{
    entries_admit(entries, election)
}

/// The elections of `elections` that `user` may see, in their order.
pub fn visible_elections(user: &UserDto, elections: &Vec<Election>) -> (r: Vec<Election>)
    ensures
        r@ == elections@.filter(|e: Election| eligible(user.degree_entries@, e)),
{
    let mut out: Vec<Election> = Vec::new();
    let mut i: usize = 0;
    while i < elections.len()
        invariant
            0 <= i <= elections@.len(),
            out@ == elections@.subrange(0, i as int).filter(
                |e: Election| eligible(user.degree_entries@, e),
            ),
        decreases elections@.len() - i,
    {
        let ghost prefix = elections@.subrange(0, i + 1);
        if entries_admit(&user.degree_entries, &elections[i]) {
            out.push(elections[i].copy());
        }
        assert(out@ == prefix.filter(|e: Election| eligible(user.degree_entries@, e))) by {
            reveal(Seq::filter);
            assert(prefix.drop_last() =~= elections@.subrange(0, i as int));
        }
        i = i + 1;
    }
    proof {
        assert(elections@.subrange(0, elections@.len() as int) =~= elections@);
    }
    out
}

} // verus!
