//! What the store's operations guarantee across calls, proved over the
//! abstract model `StoreView` that their contracts use.

use vstd::prelude::*;

use crate::election::{candidacy_open, voting_open};
use crate::eligibility::{eligible, UserDto};
use crate::error::AppError;
use crate::store::{
    edited_nominations, has_nomination, is_nomination_of, self_nomination, windows_ordered,
    EditNominationDto,
    ballots_cast, batch_election, batch_elections, bulk_create_outcome, cast_vote_outcome, counted,
    election_exists, election_keys_unique, election_of, has_pending, has_tally, has_valid_nomination,
    lemma_ballots_le_len, lemma_tally_row_le_sum, lemma_tally_sum_update, logged, nominated,
    nomination_outcome, revalidated, same_election_key, tallies_unique, tally_of, tally_sum,
    upsert_nomination, voted, BulkCreateElectionsDto, ElectionVote, Nomination, StoreView, Validity,
};

verus! {

/// One more vote for a candidate keeps tally keys unique, adds one to that
/// candidate's tally and one to its election's sum.
pub proof fn lemma_counted(ts: Seq<ElectionVote>, id: i32, candidate: String)
    requires
        tallies_unique(ts),
        forall|i: int|
            0 <= i < ts.len() && (#[trigger] ts[i]).election == id && ts[i].candidate@ == candidate@
                ==> ts[i].count < u64::MAX,
    ensures
        tallies_unique(counted(ts, id, candidate)),
        tally_of(counted(ts, id, candidate), id, candidate@) == tally_of(ts, id, candidate@) + 1,
        forall|other: i32|
            #[trigger] tally_sum(counted(ts, id, candidate), other) == tally_sum(ts, other) + if other
                == id {
                1nat
            } else {
                0nat
            },
{
    let c = counted(ts, id, candidate);
    if has_tally(ts, id, candidate@) {
        let i = choose|i: int|
            0 <= i < ts.len() && (#[trigger] ts[i]).election == id && ts[i].candidate@
                == candidate@;
        let t = ElectionVote {
            election: ts[i].election,
            candidate: ts[i].candidate,
            count: (ts[i].count + 1) as u64,
        };
        assert forall|j: int| 0 <= j < ts.len() && j != i implies !((#[trigger] ts[j]).election
            == id && ts[j].candidate@ == candidate@) by {
            assert(ts[j].election == ts[i].election ==> ts[j].candidate@ != ts[i].candidate@);
        }
        assert(c =~= ts.update(i, t));
        assert forall|a: int, b: int|
            0 <= a < c.len() && 0 <= b < c.len() && a != b && (#[trigger] c[a]).election
                == (#[trigger] c[b]).election implies c[a].candidate@ != c[b].candidate@ by {
            assert(c[a].election == ts[a].election && c[a].candidate@ == ts[a].candidate@);
            assert(c[b].election == ts[b].election && c[b].candidate@ == ts[b].candidate@);
        }
        assert(has_tally(c, id, candidate@)) by {
            assert(c[i].election == id && c[i].candidate@ == candidate@);
        }
        let k = choose|k: int|
            0 <= k < c.len() && (#[trigger] c[k]).election == id && c[k].candidate@ == candidate@;
        if k != i {
            assert(c[k].election == c[i].election);
        }
        assert forall|other: i32|
            #[trigger] tally_sum(c, other) == tally_sum(ts, other) + if other == id {
                1nat
            } else {
                0nat
            } by {
            lemma_tally_sum_update(ts, i, t, other);
        }
    } else {
        assert(c.drop_last() =~= ts);
        assert forall|a: int, b: int|
            0 <= a < c.len() && 0 <= b < c.len() && a != b && (#[trigger] c[a]).election
                == (#[trigger] c[b]).election implies c[a].candidate@ != c[b].candidate@ by {
            if a < ts.len() && b < ts.len() {
                assert(c[a] == ts[a] && c[b] == ts[b]);
            } else if a < ts.len() {
                assert(c[a] == ts[a]);
            } else {
                assert(c[b] == ts[b]);
            }
        }
        assert(has_tally(c, id, candidate@)) by {
            assert(c[ts.len() as int].election == id);
        }
        let k = choose|k: int|
            0 <= k < c.len() && (#[trigger] c[k]).election == id && c[k].candidate@ == candidate@;
        if k < ts.len() {
            assert(c[k] == ts[k]);
        }
    }
}

/// A successful ballot keeps the store's invariant, adds one ballot to its
/// election and, for a candidate, one vote to that candidate.
pub proof fn lemma_vote_step(v: StoreView, id: i32, user: UserDto, choice: Option<String>, now: int)
    requires
        v.wf(),
        v.vote_log.len() < u64::MAX,
        cast_vote_outcome(v, id, user, choice, now) is Ok,
    ensures
        voted(v, id, user, choice).wf(),
        ballots_cast(voted(v, id, user, choice).vote_log, id) == ballots_cast(v.vote_log, id) + 1,
        choice is Some ==> tally_of(voted(v, id, user, choice).tallies, id, choice->Some_0@)
            == tally_of(v.tallies, id, choice->Some_0@) + 1,
{
    let w = voted(v, id, user, choice);
    let log = w.vote_log;
    assert(log.drop_last() =~= v.vote_log);
    assert forall|i: int, j: int|
        0 <= i < log.len() && 0 <= j < log.len() && i != j && (#[trigger] log[i]).election
            == (#[trigger] log[j]).election implies log[i].username@ != log[j].username@ by {
        if i < v.vote_log.len() && j < v.vote_log.len() {
        } else if i < v.vote_log.len() {
            assert(log[i] == v.vote_log[i]);
        } else {
            assert(log[j] == v.vote_log[j]);
        }
    }
    if let Some(c) = choice {
        assert forall|i: int|
            0 <= i < v.tallies.len() && (#[trigger] v.tallies[i]).election == id
                && v.tallies[i].candidate@ == c@ implies v.tallies[i].count < u64::MAX by {
            lemma_tally_row_le_sum(v.tallies, i);
            lemma_ballots_le_len(v.vote_log, id);
            assert(tally_sum(v.tallies, id) <= ballots_cast(v.vote_log, id));
        }
        lemma_counted(v.tallies, id, c);
    }
    assert forall|other: i32| #[trigger] tally_sum(w.tallies, other) <= ballots_cast(log, other) by {
        assert(tally_sum(v.tallies, other) <= ballots_cast(v.vote_log, other));
    }
}

/// The store after each of `voters`, in turn, cast the same ballot in
/// election `id`.
pub open spec fn votes_applied(v: StoreView, id: i32, voters: Seq<UserDto>, choice: Option<String>) -> StoreView
    decreases voters.len(),
{
    if voters.len() == 0 {
        v
    } else {
        voted(votes_applied(v, id, voters.drop_last(), choice), id, voters.last(), choice)
    }
}

/// Ballots for one candidate by distinct eligible voters, while voting is
/// open and no nomination is pending, all succeed, and none is lost: the
/// candidate's tally and the election's ballots both grow by the number of
/// voters.
pub proof fn lemma_votes_all_counted(
    v: StoreView,
    id: i32,
    candidate: String,
    voters: Seq<UserDto>,
    now: int,
)
    requires
        v.wf(),
        v.vote_log.len() + voters.len() < u64::MAX,
        election_exists(v, id),
        voting_open(election_of(v, id), now),
        !has_pending(v.nominations, id),
        has_valid_nomination(v.nominations, id, candidate@),
        forall|k: int| 0 <= k < voters.len() ==> eligible((#[trigger] voters[k]).degree_entries@, election_of(v, id)),
        forall|k: int| 0 <= k < voters.len() ==> !logged(v.vote_log, id, (#[trigger] voters[k]).username@),
        forall|k: int, l: int|
            0 <= k < voters.len() && 0 <= l < voters.len() && k != l ==> (#[trigger] voters[k]).username@
                != (#[trigger] voters[l]).username@,
    ensures
        forall|k: int|
            0 <= k < voters.len() ==> cast_vote_outcome(
                #[trigger] votes_applied(v, id, voters.subrange(0, k), Some(candidate)),
                id,
                voters[k],
                Some(candidate),
                now,
            ) == Ok::<(), AppError>(()),
        votes_applied(v, id, voters, Some(candidate)).wf(),
        tally_of(votes_applied(v, id, voters, Some(candidate)).tallies, id, candidate@) == tally_of(
            v.tallies,
            id,
            candidate@,
        ) + voters.len(),
        ballots_cast(votes_applied(v, id, voters, Some(candidate)).vote_log, id) == ballots_cast(
            v.vote_log,
            id,
        ) + voters.len(),
    decreases voters.len(),
{
    let choice = Some(candidate);
    if voters.len() > 0 {
        let init = voters.drop_last();
        lemma_votes_all_counted(v, id, candidate, init, now);
        let w = votes_applied(v, id, init, choice);
        let last = voters.last();
        assert(w.elections == v.elections && w.nominations == v.nominations) by {
            lemma_votes_keep_elections_and_nominations(v, id, init, choice);
        }
        assert(w.vote_log.len() == v.vote_log.len() + init.len()) by {
            lemma_votes_log_grows(v, id, init, choice);
        }
        assert(!logged(w.vote_log, id, last.username@)) by {
            lemma_votes_logged_only(v, id, init, choice, last.username@);
            assert forall|k: int| 0 <= k < init.len() implies (#[trigger] init[k]).username@
                != last.username@ by {
                assert(init[k] == voters[k]);
            }
        }
        assert(init =~= voters.subrange(0, voters.len() - 1));
        assert(cast_vote_outcome(w, id, last, choice, now) == Ok::<(), AppError>(()));
        lemma_vote_step(w, id, last, choice, now);
        assert forall|k: int| 0 <= k < voters.len() implies cast_vote_outcome(
            #[trigger] votes_applied(v, id, voters.subrange(0, k), choice),
            id,
            voters[k],
            choice,
            now,
        ) == Ok::<(), AppError>(()) by {
            if k < init.len() {
                assert(voters.subrange(0, k) =~= init.subrange(0, k));
                assert(init[k] == voters[k]);
            } else {
                assert(voters.subrange(0, k) =~= init);
            }
        }
    }
}

/// Ballots leave the elections and nominations as they were.
pub proof fn lemma_votes_keep_elections_and_nominations(
    v: StoreView,
    id: i32,
    voters: Seq<UserDto>,
    choice: Option<String>,
)
    ensures
        votes_applied(v, id, voters, choice).elections == v.elections,
        votes_applied(v, id, voters, choice).nominations == v.nominations,
    decreases voters.len(),
{
    if voters.len() > 0 {
        lemma_votes_keep_elections_and_nominations(v, id, voters.drop_last(), choice);
    }
}

/// Each ballot adds one vote-log row.
pub proof fn lemma_votes_log_grows(v: StoreView, id: i32, voters: Seq<UserDto>, choice: Option<String>)
    ensures
        votes_applied(v, id, voters, choice).vote_log.len() == v.vote_log.len() + voters.len(),
    decreases voters.len(),
{
    if voters.len() > 0 {
        lemma_votes_log_grows(v, id, voters.drop_last(), choice);
    }
}

/// After the ballots of `voters`, only they (and those logged before) are
/// logged as having voted.
pub proof fn lemma_votes_logged_only(
    v: StoreView,
    id: i32,
    voters: Seq<UserDto>,
    choice: Option<String>,
    username: Seq<char>,
)
    requires
        !logged(v.vote_log, id, username),
        forall|k: int| 0 <= k < voters.len() ==> (#[trigger] voters[k]).username@ != username,
    ensures
        !logged(votes_applied(v, id, voters, choice).vote_log, id, username),
    decreases voters.len(),
{
    if voters.len() > 0 {
        let init = voters.drop_last();
        assert forall|k: int| 0 <= k < init.len() implies (#[trigger] init[k]).username@ != username by {
            assert(init[k] == voters[k]);
        }
        lemma_votes_logged_only(v, id, init, choice, username);
        let log = votes_applied(v, id, voters, choice).vote_log;
        let prev = votes_applied(v, id, init, choice).vote_log;
        assert forall|i: int| 0 <= i < log.len() implies !((#[trigger] log[i]).election == id
            && log[i].username@ == username) by {
            if i < prev.len() {
                assert(log[i] == prev[i]);
            }
        }
    }
}

/// The nomination log holds at most one row per (election, user) in every
/// well-formed store, and so in every store that the operations produce.
pub proof fn lemma_one_nomination_row(v: StoreView, id: i32, username: Seq<char>)
    requires
        v.wf(),
    ensures
        forall|i: int, j: int|
            0 <= i < v.nomination_log.len() && 0 <= j < v.nomination_log.len() && (
            #[trigger] v.nomination_log[i]).election == id && v.nomination_log[i].username@
                == username && (#[trigger] v.nomination_log[j]).election == id
                && v.nomination_log[j].username@ == username ==> i == j,
{
}

/// Once a user has nominated in an election, no later nomination by the same
/// user there succeeds, whether of themselves or of another; when the
/// election, eligibility, period and signature checks pass, it fails with
/// `DuplicateNomination`.
pub proof fn lemma_second_nomination_refused(
    v: StoreView,
    id: i32,
    user: UserDto,
    candidate: Nomination,
    signature_valid: bool,
    now: int,
    again: UserDto,
    signature_valid_again: bool,
    later: int,
)
    requires
        v.wf(),
        nomination_outcome(v, id, user, signature_valid, now) is Ok,
        again.username@ == user.username@,
    ensures
        nomination_outcome(nominated(v, id, user, candidate), id, again, signature_valid_again, later) is Err,
        eligible(again.degree_entries@, election_of(v, id)) && candidacy_open(election_of(v, id), later)
            && signature_valid_again ==> nomination_outcome(
            nominated(v, id, user, candidate),
            id,
            again,
            signature_valid_again,
            later,
        ) == Err::<(), AppError>(AppError::DuplicateNomination),
{
    let w = nominated(v, id, user, candidate);
    let last = v.nomination_log.len() as int;
    assert(w.nomination_log[last].election == id);
    assert(logged(w.nomination_log, id, again.username@));
}

/// While a nomination of an election is pending, no ballot there succeeds,
/// whatever it chooses; past the election, eligibility and period checks it
/// fails with `ElectionWithUnverifiedNomination`.
pub proof fn lemma_pending_blocks_voting(
    v: StoreView,
    id: i32,
    user: UserDto,
    choice: Option<String>,
    now: int,
)
    requires
        has_pending(v.nominations, id),
    ensures
        cast_vote_outcome(v, id, user, choice, now) is Err,
        election_exists(v, id) && eligible(user.degree_entries@, election_of(v, id)) && voting_open(
            election_of(v, id),
            now,
        ) ==> cast_vote_outcome(v, id, user, choice, now) == Err::<(), AppError>(
            AppError::ElectionWithUnverifiedNomination,
        ),
{
}

/// Running the same successful, non-empty batch twice: the second run is
/// refused with `DuplicateElection` (and, being refused, changes nothing).
pub proof fn lemma_bulk_create_twice(
    v: StoreView,
    dto: BulkCreateElectionsDto,
    catalog: Seq<String>,
    academic_year: String,
)
    requires
        v.wf(),
        bulk_create_outcome(v, dto, catalog, academic_year) is Ok,
        dto.degrees@.len() > 0,
    ensures
        bulk_create_outcome(
            StoreView {
                elections: v.elections + batch_elections(dto, academic_year, v.elections.len() as int),
                ..v
            },
            dto,
            catalog,
            academic_year,
        ) == Err::<(), AppError>(AppError::DuplicateElection),
{
    let m = v.elections.len() as int;
    let n = dto.degrees@.len() as int;
    let first = v.elections + batch_elections(dto, academic_year, m);
    let all = first + batch_elections(dto, academic_year, m + n);
    assert(all[m] == batch_election(dto, academic_year, m, 0));
    assert(all[m + n] == batch_election(dto, academic_year, m + n, 0));
    assert(same_election_key(all[m], all[m + n]));
    assert(!election_keys_unique(all));
}

/// Inserting or refreshing a nomination leaves every row that is valid or
/// invalid exactly as it was, and removes no row.
pub proof fn lemma_upsert_keeps_decisions(ns: Seq<Nomination>, n: Nomination)
    ensures
        upsert_nomination(ns, n).len() >= ns.len(),
        forall|i: int|
            0 <= i < ns.len() && (#[trigger] ns[i]).valid != Validity::Pending ==> upsert_nomination(
                ns,
                n,
            )[i] == ns[i],
{
}

/// Re-validating a user's nominations only turns pending rows valid; every
/// other row stays as it was.
pub proof fn lemma_revalidation_keeps_decisions(v: StoreView, user: UserDto, academic_year: Seq<char>)
    ensures
        revalidated(v, user, academic_year).len() == v.nominations.len(),
        forall|i: int|
            0 <= i < v.nominations.len() ==> {
                let after = #[trigger] revalidated(v, user, academic_year)[i];
                &&& after.election == v.nominations[i].election
                &&& after.username == v.nominations[i].username
                &&& after.display_name == v.nominations[i].display_name
                &&& (v.nominations[i].valid != Validity::Pending ==> after == v.nominations[i])
                &&& (after.valid == Validity::Valid || after == v.nominations[i])
            },
{
}

/// A self-nomination inside the candidacy window by an eligible user who
/// has not nominated yet succeeds, and the user's row is then valid, unless
/// an administrator had already decided that row.
pub proof fn lemma_self_nomination_valid(v: StoreView, id: i32, user: UserDto, now: int)
    requires
        v.wf(),
        election_exists(v, id),
        candidacy_open(election_of(v, id), now),
        eligible(user.degree_entries@, election_of(v, id)),
        !logged(v.nomination_log, id, user.username@),
        forall|i: int|
            0 <= i < v.nominations.len() && is_nomination_of(#[trigger] v.nominations[i], id, user.username@)
                ==> v.nominations[i].valid == Validity::Pending,
    ensures
        nomination_outcome(v, id, user, true, now) == Ok::<(), AppError>(()),
        has_valid_nomination(
            nominated(v, id, user, self_nomination(id, user)).nominations,
            id,
            user.username@,
        ),
{
    let ns = v.nominations;
    let n = self_nomination(id, user);
    let after = upsert_nomination(ns, n);
    if has_nomination(ns, id, user.username@) {
        let i = choose|i: int| 0 <= i < ns.len() && is_nomination_of(#[trigger] ns[i], id, user.username@);
        assert(after[i].valid == Validity::Valid && is_nomination_of(after[i], id, user.username@));
    } else {
        assert(after[ns.len() as int] == n);
    }
}

/// In a well-formed store, the first instant of an election's voting window
/// is open for voting.
pub proof fn lemma_voting_start_is_open(v: StoreView, id: i32)
    requires
        v.wf(),
        election_exists(v, id),
    ensures
        voting_open(election_of(v, id), election_of(v, id).voting_period_start as int),
{
    assert(windows_ordered(v.elections[id - 1]));
}

/// When an administrator validates the only pending nomination of an
/// election, no nomination there is pending any more and the candidate is a
/// valid option.
pub proof fn lemma_edit_clears_pending(ns: Seq<Nomination>, id: i32, dto: EditNominationDto)
    requires
        dto.valid == Some(true),
        has_nomination(ns, id, dto.username@),
        forall|i: int|
            0 <= i < ns.len() && (#[trigger] ns[i]).election == id && ns[i].valid == Validity::Pending
                ==> ns[i].username@ == dto.username@,
    ensures
        !has_pending(edited_nominations(ns, id, dto), id),
        has_valid_nomination(edited_nominations(ns, id, dto), id, dto.username@),
{
    let e = edited_nominations(ns, id, dto);
    let i = choose|i: int| 0 <= i < ns.len() && is_nomination_of(#[trigger] ns[i], id, dto.username@);
    assert(e[i].valid == Validity::Valid && is_nomination_of(e[i], id, dto.username@));
    assert forall|k: int| 0 <= k < e.len() && (#[trigger] e[k]).election == id implies e[k].valid
        != Validity::Pending by {
        if !is_nomination_of(ns[k], id, dto.username@) {
            assert(e[k] == ns[k]);
        }
    }
}

/// With every nomination of the election decided, an eligible voter's
/// first ballot for a valid candidate during voting succeeds and adds one
/// vote; any further ballot by the same voter is refused as a duplicate.
pub proof fn lemma_vote_once(
    v: StoreView,
    id: i32,
    voter: UserDto,
    candidate: String,
    now: int,
    again: Option<String>,
)
    requires
        v.wf(),
        v.vote_log.len() < u64::MAX,
        election_exists(v, id),
        voting_open(election_of(v, id), now),
        !has_pending(v.nominations, id),
        eligible(voter.degree_entries@, election_of(v, id)),
        !logged(v.vote_log, id, voter.username@),
        has_valid_nomination(v.nominations, id, candidate@),
    ensures
        cast_vote_outcome(v, id, voter, Some(candidate), now) == Ok::<(), AppError>(()),
        tally_of(voted(v, id, voter, Some(candidate)).tallies, id, candidate@) == tally_of(
            v.tallies,
            id,
            candidate@,
        ) + 1,
        cast_vote_outcome(voted(v, id, voter, Some(candidate)), id, voter, again, now)
            == Err::<(), AppError>(AppError::DuplicateVote),
{
    lemma_vote_step(v, id, voter, Some(candidate), now);
    let w = voted(v, id, voter, Some(candidate));
    assert(w.vote_log[v.vote_log.len() as int].election == id);
}

} // verus!
