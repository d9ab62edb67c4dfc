use vstd::prelude::*;
use vstd::seq_lib::group_to_multiset_ensures;
use vstd::utf8::encode_utf8;

use crate::election::{candidacy_open, summarises, voting_open, Election, ElectionDto};
use crate::eligibility::{
    eligible, entries_admit, nomination_eligible, nomination_entries_admit, UserDto,
};
use crate::error::AppError;
use crate::order::{bytes_le, bytes_le_exec, lemma_bytes_le_total, lemma_bytes_le_trans};
use crate::token::{token_valid, validate_person_search_result, SignedPersonSearchResultDto};

verus! {

/// Verification state of a nomination.
#[derive(Debug, Clone, Copy, PartialEq, Eq, Structural)]
pub enum Validity {
    /// Awaiting an administrator's verdict; blocks voting in its election.
    Pending,
    Valid,
    Invalid,
}

/// A claim that `username` is a candidate in election `election`.
pub struct Nomination {
    pub election: i32,
    pub username: String,
    pub display_name: String,
    pub valid: Validity,
}

/// A row of the nomination log or of the vote log: `username` has acted in
/// `election`.
pub struct ActionLog {
    pub election: i32,
    pub username: String,
}

/// Number of ballots for one candidate of one election.
pub struct ElectionVote {
    pub election: i32,
    pub candidate: String,
    pub count: u64,
}

/// A time window, in milliseconds since the epoch.
pub struct DateRangeDto {
    pub start: i64,
    pub end: i64,
}

/// One degree (and optional curricular year) to create an election for.
pub struct BulkCreateElectionsDegreesDto {
    pub degree_id: String,
    pub curricular_year: Option<i32>,
}

/// A batch of elections sharing one round and one set of windows.
pub struct BulkCreateElectionsDto {
    pub candidacy_period: Option<DateRangeDto>,
    pub voting_period: DateRangeDto,
    pub round: i32,
    pub degrees: Vec<BulkCreateElectionsDegreesDto>,
}

/// An administrator's correction of a nomination; absent fields stay as
/// they are.
pub struct EditNominationDto {
    pub username: String,
    pub display_name: Option<String>,
    pub valid: Option<bool>,
}

/// A ballot: a candidate's username, or nothing for a blank vote.
pub struct CastVoteDto {
    pub username: Option<String>,
}

/// A candidate that may be voted for.
pub struct VoteOptionDto {
    pub username: String,
    pub display_name: String,
}

/// An election awaiting verification, with its pending nominations.
pub struct ElectionWithUnverifiedNominationsDto {
    pub id: i32,
    pub degree_id: String,
    pub curricular_year: Option<i32>,
    pub round: i32,
    pub nominations: Vec<Nomination>,
}

/// Everything the engine stores. Election `k` (from 0) has id `k + 1`.
pub struct ElectionStore {
    elections: Vec<Election>,
    nominations: Vec<Nomination>,
    nomination_log: Vec<ActionLog>,
    vote_log: Vec<ActionLog>,
    tallies: Vec<ElectionVote>,
}

/// The abstract contents of an `ElectionStore`.
pub ghost struct StoreView {
    pub elections: Seq<Election>,
    pub nominations: Seq<Nomination>,
    pub nomination_log: Seq<ActionLog>,
    pub vote_log: Seq<ActionLog>,
    pub tallies: Seq<ElectionVote>,
}

impl View for ElectionStore {
    type V = StoreView;

    closed spec fn view(&self) -> StoreView {
        StoreView {
            elections: self.elections@,
            nominations: self.nominations@,
            nomination_log: self.nomination_log@,
            vote_log: self.vote_log@,
            tallies: self.tallies@,
        }
    }
}

/// The uniqueness key of an election.
pub open spec fn same_election_key(a: Election, b: Election) -> bool {
    &&& a.academic_year@ == b.academic_year@
    &&& a.degree_id@ == b.degree_id@
    &&& a.curricular_year == b.curricular_year
    &&& a.round == b.round
}

/// No two elections of `els` share a uniqueness key.
pub open spec fn election_keys_unique(els: Seq<Election>) -> bool {
    forall|i: int, j: int|
        0 <= i < els.len() && 0 <= j < els.len() && i != j ==> !same_election_key(
            #[trigger] els[i],
            #[trigger] els[j],
        )
}

/// `id` names an election of `v`.
pub open spec fn election_exists(v: StoreView, id: i32) -> bool {
    1 <= id <= v.elections.len()
}

/// The election with id `id`.
pub open spec fn election_of(v: StoreView, id: i32) -> Election {
    v.elections[id - 1]
}

/// `n` is the nomination of `username` in election `id`.
pub open spec fn is_nomination_of(n: Nomination, id: i32, username: Seq<char>) -> bool {
    n.election == id && n.username@ == username
}

/// Some nomination of `username` in election `id` exists.
pub open spec fn has_nomination(ns: Seq<Nomination>, id: i32, username: Seq<char>) -> bool {
    exists|i: int| 0 <= i < ns.len() && is_nomination_of(#[trigger] ns[i], id, username)
}

/// The display name of the nomination of `username` in election `id`.
pub open spec fn nomination_display(ns: Seq<Nomination>, id: i32, username: Seq<char>) -> Seq<char> {
    let i = choose|i: int| 0 <= i < ns.len() && is_nomination_of(#[trigger] ns[i], id, username);
    ns[i].display_name@
}

/// Some nomination in election `id` awaits verification.
pub open spec fn has_pending(ns: Seq<Nomination>, id: i32) -> bool {
    exists|i: int| 0 <= i < ns.len() && (#[trigger] ns[i]).election == id && ns[i].valid
        == Validity::Pending
}

/// `username` holds a valid nomination in election `id`.
pub open spec fn has_valid_nomination(ns: Seq<Nomination>, id: i32, username: Seq<char>) -> bool {
    exists|i: int|
        0 <= i < ns.len() && is_nomination_of(#[trigger] ns[i], id, username) && ns[i].valid
            == Validity::Valid
}

/// `username` has a row in election `id` of the log.
pub open spec fn logged(log: Seq<ActionLog>, id: i32, username: Seq<char>) -> bool {
    exists|i: int| 0 <= i < log.len() && (#[trigger] log[i]).election == id && log[i].username@
        == username
}

/// Nominations are keyed by (election, username).
pub open spec fn nominations_unique(ns: Seq<Nomination>) -> bool {
    forall|i: int, j: int|
        0 <= i < ns.len() && 0 <= j < ns.len() && i != j && (#[trigger] ns[i]).election
            == (#[trigger] ns[j]).election ==> ns[i].username@ != ns[j].username@
}

/// A log holds at most one row per (election, username).
pub open spec fn log_unique(log: Seq<ActionLog>) -> bool {
    forall|i: int, j: int|
        0 <= i < log.len() && 0 <= j < log.len() && i != j && (#[trigger] log[i]).election
            == (#[trigger] log[j]).election ==> log[i].username@ != log[j].username@
}

/// Tallies are keyed by (election, candidate).
pub open spec fn tallies_unique(ts: Seq<ElectionVote>) -> bool {
    forall|i: int, j: int|
        0 <= i < ts.len() && 0 <= j < ts.len() && i != j && (#[trigger] ts[i]).election
            == (#[trigger] ts[j]).election ==> ts[i].candidate@ != ts[j].candidate@
}

/// Number of ballots cast in election `id`.
pub open spec fn ballots_cast(log: Seq<ActionLog>, id: i32) -> nat
    decreases log.len(),
{
    if log.len() == 0 {
        0
    } else {
        ballots_cast(log.drop_last(), id) + if log.last().election == id {
            1nat
        } else {
            0nat
        }
    }
}

/// Sum of the candidate tallies of election `id`.
pub open spec fn tally_sum(ts: Seq<ElectionVote>, id: i32) -> nat
    decreases ts.len(),
{
    if ts.len() == 0 {
        0
    } else {
        tally_sum(ts.drop_last(), id) + if ts.last().election == id {
            ts.last().count as nat
        } else {
            0nat
        }
    }
}

/// Some tally row for `candidate` in election `id` exists.
pub open spec fn has_tally(ts: Seq<ElectionVote>, id: i32, candidate: Seq<char>) -> bool {
    exists|i: int| 0 <= i < ts.len() && (#[trigger] ts[i]).election == id && ts[i].candidate@
        == candidate
}

/// The votes counted for `candidate` in election `id`.
pub open spec fn tally_of(ts: Seq<ElectionVote>, id: i32, candidate: Seq<char>) -> nat {
    if has_tally(ts, id, candidate) {
        let i = choose|i: int|
            0 <= i < ts.len() && (#[trigger] ts[i]).election == id && ts[i].candidate@
                == candidate;
        ts[i].count as nat
    } else {
        0
    }
}

/// Blank ballots of election `id`: ballots cast minus candidate votes.
pub open spec fn blank_of(v: StoreView, id: i32) -> int {
    ballots_cast(v.vote_log, id) - tally_sum(v.tallies, id)
}

/// An election's windows are ordered: voting start before voting end and,
/// when there is a candidacy window, it has both bounds, in order, and ends
/// before voting starts.
pub open spec fn windows_ordered(e: Election) -> bool {
    &&& e.voting_period_start < e.voting_period_end
    &&& (e.candidacy_period_start is Some <==> e.candidacy_period_end is Some)
    &&& (e.candidacy_period_start is Some ==> e.candidacy_period_start->Some_0
        < e.candidacy_period_end->Some_0 && e.candidacy_period_end->Some_0 < e.voting_period_start)
}

impl StoreView {
    /// The store's invariant.
    pub open spec fn wf(self) -> bool {
        &&& forall|k: int| 0 <= k < self.elections.len() ==> (#[trigger] self.elections[k]).id == k + 1
        &&& forall|k: int| 0 <= k < self.elections.len() ==> windows_ordered(#[trigger] self.elections[k])
        &&& self.elections.len() < i32::MAX
        &&& election_keys_unique(self.elections)
        &&& nominations_unique(self.nominations)
        &&& log_unique(self.nomination_log)
        &&& log_unique(self.vote_log)
        &&& tallies_unique(self.tallies)
        &&& forall|id: i32| #[trigger] tally_sum(self.tallies, id) <= ballots_cast(self.vote_log, id)
    }
}

/// `degree_id` resolves in the degree catalog.
pub open spec fn degree_known(catalog: Seq<String>, degree_id: Seq<char>) -> bool {
    exists|i: int| 0 <= i < catalog.len() && (#[trigger] catalog[i])@ == degree_id
}

/// The `k`-th election of a batch, created after `base` existing elections.
pub open spec fn batch_election(
    dto: BulkCreateElectionsDto,
    academic_year: String,
    base: int,
    k: int,
) -> Election {
    Election {
        id: (base + k + 1) as i32,
        academic_year: academic_year,
        degree_id: dto.degrees@[k].degree_id,
        curricular_year: dto.degrees@[k].curricular_year,
        candidacy_period_start: match dto.candidacy_period {
            Some(r) => Some(r.start),
            None => None,
        },
        candidacy_period_end: match dto.candidacy_period {
            Some(r) => Some(r.end),
            None => None,
        },
        voting_period_start: dto.voting_period.start,
        voting_period_end: dto.voting_period.end,
        round: dto.round,
    }
}

/// The elections a batch creates after `base` existing ones.
pub open spec fn batch_elections(dto: BulkCreateElectionsDto, academic_year: String, base: int) -> Seq<
    Election,
> {
    Seq::new(dto.degrees@.len(), |k: int| batch_election(dto, academic_year, base, k))
}

/// The error, if any, that a batch's round and windows give by themselves.
pub open spec fn batch_header_error(dto: BulkCreateElectionsDto) -> Option<AppError> {
    if dto.round <= 0 {
        Some(AppError::InvalidRound)
    } else if dto.voting_period.start >= dto.voting_period.end {
        Some(AppError::InvalidDateRange)
    } else if dto.candidacy_period is Some && dto.candidacy_period->Some_0.start
        >= dto.candidacy_period->Some_0.end {
        Some(AppError::InvalidDateRange)
    } else if dto.candidacy_period is Some && dto.candidacy_period->Some_0.end
        >= dto.voting_period.start {
        Some(AppError::ElectionCandidacyAfterVoting)
    } else {
        None
    }
}

/// What bulk provisioning answers, checked in this order.
pub open spec fn bulk_create_outcome(
    v: StoreView,
    dto: BulkCreateElectionsDto,
    catalog: Seq<String>,
    academic_year: String,
) -> Result<(), AppError> {
    if batch_header_error(dto) is Some {
        Err(batch_header_error(dto)->Some_0)
    } else if exists|k: int|
        0 <= k < dto.degrees@.len() && !degree_known(catalog, (#[trigger] dto.degrees@[k]).degree_id@) {
        Err(AppError::InvalidDegree)
    } else if !election_keys_unique(
        v.elections + batch_elections(dto, academic_year, v.elections.len() as int),
    ) {
        Err(AppError::DuplicateElection)
    } else if v.elections.len() + dto.degrees@.len() >= i32::MAX {
        Err(AppError::DbError)
    } else {
        Ok(())
    }
}

/// Whether `degree_id` is in `catalog`.
fn catalog_contains(catalog: &Vec<String>, degree_id: &String) -> (r: bool)
    ensures
        r == degree_known(catalog@, degree_id@),
{
    let mut i: usize = 0;
    while i < catalog.len()
        invariant
            0 <= i <= catalog@.len(),
            forall|j: int| 0 <= j < i ==> (#[trigger] catalog@[j])@ != degree_id@,
        decreases catalog@.len() - i,
    {
        if catalog[i] == *degree_id {
            return true;
        }
        i = i + 1;
    }
    false
}

/// Inserts `n`, or, where its key exists, sets the validity of the existing
/// row only while that row is still pending; a decided verdict is kept.
pub open spec fn upsert_nomination(ns: Seq<Nomination>, n: Nomination) -> Seq<Nomination> {
    if has_nomination(ns, n.election, n.username@) {
        ns.map_values(
            |x: Nomination|
                if is_nomination_of(x, n.election, n.username@) && x.valid == Validity::Pending {
                    Nomination {
                        election: x.election,
                        username: x.username,
                        display_name: x.display_name,
                        valid: n.valid,
                    }
                } else {
                    x
                },
        )
    } else {
        ns.push(n)
    }
}

/// What a nomination by `user` in election `id` answers, checked in this
/// order; `signature_valid` is whether the candidate's token checked out.
pub open spec fn nomination_outcome(
    v: StoreView,
    id: i32,
    user: UserDto,
    signature_valid: bool,
    now: int,
) -> Result<(), AppError> {
    if !election_exists(v, id) {
        Err(AppError::UnknownElection)
    } else if !eligible(user.degree_entries@, election_of(v, id)) {
        Err(AppError::ElectionUnauthorized)
    } else if !candidacy_open(election_of(v, id), now) {
        Err(AppError::OutsideCandidacyPeriod)
    } else if !signature_valid {
        Err(AppError::InvalidPersonSignature)
    } else if logged(v.nomination_log, id, user.username@) {
        Err(AppError::DuplicateNomination)
    } else {
        Ok(())
    }
}

/// The store after `user` nominated `candidate` in election `id`.
pub open spec fn nominated(v: StoreView, id: i32, user: UserDto, candidate: Nomination) -> StoreView {
    StoreView {
        nominations: upsert_nomination(v.nominations, candidate),
        nomination_log: v.nomination_log.push(ActionLog { election: id, username: user.username }),
        ..v
    }
}

/// The nomination a user makes of themselves: valid at once.
pub open spec fn self_nomination(id: i32, user: UserDto) -> Nomination {
    Nomination {
        election: id,
        username: user.username,
        display_name: user.name,
        valid: Validity::Valid,
    }
}

/// The nomination `user` makes of the person in `candidate`: valid when it
/// is the user, else pending until an administrator decides.
pub open spec fn other_nomination(
    id: i32,
    user: UserDto,
    candidate: SignedPersonSearchResultDto,
) -> Nomination {
    Nomination {
        election: id,
        username: candidate.username,
        display_name: candidate.display_name,
        valid: if candidate.username@ == user.username@ {
            Validity::Valid
        } else {
            Validity::Pending
        },
    }
}

/// The nominations after an administrator's edit of the row of
/// (`id`, `dto.username`).
pub open spec fn edited_nominations(ns: Seq<Nomination>, id: i32, dto: EditNominationDto) -> Seq<
    Nomination,
> {
    ns.map_values(
        |x: Nomination|
            if is_nomination_of(x, id, dto.username@) {
                Nomination {
                    election: x.election,
                    username: x.username,
                    display_name: match dto.display_name {
                        Some(d) => d,
                        None => x.display_name,
                    },
                    valid: match dto.valid {
                        Some(true) => Validity::Valid,
                        Some(false) => Validity::Invalid,
                        None => x.valid,
                    },
                }
            } else {
                x
            },
    )
}

/// Whether `log` has a row for (`id`, `username`).
fn log_contains(log: &Vec<ActionLog>, id: i32, username: &String) -> (r: bool)
    ensures
        r == logged(log@, id, username@),
{
    let mut i: usize = 0;
    while i < log.len()
        invariant
            0 <= i <= log@.len(),
            forall|j: int|
                0 <= j < i ==> !((#[trigger] log@[j]).election == id && log@[j].username@
                    == username@),
        decreases log@.len() - i,
    {
        if log[i].election == id && log[i].username == *username {
            return true;
        }
        i = i + 1;
    }
    false
}

/// Position of the nomination of `username` in election `id`.
fn find_nomination(ns: &Vec<Nomination>, id: i32, username: &String) -> (r: Option<usize>)
    ensures
        r is None <==> !has_nomination(ns@, id, username@),
        r is Some ==> r->Some_0 < ns@.len() && is_nomination_of(ns@[r->Some_0 as int], id, username@),
{
    let mut i: usize = 0;
    while i < ns.len()
        invariant
            0 <= i <= ns@.len(),
            forall|j: int| 0 <= j < i ==> !is_nomination_of(#[trigger] ns@[j], id, username@),
        decreases ns@.len() - i,
    {
        if ns[i].election == id && ns[i].username == *username {
            return Some(i);
        }
        i = i + 1;
    }
    None
}

/// The tallies after one more vote for `candidate` in election `id`.
pub open spec fn counted(ts: Seq<ElectionVote>, id: i32, candidate: String) -> Seq<ElectionVote> {
    if has_tally(ts, id, candidate@) {
        ts.map_values(
            |t: ElectionVote|
                if t.election == id && t.candidate@ == candidate@ {
                    ElectionVote {
                        election: t.election,
                        candidate: t.candidate,
                        count: (t.count + 1) as u64,
                    }
                } else {
                    t
                },
        )
    } else {
        ts.push(ElectionVote { election: id, candidate: candidate, count: 1 })
    }
}

/// What a ballot by `user` in election `id` answers, checked in this order.
pub open spec fn cast_vote_outcome(
    v: StoreView,
    id: i32,
    user: UserDto,
    choice: Option<String>,
    now: int,
) -> Result<(), AppError> {
    if !election_exists(v, id) {
        Err(AppError::UnknownElection)
    } else if !eligible(user.degree_entries@, election_of(v, id)) {
        Err(AppError::ElectionUnauthorized)
    } else if !voting_open(election_of(v, id), now) {
        Err(AppError::OutsideVotingPeriod)
    } else if has_pending(v.nominations, id) {
        Err(AppError::ElectionWithUnverifiedNomination)
    } else if logged(v.vote_log, id, user.username@) {
        Err(AppError::DuplicateVote)
    } else if choice is Some && !has_valid_nomination(v.nominations, id, choice->Some_0@) {
        Err(AppError::UnknownVoteOption)
    } else {
        Ok(())
    }
}

/// The store after `user` cast a ballot in election `id`: one more vote-log
/// row and, for a non-blank ballot, one more vote for the candidate.
pub open spec fn voted(v: StoreView, id: i32, user: UserDto, choice: Option<String>) -> StoreView {
    StoreView {
        vote_log: v.vote_log.push(ActionLog { election: id, username: user.username }),
        tallies: match choice {
            Some(c) => counted(v.tallies, id, c),
            None => v.tallies,
        },
        ..v
    }
}

/// The candidates of election `id`, in the order of their nominations.
pub open spec fn vote_options(ns: Seq<Nomination>, id: i32) -> Seq<VoteOptionDto> {
    ns.filter(|n: Nomination| n.election == id && n.valid == Validity::Valid).map_values(
        |n: Nomination| VoteOptionDto { username: n.username, display_name: n.display_name },
    )
}

/// Options in order of display name (as `String` orders them).
pub open spec fn sorted_by_name(options: Seq<VoteOptionDto>) -> bool {
    forall|i: int, j: int|
        0 <= i < j < options.len() ==> bytes_le(
            encode_utf8(options[i].display_name@),
            encode_utf8(options[j].display_name@),
        )
}

/// The options in order of display name; equal names keep their order.
pub fn sort_by_display_name(options: Vec<VoteOptionDto>) -> (r: Vec<VoteOptionDto>)
    ensures
        sorted_by_name(r@),
        r@.to_multiset() == options@.to_multiset(),
{
    let ghost input = options@;
    let total = options.len();
    let mut rest = options;
    let mut out: Vec<VoteOptionDto> = Vec::new();
    let mut taken: usize = 0;
    proof {
        assert(out@ =~= input.subrange(0, 0));
        assert(rest@ =~= input.subrange(0, input.len() as int));
    }
    while rest.len() > 0
        invariant
            total == input.len(),
            0 <= taken <= input.len(),
            rest@ == input.subrange(taken as int, input.len() as int),
            sorted_by_name(out@),
            out@.to_multiset() == input.subrange(0, taken as int).to_multiset(),
        decreases rest@.len(),
    {
        let x = rest.remove(0);
        proof {
            assert(x == input[taken as int]);
        }
        let mut p: usize = 0;
        while p < out.len() && bytes_le_exec(
            out[p].display_name.as_str().as_bytes(),
            x.display_name.as_str().as_bytes(),
        )
            invariant
                0 <= p <= out@.len(),
                forall|j: int|
                    0 <= j < p ==> bytes_le(
                        encode_utf8((#[trigger] out@[j]).display_name@),
                        encode_utf8(x.display_name@),
                    ),
            decreases out@.len() - p,
        {
            p = p + 1;
        }
        let ghost before = out@;
        let ghost xn = encode_utf8(x.display_name@);
        proof {
            if p < before.len() {
                lemma_bytes_le_total(encode_utf8(before[p as int].display_name@), xn);
            }
        }
        out.insert(p, x);
        proof {
            broadcast use group_to_multiset_ensures;
            let w = out@;
            assert(w =~= before.insert(p as int, x));
            let xs = input.subrange(0, taken + 1);
            assert(xs =~= input.subrange(0, taken as int).push(input[taken as int]));
            assert forall|a: int, b: int| 0 <= a < b < w.len() implies bytes_le(
                encode_utf8(w[a].display_name@),
                encode_utf8(w[b].display_name@),
            ) by {
                if b < p {
                    assert(w[a] == before[a] && w[b] == before[b]);
                } else if b == p {
                    assert(w[a] == before[a]);
                } else if a < p {
                    assert(w[a] == before[a] && w[b] == before[b - 1]);
                } else if a == p {
                    assert(w[b] == before[b - 1]);
                    if b - 1 > p {
                        lemma_bytes_le_trans(
                            xn,
                            encode_utf8(before[p as int].display_name@),
                            encode_utf8(before[b - 1].display_name@),
                        );
                    }
                } else {
                    assert(w[a] == before[a - 1] && w[b] == before[b - 1]);
                }
            }
            assert(rest@ =~= input.subrange(taken + 1, input.len() as int));
        }
        taken = taken + 1;
    }
    proof {
        assert(input.subrange(0, taken as int) =~= input);
    }
    out
}

/// What listing the vote options of election `id` answers.
pub open spec fn vote_options_outcome(v: StoreView, id: i32, user: UserDto, now: int) -> Result<
    Seq<VoteOptionDto>,
    AppError,
> {
    if !election_exists(v, id) {
        Err(AppError::UnknownElection)
    } else if !eligible(user.degree_entries@, election_of(v, id)) {
        Err(AppError::ElectionUnauthorized)
    } else if !voting_open(election_of(v, id), now) {
        Err(AppError::OutsideVotingPeriod)
    } else if has_pending(v.nominations, id) {
        Err(AppError::ElectionWithUnverifiedNomination)
    } else {
        Ok(vote_options(v.nominations, id))
    }
}

/// `n` is a pending nomination of `user` that their enrolments now confirm:
/// its election is of `academic_year` and admitted by an enrolment flagged
/// for nominations.
pub open spec fn confirmable(v: StoreView, n: Nomination, user: UserDto, academic_year: Seq<char>) -> bool {
    &&& n.username@ == user.username@
    &&& n.valid == Validity::Pending
    &&& election_exists(v, n.election)
    &&& election_of(v, n.election).academic_year@ == academic_year
    &&& nomination_eligible(user.degree_entries@, election_of(v, n.election))
}

/// The nominations after re-validating `user`'s pending ones.
pub open spec fn revalidated(v: StoreView, user: UserDto, academic_year: Seq<char>) -> Seq<Nomination> {
    v.nominations.map_values(
        |n: Nomination|
            if confirmable(v, n, user, academic_year) {
                Nomination {
                    election: n.election,
                    username: n.username,
                    display_name: n.display_name,
                    valid: Validity::Valid,
                }
            } else {
                n
            },
    )
}

/// Position of the tally row of `candidate` in election `id`.
fn find_tally(ts: &Vec<ElectionVote>, id: i32, candidate: &String) -> (r: Option<usize>)
    ensures
        r is None <==> !has_tally(ts@, id, candidate@),
        r is Some ==> r->Some_0 < ts@.len() && ts@[r->Some_0 as int].election == id
            && ts@[r->Some_0 as int].candidate@ == candidate@,
{
    let mut i: usize = 0;
    while i < ts.len()
        invariant
            0 <= i <= ts@.len(),
            forall|j: int|
                0 <= j < i ==> !((#[trigger] ts@[j]).election == id && ts@[j].candidate@
                    == candidate@),
        decreases ts@.len() - i,
    {
        if ts[i].election == id && ts[i].candidate == *candidate {
            return Some(i);
        }
        i = i + 1;
    }
    None
}

/// Updating one tally row changes each election's sum by the difference.
pub proof fn lemma_tally_sum_update(ts: Seq<ElectionVote>, i: int, t: ElectionVote, id: i32)
    requires
        0 <= i < ts.len(),
    ensures
        tally_sum(ts.update(i, t), id) + (if ts[i].election == id {
            ts[i].count as int
        } else {
            0
        }) == tally_sum(ts, id) + (if t.election == id {
            t.count as int
        } else {
            0
        }),
    decreases ts.len(),
{
    let u = ts.update(i, t);
    if i == ts.len() - 1 {
        assert(u.drop_last() =~= ts.drop_last());
    } else {
        assert(u.drop_last() =~= ts.drop_last().update(i, t));
        lemma_tally_sum_update(ts.drop_last(), i, t, id);
    }
}

/// One row's count is at most the sum for its election.
pub proof fn lemma_tally_row_le_sum(ts: Seq<ElectionVote>, i: int)
    requires
        0 <= i < ts.len(),
    ensures
        ts[i].count <= tally_sum(ts, ts[i].election),
    decreases ts.len(),
{
    if i < ts.len() - 1 {
        lemma_tally_row_le_sum(ts.drop_last(), i);
    }
}

/// An election's ballots are at most the whole log.
pub proof fn lemma_ballots_le_len(log: Seq<ActionLog>, id: i32)
    ensures
        ballots_cast(log, id) <= log.len(),
    decreases log.len(),
{
    if log.len() > 0 {
        lemma_ballots_le_len(log.drop_last(), id);
    }
}

/// A sum over a prefix is at most the sum over a longer prefix.
pub proof fn lemma_tally_sum_prefix(ts: Seq<ElectionVote>, i: int, j: int, id: i32)
    requires
        0 <= i <= j <= ts.len(),
    ensures
        tally_sum(ts.subrange(0, i), id) <= tally_sum(ts.subrange(0, j), id),
    decreases j - i,
{
    if i < j {
        assert(ts.subrange(0, j).drop_last() =~= ts.subrange(0, j - 1));
        lemma_tally_sum_prefix(ts, i, j - 1, id);
    }
}

/// Number of pending nominations in election `id`.
pub open spec fn pending_count(ns: Seq<Nomination>, id: i32) -> nat
    decreases ns.len(),
{
    if ns.len() == 0 {
        0
    } else {
        pending_count(ns.drop_last(), id) + if ns.last().election == id && ns.last().valid
            == Validity::Pending {
            1nat
        } else {
            0nat
        }
    }
}

/// An election of `academic_year` with pending nominations.
pub open spec fn awaits_verification(v: StoreView, e: Election, academic_year: Seq<char>) -> bool {
    e.academic_year@ == academic_year && pending_count(v.nominations, e.id) > 0
}

/// For each election of `academic_year` with pending nominations, in id
/// order: its id and how many are pending.
pub open spec fn unverified_counts(v: StoreView, academic_year: Seq<char>) -> Seq<(i32, nat)> {
    v.elections.filter(|e: Election| awaits_verification(v, e, academic_year)).map_values(
        |e: Election| (e.id, pending_count(v.nominations, e.id)),
    )
}

/// The pending nominations of election `id`, in order.
pub open spec fn pending_of(ns: Seq<Nomination>, id: i32) -> Seq<Nomination> {
    ns.filter(|n: Nomination| n.election == id && n.valid == Validity::Pending)
}

proof fn lemma_pending_count_le(ns: Seq<Nomination>, id: i32)
    ensures
        pending_count(ns, id) <= ns.len(),
    decreases ns.len(),
{
    if ns.len() > 0 {
        lemma_pending_count_le(ns.drop_last(), id);
    }
}

impl ElectionStore {
    /// The invariant of the store.
    pub open spec fn wf(&self) -> bool {
        self@.wf()
    }

    /// A store with nothing in it.
    pub fn new() -> (r: ElectionStore)
        ensures
            r.wf(),
            r@.elections.len() == 0,
            r@.nominations.len() == 0,
            r@.nomination_log.len() == 0,
            r@.vote_log.len() == 0,
            r@.tallies.len() == 0,
    {
        let r = ElectionStore {
            elections: Vec::new(),
            nominations: Vec::new(),
            nomination_log: Vec::new(),
            vote_log: Vec::new(),
            tallies: Vec::new(),
        };
        proof {
            assert forall|id: i32| #[trigger] tally_sum(r@.tallies, id) <= ballots_cast(r@.vote_log, id) by {}
        }
        r
    }

    /// The election with id `election_id`.
    pub fn get_election(&self, election_id: i32) -> (r: Result<&Election, AppError>)
        requires
            self.wf(),
        ensures
            r is Ok <==> election_exists(self@, election_id),
            r is Ok ==> *r->Ok_0 == election_of(self@, election_id),
            r is Err ==> r == Err::<&Election, AppError>(AppError::UnknownElection),
    {
        if election_id >= 1 && (election_id as usize) <= self.elections.len() {
            Ok(&self.elections[(election_id - 1) as usize])
        } else {
            Err(AppError::UnknownElection)
        }
    }

    /// The stored elections, election `k` (from 0) having id `k + 1`.
    pub fn elections(&self) -> (r: &Vec<Election>)
        ensures
            r@ == self@.elections,
    {
        &self.elections
    }

    /// The stored tally rows.
    pub fn tallies(&self) -> (r: &Vec<ElectionVote>)
        ensures
            r@ == self@.tallies,
    {
        &self.tallies
    }

    /// The display name of `username`'s nomination in election
    /// `election_id`, if that nomination is valid.
    pub fn valid_nomination_name(&self, election_id: i32, username: &String) -> (r: Option<String>)
        requires
            self.wf(),
        ensures
            r is Some <==> has_valid_nomination(self@.nominations, election_id, username@),
            r is Some ==> r->Some_0@ == nomination_display(self@.nominations, election_id, username@),
    {
        match find_nomination(&self.nominations, election_id, username) {
            Some(i) => {
                let ghost ns = self@.nominations;
                proof {
                    let j = choose|j: int|
                        0 <= j < ns.len() && is_nomination_of(#[trigger] ns[j], election_id, username@);
                    if j != i {
                        assert(ns[j].election == ns[i as int].election);
                    }
                    assert forall|j: int| 0 <= j < ns.len() && is_nomination_of(#[trigger] ns[j], election_id, username@)
                        implies j == i by {
                        if j != i {
                            assert(ns[j].election == ns[i as int].election);
                        }
                    }
                }
                if self.nominations[i].valid == Validity::Valid {
                    Some(self.nominations[i].display_name.clone())
                } else {
                    None
                }
            },
            None => None,
        }
    }

    /// Number of elections stored.
    pub fn election_count(&self) -> (r: usize)
        ensures
            r == self@.elections.len(),
    {
        self.elections.len()
    }

    /// Validates a batch and creates all of its elections, or none.
    pub fn bulk_create_elections(
        &mut self,
        dto: &BulkCreateElectionsDto,
        known_degrees: &Vec<String>,
        academic_year: &String,
    ) -> (r: Result<(), AppError>)
        requires
            old(self).wf(),
        ensures
            final(self).wf(),
            r == bulk_create_outcome(old(self)@, *dto, known_degrees@, *academic_year),
            r is Err ==> final(self)@ == old(self)@,
            r is Ok ==> final(self)@ == (StoreView {
                elections: old(self)@.elections + batch_elections(
                    *dto,
                    *academic_year,
                    old(self)@.elections.len() as int,
                ),
                ..old(self)@
            }),
    {
        if dto.round <= 0 {
            return Err(AppError::InvalidRound);
        }
        if dto.voting_period.start >= dto.voting_period.end {
            return Err(AppError::InvalidDateRange);
        }
        if let Some(candidacy_period) = &dto.candidacy_period {
            if candidacy_period.start >= candidacy_period.end {
                return Err(AppError::InvalidDateRange);
            }
            if candidacy_period.end >= dto.voting_period.start {
                return Err(AppError::ElectionCandidacyAfterVoting);
            }
        }
        let n = dto.degrees.len();
        let mut k: usize = 0;
        while k < n
            invariant
                n == dto.degrees@.len(),
                0 <= k <= n,
                self@ == old(self)@,
                self.wf(),
                batch_header_error(*dto) is None,
                forall|j: int|
                    0 <= j < k ==> degree_known(known_degrees@, (#[trigger] dto.degrees@[j]).degree_id@),
            decreases n - k,
        {
            if !catalog_contains(known_degrees, &dto.degrees[k].degree_id) {
                return Err(AppError::InvalidDegree);
            }
            k = k + 1;
        }
        let ghost base = self@.elections.len() as int;
        let ghost batch = batch_elections(*dto, *academic_year, base);
        let ghost all = self@.elections + batch;
        let m = self.elections.len();
        k = 0;
        while k < n
            invariant
                n == dto.degrees@.len(),
                m == self@.elections.len(),
                0 <= k <= n,
                self@ == old(self)@,
                self.wf(),
                batch_header_error(*dto) is None,
                forall|j: int|
                    0 <= j < n ==> degree_known(known_degrees@, (#[trigger] dto.degrees@[j]).degree_id@),
                base == m,
                batch == batch_elections(*dto, *academic_year, base),
                all == self@.elections + batch,
                forall|i: int, j: int|
                    0 <= i < m + k && 0 <= j < m + k && i != j ==> !same_election_key(
                        #[trigger] all[i],
                        #[trigger] all[j],
                    ),
            decreases n - k,
        {
            let degree = &dto.degrees[k];
            let mut i: usize = 0;
            while i < m
                invariant
                    n == dto.degrees@.len(),
                    m == self@.elections.len(),
                    0 <= k < n,
                    0 <= i <= m,
                    self@ == old(self)@,
                    self.wf(),
                    batch_header_error(*dto) is None,
                    forall|j: int|
                        0 <= j < n ==> degree_known(known_degrees@, (#[trigger] dto.degrees@[j]).degree_id@),
                    all == self@.elections + batch,
                    batch == batch_elections(*dto, *academic_year, base),
                    base == m,
                    *degree == dto.degrees@[k as int],
                    forall|j: int| 0 <= j < i ==> !same_election_key(#[trigger] all[j], all[m + k]),
                decreases m - i,
            {
                let e = &self.elections[i];
                if e.academic_year == *academic_year && e.degree_id == degree.degree_id
                    && e.curricular_year == degree.curricular_year && e.round == dto.round {
                    proof {
                        assert(same_election_key(all[i as int], all[m + k]));
                    }
                    return Err(AppError::DuplicateElection);
                }
                i = i + 1;
            }
            let mut j: usize = 0;
            while j < k
                invariant
                    n == dto.degrees@.len(),
                    m == self@.elections.len(),
                    0 <= k < n,
                    0 <= j <= k,
                    self@ == old(self)@,
                    self.wf(),
                    batch_header_error(*dto) is None,
                    forall|j: int|
                        0 <= j < n ==> degree_known(known_degrees@, (#[trigger] dto.degrees@[j]).degree_id@),
                    all == self@.elections + batch,
                    batch == batch_elections(*dto, *academic_year, base),
                    base == m,
                    *degree == dto.degrees@[k as int],
                    forall|i: int| 0 <= i < m ==> !same_election_key(#[trigger] all[i], all[m + k]),
                    forall|l: int| 0 <= l < j ==> !same_election_key(#[trigger] all[m + l], all[m + k]),
                decreases k - j,
            {
                let other = &dto.degrees[j];
                if other.degree_id == degree.degree_id && other.curricular_year
                    == degree.curricular_year {
                    proof {
                        assert(same_election_key(all[m + j], all[m + k]));
                    }
                    return Err(AppError::DuplicateElection);
                }
                j = j + 1;
            }
            proof {
                assert forall|a: int, b: int|
                    0 <= a < m + k + 1 && 0 <= b < m + k + 1 && a != b implies !same_election_key(
                    #[trigger] all[a],
                    #[trigger] all[b],
                ) by {
                    if a == m + k {
                        if b < m {
                        } else {
                            assert(!same_election_key(all[b], all[m + k]));
                        }
                    } else if b == m + k {
                        if a < m {
                            assert(!same_election_key(all[a], all[m + k]));
                        } else {
                            assert(!same_election_key(all[a], all[m + k]));
                        }
                    }
                }
            }
            k = k + 1;
        }
        proof {
            assert(all.len() == m + n);
            assert(election_keys_unique(all));
            assert forall|j: int| 0 <= j < n implies windows_ordered(#[trigger] batch[j]) by {}
        }
        if n >= (i32::MAX as usize) || m >= (i32::MAX as usize) - n {
            return Err(AppError::DbError);
        }
        k = 0;
        while k < n
            invariant
                n == dto.degrees@.len(),
                m == base,
                0 <= k <= n,
                m + n < i32::MAX,
                batch == batch_elections(*dto, *academic_year, base),
                forall|j: int| 0 <= j < n ==> windows_ordered(#[trigger] batch[j]),
                self@ == (StoreView { elections: old(self)@.elections + batch.subrange(0, k as int), ..old(self)@ }),
                old(self)@.elections.len() == m,
            decreases n - k,
        {
            let degree = &dto.degrees[k];
            let election = Election {
                id: (m + k + 1) as i32,
                academic_year: academic_year.clone(),
                degree_id: degree.degree_id.clone(),
                curricular_year: degree.curricular_year,
                candidacy_period_start: match &dto.candidacy_period {
                    Some(range) => Some(range.start),
                    None => None,
                },
                candidacy_period_end: match &dto.candidacy_period {
                    Some(range) => Some(range.end),
                    None => None,
                },
                voting_period_start: dto.voting_period.start,
                voting_period_end: dto.voting_period.end,
                round: dto.round,
            };
            assert(election == batch[k as int]);
            self.elections.push(election);
            proof {
                assert(self@.elections =~= old(self)@.elections + batch.subrange(0, k + 1));
            }
            k = k + 1;
        }
        proof {
            assert(batch.subrange(0, n as int) =~= batch);
            assert(self@.elections == all);
        }
        Ok(())
    }

    /// Conditional upsert of a nomination (see `upsert_nomination`).
    fn upsert(&mut self, n: Nomination)
        requires
            old(self).wf(),
        ensures
            final(self).wf(),
            final(self)@ == (StoreView {
                nominations: upsert_nomination(old(self)@.nominations, n),
                ..old(self)@
            }),
    {
        let ghost ns = self@.nominations;
        match find_nomination(&self.nominations, n.election, &n.username) {
            Some(i) => {
                assert(has_nomination(ns, n.election, n.username@));
                let current = &self.nominations[i];
                if current.valid == Validity::Pending {
                    let updated = Nomination {
                        election: current.election,
                        username: current.username.clone(),
                        display_name: current.display_name.clone(),
                        valid: n.valid,
                    };
                    self.nominations.set(i, updated);
                }
                proof {
                    assert forall|j: int| 0 <= j < ns.len() && j != i implies !is_nomination_of(
                        #[trigger] ns[j],
                        n.election,
                        n.username@,
                    ) by {
                        assert(ns[j].election == ns[i as int].election ==> ns[j].username@
                            != ns[i as int].username@);
                    }
                    assert(self@.nominations =~= upsert_nomination(ns, n));
                }
            },
            None => {
                self.nominations.push(n);
                proof {
                    assert(self@.nominations =~= upsert_nomination(ns, n));
                }
            },
        }
    }

    /// Shared by both ways of nominating: checks, logs the nominator, and
    /// upserts the candidate's row.
    fn nominate(
        &mut self,
        election_id: i32,
        user: &UserDto,
        candidate: Nomination,
        signature_valid: bool,
        now: i64,
    ) -> (r: Result<(), AppError>)
        requires
            old(self).wf(),
            candidate.election == election_id,
        ensures
            final(self).wf(),
            r == nomination_outcome(old(self)@, election_id, *user, signature_valid, now as int),
            r is Err ==> final(self)@ == old(self)@,
            r is Ok ==> final(self)@ == nominated(old(self)@, election_id, *user, candidate),
    {
        let election = match self.get_election(election_id) {
            Ok(e) => e,
            Err(e) => {
                return Err(e);
            },
        };
        if !entries_admit(&user.degree_entries, election) {
            return Err(AppError::ElectionUnauthorized);
        }
        match crate::election::is_in_candidacy_period_at(election, now) {
            Ok(()) => {},
            Err(e) => {
                return Err(e);
            },
        }
        if !signature_valid {
            return Err(AppError::InvalidPersonSignature);
        }
        if log_contains(&self.nomination_log, election_id, &user.username) {
            return Err(AppError::DuplicateNomination);
        }
        let ghost before = self@;
        self.nomination_log.push(ActionLog { election: election_id, username: user.username.clone() });
        proof {
            let log = self@.nomination_log;
            assert forall|i: int, j: int|
                0 <= i < log.len() && 0 <= j < log.len() && i != j && (#[trigger] log[i]).election
                    == (#[trigger] log[j]).election implies log[i].username@ != log[j].username@ by {
                if i < before.nomination_log.len() && j < before.nomination_log.len() {
                } else if i < before.nomination_log.len() {
                    assert(log[i] == before.nomination_log[i]);
                } else {
                    assert(log[j] == before.nomination_log[j]);
                }
            }
        }
        self.upsert(candidate);
        Ok(())
    }

    /// `user` nominates themselves in election `election_id` at time `now`.
    pub fn self_nominate(&mut self, election_id: i32, user: &UserDto, now: i64) -> (r: Result<
        (),
        AppError,
    >)
        requires
            old(self).wf(),
        ensures
            final(self).wf(),
            r == nomination_outcome(old(self)@, election_id, *user, true, now as int),
            r is Err ==> final(self)@ == old(self)@,
            r is Ok ==> final(self)@ == nominated(
                old(self)@,
                election_id,
                *user,
                self_nomination(election_id, *user),
            ),
    {
        let candidate = Nomination {
            election: election_id,
            username: user.username.clone(),
            display_name: user.name.clone(),
            valid: Validity::Valid,
        };
        self.nominate(election_id, user, candidate, true, now)
    }

    /// `user` nominates the person of a signed search result, given whether
    /// that result's signature checked out for this election.
    pub fn record_nomination(
        &mut self,
        election_id: i32,
        user: &UserDto,
        candidate: &SignedPersonSearchResultDto,
        signature_valid: bool,
        now: i64,
    ) -> (r: Result<(), AppError>)
        requires
            old(self).wf(),
        ensures
            final(self).wf(),
            r == nomination_outcome(old(self)@, election_id, *user, signature_valid, now as int),
            r is Err ==> final(self)@ == old(self)@,
            r is Ok ==> final(self)@ == nominated(
                old(self)@,
                election_id,
                *user,
                other_nomination(election_id, *user, *candidate),
            ),
    {
        let valid = if candidate.username == user.username {
            Validity::Valid
        } else {
            Validity::Pending
        };
        let nomination = Nomination {
            election: election_id,
            username: candidate.username.clone(),
            display_name: candidate.display_name.clone(),
            valid,
        };
        self.nominate(election_id, user, nomination, signature_valid, now)
    }

    /// `user` nominates the person of a signed search result; the signature
    /// is checked against `election_id` itself, so a token signed for another
    /// election is refused.
    pub fn nominate_others(
        &mut self,
        election_id: i32,
        user: &UserDto,
        candidate: &SignedPersonSearchResultDto,
        signing_key: &[u8],
        now: i64,
    ) -> (r: Result<(), AppError>)
        requires
            old(self).wf(),
        ensures
            final(self).wf(),
            r == nomination_outcome(
                old(self)@,
                election_id,
                *user,
                token_valid(
                    signing_key@,
                    election_id,
                    candidate.username@,
                    candidate.display_name@,
                    candidate.signature@,
                ),
                now as int,
            ),
            r is Err ==> final(self)@ == old(self)@,
            r is Ok ==> final(self)@ == nominated(
                old(self)@,
                election_id,
                *user,
                other_nomination(election_id, *user, *candidate),
            ),
    {
        let signature_valid = validate_person_search_result(election_id, candidate, signing_key).is_ok();
        self.record_nomination(election_id, user, candidate, signature_valid, now)
    }

    /// An administrator changes the display name and/or the validity of an
    /// existing nomination.
    pub fn edit_nomination(&mut self, election_id: i32, dto: &EditNominationDto) -> (r: Result<
        (),
        AppError,
    >)
        requires
            old(self).wf(),
        ensures
            final(self).wf(),
            r is Ok <==> has_nomination(old(self)@.nominations, election_id, dto.username@),
            r is Err ==> r == Err::<(), AppError>(AppError::UnknownNomination) && final(self)@
                == old(self)@,
            r is Ok ==> final(self)@ == (StoreView {
                nominations: edited_nominations(old(self)@.nominations, election_id, *dto),
                ..old(self)@
            }),
    {
        let ghost ns = self@.nominations;
        match find_nomination(&self.nominations, election_id, &dto.username) {
            None => Err(AppError::UnknownNomination),
            Some(i) => {
                let current = &self.nominations[i];
                let display_name = match &dto.display_name {
                    Some(d) => d.clone(),
                    None => current.display_name.clone(),
                };
                let valid = match dto.valid {
                    Some(true) => Validity::Valid,
                    Some(false) => Validity::Invalid,
                    None => current.valid,
                };
                let updated = Nomination {
                    election: current.election,
                    username: current.username.clone(),
                    display_name,
                    valid,
                };
                self.nominations.set(i, updated);
                proof {
                    assert forall|j: int| 0 <= j < ns.len() && j != i implies !is_nomination_of(
                        #[trigger] ns[j],
                        election_id,
                        dto.username@,
                    ) by {
                        assert(ns[j].election == ns[i as int].election ==> ns[j].username@
                            != ns[i as int].username@);
                    }
                    assert(self@.nominations =~= edited_nominations(ns, election_id, *dto));
                }
                Ok(())
            },
        }
    }

    /// `user` casts a ballot in election `election_id` at time `now`: the
    /// vote-log row and the candidate's vote are recorded together, or
    /// nothing is.
    pub fn cast_vote(&mut self, election_id: i32, user: &UserDto, vote: &CastVoteDto, now: i64) -> (r:
        Result<(), AppError>)
        requires
            old(self).wf(),
        ensures
            final(self).wf(),
            r == cast_vote_outcome(old(self)@, election_id, *user, vote.username, now as int),
            r is Err ==> final(self)@ == old(self)@,
            r is Ok ==> final(self)@ == voted(old(self)@, election_id, *user, vote.username),
    {
        let election = match self.get_election(election_id) {
            Ok(e) => e,
            Err(e) => {
                return Err(e);
            },
        };
        if !entries_admit(&user.degree_entries, election) {
            return Err(AppError::ElectionUnauthorized);
        }
        match crate::election::is_in_voting_period_at(election, now) {
            Ok(()) => {},
            Err(e) => {
                return Err(e);
            },
        }
        if self.has_pending_nomination(election_id) {
            return Err(AppError::ElectionWithUnverifiedNomination);
        }
        if log_contains(&self.vote_log, election_id, &user.username) {
            return Err(AppError::DuplicateVote);
        }
        if let Some(candidate) = &vote.username {
            match find_nomination(&self.nominations, election_id, candidate) {
                Some(i) => {
                    if self.nominations[i].valid != Validity::Valid {
                        proof {
                            let ns = self@.nominations;
                            assert forall|j: int|
                                0 <= j < ns.len() && is_nomination_of(
                                    #[trigger] ns[j],
                                    election_id,
                                    candidate@,
                                ) implies ns[j].valid != Validity::Valid by {
                                if j != i {
                                    assert(ns[j].election == ns[i as int].election);
                                }
                            }
                        }
                        return Err(AppError::UnknownVoteOption);
                    }
                },
                None => {
                    return Err(AppError::UnknownVoteOption);
                },
            }
        }
        let ghost before = self@;
        self.vote_log.push(ActionLog { election: election_id, username: user.username.clone() });
        let log_len = self.vote_log.len();
        proof {
            let log = self@.vote_log;
            assert(log.drop_last() =~= before.vote_log);
            assert forall|i: int, j: int|
                0 <= i < log.len() && 0 <= j < log.len() && i != j && (#[trigger] log[i]).election
                    == (#[trigger] log[j]).election implies log[i].username@ != log[j].username@ by {
                if i < before.vote_log.len() && j < before.vote_log.len() {
                } else if i < before.vote_log.len() {
                    assert(log[i] == before.vote_log[i]);
                } else {
                    assert(log[j] == before.vote_log[j]);
                }
            }
            assert forall|id: i32| #[trigger] ballots_cast(log, id) == ballots_cast(before.vote_log, id)
                + if id == election_id {
                1nat
            } else {
                0nat
            } by {}
        }
        if let Some(candidate) = &vote.username {
            let ghost ts = self@.tallies;
            let found = find_tally(&self.tallies, election_id, candidate);
            match found {
                Some(i) => {
                    let current = &self.tallies[i];
                    proof {
                        lemma_tally_row_le_sum(ts, i as int);
                        lemma_ballots_le_len(before.vote_log, election_id);
                        assert(tally_sum(ts, election_id) <= ballots_cast(before.vote_log, election_id));
                    }
                    let updated = ElectionVote {
                        election: current.election,
                        candidate: current.candidate.clone(),
                        count: current.count + 1,
                    };
                    self.tallies.set(i, updated);
                    proof {
                        assert forall|j: int| 0 <= j < ts.len() && j != i implies !((#[trigger] ts[j]).election
                            == election_id && ts[j].candidate@ == candidate@) by {
                            assert(ts[j].election == ts[i as int].election ==> ts[j].candidate@
                                != ts[i as int].candidate@);
                        }
                        assert(has_tally(ts, election_id, candidate@));
                        assert(self@.tallies =~= counted(ts, election_id, *candidate));
                        assert forall|id: i32| #[trigger] tally_sum(self@.tallies, id) <= ballots_cast(
                            self@.vote_log,
                            id,
                        ) by {
                            lemma_tally_sum_update(ts, i as int, updated, id);
                            assert(tally_sum(ts, id) <= ballots_cast(before.vote_log, id));
                        }
                    }
                },
                None => {
                    self.tallies.push(ElectionVote { election: election_id, candidate: candidate.clone(), count: 1 });
                    proof {
                        assert(!has_tally(ts, election_id, candidate@));
                        assert(self@.tallies =~= counted(ts, election_id, *candidate));
                        assert(self@.tallies.drop_last() =~= ts);
                        assert forall|id: i32| #[trigger] tally_sum(self@.tallies, id) <= ballots_cast(
                            self@.vote_log,
                            id,
                        ) by {
                            assert(tally_sum(ts, id) <= ballots_cast(before.vote_log, id));
                        }
                    }
                },
            }
        }
        Ok(())
    }

    /// Whether some nomination of election `election_id` is pending.
    pub fn has_pending_nomination(&self, election_id: i32) -> (r: bool)
        ensures
            r == has_pending(self@.nominations, election_id),
    {
        let mut i: usize = 0;
        while i < self.nominations.len()
            invariant
                0 <= i <= self@.nominations.len(),
                forall|j: int|
                    0 <= j < i ==> !((#[trigger] self@.nominations[j]).election == election_id
                        && self@.nominations[j].valid == Validity::Pending),
            decreases self@.nominations.len() - i,
        {
            if self.nominations[i].election == election_id && self.nominations[i].valid
                == Validity::Pending {
                return true;
            }
            i = i + 1;
        }
        false
    }

    /// The candidates a ballot may name in election `election_id`, in order
    /// of display name; none are offered while a nomination awaits
    /// verification.
    pub fn get_vote_options(&self, election_id: i32, user: &UserDto, now: i64) -> (r: Result<
        Vec<VoteOptionDto>,
        AppError,
    >)
        requires
            self.wf(),
        ensures
            match vote_options_outcome(self@, election_id, *user, now as int) {
                Ok(options) => r is Ok && sorted_by_name(r->Ok_0@) && r->Ok_0@.to_multiset()
                    == options.to_multiset(),
                Err(e) => r == Err::<Vec<VoteOptionDto>, AppError>(e),
            },
    {
        let election = match self.get_election(election_id) {
            Ok(e) => e,
            Err(e) => {
                return Err(e);
            },
        };
        if !entries_admit(&user.degree_entries, election) {
            return Err(AppError::ElectionUnauthorized);
        }
        match crate::election::is_in_voting_period_at(election, now) {
            Ok(()) => {},
            Err(e) => {
                return Err(e);
            },
        }
        if self.has_pending_nomination(election_id) {
            return Err(AppError::ElectionWithUnverifiedNomination);
        }
        let ghost ns = self@.nominations;
        let ghost keep = |n: Nomination| n.election == election_id && n.valid == Validity::Valid;
        let ghost to_option = |n: Nomination|
            VoteOptionDto { username: n.username, display_name: n.display_name };
        let mut out: Vec<VoteOptionDto> = Vec::new();
        let mut i: usize = 0;
        while i < self.nominations.len()
            invariant
                0 <= i <= ns.len(),
                ns == self@.nominations,
                keep == (|n: Nomination| n.election == election_id && n.valid == Validity::Valid),
                to_option == (|n: Nomination|
                    VoteOptionDto { username: n.username, display_name: n.display_name }),
                out@ == ns.subrange(0, i as int).filter(keep).map_values(to_option),
            decreases ns.len() - i,
        {
            let ghost prefix = ns.subrange(0, i + 1);
            let n = &self.nominations[i];
            if n.election == election_id && n.valid == Validity::Valid {
                out.push(VoteOptionDto { username: n.username.clone(), display_name: n.display_name.clone() });
            }
            proof {
                assert(prefix.filter(keep) == if keep(prefix.last()) {
                    prefix.drop_last().filter(keep).push(prefix.last())
                } else {
                    prefix.drop_last().filter(keep)
                }) by {
                    reveal(Seq::filter);
                }
                assert(prefix.drop_last() =~= ns.subrange(0, i as int));
                assert(out@ =~= prefix.filter(keep).map_values(to_option));
            }
            i = i + 1;
        }
        proof {
            assert(ns.subrange(0, ns.len() as int) =~= ns);
        }
        Ok(sort_by_display_name(out))
    }

    /// Whether `username` has nominated someone in election `election_id`.
    pub fn has_nominated(&self, election_id: i32, username: &String) -> (r: bool)
        ensures
            r == logged(self@.nomination_log, election_id, username@),
    {
        log_contains(&self.nomination_log, election_id, username)
    }

    /// Whether `username` has voted in election `election_id`.
    pub fn has_voted(&self, election_id: i32, username: &String) -> (r: bool)
        ensures
            r == logged(self@.vote_log, election_id, username@),
    {
        log_contains(&self.vote_log, election_id, username)
    }

    /// Validity of the nomination of `username` in election `election_id`.
    pub fn nomination_validity(&self, election_id: i32, username: &String) -> (r: Option<Validity>)
        requires
            self.wf(),
        ensures
            r is None <==> !has_nomination(self@.nominations, election_id, username@),
            r is Some ==> exists|i: int|
                0 <= i < self@.nominations.len() && is_nomination_of(
                    #[trigger] self@.nominations[i],
                    election_id,
                    username@,
                ) && self@.nominations[i].valid == r->Some_0,
    {
        match find_nomination(&self.nominations, election_id, username) {
            Some(i) => Some(self.nominations[i].valid),
            None => None,
        }
    }

    /// Votes counted for `candidate` in election `election_id`.
    pub fn tally(&self, election_id: i32, candidate: &String) -> (r: u64)
        requires
            self.wf(),
        ensures
            r == tally_of(self@.tallies, election_id, candidate@),
    {
        match find_tally(&self.tallies, election_id, candidate) {
            Some(i) => {
                proof {
                    let ts = self@.tallies;
                    let j = choose|j: int|
                        0 <= j < ts.len() && (#[trigger] ts[j]).election == election_id
                            && ts[j].candidate@ == candidate@;
                    if j != i {
                        assert(ts[j].election == ts[i as int].election);
                    }
                }
                self.tallies[i].count
            },
            None => 0,
        }
    }

    /// Ballots cast in election `election_id`, blank ones included.
    pub fn total_votes(&self, election_id: i32) -> (r: u64)
        ensures
            r == ballots_cast(self@.vote_log, election_id),
    {
        let ghost log = self@.vote_log;
        let n = self.vote_log.len();
        let mut total: u64 = 0;
        let mut i: usize = 0;
        while i < n
            invariant
                0 <= i <= n,
                n == log.len(),
                n <= usize::MAX,
                log == self@.vote_log,
                total == ballots_cast(log.subrange(0, i as int), election_id),
            decreases n - i,
        {
            proof {
                assert(log.subrange(0, i + 1).drop_last() =~= log.subrange(0, i as int));
                lemma_ballots_le_len(log.subrange(0, i as int), election_id);
            }
            if self.vote_log[i].election == election_id {
                total = total + 1;
            }
            i = i + 1;
        }
        proof {
            assert(log.subrange(0, n as int) =~= log);
        }
        total
    }

    /// Candidate votes of election `election_id`, summed.
    pub fn candidate_votes(&self, election_id: i32) -> (r: u64)
        requires
            self.wf(),
        ensures
            r == tally_sum(self@.tallies, election_id),
    {
        let ghost ts = self@.tallies;
        let n = self.tallies.len();
        let _ = self.vote_log.len();
        let mut sum: u64 = 0;
        let mut i: usize = 0;
        proof {
            lemma_ballots_le_len(self@.vote_log, election_id);
            assert(ts.subrange(0, n as int) =~= ts);
        }
        while i < n
            invariant
                0 <= i <= n,
                n == ts.len(),
                ts == self@.tallies,
                tally_sum(ts, election_id) <= u64::MAX,
                sum == tally_sum(ts.subrange(0, i as int), election_id),
            decreases n - i,
        {
            proof {
                assert(ts.subrange(0, i + 1).drop_last() =~= ts.subrange(0, i as int));
                lemma_tally_sum_prefix(ts, i + 1, n as int, election_id);
                assert(ts.subrange(0, n as int) =~= ts);
            }
            if self.tallies[i].election == election_id {
                sum = sum + self.tallies[i].count;
            }
            i = i + 1;
        }
        proof {
            assert(ts.subrange(0, n as int) =~= ts);
        }
        sum
    }

    /// Blank ballots of election `election_id`: ballots cast minus the votes
    /// counted for candidates.
    pub fn blank_votes(&self, election_id: i32) -> (r: u64)
        requires
            self.wf(),
        ensures
            r == blank_of(self@, election_id),
    {
        let total = self.total_votes(election_id);
        let counted = self.candidate_votes(election_id);
        total - counted
    }

    /// When `user`'s enrolments are refreshed, their own pending nominations
    /// in elections of `academic_year` that an enrolment flagged for
    /// nominations admits become valid.
    pub fn validate_nominations_of_user(&mut self, user: &UserDto, academic_year: &String)
        requires
            old(self).wf(),
        ensures
            final(self).wf(),
            final(self)@ == (StoreView {
                nominations: revalidated(old(self)@, *user, academic_year@),
                ..old(self)@
            }),
    {
        let ghost v = self@;
        let n = self.nominations.len();
        let mut i: usize = 0;
        while i < n
            invariant
                0 <= i <= n,
                n == v.nominations.len(),
                v.wf(),
                self@ == (StoreView { nominations: self@.nominations, ..v }),
                self@.nominations.len() == n,
                forall|j: int| 0 <= j < i ==> #[trigger] self@.nominations[j] == revalidated(v, *user, academic_year@)[j],
                forall|j: int| i <= j < n ==> #[trigger] self@.nominations[j] == v.nominations[j],
            decreases n - i,
        {
            let nomination = &self.nominations[i];
            let mut confirm = false;
            if nomination.valid == Validity::Pending && nomination.username == user.username {
                match self.get_election(nomination.election) {
                    Ok(election) => {
                        if election.academic_year == *academic_year && nomination_entries_admit(
                            &user.degree_entries,
                            election,
                        ) {
                            confirm = true;
                        }
                    },
                    Err(_) => {},
                }
            }
            if confirm {
                let updated = Nomination {
                    election: nomination.election,
                    username: nomination.username.clone(),
                    display_name: nomination.display_name.clone(),
                    valid: Validity::Valid,
                };
                self.nominations.set(i, updated);
            }
            i = i + 1;
        }
        proof {
            assert(self@.nominations =~= revalidated(v, *user, academic_year@));
            let ns = self@.nominations;
            assert forall|a: int, b: int|
                0 <= a < ns.len() && 0 <= b < ns.len() && a != b && (#[trigger] ns[a]).election
                    == (#[trigger] ns[b]).election implies ns[a].username@ != ns[b].username@ by {
                assert(ns[a].election == v.nominations[a].election);
                assert(ns[b].election == v.nominations[b].election);
            }
        }
    }

    /// Number of pending nominations in election `election_id`.
    pub fn count_pending(&self, election_id: i32) -> (r: u64)
        ensures
            r == pending_count(self@.nominations, election_id),
    {
        let ghost ns = self@.nominations;
        let n = self.nominations.len();
        let mut count: u64 = 0;
        let mut i: usize = 0;
        while i < n
            invariant
                0 <= i <= n,
                n == ns.len(),
                ns == self@.nominations,
                count == pending_count(ns.subrange(0, i as int), election_id),
            decreases n - i,
        {
            proof {
                assert(ns.subrange(0, i + 1).drop_last() =~= ns.subrange(0, i as int));
                lemma_pending_count_le(ns.subrange(0, i as int), election_id);
            }
            if self.nominations[i].election == election_id && self.nominations[i].valid
                == Validity::Pending {
                count = count + 1;
            }
            i = i + 1;
        }
        proof {
            assert(ns.subrange(0, n as int) =~= ns);
        }
        count
    }

    /// For each election of `academic_year` with pending nominations, in id
    /// order: its id and how many are pending.
    pub fn get_unverified_nominations_count(&self, academic_year: &String) -> (r: Vec<(i32, u64)>)
        ensures
            r@.len() == unverified_counts(self@, academic_year@).len(),
            forall|k: int|
                0 <= k < r@.len() ==> (#[trigger] r@[k]).0 == unverified_counts(self@, academic_year@)[k].0
                    && r@[k].1 == unverified_counts(self@, academic_year@)[k].1,
    {
        let ghost v = self@;
        let mut out: Vec<(i32, u64)> = Vec::new();
        let mut k: usize = 0;
        proof {
            assert(v.elections.subrange(0, 0).filter(|e: Election| awaits_verification(v, e, academic_year@))
                =~= Seq::<Election>::empty()) by {
                reveal(Seq::filter);
            }
        }
        while k < self.elections.len()
            invariant
                0 <= k <= v.elections.len(),
                v == self@,
                out@.len() == v.elections.subrange(0, k as int).filter(
                    |e: Election| awaits_verification(v, e, academic_year@),
                ).len(),
                forall|j: int|
                    0 <= j < out@.len() ==> (#[trigger] out@[j]).0 == v.elections.subrange(0, k as int).filter(
                        |e: Election| awaits_verification(v, e, academic_year@),
                    )[j].id && out@[j].1 == pending_count(
                        v.nominations,
                        v.elections.subrange(0, k as int).filter(
                            |e: Election| awaits_verification(v, e, academic_year@),
                        )[j].id,
                    ),
            decreases v.elections.len() - k,
        {
            let e = &self.elections[k];
            let ghost prefix = v.elections.subrange(0, k + 1);
            let ghost before = v.elections.subrange(0, k as int).filter(
                |e: Election| awaits_verification(v, e, academic_year@),
            );
            proof {
                assert(prefix.drop_last() =~= v.elections.subrange(0, k as int));
                assert(prefix.filter(|e: Election| awaits_verification(v, e, academic_year@)) == if awaits_verification(
                    v,
                    prefix.last(),
                    academic_year@,
                ) {
                    before.push(prefix.last())
                } else {
                    before
                }) by {
                    reveal(Seq::filter);
                }
            }
            if e.academic_year == *academic_year {
                let pending = self.count_pending(e.id);
                if pending > 0 {
                    out.push((e.id, pending));
                }
            }
            k = k + 1;
        }
        proof {
            assert(v.elections.subrange(0, v.elections.len() as int) =~= v.elections);
        }
        out
    }

    /// The pending nominations of election `election_id`, in order.
    pub fn pending_nominations(&self, election_id: i32) -> (r: Vec<Nomination>)
        ensures
            r@ == pending_of(self@.nominations, election_id),
    {
        let ghost ns = self@.nominations;
        let mut out: Vec<Nomination> = Vec::new();
        let mut i: usize = 0;
        proof {
            assert(pending_of(ns.subrange(0, 0), election_id) =~= Seq::<Nomination>::empty()) by {
                reveal(Seq::filter);
            }
        }
        while i < self.nominations.len()
            invariant
                0 <= i <= ns.len(),
                ns == self@.nominations,
                out@ == pending_of(ns.subrange(0, i as int), election_id),
            decreases ns.len() - i,
        {
            let n = &self.nominations[i];
            let ghost prefix = ns.subrange(0, i + 1);
            if n.election == election_id && n.valid == Validity::Pending {
                out.push(
                    Nomination {
                        election: n.election,
                        username: n.username.clone(),
                        display_name: n.display_name.clone(),
                        valid: n.valid,
                    },
                );
            }
            proof {
                assert(prefix.drop_last() =~= ns.subrange(0, i as int));
                assert(pending_of(prefix, election_id) == if prefix.last().election == election_id
                    && prefix.last().valid == Validity::Pending {
                    pending_of(prefix.drop_last(), election_id).push(prefix.last())
                } else {
                    pending_of(prefix.drop_last(), election_id)
                }) by {
                    reveal(Seq::filter);
                }
            }
            i = i + 1;
        }
        proof {
            assert(ns.subrange(0, ns.len() as int) =~= ns);
        }
        out
    }

    /// The elections `user` may see, in id order, each with its phase at
    /// `now` and whether the user has nominated and voted in it.
    pub fn get_user_elections(&self, user: &UserDto, now: i64) -> (r: Vec<ElectionDto>)
        requires
            self.wf(),
        ensures
            r@.len() == self@.elections.filter(|e: Election| eligible(user.degree_entries@, e)).len(),
            forall|i: int|
                0 <= i < r@.len() ==> {
                    let e = self@.elections.filter(|e: Election| eligible(user.degree_entries@, e))[i];
                    &&& summarises(#[trigger] r@[i], e, now as int)
                    &&& r@[i].has_nominated == Some(logged(self@.nomination_log, e.id, user.username@))
                    &&& r@[i].has_voted == Some(logged(self@.vote_log, e.id, user.username@))
                },
    {
        let visible = crate::eligibility::visible_elections(user, &self.elections);
        let mut out: Vec<ElectionDto> = Vec::new();
        let mut i: usize = 0;
        while i < visible.len()
            invariant
                0 <= i <= visible@.len(),
                visible@ == self@.elections.filter(|e: Election| eligible(user.degree_entries@, e)),
                out@.len() == i,
                forall|j: int|
                    0 <= j < i ==> {
                        let e = visible@[j];
                        &&& summarises(#[trigger] out@[j], e, now as int)
                        &&& out@[j].has_nominated == Some(logged(self@.nomination_log, e.id, user.username@))
                        &&& out@[j].has_voted == Some(logged(self@.vote_log, e.id, user.username@))
                    },
            decreases visible@.len() - i,
        {
            let e = &visible[i];
            let nominated = self.has_nominated(e.id, &user.username);
            let voted = self.has_voted(e.id, &user.username);
            out.push(ElectionDto::from_entity_for_user_at(e, now, nominated, voted));
            i = i + 1;
        }
        out
    }

    /// Election `election_id` as shown to `user`, who must be eligible for
    /// it.
    pub fn get_election_for_user(&self, election_id: i32, user: &UserDto, now: i64) -> (r: Result<
        ElectionDto,
        AppError,
    >)
        requires
            self.wf(),
        ensures
            !election_exists(self@, election_id) ==> r == Err::<ElectionDto, AppError>(
                AppError::UnknownElection,
            ),
            election_exists(self@, election_id) && !eligible(
                user.degree_entries@,
                election_of(self@, election_id),
            ) ==> r == Err::<ElectionDto, AppError>(AppError::ElectionUnauthorized),
            r is Ok <==> election_exists(self@, election_id) && eligible(
                user.degree_entries@,
                election_of(self@, election_id),
            ),
            r is Ok ==> {
                let d = r->Ok_0;
                &&& summarises(d, election_of(self@, election_id), now as int)
                &&& d.has_nominated == Some(logged(self@.nomination_log, election_id, user.username@))
                &&& d.has_voted == Some(logged(self@.vote_log, election_id, user.username@))
            },
    {
        let election = match self.get_election(election_id) {
            Ok(e) => e,
            Err(e) => {
                return Err(e);
            },
        };
        if !entries_admit(&user.degree_entries, election) {
            return Err(AppError::ElectionUnauthorized);
        }
        let nominated = self.has_nominated(election_id, &user.username);
        let voted = self.has_voted(election_id, &user.username);
        Ok(ElectionDto::from_entity_for_user_at(election, now, nominated, voted))
    }

    /// For each election of `academic_year` with pending nominations, in id
    /// order: the election and its pending nominations.
    pub fn get_unverified_nominations(&self, academic_year: &String) -> (r: Vec<
        ElectionWithUnverifiedNominationsDto,
    >)
        requires
            self.wf(),
        ensures
            r@.len() == self@.elections.filter(
                |e: Election| awaits_verification(self@, e, academic_year@),
            ).len(),
            forall|k: int|
                0 <= k < r@.len() ==> {
                    let e = self@.elections.filter(
                        |e: Election| awaits_verification(self@, e, academic_year@),
                    )[k];
                    &&& (#[trigger] r@[k]).id == e.id
                    &&& r@[k].degree_id == e.degree_id
                    &&& r@[k].curricular_year == e.curricular_year
                    &&& r@[k].round == e.round
                    &&& r@[k].nominations@ == pending_of(self@.nominations, e.id)
                },
    {
        let ghost v = self@;
        let mut out: Vec<ElectionWithUnverifiedNominationsDto> = Vec::new();
        let mut k: usize = 0;
        proof {
            assert(v.elections.subrange(0, 0).filter(|e: Election| awaits_verification(v, e, academic_year@))
                =~= Seq::<Election>::empty()) by {
                reveal(Seq::filter);
            }
        }
        while k < self.elections.len()
            invariant
                0 <= k <= v.elections.len(),
                v == self@,
                out@.len() == v.elections.subrange(0, k as int).filter(
                    |e: Election| awaits_verification(v, e, academic_year@),
                ).len(),
                forall|j: int|
                    0 <= j < out@.len() ==> {
                        let e = v.elections.subrange(0, k as int).filter(
                            |e: Election| awaits_verification(v, e, academic_year@),
                        )[j];
                        &&& (#[trigger] out@[j]).id == e.id
                        &&& out@[j].degree_id == e.degree_id
                        &&& out@[j].curricular_year == e.curricular_year
                        &&& out@[j].round == e.round
                        &&& out@[j].nominations@ == pending_of(v.nominations, e.id)
                    },
            decreases v.elections.len() - k,
        {
            let e = &self.elections[k];
            let ghost prefix = v.elections.subrange(0, k + 1);
            let ghost before = v.elections.subrange(0, k as int).filter(
                |e: Election| awaits_verification(v, e, academic_year@),
            );
            proof {
                assert(prefix.drop_last() =~= v.elections.subrange(0, k as int));
                assert(prefix.filter(|e: Election| awaits_verification(v, e, academic_year@)) == if awaits_verification(
                    v,
                    prefix.last(),
                    academic_year@,
                ) {
                    before.push(prefix.last())
                } else {
                    before
                }) by {
                    reveal(Seq::filter);
                }
            }
            if e.academic_year == *academic_year && self.count_pending(e.id) > 0 {
                out.push(
                    ElectionWithUnverifiedNominationsDto {
                        id: e.id,
                        degree_id: e.degree_id.clone(),
                        curricular_year: e.curricular_year,
                        round: e.round,
                        nominations: self.pending_nominations(e.id),
                    },
                );
            }
            k = k + 1;
        }
        proof {
            assert(v.elections.subrange(0, v.elections.len() as int) =~= v.elections);
        }
        out
    }

    /// The elections of `degree_id` in `academic_year`, in id order, each
    /// summarised at `now`.
    pub fn get_degree_elections(&self, degree_id: &String, academic_year: &String, now: i64) -> (r:
        Vec<ElectionDto>)
        ensures
            r@.len() == self@.elections.filter(
                |e: Election| e.degree_id@ == degree_id@ && e.academic_year@ == academic_year@,
            ).len(),
            forall|i: int|
                0 <= i < r@.len() ==> {
                    let e = self@.elections.filter(
                        |e: Election| e.degree_id@ == degree_id@ && e.academic_year@ == academic_year@,
                    )[i];
                    &&& summarises(#[trigger] r@[i], e, now as int)
                },
    {
        let ghost v = self@;
        let mut out: Vec<ElectionDto> = Vec::new();
        let mut k: usize = 0;
        proof {
            assert(v.elections.subrange(0, 0).filter(
                |e: Election| e.degree_id@ == degree_id@ && e.academic_year@ == academic_year@,
            ) =~= Seq::<Election>::empty()) by {
                reveal(Seq::filter);
            }
        }
        while k < self.elections.len()
            invariant
                0 <= k <= v.elections.len(),
                v == self@,
                out@.len() == v.elections.subrange(0, k as int).filter(
                    |e: Election| e.degree_id@ == degree_id@ && e.academic_year@ == academic_year@,
                ).len(),
                forall|j: int|
                    0 <= j < out@.len() ==> {
                        let e = v.elections.subrange(0, k as int).filter(
                            |e: Election| e.degree_id@ == degree_id@ && e.academic_year@ == academic_year@,
                        )[j];
                        &&& summarises(#[trigger] out@[j], e, now as int)
                    },
            decreases v.elections.len() - k,
        {
            let e = &self.elections[k];
            let ghost prefix = v.elections.subrange(0, k + 1);
            let ghost before = v.elections.subrange(0, k as int).filter(
                |e: Election| e.degree_id@ == degree_id@ && e.academic_year@ == academic_year@,
            );
            proof {
                assert(prefix.drop_last() =~= v.elections.subrange(0, k as int));
                assert(prefix.filter(
                    |e: Election| e.degree_id@ == degree_id@ && e.academic_year@ == academic_year@,
                ) == if prefix.last().degree_id@ == degree_id@ && prefix.last().academic_year@
                    == academic_year@ {
                    before.push(prefix.last())
                } else {
                    before
                }) by {
                    reveal(Seq::filter);
                }
            }
            if e.degree_id == *degree_id && e.academic_year == *academic_year {
                out.push(ElectionDto::from_entity_at(e, now));
            }
            k = k + 1;
        }
        proof {
            assert(v.elections.subrange(0, v.elections.len() as int) =~= v.elections);
        }
        out
    }
}

} // verus!
