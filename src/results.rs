use vstd::prelude::*;
use vstd::seq_lib::group_to_multiset_ensures;
use vstd::utf8::encode_utf8;

use crate::election::Election;
use crate::error::AppError;
use crate::order::{bytes_le, bytes_le_exec, lemma_bytes_le_total, lemma_bytes_le_trans};
use crate::store::{
    blank_of, election_exists, election_of, has_valid_nomination, nomination_display, ElectionStore,
    ElectionVote, StoreView,
};

verus! {

/// A degree's id with the acronym to report it under.
#[derive(Clone)]
pub struct DegreeLabel {
    pub id: String,
    pub acronym: String,
}

/// One line of the results export: a candidate's votes, or the blank votes
/// of an election (username `"blank"`, no display name).
pub struct ResultRow {
    pub election_id: i32,
    pub round: i32,
    pub degree: String,
    pub curricular_year: Option<i32>,
    pub username: String,
    pub display_name: String,
    pub vote_count: u64,
}

/// The abstract contents of a `ResultRow`.
pub ghost struct ResultRowView {
    pub election_id: i32,
    pub round: i32,
    pub degree: Seq<char>,
    pub curricular_year: Option<i32>,
    pub username: Seq<char>,
    pub display_name: Seq<char>,
    pub vote_count: int,
}

impl View for ResultRow {
    type V = ResultRowView;

    open spec fn view(&self) -> ResultRowView {
        ResultRowView {
            election_id: self.election_id,
            round: self.round,
            degree: self.degree@,
            curricular_year: self.curricular_year,
            username: self.username@,
            display_name: self.display_name@,
            vote_count: self.vote_count as int,
        }
    }
}

/// The views of a sequence of rows.
pub open spec fn rows_view(rows: Seq<ResultRow>) -> Seq<ResultRowView> {
    rows.map_values(|r: ResultRow| r@)
}

/// The acronym of the first catalog entry for `degree_id`.
pub open spec fn label_of(labels: Seq<DegreeLabel>, degree_id: Seq<char>) -> Option<Seq<char>>
    decreases labels.len(),
{
    if labels.len() == 0 {
        None
    } else if labels[0].id@ == degree_id {
        Some(labels[0].acronym@)
    } else {
        label_of(labels.drop_first(), degree_id)
    }
}

/// The username that marks the blank-votes row.
pub open spec fn blank_marker() -> Seq<char> {
    seq!['b', 'l', 'a', 'n', 'k']
}

/// The degree text reported for `degree_id`: its acronym, or `"unknown"`.
pub open spec fn degree_text(labels: Seq<DegreeLabel>, degree_id: Seq<char>) -> Seq<char> {
    match label_of(labels, degree_id) {
        Some(a) => a,
        None => seq!['u', 'n', 'k', 'n', 'o', 'w', 'n'],
    }
}

/// The row of one candidate's votes.
pub open spec fn candidate_row(v: StoreView, e: Election, label: Seq<char>, t: ElectionVote) -> ResultRowView {
    ResultRowView {
        election_id: e.id,
        round: e.round,
        degree: label,
        curricular_year: e.curricular_year,
        username: t.candidate@,
        display_name: nomination_display(v.nominations, e.id, t.candidate@),
        vote_count: t.count as int,
    }
}

/// The tally rows reported for election `e`: those of valid candidates.
pub open spec fn reported_tally(v: StoreView, e: Election, t: ElectionVote) -> bool {
    t.election == e.id && has_valid_nomination(v.nominations, e.id, t.candidate@)
}

/// The tally rows of `ts` reported for election `e`.
pub open spec fn reported_tallies(v: StoreView, e: Election, ts: Seq<ElectionVote>) -> Seq<ElectionVote> {
    ts.filter(|t: ElectionVote| reported_tally(v, e, t))
}

/// The candidate rows for the tally rows `ts` of election `e`.
pub open spec fn candidate_rows_of(
    v: StoreView,
    e: Election,
    label: Seq<char>,
    ts: Seq<ElectionVote>,
) -> Seq<ResultRowView> {
    reported_tallies(v, e, ts).map_values(|t: ElectionVote| candidate_row(v, e, label, t))
}

/// The candidate rows of election `e`, in tally order.
pub open spec fn candidate_rows(v: StoreView, e: Election, label: Seq<char>) -> Seq<ResultRowView> {
    candidate_rows_of(v, e, label, v.tallies)
}

/// The blank-votes row of election `e`.
pub open spec fn blank_row(v: StoreView, e: Election, label: Seq<char>) -> ResultRowView {
    ResultRowView {
        election_id: e.id,
        round: e.round,
        degree: label,
        curricular_year: e.curricular_year,
        username: blank_marker(),
        display_name: Seq::empty(),
        vote_count: blank_of(v, e.id),
    }
}

/// Rows in ascending order of votes.
pub open spec fn sorted_by_votes(rows: Seq<ResultRowView>) -> bool {
    forall|i: int, j: int| 0 <= i < j < rows.len() ==> rows[i].vote_count <= rows[j].vote_count
}

/// `block` is the export of election `e`: its candidate rows in ascending
/// order of votes, then its blank-votes row.
pub open spec fn is_result_block(v: StoreView, e: Election, label: Seq<char>, block: Seq<ResultRowView>) -> bool {
    &&& block.len() >= 1
    &&& sorted_by_votes(block.drop_last())
    &&& block.drop_last().to_multiset() == candidate_rows(v, e, label).to_multiset()
    &&& block.last() == blank_row(v, e, label)
}

/// Inserting into a sequence adds the element to its multiset.
proof fn lemma_insert_multiset<A>(s: Seq<A>, i: int, x: A)
    requires
        0 <= i <= s.len(),
    ensures
        s.insert(i, x).to_multiset() =~= s.to_multiset().insert(x),
{
    broadcast use group_to_multiset_ensures;
}

/// Copies every field of a row.
fn copy_row(r: &ResultRow) -> (c: ResultRow)
    ensures
        c == *r,
{
    ResultRow {
        election_id: r.election_id,
        round: r.round,
        degree: r.degree.clone(),
        curricular_year: r.curricular_year,
        username: r.username.clone(),
        display_name: r.display_name.clone(),
        vote_count: r.vote_count,
    }
}

/// The rows in ascending order of votes; rows with equal votes keep their
/// order.
pub fn sort_by_votes(rows: &Vec<ResultRow>) -> (r: Vec<ResultRow>)
    ensures
        sorted_by_votes(rows_view(r@)),
        rows_view(r@).to_multiset() == rows_view(rows@).to_multiset(),
{
    let mut out: Vec<ResultRow> = Vec::new();
    let mut i: usize = 0;
    proof {
        assert(rows_view(out@) =~= rows_view(rows@.subrange(0, 0)));
    }
    while i < rows.len()
        invariant
            0 <= i <= rows@.len(),
            sorted_by_votes(rows_view(out@)),
            rows_view(out@).to_multiset() == rows_view(rows@.subrange(0, i as int)).to_multiset(),
        decreases rows@.len() - i,
    {
        let x = copy_row(&rows[i]);
        let mut p: usize = 0;
        while p < out.len() && out[p].vote_count <= x.vote_count
            invariant
                0 <= p <= out@.len(),
                forall|j: int| 0 <= j < p ==> (#[trigger] out@[j]).vote_count <= x.vote_count,
            decreases out@.len() - p,
        {
            p = p + 1;
        }
        let ghost before = out@;
        proof {
            assert(p < before.len() ==> before[p as int].vote_count > x.vote_count);
        }
        out.insert(p, x);
        proof {
            let xs = rows@.subrange(0, i + 1);
            assert(xs =~= rows@.subrange(0, i as int).push(rows@[i as int]));
            assert(rows_view(xs) =~= rows_view(rows@.subrange(0, i as int)).push(rows@[i as int]@));
            assert(rows_view(out@) =~= rows_view(before).insert(p as int, x@));
            lemma_insert_multiset(rows_view(before), p as int, x@);
            broadcast use group_to_multiset_ensures;
            let w = rows_view(out@);
            let bv = rows_view(before);
            assert forall|a: int, b: int| 0 <= a < b < w.len() implies w[a].vote_count <= w[b].vote_count by {
                if b < p {
                    assert(w[a] == bv[a] && w[b] == bv[b]);
                } else if b == p {
                    assert(w[a] == bv[a]);
                    assert(before[a].vote_count <= x.vote_count);
                } else if a < p {
                    assert(w[a] == bv[a] && w[b] == bv[b - 1]);
                } else if a == p {
                    assert(w[b] == bv[b - 1]);
                    assert(bv[p as int].vote_count > x.vote_count);
                    if b - 1 > p {
                        assert(bv[p as int].vote_count <= bv[b - 1].vote_count);
                    }
                } else {
                    assert(w[a] == bv[a - 1] && w[b] == bv[b - 1]);
                }
            }
        }
        i = i + 1;
    }
    proof {
        assert(rows@.subrange(0, rows@.len() as int) =~= rows@);
    }
    out
}

/// The acronym reported for `degree_id`: from the first matching entry of
/// `labels`, or `"unknown"`.
pub fn degree_label(labels: &Vec<DegreeLabel>, degree_id: &String) -> (r: String)
    ensures
        r@ == degree_text(labels@, degree_id@),
{
    let mut i: usize = 0;
    proof {
        assert(labels@.subrange(0, labels@.len() as int) =~= labels@);
    }
    while i < labels.len()
        invariant
            0 <= i <= labels@.len(),
            label_of(labels@, degree_id@) == label_of(labels@.subrange(i as int, labels@.len() as int), degree_id@),
        decreases labels@.len() - i,
    {
        let ghost rest = labels@.subrange(i as int, labels@.len() as int);
        if labels[i].id == *degree_id {
            return labels[i].acronym.clone();
        }
        proof {
            assert(rest.drop_first() =~= labels@.subrange(i + 1, labels@.len() as int));
        }
        i = i + 1;
    }
    proof {
        reveal_strlit("unknown");
    }
    let unknown = String::from_str("unknown");
    proof {
        assert(unknown@ =~= seq!['u', 'n', 'k', 'n', 'o', 'w', 'n']);
    }
    unknown
}

/// The block of `store`'s election `election_id`: its candidate rows in
/// ascending order of votes, then its blank-votes row.
pub fn election_results(store: &ElectionStore, election_id: i32, labels: &Vec<DegreeLabel>) -> (r:
    Result<Vec<ResultRow>, AppError>)
    requires
        store.wf(),
    ensures
        r is Ok <==> election_exists(store@, election_id),
        r is Err ==> r == Err::<Vec<ResultRow>, AppError>(AppError::UnknownElection),
        r is Ok ==> is_result_block(
            store@,
            election_of(store@, election_id),
            degree_text(labels@, election_of(store@, election_id).degree_id@),
            rows_view(r->Ok_0@),
        ),
{
    let election = match store.get_election(election_id) {
        Ok(e) => e,
        Err(e) => {
            return Err(e);
        },
    };
    let label = degree_label(labels, &election.degree_id);
    let ghost v = store@;
    let ghost e = *election;
    let tallies = store.tallies();
    let mut candidates: Vec<ResultRow> = Vec::new();
    let mut i: usize = 0;
    proof {
        assert(reported_tallies(v, e, v.tallies.subrange(0, 0)) =~= Seq::<ElectionVote>::empty()) by {
            reveal(Seq::filter);
        }
        assert(rows_view(candidates@) =~= candidate_rows_of(v, e, label@, v.tallies.subrange(0, 0)));
    }
    while i < tallies.len()
        invariant
            store.wf(),
            v == store@,
            e == *election,
            e == election_of(v, election_id),
            e.id == election_id,
            tallies@ == v.tallies,
            0 <= i <= tallies@.len(),
            rows_view(candidates@) == candidate_rows_of(v, e, label@, v.tallies.subrange(0, i as int)),
        decreases tallies@.len() - i,
    {
        let t = &tallies[i];
        let ghost prefix = v.tallies.subrange(0, i + 1);
        let ghost old_rows = candidates@;
        if t.election == election_id {
            match store.valid_nomination_name(election_id, &t.candidate) {
                Some(name) => {
                    let row = ResultRow {
                        election_id: election.id,
                        round: election.round,
                        degree: label.clone(),
                        curricular_year: election.curricular_year,
                        username: t.candidate.clone(),
                        display_name: name,
                        vote_count: t.count,
                    };
                    candidates.push(row);
                },
                None => {},
            }
        }
        proof {
            assert(prefix.drop_last() =~= v.tallies.subrange(0, i as int));
            assert(prefix.last() == *t);
            assert(reported_tallies(v, e, prefix) == if reported_tally(v, e, prefix.last()) {
                reported_tallies(v, e, prefix.drop_last()).push(prefix.last())
            } else {
                reported_tallies(v, e, prefix.drop_last())
            }) by {
                reveal(Seq::filter);
            }
            let x = reported_tallies(v, e, prefix.drop_last());
            assert(rows_view(old_rows) == x.map_values(|t: ElectionVote| candidate_row(v, e, label@, t)));
            if reported_tally(v, e, *t) {
                assert(candidates@ == old_rows.push(candidates@.last()));
                assert(candidates@.last()@ == candidate_row(v, e, label@, *t));
                assert(rows_view(candidates@) =~= rows_view(old_rows).push(candidate_row(v, e, label@, *t)));
                assert(x.push(*t).map_values(|t: ElectionVote| candidate_row(v, e, label@, t)) =~= x.map_values(
                    |t: ElectionVote| candidate_row(v, e, label@, t),
                ).push(candidate_row(v, e, label@, *t)));
            } else {
                assert(candidates@ == old_rows);
            }
            assert(rows_view(candidates@) =~= candidate_rows_of(v, e, label@, prefix));
        }
        i = i + 1;
    }
    proof {
        assert(v.tallies.subrange(0, tallies@.len() as int) =~= v.tallies);
    }
    let mut block = sort_by_votes(&candidates);
    let ghost sorted = block@;
    let blank = store.blank_votes(election_id);
    proof {
        reveal_strlit("blank");
    }
    let marker = String::from_str("blank");
    proof {
        assert(marker@ =~= blank_marker());
    }
    block.push(
        ResultRow {
            election_id: election.id,
            round: election.round,
            degree: label,
            curricular_year: election.curricular_year,
            username: marker,
            display_name: String::new(),
            vote_count: blank,
        },
    );
    proof {
        assert(block@.drop_last() =~= sorted);
        assert(rows_view(block@).drop_last() =~= rows_view(sorted));
        assert(rows_view(block@).last().display_name =~= Seq::<char>::empty());
    }
    Ok(block)
}

/// Whether `a` sorts no later than `b`: by round, then degree text, then
/// curricular year (an unrestricted election counting as year 0).
pub open spec fn row_key_le(a: ResultRowView, b: ResultRowView) -> bool {
    let ya = match a.curricular_year {
        Some(y) => y as int,
        None => 0,
    };
    let yb = match b.curricular_year {
        Some(y) => y as int,
        None => 0,
    };
    if a.round != b.round {
        a.round < b.round
    } else if encode_utf8(a.degree) != encode_utf8(b.degree) {
        bytes_le(encode_utf8(a.degree), encode_utf8(b.degree))
    } else {
        ya <= yb
    }
}

proof fn lemma_row_key_total(a: ResultRowView, b: ResultRowView)
    ensures
        row_key_le(a, b) || row_key_le(b, a),
{
    lemma_bytes_le_total(encode_utf8(a.degree), encode_utf8(b.degree));
}

proof fn lemma_row_key_trans(a: ResultRowView, b: ResultRowView, c: ResultRowView)
    requires
        row_key_le(a, b),
        row_key_le(b, c),
    ensures
        row_key_le(a, c),
{
    let (da, db, dc) = (encode_utf8(a.degree), encode_utf8(b.degree), encode_utf8(c.degree));
    lemma_bytes_le_total(da, db);
    lemma_bytes_le_total(db, dc);
    lemma_bytes_le_total(da, dc);
    if a.round == b.round && b.round == c.round {
        if da != db && db != dc {
            lemma_bytes_le_trans(da, db, dc);
        } else if da != db {
            lemma_bytes_le_trans(da, db, dc);
        } else if db != dc {
            lemma_bytes_le_trans(da, db, dc);
        }
    }
}

/// The views of a sequence of blocks.
pub open spec fn blocks_view(blocks: Seq<Vec<ResultRow>>) -> Seq<Seq<ResultRowView>> {
    blocks.map_values(|b: Vec<ResultRow>| rows_view(b@))
}

/// Blocks (each ending in its blank-votes row) in order of their keys.
pub open spec fn blocks_sorted(blocks: Seq<Seq<ResultRowView>>) -> bool {
    forall|i: int, j: int|
        0 <= i < j < blocks.len() ==> row_key_le(blocks[i].last(), blocks[j].last())
}

/// Whether the key of `a` sorts no later than that of `b`.
fn row_key_le_exec(a: &ResultRow, b: &ResultRow) -> (r: bool)
    ensures
        r == row_key_le(a@, b@),
{
    if a.round != b.round {
        return a.round < b.round;
    }
    let da = a.degree.as_str().as_bytes();
    let db = b.degree.as_str().as_bytes();
    let same = bytes_le_exec(da, db) && bytes_le_exec(db, da);
    proof {
        lemma_bytes_le_total(da@, db@);
    }
    if !same {
        return bytes_le_exec(da, db);
    }
    let ya: i64 = match a.curricular_year {
        Some(y) => y as i64,
        None => 0,
    };
    let yb: i64 = match b.curricular_year {
        Some(y) => y as i64,
        None => 0,
    };
    ya <= yb
}

/// The blocks ordered by key; blocks with equal keys keep their order.
pub fn sort_blocks(blocks: Vec<Vec<ResultRow>>) -> (r: Vec<Vec<ResultRow>>)
    requires
        forall|i: int| 0 <= i < blocks@.len() ==> (#[trigger] blocks@[i])@.len() >= 1,
    ensures
        blocks_sorted(blocks_view(r@)),
        blocks_view(r@).to_multiset() == blocks_view(blocks@).to_multiset(),
        forall|i: int| 0 <= i < r@.len() ==> (#[trigger] r@[i])@.len() >= 1,
{
    let ghost input = blocks@;
    let total = blocks.len();
    let mut out: Vec<Vec<ResultRow>> = Vec::new();
    let mut rest = blocks;
    let mut taken: usize = 0;
    proof {
        assert(blocks_view(out@) =~= blocks_view(input.subrange(0, 0)));
        assert(rest@ =~= input.subrange(0, input.len() as int));
    }
    while rest.len() > 0
        invariant
            0 <= taken <= input.len(),
            total == input.len(),
            rest@ == input.subrange(taken as int, input.len() as int),
            forall|i: int| 0 <= i < input.len() ==> (#[trigger] input[i])@.len() >= 1,
            forall|i: int| 0 <= i < out@.len() ==> (#[trigger] out@[i])@.len() >= 1,
            blocks_sorted(blocks_view(out@)),
            blocks_view(out@).to_multiset() == blocks_view(input.subrange(0, taken as int)).to_multiset(),
        decreases rest@.len(),
    {
        let x = rest.remove(0);
        proof {
            assert(x == input[taken as int]);
        }
        let xl = x.len() - 1;
        let mut p: usize = 0;
        while p < out.len() && row_key_le_exec(&out[p][out[p].len() - 1], &x[xl])
            invariant
                0 <= p <= out@.len(),
                xl == x@.len() - 1,
                forall|i: int| 0 <= i < out@.len() ==> (#[trigger] out@[i])@.len() >= 1,
                forall|j: int| 0 <= j < p ==> row_key_le(rows_view((#[trigger] out@[j])@).last(), rows_view(x@).last()),
            decreases out@.len() - p,
        {
            p = p + 1;
        }
        let ghost before = out@;
        let ghost bv = blocks_view(before);
        let ghost xv = rows_view(x@);
        proof {
            assert(forall|j: int| 0 <= j < p ==> (#[trigger] bv[j]).last() == rows_view(before[j]@).last());
            if p < before.len() {
                assert(!row_key_le(bv[p as int].last(), xv.last()));
                lemma_row_key_total(bv[p as int].last(), xv.last());
            }
        }
        out.insert(p, x);
        proof {
            let w = blocks_view(out@);
            assert(w =~= bv.insert(p as int, xv));
            lemma_insert_multiset(bv, p as int, xv);
            let xs = input.subrange(0, taken + 1);
            assert(xs =~= input.subrange(0, taken as int).push(input[taken as int]));
            assert(blocks_view(xs) =~= blocks_view(input.subrange(0, taken as int)).push(xv));
            broadcast use group_to_multiset_ensures;
            assert forall|a: int, b: int| 0 <= a < b < w.len() implies row_key_le(w[a].last(), w[b].last()) by {
                if b < p {
                    assert(w[a] == bv[a] && w[b] == bv[b]);
                } else if b == p {
                    assert(w[a] == bv[a]);
                } else if a < p {
                    assert(w[a] == bv[a] && w[b] == bv[b - 1]);
                } else if a == p {
                    assert(w[b] == bv[b - 1]);
                    if b - 1 > p {
                        lemma_row_key_trans(xv.last(), bv[p as int].last(), bv[b - 1].last());
                    }
                } else {
                    assert(w[a] == bv[a - 1] && w[b] == bv[b - 1]);
                }
            }
            assert(rest@ =~= input.subrange(taken + 1, input.len() as int));
        }
        taken = taken + 1;
    }
    proof {
        assert(input.subrange(0, taken as int) =~= input);
    }
    out
}

/// `r` is the concatenation of `blocks`.
fn append_blocks(blocks: &Vec<Vec<ResultRow>>) -> (r: Vec<ResultRow>)
    ensures
        rows_view(r@) == blocks_view(blocks@).flatten(),
{
    let ghost bs = blocks_view(blocks@);
    let mut out: Vec<ResultRow> = Vec::new();
    let mut k: usize = 0;
    proof {
        assert(bs.subrange(0, 0) =~= Seq::<Seq<ResultRowView>>::empty());
        assert(rows_view(out@) =~= bs.subrange(0, 0).flatten());
    }
    while k < blocks.len()
        invariant
            0 <= k <= blocks@.len(),
            bs == blocks_view(blocks@),
            rows_view(out@) == bs.subrange(0, k as int).flatten(),
        decreases blocks@.len() - k,
    {
        let block = &blocks[k];
        let ghost start = rows_view(out@);
        let mut j: usize = 0;
        while j < block.len()
            invariant
                0 <= j <= block@.len(),
                *block == blocks@[k as int],
                rows_view(out@) == start + rows_view(block@).subrange(0, j as int),
            decreases block@.len() - j,
        {
            let ghost old_out = out@;
            out.push(copy_row(&block[j]));
            proof {
                assert(out@ == old_out.push(block@[j as int]));
                assert(rows_view(out@) =~= rows_view(old_out).push(block@[j as int]@));
                assert(rows_view(out@) =~= start + rows_view(block@).subrange(0, j + 1));
            }
            j = j + 1;
        }
        proof {
            assert(rows_view(block@).subrange(0, block@.len() as int) =~= rows_view(block@));
            assert(bs.subrange(0, k + 1) =~= bs.subrange(0, k as int).push(bs[k as int]));
            bs.subrange(0, k as int).lemma_flatten_push(bs[k as int]);
        }
        k = k + 1;
    }
    proof {
        assert(bs.subrange(0, blocks@.len() as int) =~= bs);
    }
    out
}

/// An election is exported when it belongs to `academic_year` and its
/// voting window closed before `now`.
pub open spec fn exported(e: Election, academic_year: Seq<char>, now: int) -> bool {
    e.academic_year@ == academic_year && e.voting_period_end < now
}

/// The exported elections among `els`, in order.
pub open spec fn exported_in(els: Seq<Election>, academic_year: Seq<char>, now: int) -> Seq<Election> {
    els.filter(|e: Election| exported(e, academic_year, now))
}

/// The number of exported elections.
pub open spec fn exported_count(v: StoreView, academic_year: Seq<char>, now: int) -> nat {
    exported_in(v.elections, academic_year, now).len()
}

/// `block` is the export of one exported election of `v`, the one its
/// blank-votes row names.
pub open spec fn is_exported_block(
    v: StoreView,
    labels: Seq<DegreeLabel>,
    academic_year: Seq<char>,
    now: int,
    block: Seq<ResultRowView>,
) -> bool {
    let id = block.last().election_id;
    &&& block.len() >= 1
    &&& election_exists(v, id)
    &&& exported(election_of(v, id), academic_year, now)
    &&& is_result_block(v, election_of(v, id), degree_text(labels, election_of(v, id).degree_id@), block)
}

/// The results of every election of `academic_year` that ended before
/// `now`: one block per such election, blocks ordered by round, degree text
/// and curricular year.
pub fn get_all_results(
    store: &ElectionStore,
    academic_year: &String,
    now: i64,
    labels: &Vec<DegreeLabel>,
) -> (r: Vec<ResultRow>)
    requires
        store.wf(),
    ensures
        exists|blocks: Seq<Seq<ResultRowView>>|
            {
                &&& rows_view(r@) == blocks.flatten()
                &&& blocks_sorted(blocks)
                &&& blocks.len() == exported_count(store@, academic_year@, now as int)
                &&& forall|i: int|
                    0 <= i < blocks.len() ==> is_exported_block(
                        store@,
                        labels@,
                        academic_year@,
                        now as int,
                        #[trigger] blocks[i],
                    )
                &&& forall|k: int|
                    0 <= k < store@.elections.len() && exported(
                        #[trigger] store@.elections[k],
                        academic_year@,
                        now as int,
                    ) ==> exists|i: int|
                        0 <= i < blocks.len() && (#[trigger] blocks[i]).last().election_id
                            == store@.elections[k].id
            },
{
    let ghost v = store@;
    let elections = store.elections();
    let mut blocks: Vec<Vec<ResultRow>> = Vec::new();
    let mut k: usize = 0;
    proof {
        assert(exported_in(v.elections.subrange(0, 0), academic_year@, now as int) =~= Seq::<Election>::empty()) by {
            reveal(Seq::filter);
        }
    }
    while k < elections.len()
        invariant
            store.wf(),
            v == store@,
            elections@ == v.elections,
            0 <= k <= elections@.len(),
            blocks@.len() == exported_in(v.elections.subrange(0, k as int), academic_year@, now as int).len(),
            forall|i: int| 0 <= i < blocks@.len() ==> (#[trigger] blocks@[i])@.len() >= 1,
            forall|i: int|
                0 <= i < blocks@.len() ==> is_exported_block(
                    v,
                    labels@,
                    academic_year@,
                    now as int,
                    rows_view((#[trigger] blocks@[i])@),
                ),
            forall|j: int|
                0 <= j < k && exported(#[trigger] v.elections[j], academic_year@, now as int)
                    ==> exists|i: int|
                    0 <= i < blocks@.len() && rows_view((#[trigger] blocks@[i])@).last().election_id
                        == v.elections[j].id,
        decreases elections@.len() - k,
    {
        let e = &elections[k];
        let ghost prefix = v.elections.subrange(0, k + 1);
        let ghost old_blocks = blocks@;
        proof {
            assert(prefix.drop_last() =~= v.elections.subrange(0, k as int));
            assert(exported_in(prefix, academic_year@, now as int) == if exported(prefix.last(), academic_year@, now as int) {
                exported_in(prefix.drop_last(), academic_year@, now as int).push(prefix.last())
            } else {
                exported_in(prefix.drop_last(), academic_year@, now as int)
            }) by {
                reveal(Seq::filter);
            }
        }
        if e.academic_year == *academic_year && e.voting_period_end < now {
            let id = e.id;
            proof {
                assert(id == k + 1);
            }
            match election_results(store, id, labels) {
                Ok(block) => {
                    let ghost bv = rows_view(block@);
                    proof {
                        assert(bv.last().election_id == id);
                    }
                    blocks.push(block);
                    proof {
                        let n = blocks@.len() - 1;
                        assert(blocks@ == old_blocks.push(blocks@[n as int]));
                        assert(rows_view(blocks@[n as int]@) == bv);
                        assert(election_of(v, id) == v.elections[k as int]);
                        assert forall|j: int|
                            0 <= j < k + 1 && exported(#[trigger] v.elections[j], academic_year@, now as int)
                                implies exists|i: int|
                                0 <= i < blocks@.len() && rows_view((#[trigger] blocks@[i])@).last().election_id
                                    == v.elections[j].id by {
                            if j == k {
                                assert(rows_view(blocks@[n as int]@).last().election_id == v.elections[j].id);
                            } else {
                                let i = choose|i: int|
                                    0 <= i < old_blocks.len() && rows_view((#[trigger] old_blocks[i])@).last().election_id
                                        == v.elections[j].id;
                                assert(blocks@[i] == old_blocks[i]);
                            }
                        }
                    }
                },
                Err(_) => {},
            }
        }
        k = k + 1;
    }
    proof {
        assert(v.elections.subrange(0, elections@.len() as int) =~= v.elections);
    }
    let ghost unsorted = blocks_view(blocks@);
    let sorted = sort_blocks(blocks);
    let ghost sv = blocks_view(sorted@);
    let r = append_blocks(&sorted);
    proof {
        assert(sv.to_multiset().len() == unsorted.to_multiset().len());
        broadcast use group_to_multiset_ensures;
        assert(sv.len() == unsorted.len());
        assert forall|i: int| 0 <= i < sv.len() implies is_exported_block(
            v,
            labels@,
            academic_year@,
            now as int,
            #[trigger] sv[i],
        ) by {
            assert(sv.to_multiset().count(sv[i]) > 0);
            assert(unsorted.contains(sv[i]));
            let j = choose|j: int| 0 <= j < unsorted.len() && unsorted[j] == sv[i];
            assert(unsorted[j] == rows_view(blocks@[j]@));
        }
        assert(exported_count(v, academic_year@, now as int) == blocks@.len());
        assert forall|k: int|
            0 <= k < v.elections.len() && exported(#[trigger] v.elections[k], academic_year@, now as int)
                implies exists|i: int|
                0 <= i < sv.len() && (#[trigger] sv[i]).last().election_id == v.elections[k].id by {
            let j = choose|j: int|
                0 <= j < blocks@.len() && rows_view((#[trigger] blocks@[j])@).last().election_id
                    == v.elections[k].id;
            assert(unsorted[j] == rows_view(blocks@[j]@));
            assert(unsorted.to_multiset().count(unsorted[j]) > 0);
            assert(sv.contains(unsorted[j]));
            let i = choose|i: int| 0 <= i < sv.len() && sv[i] == unsorted[j];
            assert(sv[i].last().election_id == v.elections[k].id);
        }
        assert(rows_view(r@) == sv.flatten());
    }
    r
}

} // verus!
