use vstd::prelude::*;
use vstd::utf8::encode_utf8;

use crate::eligibility::DegreeEntryDto;

verus! {

/// An academic year as its first and last calendar years.
pub struct ExecutionYear {
    pub begin_year: u32,
    pub end_year: u32,
}

/// One degree of a student's curriculum as the identity provider reports it.
pub struct CurriculumResponse {
    pub degree_id: String,
    pub curricular_year: u8,
    /// Enrolment state, `"REGISTERED"` for an active enrolment.
    pub state: String,
    /// Academic years the enrolment spans.
    pub academic_terms: Vec<ExecutionYear>,
}

/// ASCII decimal digits of `n`, without leading zeros.
pub open spec fn decimal(n: nat) -> Seq<u8>
    decreases n,
{
    if n < 10 {
        seq![(48 + n) as u8]
    } else {
        decimal(n / 10).push((48 + n % 10) as u8)
    }
}

/// The label of an academic year, `"<begin>/<end>"`, as bytes.
pub open spec fn year_label(y: ExecutionYear) -> Seq<u8> {
    decimal(y.begin_year as nat) + seq![47u8] + decimal(y.end_year as nat)
}

/// An entry counts for `academic_year`: it is registered and spans that year.
pub open spec fn entry_current(c: CurriculumResponse, academic_year: Seq<char>) -> bool {
    &&& c.state@ == "REGISTERED"@
    &&& exists|t: int|
        0 <= t < c.academic_terms@.len() && year_label(#[trigger] c.academic_terms@[t]) == encode_utf8(
            academic_year,
        )
}

/// The enrolment entry of a curriculum entry.
pub open spec fn entry_of(c: CurriculumResponse) -> DegreeEntryDto {
    DegreeEntryDto {
        degree_id: c.degree_id,
        curricular_year: c.curricular_year,
        nomination_elegible: true,
    }
}

/// Appends the decimal digits of `n`.
fn push_decimal(out: &mut Vec<u8>, n: u32)
    ensures
        final(out)@ == old(out)@ + decimal(n as nat),
    decreases n,
{
    if n >= 10 {
        push_decimal(out, n / 10);
    }
    out.push((48 + n % 10) as u8);
    proof {
        assert(final(out)@ =~= old(out)@ + decimal(n as nat)) by {
            if n >= 10 {
                assert(decimal(n as nat) == decimal((n / 10) as nat).push((48 + n % 10) as u8));
            }
        }
    }
}

impl ExecutionYear {
    /// The label `"<begin>/<end>"`, as bytes.
    pub fn label_bytes(&self) -> (r: Vec<u8>)
        ensures
            r@ == year_label(*self),
    {
        let mut out: Vec<u8> = Vec::new();
        push_decimal(&mut out, self.begin_year);
        out.push(47u8);
        push_decimal(&mut out, self.end_year);
        proof {
            assert(out@ =~= year_label(*self));
        }
        out
    }
}

/// Whether two byte strings are equal.
fn bytes_equal(a: &[u8], b: &[u8]) -> (r: bool)
    ensures
        r == (a@ == b@),
{
    if a.len() != b.len() {
        return false;
    }
    let mut i: usize = 0;
    while i < a.len()
        invariant
            0 <= i <= a@.len(),
            a@.len() == b@.len(),
            forall|j: int| 0 <= j < i ==> a@[j] == b@[j],
        decreases a@.len() - i,
    {
        if a[i] != b[i] {
            return false;
        }
        i = i + 1;
    }
    proof {
        assert(a@ =~= b@);
    }
    true
}

/// Whether some term of `terms` has the label `year`.
fn spans_year(terms: &Vec<ExecutionYear>, year: &[u8]) -> (r: bool)
    ensures
        r == exists|t: int| 0 <= t < terms@.len() && year_label(#[trigger] terms@[t]) == year@,
{
    let mut t: usize = 0;
    while t < terms.len()
        invariant
            0 <= t <= terms@.len(),
            forall|j: int| 0 <= j < t ==> year_label(#[trigger] terms@[j]) != year@,
        decreases terms@.len() - t,
    {
        let label = terms[t].label_bytes();
        if bytes_equal(label.as_slice(), year) {
            return true;
        }
        t = t + 1;
    }
    false
}

/// The enrolments that count in `academic_year`: registered entries with a
/// term in that year, in order, each eligible for nominations.
pub fn degree_entries_from_curriculum(
    curriculum: &Vec<CurriculumResponse>,
    academic_year: &String,
) -> (r: Vec<DegreeEntryDto>)
    ensures
        r@ == curriculum@.filter(|c: CurriculumResponse| entry_current(c, academic_year@)).map_values(
            |c: CurriculumResponse| entry_of(c),
        ),
{
    let registered = String::from_str("REGISTERED");
    let year = academic_year.as_str().as_bytes();
    let mut out: Vec<DegreeEntryDto> = Vec::new();
    let mut i: usize = 0;
    proof {
        assert(curriculum@.subrange(0, 0).filter(|c: CurriculumResponse| entry_current(c, academic_year@))
            =~= Seq::<CurriculumResponse>::empty()) by {
            reveal(Seq::filter);
        }
    }
    while i < curriculum.len()
        invariant
            0 <= i <= curriculum@.len(),
            registered@ == "REGISTERED"@,
            year@ == encode_utf8(academic_year@),
            out@ == curriculum@.subrange(0, i as int).filter(
                |c: CurriculumResponse| entry_current(c, academic_year@),
            ).map_values(|c: CurriculumResponse| entry_of(c)),
        decreases curriculum@.len() - i,
    {
        let c = &curriculum[i];
        let ghost prefix = curriculum@.subrange(0, i + 1);
        let current = c.state == registered && spans_year(&c.academic_terms, year);
        assert(current == entry_current(*c, academic_year@));
        if current {
            out.push(
                DegreeEntryDto {
                    degree_id: c.degree_id.clone(),
                    curricular_year: c.curricular_year,
                    nomination_elegible: true,
                },
            );
        }
        proof {
            assert(prefix.drop_last() =~= curriculum@.subrange(0, i as int));
            assert(prefix.filter(|c: CurriculumResponse| entry_current(c, academic_year@)) == if entry_current(
                prefix.last(),
                academic_year@,
            ) {
                prefix.drop_last().filter(|c: CurriculumResponse| entry_current(c, academic_year@)).push(
                    prefix.last(),
                )
            } else {
                prefix.drop_last().filter(|c: CurriculumResponse| entry_current(c, academic_year@))
            }) by {
                reveal(Seq::filter);
            }
            assert(out@ =~= prefix.filter(|c: CurriculumResponse| entry_current(c, academic_year@)).map_values(
                |c: CurriculumResponse| entry_of(c),
            ));
        }
        i = i + 1;
    }
    proof {
        assert(curriculum@.subrange(0, curriculum@.len() as int) =~= curriculum@);
    }
    out
}

} // verus!
