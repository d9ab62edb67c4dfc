use vstd::prelude::*;

use crate::eligibility::DegreeEntryDto;
use crate::error::AppError;
use crate::store::degree_known;

verus! {

/// An administrator's statement that `username` attends `degree_id` in
/// `curricular_year` during `academic_year`.
pub struct UserDegreeOverride {
    pub username: String,
    pub academic_year: String,
    pub degree_id: String,
    pub curricular_year: u8,
}

/// Overrides to add (or whose year to change) for several users at once.
pub struct BulkAddUserDegreeOverrideDto {
    pub degree_id: String,
    pub curricular_year: u8,
    pub usernames: Vec<String>,
}

/// Overrides of one degree to remove for several users at once.
pub struct BulkDeleteUserDegreeOverrideDto {
    pub degree_id: String,
    pub usernames: Vec<String>,
}

/// One user of an override listing.
pub struct UserDegreeOverrideDto {
    pub username: String,
    pub curricular_year: u8,
}

/// The overrides of one degree.
pub struct DegreeWithUserOverridesDto {
    pub degree_id: String,
    pub users: Vec<UserDegreeOverrideDto>,
}

/// The override rows, keyed by (username, academic year, degree).
pub struct OverrideStore {
    overrides: Vec<UserDegreeOverride>,
}

impl View for OverrideStore {
    type V = Seq<UserDegreeOverride>;

    closed spec fn view(&self) -> Seq<UserDegreeOverride> {
        self.overrides@
    }
}

/// Two overrides share a key.
pub open spec fn same_override_key(a: UserDegreeOverride, b: UserDegreeOverride) -> bool {
    a.username@ == b.username@ && a.academic_year@ == b.academic_year@ && a.degree_id@
        == b.degree_id@
}

/// No two overrides share a key.
pub open spec fn overrides_unique(os: Seq<UserDegreeOverride>) -> bool {
    forall|i: int, j: int|
        0 <= i < os.len() && 0 <= j < os.len() && i != j ==> !same_override_key(
            #[trigger] os[i],
            #[trigger] os[j],
        )
}

/// Inserts `o`, or sets the year of the row with its key.
pub open spec fn upsert_override(os: Seq<UserDegreeOverride>, o: UserDegreeOverride) -> Seq<
    UserDegreeOverride,
> {
    if exists|i: int| 0 <= i < os.len() && same_override_key(#[trigger] os[i], o) {
        os.map_values(
            |x: UserDegreeOverride|
                if same_override_key(x, o) {
                    UserDegreeOverride {
                        username: x.username,
                        academic_year: x.academic_year,
                        degree_id: x.degree_id,
                        curricular_year: o.curricular_year,
                    }
                } else {
                    x
                },
        )
    } else {
        os.push(o)
    }
}

/// The override that a bulk addition makes for `username`.
pub open spec fn override_for(
    dto: BulkAddUserDegreeOverrideDto,
    academic_year: String,
    username: String,
) -> UserDegreeOverride {
    UserDegreeOverride {
        username: username,
        academic_year: academic_year,
        degree_id: dto.degree_id,
        curricular_year: dto.curricular_year,
    }
}

/// The rows after upserting the overrides of `usernames`, in order.
pub open spec fn overrides_added(
    os: Seq<UserDegreeOverride>,
    dto: BulkAddUserDegreeOverrideDto,
    academic_year: String,
    usernames: Seq<String>,
) -> Seq<UserDegreeOverride>
    decreases usernames.len(),
{
    if usernames.len() == 0 {
        os
    } else {
        upsert_override(
            overrides_added(os, dto, academic_year, usernames.drop_last()),
            override_for(dto, academic_year, usernames.last()),
        )
    }
}

/// A row that a bulk deletion removes.
pub open spec fn override_deleted(
    o: UserDegreeOverride,
    dto: BulkDeleteUserDegreeOverrideDto,
    academic_year: Seq<char>,
) -> bool {
    &&& o.academic_year@ == academic_year
    &&& o.degree_id@ == dto.degree_id@
    &&& exists|k: int| 0 <= k < dto.usernames@.len() && (#[trigger] dto.usernames@[k])@ == o.username@
}

/// The rows that a bulk deletion keeps, in order.
pub open spec fn overrides_kept(
    os: Seq<UserDegreeOverride>,
    dto: BulkDeleteUserDegreeOverrideDto,
    academic_year: Seq<char>,
) -> Seq<UserDegreeOverride> {
    os.filter(|o: UserDegreeOverride| !override_deleted(o, dto, academic_year))
}

/// The overrides of `username` in `academic_year`, in order.
pub open spec fn overrides_of_user(
    os: Seq<UserDegreeOverride>,
    username: Seq<char>,
    academic_year: Seq<char>,
) -> Seq<UserDegreeOverride> {
    os.filter(|o: UserDegreeOverride| o.username@ == username && o.academic_year@ == academic_year)
}

/// The overrides of `degree_id` in `academic_year`, in order.
pub open spec fn overrides_of_degree(
    os: Seq<UserDegreeOverride>,
    degree_id: Seq<char>,
    academic_year: Seq<char>,
) -> Seq<UserDegreeOverride> {
    os.filter(|o: UserDegreeOverride| o.degree_id@ == degree_id && o.academic_year@ == academic_year)
}

/// Some override of `academic_year` is for `degree_id`.
pub open spec fn degree_in_year(os: Seq<UserDegreeOverride>, academic_year: Seq<char>, degree_id: Seq<char>) -> bool {
    exists|j: int|
        0 <= j < os.len() && (#[trigger] os[j]).academic_year@ == academic_year && os[j].degree_id@
            == degree_id
}

/// A listing entry of one override.
pub open spec fn listed(o: UserDegreeOverride) -> UserDegreeOverrideDto {
    UserDegreeOverrideDto { username: o.username, curricular_year: o.curricular_year }
}

/// Index of the first entry of `degree_id`, if any.
pub open spec fn first_entry_of(entries: Seq<DegreeEntryDto>, degree_id: Seq<char>) -> Option<int>
    decreases entries.len(),
{
    if entries.len() == 0 {
        None
    } else {
        match first_entry_of(entries.drop_last(), degree_id) {
            Some(i) => Some(i),
            None => if entries.last().degree_id@ == degree_id {
                Some(entries.len() - 1)
            } else {
                None
            },
        }
    }
}

/// The entries after one override: the first entry of its degree takes its
/// year and becomes nomination-eligible, or a new such entry is added.
pub open spec fn entries_overridden(entries: Seq<DegreeEntryDto>, o: UserDegreeOverride) -> Seq<
    DegreeEntryDto,
> {
    match first_entry_of(entries, o.degree_id@) {
        Some(i) => entries.update(
            i,
            DegreeEntryDto {
                degree_id: entries[i].degree_id,
                curricular_year: o.curricular_year,
                nomination_elegible: true,
            },
        ),
        None => entries.push(
            DegreeEntryDto {
                degree_id: o.degree_id,
                curricular_year: o.curricular_year,
                nomination_elegible: true,
            },
        ),
    }
}

/// The entries after applying `overrides` in order.
pub open spec fn entries_after(entries: Seq<DegreeEntryDto>, overrides: Seq<UserDegreeOverride>) -> Seq<
    DegreeEntryDto,
>
    decreases overrides.len(),
{
    if overrides.len() == 0 {
        entries
    } else {
        entries_overridden(entries_after(entries, overrides.drop_last()), overrides.last())
    }
}

proof fn lemma_first_entry_of(entries: Seq<DegreeEntryDto>, degree_id: Seq<char>)
    ensures
        match first_entry_of(entries, degree_id) {
            Some(i) => 0 <= i < entries.len() && entries[i].degree_id@ == degree_id && forall|j: int|
                0 <= j < i ==> (#[trigger] entries[j]).degree_id@ != degree_id,
            None => forall|j: int| 0 <= j < entries.len() ==> (#[trigger] entries[j]).degree_id@ != degree_id,
        },
    decreases entries.len(),
{
    if entries.len() > 0 {
        lemma_first_entry_of(entries.drop_last(), degree_id);
        assert forall|j: int| 0 <= j < entries.len() - 1 implies #[trigger] entries[j] == entries.drop_last()[j] by {}
    }
}

/// Applies administrative overrides to a user's enrolments: an override of a
/// degree the user attends changes that entry's year, any other adds an
/// entry; either way the entry becomes nomination-eligible.
pub fn apply_degree_overrides(entries: &mut Vec<DegreeEntryDto>, overrides: &Vec<UserDegreeOverride>)
    ensures
        final(entries)@ == entries_after(old(entries)@, overrides@),
{
    let ghost start = entries@;
    let mut k: usize = 0;
    while k < overrides.len()
        invariant
            0 <= k <= overrides@.len(),
            entries@ == entries_after(start, overrides@.subrange(0, k as int)),
        decreases overrides@.len() - k,
    {
        let o = &overrides[k];
        let ghost before = entries@;
        proof {
            let next = overrides@.subrange(0, k + 1);
            assert(next.drop_last() =~= overrides@.subrange(0, k as int));
            lemma_first_entry_of(before, o.degree_id@);
        }
        let mut i: usize = 0;
        while i < entries.len() && entries[i].degree_id != o.degree_id
            invariant
                0 <= i <= entries@.len(),
                entries@ == before,
                forall|j: int| 0 <= j < i ==> (#[trigger] entries@[j]).degree_id@ != o.degree_id@,
            decreases entries@.len() - i,
        {
            i = i + 1;
        }
        if i < entries.len() {
            let entry = DegreeEntryDto {
                degree_id: entries[i].degree_id.clone(),
                curricular_year: o.curricular_year,
                nomination_elegible: true,
            };
            entries.set(i, entry);
        } else {
            entries.push(
                DegreeEntryDto {
                    degree_id: o.degree_id.clone(),
                    curricular_year: o.curricular_year,
                    nomination_elegible: true,
                },
            );
        }
        k = k + 1;
    }
    proof {
        assert(overrides@.subrange(0, overrides@.len() as int) =~= overrides@);
    }
}

/// Whether `name` is among `names`.
fn names_contain(names: &Vec<String>, name: &String) -> (r: bool)
    ensures
        r == exists|k: int| 0 <= k < names@.len() && (#[trigger] names@[k])@ == name@,
{
    let mut k: usize = 0;
    while k < names.len()
        invariant
            0 <= k <= names@.len(),
            forall|j: int| 0 <= j < k ==> (#[trigger] names@[j])@ != name@,
        decreases names@.len() - k,
    {
        if names[k] == *name {
            return true;
        }
        k = k + 1;
    }
    false
}

impl OverrideStore {
    /// The invariant: keys are unique.
    pub open spec fn wf(&self) -> bool {
        overrides_unique(self@)
    }

    /// No overrides.
    pub fn new() -> (r: OverrideStore)
        ensures
            r.wf(),
            r@.len() == 0,
    {
        OverrideStore { overrides: Vec::new() }
    }

    /// Inserts `o`, or sets the year of the row with its key.
    fn upsert(&mut self, o: UserDegreeOverride)
        requires
            old(self).wf(),
        ensures
            final(self).wf(),
            final(self)@ == upsert_override(old(self)@, o),
    {
        let ghost os = self@;
        let mut i: usize = 0;
        while i < self.overrides.len()
            invariant
                0 <= i <= os.len(),
                os == self@,
                os == old(self)@,
                overrides_unique(os),
                forall|j: int| 0 <= j < i ==> !same_override_key(#[trigger] os[j], o),
            decreases os.len() - i,
        {
            let x = &self.overrides[i];
            if x.username == o.username && x.academic_year == o.academic_year && x.degree_id == o.degree_id {
                let updated = UserDegreeOverride {
                    username: x.username.clone(),
                    academic_year: x.academic_year.clone(),
                    degree_id: x.degree_id.clone(),
                    curricular_year: o.curricular_year,
                };
                self.overrides.set(i, updated);
                proof {
                    assert(same_override_key(os[i as int], o));
                    assert forall|j: int| 0 <= j < os.len() && j != i implies !same_override_key(
                        #[trigger] os[j],
                        o,
                    ) by {
                        assert(!same_override_key(os[j], os[i as int]));
                    }
                    assert(self@ =~= upsert_override(os, o));
                    let ns = self@;
                    assert forall|a: int, b: int|
                        0 <= a < ns.len() && 0 <= b < ns.len() && a != b implies !same_override_key(
                        #[trigger] ns[a],
                        #[trigger] ns[b],
                    ) by {
                        assert(!same_override_key(os[a], os[b]));
                    }
                }
                return;
            }
            i = i + 1;
        }
        self.overrides.push(o);
        proof {
            assert(self@ =~= upsert_override(os, o));
            let ns = self@;
            assert forall|a: int, b: int|
                0 <= a < ns.len() && 0 <= b < ns.len() && a != b implies !same_override_key(
                #[trigger] ns[a],
                #[trigger] ns[b],
            ) by {
                if a < os.len() && b < os.len() {
                    assert(ns[a] == os[a] && ns[b] == os[b]);
                } else if a < os.len() {
                    assert(ns[a] == os[a]);
                } else {
                    assert(ns[b] == os[b]);
                }
            }
        }
    }

    /// Adds (or changes the year of) the override of `dto.degree_id` in
    /// `academic_year` for each of `dto.usernames`; refused when the degree
    /// is not in the catalog.
    pub fn bulk_add_user_degree_override(
        &mut self,
        dto: &BulkAddUserDegreeOverrideDto,
        known_degrees: &Vec<String>,
        academic_year: &String,
    ) -> (r: Result<(), AppError>)
        requires
            old(self).wf(),
        ensures
            final(self).wf(),
            r is Ok <==> degree_known(known_degrees@, dto.degree_id@),
            r is Err ==> r == Err::<(), AppError>(AppError::InvalidDegree) && final(self)@ == old(self)@,
            r is Ok ==> final(self)@ == overrides_added(old(self)@, *dto, *academic_year, dto.usernames@),
    {
        let mut found = false;
        let mut c: usize = 0;
        while c < known_degrees.len()
            invariant
                0 <= c <= known_degrees@.len(),
                found == exists|j: int| 0 <= j < c && (#[trigger] known_degrees@[j])@ == dto.degree_id@,
            decreases known_degrees@.len() - c,
        {
            if known_degrees[c] == dto.degree_id {
                found = true;
            }
            c = c + 1;
        }
        if !found {
            return Err(AppError::InvalidDegree);
        }
        let ghost start = self@;
        let mut k: usize = 0;
        while k < dto.usernames.len()
            invariant
                0 <= k <= dto.usernames@.len(),
                self.wf(),
                self@ == overrides_added(start, *dto, *academic_year, dto.usernames@.subrange(0, k as int)),
            decreases dto.usernames@.len() - k,
        {
            proof {
                assert(dto.usernames@.subrange(0, k + 1).drop_last() =~= dto.usernames@.subrange(0, k as int));
            }
            let o = UserDegreeOverride {
                username: dto.usernames[k].clone(),
                academic_year: academic_year.clone(),
                degree_id: dto.degree_id.clone(),
                curricular_year: dto.curricular_year,
            };
            self.upsert(o);
            k = k + 1;
        }
        proof {
            assert(dto.usernames@.subrange(0, dto.usernames@.len() as int) =~= dto.usernames@);
        }
        Ok(())
    }

    /// Removes the overrides of `dto.degree_id` in `academic_year` of each
    /// of `dto.usernames`.
    pub fn bulk_delete_user_degree_override(
        &mut self,
        dto: &BulkDeleteUserDegreeOverrideDto,
        academic_year: &String,
    )
        requires
            old(self).wf(),
        ensures
            final(self).wf(),
            final(self)@ == overrides_kept(old(self)@, *dto, academic_year@),
    {
        let ghost os = self@;
        let mut kept: Vec<UserDegreeOverride> = Vec::new();
        let mut i: usize = 0;
        proof {
            assert(overrides_kept(os.subrange(0, 0), *dto, academic_year@) =~= Seq::<UserDegreeOverride>::empty()) by {
                reveal(Seq::filter);
            }
        }
        while i < self.overrides.len()
            invariant
                0 <= i <= os.len(),
                os == self@,
                kept@ == overrides_kept(os.subrange(0, i as int), *dto, academic_year@),
            decreases os.len() - i,
        {
            let x = &self.overrides[i];
            let ghost prefix = os.subrange(0, i + 1);
            let deleted = x.academic_year == *academic_year && x.degree_id == dto.degree_id
                && names_contain(&dto.usernames, &x.username);
            if !deleted {
                kept.push(
                    UserDegreeOverride {
                        username: x.username.clone(),
                        academic_year: x.academic_year.clone(),
                        degree_id: x.degree_id.clone(),
                        curricular_year: x.curricular_year,
                    },
                );
            }
            proof {
                assert(prefix.drop_last() =~= os.subrange(0, i as int));
                assert(overrides_kept(prefix, *dto, academic_year@) == if !override_deleted(prefix.last(), *dto, academic_year@) {
                    overrides_kept(prefix.drop_last(), *dto, academic_year@).push(prefix.last())
                } else {
                    overrides_kept(prefix.drop_last(), *dto, academic_year@)
                }) by {
                    reveal(Seq::filter);
                }
            }
            i = i + 1;
        }
        proof {
            assert(os.subrange(0, os.len() as int) =~= os);
            let ks = kept@;
            assert forall|a: int, b: int|
                0 <= a < ks.len() && 0 <= b < ks.len() && a != b implies !same_override_key(
                #[trigger] ks[a],
                #[trigger] ks[b],
            ) by {
                lemma_filter_keeps_unique(os, *dto, academic_year@);
            }
        }
        self.overrides = kept;
    }

    /// The overrides of `username` in `academic_year`, in order.
    pub fn overrides_of(&self, username: &String, academic_year: &String) -> (r: Vec<UserDegreeOverride>)
        ensures
            r@ == overrides_of_user(self@, username@, academic_year@),
    {
        let ghost os = self@;
        let mut out: Vec<UserDegreeOverride> = Vec::new();
        let mut i: usize = 0;
        proof {
            assert(overrides_of_user(os.subrange(0, 0), username@, academic_year@) =~= Seq::<UserDegreeOverride>::empty()) by {
                reveal(Seq::filter);
            }
        }
        while i < self.overrides.len()
            invariant
                0 <= i <= os.len(),
                os == self@,
                out@ == overrides_of_user(os.subrange(0, i as int), username@, academic_year@),
            decreases os.len() - i,
        {
            let x = &self.overrides[i];
            let ghost prefix = os.subrange(0, i + 1);
            if x.username == *username && x.academic_year == *academic_year {
                out.push(
                    UserDegreeOverride {
                        username: x.username.clone(),
                        academic_year: x.academic_year.clone(),
                        degree_id: x.degree_id.clone(),
                        curricular_year: x.curricular_year,
                    },
                );
            }
            proof {
                assert(prefix.drop_last() =~= os.subrange(0, i as int));
                assert(overrides_of_user(prefix, username@, academic_year@) == if prefix.last().username@ == username@
                    && prefix.last().academic_year@ == academic_year@ {
                    overrides_of_user(prefix.drop_last(), username@, academic_year@).push(prefix.last())
                } else {
                    overrides_of_user(prefix.drop_last(), username@, academic_year@)
                }) by {
                    reveal(Seq::filter);
                }
            }
            i = i + 1;
        }
        proof {
            assert(os.subrange(0, os.len() as int) =~= os);
        }
        out
    }

    /// The overrides of `degree_id` in `academic_year`, as listing entries.
    fn listing_of_degree(&self, degree_id: &String, academic_year: &String) -> (r: Vec<
        UserDegreeOverrideDto,
    >)
        ensures
            r@ == overrides_of_degree(self@, degree_id@, academic_year@).map_values(
                |o: UserDegreeOverride| listed(o),
            ),
    {
        let ghost os = self@;
        let mut out: Vec<UserDegreeOverrideDto> = Vec::new();
        let mut i: usize = 0;
        proof {
            assert(overrides_of_degree(os.subrange(0, 0), degree_id@, academic_year@) =~= Seq::<
                UserDegreeOverride,
            >::empty()) by {
                reveal(Seq::filter);
            }
        }
        while i < self.overrides.len()
            invariant
                0 <= i <= os.len(),
                os == self@,
                out@ == overrides_of_degree(os.subrange(0, i as int), degree_id@, academic_year@).map_values(
                    |o: UserDegreeOverride| listed(o),
                ),
            decreases os.len() - i,
        {
            let x = &self.overrides[i];
            let ghost prefix = os.subrange(0, i + 1);
            let ghost before = overrides_of_degree(prefix.drop_last(), degree_id@, academic_year@);
            if x.degree_id == *degree_id && x.academic_year == *academic_year {
                out.push(UserDegreeOverrideDto { username: x.username.clone(), curricular_year: x.curricular_year });
            }
            proof {
                assert(prefix.drop_last() =~= os.subrange(0, i as int));
                assert(overrides_of_degree(prefix, degree_id@, academic_year@) == if prefix.last().degree_id@
                    == degree_id@ && prefix.last().academic_year@ == academic_year@ {
                    before.push(prefix.last())
                } else {
                    before
                }) by {
                    reveal(Seq::filter);
                }
                assert(before.push(prefix.last()).map_values(|o: UserDegreeOverride| listed(o)) =~= before.map_values(
                    |o: UserDegreeOverride| listed(o),
                ).push(listed(prefix.last())));
            }
            i = i + 1;
        }
        proof {
            assert(os.subrange(0, os.len() as int) =~= os);
        }
        out
    }

    /// The overrides of `academic_year` grouped by degree: one group per
    /// degree, in order of first appearance, each listing that degree's
    /// overrides in order.
    pub fn get_user_degree_overrides(&self, academic_year: &String) -> (r: Vec<
        DegreeWithUserOverridesDto,
    >)
        ensures
            forall|g: int|
                0 <= g < r@.len() ==> (#[trigger] r@[g]).users@ == overrides_of_degree(
                    self@,
                    r@[g].degree_id@,
                    academic_year@,
                ).map_values(|o: UserDegreeOverride| listed(o)),
            forall|g: int, h: int|
                0 <= g < r@.len() && 0 <= h < r@.len() && g != h ==> (#[trigger] r@[g]).degree_id@
                    != (#[trigger] r@[h]).degree_id@,
            forall|i: int|
                0 <= i < self@.len() && (#[trigger] self@[i]).academic_year@ == academic_year@
                    ==> exists|g: int| 0 <= g < r@.len() && (#[trigger] r@[g]).degree_id@ == self@[i].degree_id@,
            forall|g: int|
                0 <= g < r@.len() ==> degree_in_year(self@, academic_year@, (#[trigger] r@[g]).degree_id@),
    {
        let ghost os = self@;
        let mut out: Vec<DegreeWithUserOverridesDto> = Vec::new();
        let mut i: usize = 0;
        while i < self.overrides.len()
            invariant
                0 <= i <= os.len(),
                os == self@,
                forall|g: int|
                    0 <= g < out@.len() ==> (#[trigger] out@[g]).users@ == overrides_of_degree(
                        os,
                        out@[g].degree_id@,
                        academic_year@,
                    ).map_values(|o: UserDegreeOverride| listed(o)),
                forall|g: int, h: int|
                    0 <= g < out@.len() && 0 <= h < out@.len() && g != h ==> (#[trigger] out@[g]).degree_id@
                        != (#[trigger] out@[h]).degree_id@,
                forall|j: int|
                    0 <= j < i && (#[trigger] os[j]).academic_year@ == academic_year@ ==> exists|g: int|
                        0 <= g < out@.len() && (#[trigger] out@[g]).degree_id@ == os[j].degree_id@,
                forall|g: int|
                    0 <= g < out@.len() ==> degree_in_year(os, academic_year@, (#[trigger] out@[g]).degree_id@),
            decreases os.len() - i,
        {
            let x = &self.overrides[i];
            if x.academic_year == *academic_year {
                let mut g: usize = 0;
                let mut seen = false;
                while g < out.len()
                    invariant
                        0 <= g <= out@.len(),
                        seen ==> exists|h: int| 0 <= h < out@.len() && (#[trigger] out@[h]).degree_id@ == x.degree_id@,
                        !seen ==> forall|h: int| 0 <= h < g ==> (#[trigger] out@[h]).degree_id@ != x.degree_id@,
                    decreases out@.len() - g,
                {
                    if out[g].degree_id == x.degree_id {
                        seen = true;
                    }
                    g = g + 1;
                }
                if !seen {
                    let ghost before = out@;
                    let users = self.listing_of_degree(&x.degree_id, academic_year);
                    out.push(DegreeWithUserOverridesDto { degree_id: x.degree_id.clone(), users });
                    proof {
                        let n = before.len() as int;
                        assert forall|j: int|
                            0 <= j < i + 1 && (#[trigger] os[j]).academic_year@ == academic_year@ implies exists|g: int|
                                0 <= g < out@.len() && (#[trigger] out@[g]).degree_id@ == os[j].degree_id@ by {
                            if j == i {
                                assert(out@[n].degree_id@ == os[j].degree_id@);
                            } else {
                                let g = choose|g: int| 0 <= g < before.len() && (#[trigger] before[g]).degree_id@ == os[j].degree_id@;
                                assert(out@[g] == before[g]);
                            }
                        }
                        assert forall|g: int| 0 <= g < out@.len() implies degree_in_year(
                            os,
                            academic_year@,
                            (#[trigger] out@[g]).degree_id@,
                        ) by {
                            if g == n {
                                assert(os[i as int].degree_id@ == out@[g].degree_id@);
                                assert(os[i as int].academic_year@ == academic_year@);
                            } else {
                                assert(out@[g] == before[g]);
                            }
                        }
                        assert forall|g: int| 0 <= g < out@.len() implies (#[trigger] out@[g]).users@ == overrides_of_degree(
                            os,
                            out@[g].degree_id@,
                            academic_year@,
                        ).map_values(|o: UserDegreeOverride| listed(o)) by {
                            if g < n {
                                assert(out@[g] == before[g]);
                            }
                        }
                        assert forall|g: int, h: int|
                            0 <= g < out@.len() && 0 <= h < out@.len() && g != h implies (#[trigger] out@[g]).degree_id@
                                != (#[trigger] out@[h]).degree_id@ by {
                            if g < n && h < n {
                                assert(out@[g] == before[g] && out@[h] == before[h]);
                            } else if g < n {
                                assert(out@[g] == before[g]);
                            } else {
                                assert(out@[h] == before[h]);
                            }
                        }
                    }
                }
            }
            i = i + 1;
        }
        out
    }

    /// Number of override rows.
    pub fn len(&self) -> (r: usize)
        ensures
            r == self@.len(),
    {
        self.overrides.len()
    }
}

/// Keeping a subsequence keeps keys unique.
proof fn lemma_filter_keeps_unique(
    os: Seq<UserDegreeOverride>,
    dto: BulkDeleteUserDegreeOverrideDto,
    academic_year: Seq<char>,
)
    requires
        overrides_unique(os),
    ensures
        overrides_unique(overrides_kept(os, dto, academic_year)),
    decreases os.len(),
{
    reveal(Seq::filter);
    if os.len() > 0 {
        let init = os.drop_last();
        assert(overrides_unique(init)) by {
            assert forall|a: int, b: int|
                0 <= a < init.len() && 0 <= b < init.len() && a != b implies !same_override_key(
                #[trigger] init[a],
                #[trigger] init[b],
            ) by {
                assert(init[a] == os[a] && init[b] == os[b]);
            }
        }
        lemma_filter_keeps_unique(init, dto, academic_year);
        let k0 = overrides_kept(init, dto, academic_year);
        let pred = |o: UserDegreeOverride| !override_deleted(o, dto, academic_year);
        assert forall|a: int| 0 <= a < k0.len() implies !same_override_key(#[trigger] k0[a], os.last()) by {
            assert(k0.contains(k0[a]));
            init.lemma_filter_contains_rev(pred, k0[a]);
            let j = choose|j: int| 0 <= j < init.len() && init[j] == k0[a];
            assert(os[j] == init[j]);
            assert(!same_override_key(os[j], os[os.len() - 1]));
        }
    }
}

} // verus!
