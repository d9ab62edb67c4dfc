use vstd::prelude::*;

use crate::error::AppError;

verus! {

/// An administrator and when they were added (milliseconds since the epoch).
pub struct Admin {
    pub username: String,
    pub date_added: i64,
}

/// The administrators, in the order they were added; usernames are unique.
pub struct AdminRegistry {
    admins: Vec<Admin>,
}

impl View for AdminRegistry {
    type V = Seq<Admin>;

    closed spec fn view(&self) -> Seq<Admin> {
        self.admins@
    }
}

/// `username` is an administrator.
pub open spec fn is_admin_in(admins: Seq<Admin>, username: Seq<char>) -> bool {
    exists|i: int| 0 <= i < admins.len() && (#[trigger] admins[i]).username@ == username
}

/// No two administrators share a username.
pub open spec fn admins_unique(admins: Seq<Admin>) -> bool {
    forall|i: int, j: int|
        0 <= i < admins.len() && 0 <= j < admins.len() && i != j ==> (#[trigger] admins[i]).username@
            != (#[trigger] admins[j]).username@
}

/// Position of `username`, if an administrator.
fn find_admin(admins: &Vec<Admin>, username: &String) -> (r: Option<usize>)
    ensures
        r is None <==> !is_admin_in(admins@, username@),
        r is Some ==> r->Some_0 < admins@.len() && admins@[r->Some_0 as int].username@ == username@,
{
    let mut i: usize = 0;
    while i < admins.len()
        invariant
            0 <= i <= admins@.len(),
            forall|j: int| 0 <= j < i ==> (#[trigger] admins@[j]).username@ != username@,
        decreases admins@.len() - i,
    {
        if admins[i].username == *username {
            return Some(i);
        }
        i = i + 1;
    }
    None
}

impl AdminRegistry {
    /// The invariant: usernames are unique.
    pub open spec fn wf(&self) -> bool {
        admins_unique(self@)
    }

    /// No administrators.
    pub fn new() -> (r: AdminRegistry)
        ensures
            r.wf(),
            r@.len() == 0,
    {
        AdminRegistry { admins: Vec::new() }
    }

    /// Whether `username` is an administrator.
    pub fn is_admin(&self, username: &String) -> (r: bool)
        ensures
            r == is_admin_in(self@, username@),
    {
        find_admin(&self.admins, username).is_some()
    }

    /// Whether any administrator exists.
    pub fn is_setup(&self) -> (r: bool)
        ensures
            r == (self@.len() > 0),
    {
        self.admins.len() > 0
    }

    /// The administrators' usernames, in the order they were added.
    pub fn list_admins(&self) -> (r: Vec<String>)
        ensures
            r@.len() == self@.len(),
            forall|i: int| 0 <= i < r@.len() ==> (#[trigger] r@[i]) == self@[i].username,
    {
        let mut out: Vec<String> = Vec::new();
        let mut i: usize = 0;
        while i < self.admins.len()
            invariant
                0 <= i <= self@.len(),
                out@.len() == i,
                forall|j: int| 0 <= j < i ==> (#[trigger] out@[j]) == self@[j].username,
            decreases self@.len() - i,
        {
            out.push(self.admins[i].username.clone());
            i = i + 1;
        }
        out
    }

    /// Adds `username` (already trimmed) as an administrator at `now`.
    pub fn add_admin(&mut self, username: &String, now: i64) -> (r: Result<(), AppError>)
        requires
            old(self).wf(),
        ensures
            final(self).wf(),
            username@.len() == 0 ==> r == Err::<(), AppError>(AppError::BadInput),
            username@.len() > 0 && is_admin_in(old(self)@, username@) ==> r == Err::<(), AppError>(
                AppError::DuplicateAdmin,
            ),
            r is Ok <==> username@.len() > 0 && !is_admin_in(old(self)@, username@),
            r is Err ==> final(self)@ == old(self)@,
            r is Ok ==> final(self)@ == old(self)@.push(Admin { username: *username, date_added: now }),
    {
        if username.as_str().is_empty() {
            return Err(AppError::BadInput);
        }
        if find_admin(&self.admins, username).is_some() {
            return Err(AppError::DuplicateAdmin);
        }
        let ghost before = self@;
        self.admins.push(Admin { username: username.clone(), date_added: now });
        proof {
            let a = self@;
            assert forall|i: int, j: int|
                0 <= i < a.len() && 0 <= j < a.len() && i != j implies (#[trigger] a[i]).username@
                    != (#[trigger] a[j]).username@ by {
                if i < before.len() && j < before.len() {
                    assert(a[i] == before[i] && a[j] == before[j]);
                } else if i < before.len() {
                    assert(a[i] == before[i]);
                } else {
                    assert(a[j] == before[j]);
                }
            }
        }
        Ok(())
    }

    /// Makes `username` the first administrator; refused once any exists.
    pub fn setup_first_admin(&mut self, username: &String, now: i64) -> (r: Result<(), AppError>)
        requires
            old(self).wf(),
        ensures
            final(self).wf(),
            r is Ok <==> old(self)@.len() == 0,
            r is Err ==> r == Err::<(), AppError>(AppError::Forbidden) && final(self)@ == old(self)@,
            r is Ok ==> final(self)@ == seq![Admin { username: *username, date_added: now }],
    {
        if self.admins.len() != 0 {
            return Err(AppError::Forbidden);
        }
        self.admins.push(Admin { username: username.clone(), date_added: now });
        proof {
            assert(self@ =~= seq![Admin { username: *username, date_added: now }]);
        }
        Ok(())
    }

    /// Removes administrator `username`; the last one cannot be removed.
    pub fn remove_admin(&mut self, username: &String) -> (r: Result<(), AppError>)
        requires
            old(self).wf(),
        ensures
            final(self).wf(),
            username@.len() == 0 ==> r == Err::<(), AppError>(AppError::BadInput),
            username@.len() > 0 && old(self)@.len() <= 1 ==> r == Err::<(), AppError>(
                AppError::NotEnoughAdmins,
            ),
            username@.len() > 0 && old(self)@.len() > 1 && !is_admin_in(old(self)@, username@) ==> r
                == Err::<(), AppError>(AppError::UnknownAdmin),
            r is Ok <==> username@.len() > 0 && old(self)@.len() > 1 && is_admin_in(old(self)@, username@),
            r is Err ==> final(self)@ == old(self)@,
            r is Ok ==> !is_admin_in(final(self)@, username@) && final(self)@.len() == old(self)@.len() - 1
                && forall|i: int|
                0 <= i < old(self)@.len() && old(self)@[i].username@ != username@ ==> final(self)@.contains(
                    #[trigger] old(self)@[i],
                ),
    {
        if username.as_str().is_empty() {
            return Err(AppError::BadInput);
        }
        if self.admins.len() <= 1 {
            return Err(AppError::NotEnoughAdmins);
        }
        match find_admin(&self.admins, username) {
            None => Err(AppError::UnknownAdmin),
            Some(i) => {
                let ghost before = self@;
                self.admins.remove(i);
                proof {
                    let a = self@;
                    assert(a =~= before.remove(i as int));
                    assert forall|k: int| 0 <= k < a.len() implies (#[trigger] a[k]).username@ != username@ by {
                        if k < i {
                            assert(a[k] == before[k]);
                        } else {
                            assert(a[k] == before[k + 1]);
                        }
                    }
                    assert forall|k: int|
                        0 <= k < before.len() && before[k].username@ != username@ implies a.contains(
                        #[trigger] before[k],
                    ) by {
                        if k < i {
                            assert(a[k] == before[k]);
                        } else {
                            assert(k != i);
                            assert(a[k - 1] == before[k]);
                        }
                    }
                    assert forall|x: int, y: int|
                        0 <= x < a.len() && 0 <= y < a.len() && x != y implies (#[trigger] a[x]).username@
                            != (#[trigger] a[y]).username@ by {
                        let bx = if x < i { x } else { x + 1 };
                        let by_ = if y < i { y } else { y + 1 };
                        assert(a[x] == before[bx] && a[y] == before[by_]);
                    }
                }
                Ok(())
            },
        }
    }
}

} // verus!
