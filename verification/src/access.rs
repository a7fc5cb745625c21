//! Access control: the admin and innovator sets, and the user directory whose
//! cached role always agrees with them.

use crate::identity::PrincipalSet;
use candid::Principal;
use vstd::prelude::*;

verus! {

#[derive(Clone, Copy, Debug, PartialEq, Eq, Structural)]
pub enum Role {
    Admin,
    User,
    Innovator,
}

#[derive(Debug)]
pub struct RegisteredUser {
    pub principal: Principal,
    pub name: String,
    pub email: String,
    pub role: Role,
    pub registered_at_ns: u64,
}

/// What a [`RegisteredUser`] holds, with its texts as character sequences.
pub struct RegisteredUserView {
    pub principal: Principal,
    pub name: Seq<char>,
    pub email: Seq<char>,
    pub role: Role,
    pub registered_at_ns: u64,
}

impl View for RegisteredUser {
    type V = RegisteredUserView;

    open spec fn view(&self) -> RegisteredUserView {
        RegisteredUserView {
            principal: self.principal,
            name: self.name@,
            email: self.email@,
            role: self.role,
            registered_at_ns: self.registered_at_ns,
        }
    }
}

impl Clone for RegisteredUser {
    fn clone(&self) -> (r: Self)
        ensures
            r == *self,
    {
        RegisteredUser {
            principal: self.principal,
            name: self.name.clone(),
            email: self.email.clone(),
            role: self.role,
            registered_at_ns: self.registered_at_ns,
        }
    }
}

#[derive(Debug)]
pub enum AdminError {
    NotAuthorized,
    UserNotFound,
    IdeaNotFound,
    ProjectNotFound,
    AlreadyExists,
    InvalidInput(String),
    InsufficientPermissions,
    InvalidStatusTransition,
}

/// The role that the two sets give to `p`: admins come first, then innovators.
pub open spec fn role_in(admins: Set<Principal>, innovators: Set<Principal>, p: Principal) -> Role {
    if admins.contains(p) {
        Role::Admin
    } else if innovators.contains(p) {
        Role::Innovator
    } else {
        Role::User
    }
}

/// Whether the directory has a record for `p`.
pub open spec fn has_user(users: Seq<RegisteredUserView>, p: Principal) -> bool {
    exists|i: int| 0 <= i < users.len() && #[trigger] users[i].principal == p
}

/// Where the record of `p` stands in the directory.
pub open spec fn index_of_user(users: Seq<RegisteredUserView>, p: Principal) -> int {
    choose|i: int| 0 <= i < users.len() && #[trigger] users[i].principal == p
}

/// No two records are for the same principal.
pub open spec fn distinct_users(users: Seq<RegisteredUserView>) -> bool {
    forall|i: int, j: int|
        0 <= i < users.len() && 0 <= j < users.len() && i != j ==> #[trigger] users[i].principal
            != #[trigger] users[j].principal
}

/// The directory once the record of `p`, if there is one, shows `role`.
pub open spec fn with_cached_role(
    users: Seq<RegisteredUserView>,
    p: Principal,
    role: Role,
) -> Seq<RegisteredUserView> {
    if has_user(users, p) {
        let i = index_of_user(users, p);
        users.update(i, RegisteredUserView { role, ..users[i] })
    } else {
        users
    }
}

/// The directory once `p` has a record that shows `role`; a missing record is
/// created under `name`, with an empty email, at time `now`.
pub open spec fn with_member(
    users: Seq<RegisteredUserView>,
    p: Principal,
    role: Role,
    name: Seq<char>,
    now: u64,
) -> Seq<RegisteredUserView> {
    if has_user(users, p) {
        with_cached_role(users, p, role)
    } else {
        users.push(
            RegisteredUserView {
                principal: p,
                name,
                email: Seq::empty(),
                role,
                registered_at_ns: now,
            },
        )
    }
}

/// The directory once `p` is registered under `name` and `email`: an
/// existing record keeps its role and timestamp, a new one gets `role`.
pub open spec fn with_registration(
    users: Seq<RegisteredUserView>,
    p: Principal,
    name: Seq<char>,
    email: Seq<char>,
    role: Role,
    now: u64,
) -> Seq<RegisteredUserView> {
    if has_user(users, p) {
        let i = index_of_user(users, p);
        users.update(i, RegisteredUserView { name, email, ..users[i] })
    } else {
        users.push(RegisteredUserView { principal: p, name, email, role, registered_at_ns: now })
    }
}

/// How one operation may change the admin set: not at all, by adding one
/// principal, or by removing one that is not the last.
pub open spec fn admin_step(pre: Set<Principal>, post: Set<Principal>) -> bool {
    ||| post == pre
    ||| exists|p: Principal| post == pre.insert(p)
    ||| exists|p: Principal| post == pre.remove(p) && post.len() > 0
}

/// The state of access control as sets and a sequence.
pub struct AccessView {
    pub admins: Set<Principal>,
    pub innovators: Set<Principal>,
    pub users: Seq<RegisteredUserView>,
}

pub struct AccessControl {
    admins: PrincipalSet,
    innovators: PrincipalSet,
    users: Vec<RegisteredUser>,
}

impl View for AccessControl {
    type V = AccessView;

    closed spec fn view(&self) -> AccessView {
        AccessView {
            admins: self.admins@,
            innovators: self.innovators@,
            users: self.users@.map_values(|u: RegisteredUser| u@),
        }
    }
}

impl AccessView {
    /// The role of `p`, read from the sets.
    pub open spec fn role_of(self, p: Principal) -> Role {
        role_in(self.admins, self.innovators, p)
    }

    /// Every record shows the role that the sets give to its principal.
    pub open spec fn cache_consistent(self) -> bool {
        forall|i: int|
            0 <= i < self.users.len() ==> (#[trigger] self.users[i]).role == self.role_of(
                self.users[i].principal,
            )
    }

    /// Removing `p` from the admins would leave none.
    pub open spec fn is_last_admin(self, p: Principal) -> bool {
        self.admins.contains(p) && self.admins.len() == 1
    }

    /// `caller` asks to remove the last admin. The request cannot be
    /// granted and is no recoverable error either: it must be aborted.
    pub open spec fn removal_is_fatal(self, caller: Principal, p: Principal) -> bool {
        self.admins.contains(caller) && self.is_last_admin(p)
    }

    /// `caller` asks to give the last admin, who has a record, a role other
    /// than `Admin`. The request must be aborted.
    pub open spec fn demotion_is_fatal(self, caller: Principal, p: Principal, role: Role) -> bool {
        self.admins.contains(caller) && has_user(self.users, p) && role != Role::Admin
            && self.is_last_admin(p)
    }
}

impl AccessControl {
    /// The sets are well formed, no principal has two records, and the cached
    /// roles agree with the sets.
    pub closed spec fn wf(&self) -> bool {
        &&& self.admins.wf()
        &&& self.innovators.wf()
        &&& distinct_users(self@.users)
        &&& self@.cache_consistent()
    }

    /// What well-formedness means for the view.
    pub proof fn lemma_wf(&self)
        requires
            self.wf(),
        ensures
            distinct_users(self@.users),
            self@.cache_consistent(),
            self@.admins.finite(),
            self@.innovators.finite(),
    {
        self.admins.lemma_finite();
        self.innovators.lemma_finite();
    }

    /// The state before anyone is known.
    pub fn new() -> (s: Self)
        ensures
            s.wf(),
            s@.admins == Set::<Principal>::empty(),
            s@.innovators == Set::<Principal>::empty(),
            s@.users == Seq::<RegisteredUserView>::empty(),
    {
        let s = AccessControl {
            admins: PrincipalSet::new(),
            innovators: PrincipalSet::new(),
            users: Vec::new(),
        };
        assert(s@.users =~= Seq::<RegisteredUserView>::empty());
        s
    }

    /// Makes `installer` the first admin, with a record named "Deployer" if
    /// it has none.
    pub fn init(&mut self, installer: Principal, now: u64)
        requires
            old(self).wf(),
        ensures
            final(self).wf(),
            final(self)@.admins == old(self)@.admins.insert(installer),
            final(self)@.innovators == old(self)@.innovators,
            final(self)@.users == with_member(
                old(self)@.users,
                installer,
                Role::Admin,
                "Deployer"@,
                now,
            ),
    {
        self.admins.insert(installer);
        self.put_member(installer, Role::Admin, "Deployer", now);
    }

    pub fn is_admin(&self, p: Principal) -> (r: bool)
        ensures
            r == self@.admins.contains(p),
    {
        self.admins.contains(&p)
    }

    pub fn is_innovator(&self, p: Principal) -> (r: bool)
        ensures
            r == self@.innovators.contains(p),
    {
        self.innovators.contains(&p)
    }

    pub fn is_innovator_check(&self, p: Principal) -> (r: bool)
        ensures
            r == self@.innovators.contains(p),
    {
        self.is_innovator(p)
    }

    pub fn ensure_admin(&self, caller: Principal) -> (r: Result<(), AdminError>)
        ensures
            self@.admins.contains(caller) ==> r is Ok,
            !self@.admins.contains(caller) ==> r == Err::<(), AdminError>(
                AdminError::NotAuthorized,
            ),
    {
        if self.is_admin(caller) {
            Ok(())
        } else {
            Err(AdminError::NotAuthorized)
        }
    }

    pub fn ensure_admin_or_innovator(&self, caller: Principal) -> (r: Result<(), AdminError>)
        ensures
            self@.role_of(caller) != Role::User ==> r is Ok,
            self@.role_of(caller) == Role::User ==> r == Err::<(), AdminError>(
                AdminError::InsufficientPermissions,
            ),
    {
        if self.is_admin(caller) || self.is_innovator(caller) {
            Ok(())
        } else {
            Err(AdminError::InsufficientPermissions)
        }
    }

    /// The role of `p`: the sets decide, not the cached field.
    pub fn get_user_role(&self, p: Principal) -> (r: Role)
        ensures
            r == self@.role_of(p),
    {
        if self.admins.contains(&p) {
            Role::Admin
        } else if self.innovators.contains(&p) {
            Role::Innovator
        } else {
            Role::User
        }
    }

    pub fn get_my_role(&self, caller: Principal) -> (r: Role)
        ensures
            r == self@.role_of(caller),
    {
        self.get_user_role(caller)
    }

    /// Whether removing `p` from the admins would leave none.
    pub fn is_last_admin(&self, p: Principal) -> (r: bool)
        requires
            self.wf(),
        ensures
            r == self@.is_last_admin(p),
    {
        self.admins.contains(&p) && self.admins.len() == 1
    }

    /// Whether `remove_admin(caller, p)` would take away the last admin and
    /// so must be aborted instead of being made.
    pub fn removal_is_fatal(&self, caller: Principal, p: Principal) -> (r: bool)
        requires
            self.wf(),
        ensures
            r == self@.removal_is_fatal(caller, p),
    {
        self.admins.contains(&caller) && self.is_last_admin(p)
    }

    /// Whether `set_role(caller, p, role)` would take the admin role from
    /// the last admin and so must be aborted instead of being made.
    pub fn demotion_is_fatal(&self, caller: Principal, p: Principal, role: Role) -> (r: bool)
        requires
            self.wf(),
        ensures
            r == self@.demotion_is_fatal(caller, p, role),
    {
        self.admins.contains(&caller) && self.find_user(p).is_some() && role != Role::Admin
            && self.is_last_admin(p)
    }

    /// Where the record of `p` stands, if it has one.
    fn find_user(&self, p: Principal) -> (r: Option<usize>)
        ensures
            match r {
                Some(i) => i < self.users@.len() && self.users@[i as int].principal == p
                    && has_user(self@.users, p),
                None => !has_user(self@.users, p),
            },
    {
        let mut i: usize = 0;
        while i < self.users.len()
            invariant
                i <= self.users@.len(),
                forall|j: int| 0 <= j < i ==> self.users@[j].principal != p,
            decreases self.users@.len() - i,
        {
            if self.users[i].principal == p {
                assert(self@.users[i as int].principal == p);
                return Some(i);
            }
            i += 1;
        }
        assert forall|j: int| 0 <= j < self@.users.len() implies #[trigger] self@.users[j].principal
            != p by {
            assert(self.users@[j].principal != p);
        }
        None
    }

    /// Writes `role` into the record of `p`, creating the record under
    /// `name` where there is none.
    fn put_member(&mut self, p: Principal, role: Role, name: &str, now: u64)
        requires
            old(self).admins.wf(),
            old(self).innovators.wf(),
            distinct_users(old(self)@.users),
            role == old(self)@.role_of(p),
            forall|i: int|
                0 <= i < old(self)@.users.len() && (#[trigger] old(self)@.users[i]).principal != p
                    ==> old(self)@.users[i].role == old(self)@.role_of(
                    old(self)@.users[i].principal,
                ),
        ensures
            final(self).wf(),
            final(self)@.admins == old(self)@.admins,
            final(self)@.innovators == old(self)@.innovators,
            final(self)@.users == with_member(old(self)@.users, p, role, name@, now),
    {
        let ghost before = self@.users;
        match self.find_user(p) {
            Some(i) => {
                self.users[i].role = role;
                proof {
                    lemma_index_of_user(before, p, i as int);
                    assert(self@.users =~= with_member(before, p, role, name@, now));
                }
            },
            None => {
                let user = RegisteredUser {
                    principal: p,
                    name: name.to_owned(),
                    email: String::new(),
                    role,
                    registered_at_ns: now,
                };
                self.users.push(user);
                proof {
                    assert(self@.users =~= with_member(before, p, role, name@, now));
                    assert forall|i: int, j: int|
                        0 <= i < self@.users.len() && 0 <= j < self@.users.len() && i
                            != j implies #[trigger] self@.users[i].principal
                        != #[trigger] self@.users[j].principal by {
                        if i < before.len() {
                            assert(before[i].principal != p);
                        }
                        if j < before.len() {
                            assert(before[j].principal != p);
                        }
                    }
                }
            },
        }
    }

    /// Writes `role` into the record of `p`, if there is one.
    fn put_cached_role(&mut self, p: Principal, role: Role)
        requires
            old(self).admins.wf(),
            old(self).innovators.wf(),
            distinct_users(old(self)@.users),
            role == old(self)@.role_of(p),
            forall|i: int|
                0 <= i < old(self)@.users.len() && (#[trigger] old(self)@.users[i]).principal != p
                    ==> old(self)@.users[i].role == old(self)@.role_of(
                    old(self)@.users[i].principal,
                ),
        ensures
            final(self).wf(),
            final(self)@.admins == old(self)@.admins,
            final(self)@.innovators == old(self)@.innovators,
            final(self)@.users == with_cached_role(old(self)@.users, p, role),
    {
        let ghost before = self@.users;
        match self.find_user(p) {
            Some(i) => {
                self.users[i].role = role;
                proof {
                    lemma_index_of_user(before, p, i as int);
                    assert(self@.users =~= with_cached_role(before, p, role));
                }
            },
            None => {},
        }
    }

    /// Registers the caller, or updates the name and email of its record.
    /// The role and the timestamp of an existing record stay.
    pub fn register_user(&mut self, caller: Principal, name: String, email: String, now: u64) -> (r:
        RegisteredUser)
        requires
            old(self).wf(),
        ensures
            final(self).wf(),
            final(self)@.admins == old(self)@.admins,
            final(self)@.innovators == old(self)@.innovators,
            final(self)@.users == with_registration(
                old(self)@.users,
                caller,
                name@,
                email@,
                old(self)@.role_of(caller),
                now,
            ),
            has_user(final(self)@.users, caller),
            r@ == final(self)@.users[index_of_user(final(self)@.users, caller)],
    {
        let ghost before = self@.users;
        let role = self.get_user_role(caller);
        match self.find_user(caller) {
            Some(i) => {
                self.users[i].name = name;
                self.users[i].email = email;
                proof {
                    lemma_index_of_user(before, caller, i as int);
                    assert(self@.users =~= with_registration(
                        before,
                        caller,
                        name@,
                        email@,
                        role,
                        now,
                    ));
                    assert(self@.users[i as int].principal == caller);
                    lemma_index_of_user(self@.users, caller, i as int);
                }
                self.users[i].clone()
            },
            None => {
                let user = RegisteredUser {
                    principal: caller,
                    name,
                    email,
                    role,
                    registered_at_ns: now,
                };
                let r = user.clone();
                self.users.push(user);
                proof {
                    assert(self@.users =~= with_registration(
                        before,
                        caller,
                        name@,
                        email@,
                        role,
                        now,
                    ));
                    assert forall|i: int, j: int|
                        0 <= i < self@.users.len() && 0 <= j < self@.users.len() && i
                            != j implies #[trigger] self@.users[i].principal
                        != #[trigger] self@.users[j].principal by {
                        if i < before.len() {
                            assert(before[i].principal != caller);
                        }
                        if j < before.len() {
                            assert(before[j].principal != caller);
                        }
                    }
                    assert(self@.users[before.len() as int].principal == caller);
                    lemma_index_of_user(self@.users, caller, before.len() as int);
                }
                r
            },
        }
    }

    /// Makes `p` an admin. Only an admin may do so.
    pub fn add_admin(&mut self, caller: Principal, p: Principal, now: u64) -> (r: Result<
        (),
        AdminError,
    >)
        requires
            old(self).wf(),
        ensures
            final(self).wf(),
            !old(self)@.admins.contains(caller) ==> r == Err::<(), AdminError>(
                AdminError::NotAuthorized,
            ) && final(self)@ == old(self)@,
            old(self)@.admins.contains(caller) ==> r is Ok && final(self)@ == (AccessView {
                admins: old(self)@.admins.insert(p),
                innovators: old(self)@.innovators,
                users: with_member(old(self)@.users, p, Role::Admin, "Admin"@, now),
            }),
            admin_step(old(self)@.admins, final(self)@.admins),
            old(self)@.admins.len() > 0 ==> final(self)@.admins.len() > 0,
    {
        if !self.is_admin(caller) {
            return Err(AdminError::NotAuthorized);
        }
        proof {
            self.admins.lemma_finite();
        }
        self.admins.insert(p);
        self.put_member(p, Role::Admin, "Admin", now);
        Ok(())
    }

    /// Takes `p` out of the admins; a principal that is no admin is left as
    /// it is. The record of `p` then shows the role that the sets give it.
    /// Removing the last admin is not allowed.
    pub fn remove_admin(&mut self, caller: Principal, p: Principal) -> (r: Result<(), AdminError>)
        requires
            old(self).wf(),
            !old(self)@.removal_is_fatal(caller, p),
        ensures
            final(self).wf(),
            !old(self)@.admins.contains(caller) ==> r == Err::<(), AdminError>(
                AdminError::NotAuthorized,
            ) && final(self)@ == old(self)@,
            old(self)@.admins.contains(caller) ==> r is Ok,
            old(self)@.admins.contains(caller) && !old(self)@.admins.contains(p) ==> final(self)@
                == old(self)@,
            old(self)@.admins.contains(caller) && old(self)@.admins.contains(p) ==> final(self)@
                == (AccessView {
                admins: old(self)@.admins.remove(p),
                innovators: old(self)@.innovators,
                users: with_cached_role(
                    old(self)@.users,
                    p,
                    role_in(Set::empty(), old(self)@.innovators, p),
                ),
            }),
            admin_step(old(self)@.admins, final(self)@.admins),
            old(self)@.admins.len() > 0 ==> final(self)@.admins.len() > 0,
    {
        if !self.is_admin(caller) {
            return Err(AdminError::NotAuthorized);
        }
        if !self.admins.contains(&p) {
            return Ok(());
        }
        proof {
            self.admins.lemma_finite();
        }
        self.admins.remove(&p);
        let role = self.get_user_role(p);
        self.put_cached_role(p, role);
        Ok(())
    }

    /// Gives the record of `p` the role `role` and moves `p` between the sets
    /// accordingly. Taking the admin role from the last admin is not allowed.
    pub fn set_role(&mut self, caller: Principal, p: Principal, role: Role) -> (r: Result<
        (),
        AdminError,
    >)
        requires
            old(self).wf(),
            !old(self)@.demotion_is_fatal(caller, p, role),
        ensures
            final(self).wf(),
            !old(self)@.admins.contains(caller) ==> r == Err::<(), AdminError>(
                AdminError::NotAuthorized,
            ),
            old(self)@.admins.contains(caller) && !has_user(old(self)@.users, p) ==> r == Err::<
                (),
                AdminError,
            >(AdminError::UserNotFound),
            r is Err ==> final(self)@ == old(self)@,
            old(self)@.admins.contains(caller) && has_user(old(self)@.users, p) ==> r is Ok
                && final(self)@ == (AccessView {
                admins: if role == Role::Admin {
                    old(self)@.admins.insert(p)
                } else {
                    old(self)@.admins.remove(p)
                },
                innovators: if role == Role::Innovator {
                    old(self)@.innovators.insert(p)
                } else {
                    old(self)@.innovators.remove(p)
                },
                users: with_cached_role(old(self)@.users, p, role),
            }),
            admin_step(old(self)@.admins, final(self)@.admins),
            old(self)@.admins.len() > 0 ==> final(self)@.admins.len() > 0,
    {
        if !self.is_admin(caller) {
            return Err(AdminError::NotAuthorized);
        }
        if self.find_user(p).is_none() {
            return Err(AdminError::UserNotFound);
        }
        proof {
            self.admins.lemma_finite();
        }
        match role {
            Role::Admin => {
                self.admins.insert(p);
                self.innovators.remove(&p);
            },
            Role::Innovator => {
                self.innovators.insert(p);
                self.admins.remove(&p);
            },
            Role::User => {
                self.admins.remove(&p);
                self.innovators.remove(&p);
            },
        }
        proof {
            let pre = old(self)@.admins;
            if role != Role::Admin {
                if pre.contains(p) {
                    assert(pre.remove(p).len() == pre.len() - 1);
                } else {
                    assert(pre.remove(p) =~= pre);
                }
            }
            assert(admin_step(pre, self@.admins));
        }
        self.put_cached_role(p, role);
        Ok(())
    }

    /// Makes `p` an innovator. Its record shows the role that the sets then
    /// give it, which is `Admin` for an admin.
    pub fn add_innovator(&mut self, caller: Principal, p: Principal, now: u64) -> (r: Result<
        (),
        AdminError,
    >)
        requires
            old(self).wf(),
        ensures
            final(self).wf(),
            !old(self)@.admins.contains(caller) ==> r == Err::<(), AdminError>(
                AdminError::NotAuthorized,
            ) && final(self)@ == old(self)@,
            old(self)@.admins.contains(caller) ==> r is Ok && final(self)@ == (AccessView {
                admins: old(self)@.admins,
                innovators: old(self)@.innovators.insert(p),
                users: with_member(
                    old(self)@.users,
                    p,
                    role_in(old(self)@.admins, set![p], p),
                    "Innovator"@,
                    now,
                ),
            }),
    {
        if !self.is_admin(caller) {
            return Err(AdminError::NotAuthorized);
        }
        self.innovators.insert(p);
        let role = self.get_user_role(p);
        self.put_member(p, role, "Innovator", now);
        Ok(())
    }

    /// Takes `p` out of the innovators. Its record then shows the role that
    /// the sets give it.
    pub fn remove_innovator(&mut self, caller: Principal, p: Principal) -> (r: Result<
        (),
        AdminError,
    >)
        requires
            old(self).wf(),
        ensures
            final(self).wf(),
            !old(self)@.admins.contains(caller) ==> r == Err::<(), AdminError>(
                AdminError::NotAuthorized,
            ) && final(self)@ == old(self)@,
            old(self)@.admins.contains(caller) ==> r is Ok && final(self)@ == (AccessView {
                admins: old(self)@.admins,
                innovators: old(self)@.innovators.remove(p),
                users: with_cached_role(
                    old(self)@.users,
                    p,
                    role_in(old(self)@.admins, Set::empty(), p),
                ),
            }),
    {
        if !self.is_admin(caller) {
            return Err(AdminError::NotAuthorized);
        }
        self.innovators.remove(&p);
        let role = self.get_user_role(p);
        self.put_cached_role(p, role);
        Ok(())
    }

    /// All records, in the order of first registration.
    pub fn get_users(&self) -> (r: Vec<RegisteredUser>)
        ensures
            r@.map_values(|u: RegisteredUser| u@) == self@.users,
    {
        let mut out: Vec<RegisteredUser> = Vec::new();
        let mut i: usize = 0;
        while i < self.users.len()
            invariant
                i <= self.users@.len(),
                out@ == self.users@.subrange(0, i as int),
            decreases self.users@.len() - i,
        {
            out.push(self.users[i].clone());
            assert(self.users@.subrange(0, i + 1) =~= self.users@.subrange(0, i as int).push(
                self.users@[i as int],
            ));
            i += 1;
        }
        assert(out@ =~= self.users@);
        out
    }

    /// The records whose role is `Innovator`, in the order of first
    /// registration.
    pub fn get_innovators(&self) -> (r: Vec<RegisteredUser>)
        ensures
            r@.map_values(|u: RegisteredUser| u@) == self@.users.filter(
                |u: RegisteredUserView| u.role == Role::Innovator,
            ),
    {
        let ghost pred = |u: RegisteredUserView| u.role == Role::Innovator;
        let ghost view_of = |u: RegisteredUser| u@;
        let mut out: Vec<RegisteredUser> = Vec::new();
        let mut i: usize = 0;
        assert(self@.users.subrange(0, 0) =~= Seq::<RegisteredUserView>::empty());
        assert(out@.map_values(view_of) =~= Seq::<RegisteredUserView>::empty());
        while i < self.users.len()
            invariant
                i <= self.users@.len(),
                pred == |u: RegisteredUserView| u.role == Role::Innovator,
                view_of == |u: RegisteredUser| u@,
                out@.map_values(view_of) == self@.users.subrange(0, i as int).filter(pred),
            decreases self.users@.len() - i,
        {
            let ghost seen = self@.users.subrange(0, i as int);
            proof {
                assert(self@.users.subrange(0, i + 1) =~= seen.push(self@.users[i as int]));
                seen.lemma_filter_push(self@.users[i as int], pred);
            }
            if self.users[i].role == Role::Innovator {
                let ghost before = out@;
                out.push(self.users[i].clone());
                assert(out@.map_values(view_of) =~= before.map_values(view_of).push(
                    self@.users[i as int],
                ));
            }
            i += 1;
        }
        assert(self@.users.subrange(0, i as int) =~= self@.users);
        out
    }
}

/// In a directory without duplicates, a position that holds `p` is the
/// position of `p`.
pub proof fn lemma_index_of_user(users: Seq<RegisteredUserView>, p: Principal, i: int)
    requires
        distinct_users(users),
        0 <= i < users.len(),
        users[i].principal == p,
    ensures
        has_user(users, p),
        index_of_user(users, p) == i,
{
}

/// The sole admin cannot lose the role. Where one principal is the only
/// admin, its own request to be removed is fatal, and so is its request for
/// another role once it has a record; no other request of an admin is.
pub proof fn lemma_sole_admin_is_kept(v: AccessView, a: Principal, p: Principal, role: Role)
    requires
        v.admins == set![a],
    ensures
        v.removal_is_fatal(a, a),
        has_user(v.users, a) && role != Role::Admin ==> v.demotion_is_fatal(a, a, role),
        p != a ==> !v.removal_is_fatal(a, p) && !v.demotion_is_fatal(a, p, role),
        !v.demotion_is_fatal(a, p, Role::Admin),
{
    assert(v.admins.len() == 1) by {
        assert(set![a] =~= Set::<Principal>::empty().insert(a));
    }
}

/// Along a run of states in which each follows from the one before by an
/// operation's step, an admin set that is not empty at the start is never
/// empty.
pub proof fn lemma_admins_never_emptied(run: Seq<Set<Principal>>, k: int)
    requires
        0 <= k < run.len(),
        run[0].finite(),
        run[0].len() > 0,
        forall|i: int| 0 <= i < run.len() - 1 ==> admin_step(#[trigger] run[i], run[i + 1]),
    ensures
        run[k].finite(),
        run[k].len() > 0,
    decreases k,
{
    if k > 0 {
        lemma_admins_never_emptied(run, k - 1);
        assert(admin_step(run[k - 1], run[k - 1 + 1]));
    }
}

/// The records `users` with each role set to what the sets give.
pub open spec fn with_roles_from(
    users: Seq<RegisteredUserView>,
    admins: Set<Principal>,
    innovators: Set<Principal>,
) -> Seq<RegisteredUserView> {
    Seq::new(
        users.len(),
        |i: int|
            RegisteredUserView { role: role_in(admins, innovators, users[i].principal), ..users[i] },
    )
}

/// The records of a list, each as its view.
pub open spec fn user_views(s: Seq<RegisteredUser>) -> Seq<RegisteredUserView> {
    s.map_values(|u: RegisteredUser| u@)
}

impl AccessControl {
    /// Whether the directory has a record for `p`.
    pub fn has_user(&self, p: Principal) -> (r: bool)
        ensures
            r == has_user(self@.users, p),
    {
        self.find_user(p).is_some()
    }

    /// The admins, each once.
    pub fn admins(&self) -> (v: Vec<Principal>)
        requires
            self.wf(),
        ensures
            v@.to_set() == self@.admins,
            v@.no_duplicates(),
    {
        self.admins.to_vec()
    }

    /// The innovators, each once.
    pub fn innovators(&self) -> (v: Vec<Principal>)
        requires
            self.wf(),
        ensures
            v@.to_set() == self@.innovators,
            v@.no_duplicates(),
    {
        self.innovators.to_vec()
    }

    /// Rebuilds the state from what was saved of it: the two sets and the
    /// directory. The sets decide the roles, so the role of each record is
    /// set from them. A directory with two records for one principal is
    /// refused.
    pub fn restore(
        admins: Vec<Principal>,
        innovators: Vec<Principal>,
        users: Vec<RegisteredUser>,
    ) -> (r: Option<Self>)
        ensures
            r is Some == distinct_users(user_views(users@)),
            r is Some ==> r->Some_0.wf() && r->Some_0@ == (AccessView {
                admins: admins@.to_set(),
                innovators: innovators@.to_set(),
                users: with_roles_from(
                    user_views(users@),
                    admins@.to_set(),
                    innovators@.to_set(),
                ),
            }),
    {
        let mut s = AccessControl {
            admins: PrincipalSet::from_vec(&admins),
            innovators: PrincipalSet::from_vec(&innovators),
            users: Vec::new(),
        };
        let ghost given = user_views(users@);
        let ghost target = with_roles_from(given, admins@.to_set(), innovators@.to_set());
        let mut i: usize = 0;
        assert(s@.users =~= target.subrange(0, 0));
        while i < users.len()
            invariant
                i <= users@.len(),
                given == user_views(users@),
                target == with_roles_from(given, admins@.to_set(), innovators@.to_set()),
                s.wf(),
                s@.admins == admins@.to_set(),
                s@.innovators == innovators@.to_set(),
                s@.users == target.subrange(0, i as int),
                distinct_users(given.subrange(0, i as int)),
            decreases users@.len() - i,
        {
            let p = users[i].principal;
            assert(given[i as int].principal == p);
            match s.find_user(p) {
                Some(j) => {
                    assert(s@.users[j as int].principal == p);
                    assert(target.subrange(0, i as int)[j as int] == s@.users[j as int]);
                    assert(target[j as int].principal == given[j as int].principal);
                    assert(given[j as int].principal == given[i as int].principal);
                    return None;
                },
                None => {},
            }
            let role = s.get_user_role(p);
            let ghost before = s@.users;
            let mut user = users[i].clone();
            user.role = role;
            s.users.push(user);
            proof {
                assert(s@.users =~= before.push(target[i as int]));
                assert(target.subrange(0, i + 1) =~= before.push(target[i as int]));
                assert forall|a: int, b: int|
                    0 <= a < i + 1 && 0 <= b < i + 1 && a != b implies #[trigger] given.subrange(
                    0,
                    i + 1,
                )[a].principal != #[trigger] given.subrange(0, i + 1)[b].principal by {
                    if a < i && b < i {
                        assert(given.subrange(0, i as int)[a].principal != given.subrange(
                            0,
                            i as int,
                        )[b].principal);
                    } else if a < i {
                        assert(before[a].principal == given[a].principal);
                        assert(before[a].principal != p);
                    } else {
                        assert(before[b].principal == given[b].principal);
                        assert(before[b].principal != p);
                    }
                }
                assert forall|a: int, b: int|
                    0 <= a < s@.users.len() && 0 <= b < s@.users.len() && a
                        != b implies #[trigger] s@.users[a].principal
                    != #[trigger] s@.users[b].principal by {
                    assert(s@.users[a].principal == given.subrange(0, i + 1)[a].principal);
                    assert(s@.users[b].principal == given.subrange(0, i + 1)[b].principal);
                }
            }
            i += 1;
        }
        assert(given.subrange(0, i as int) =~= given);
        assert(target.subrange(0, i as int) =~= target);
        Some(s)
    }
}

} // verus!
