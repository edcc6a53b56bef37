//! The user table and the permission gate.

use crate::role::Role;
use vstd::prelude::*;

verus! {

/// A user record: an identity and the stored name of its role.
#[derive(Clone, Debug, PartialEq, Eq)]
pub struct User {
    pub discordid: u64,
    pub role: String,
}

/// What a user record holds.
pub struct UserView {
    pub discordid: u64,
    pub role: Seq<char>,
}

impl View for User {
    type V = UserView;

    open spec fn view(&self) -> UserView {
        UserView { discordid: self.discordid, role: self.role@ }
    }
}

/// The user records, oldest first.
pub struct UserTable {
    pub users: Vec<User>,
}

impl View for UserTable {
    type V = Seq<UserView>;

    open spec fn view(&self) -> Seq<UserView> {
        self.users@.map_values(|u: User| u@)
    }
}

/// The position of the first record of `id` in `users`, if it has one.
pub open spec fn position_of(users: Seq<UserView>, id: u64) -> Option<int>
    decreases users.len(),
{
    if users.len() == 0 {
        None
    } else {
        match position_of(users.drop_last(), id) {
            Some(i) => Some(i),
            None => if users.last().discordid == id {
                Some(users.len() - 1)
            } else {
                None
            },
        }
    }
}

/// Whether `users` holds a record of `id`.
pub open spec fn knows(users: Seq<UserView>, id: u64) -> bool {
    exists|i: int| 0 <= i < users.len() && #[trigger] users[i].discordid == id
}

/// `position_of` gives the first record of `id`, and none exactly when there is none.
pub proof fn lemma_position_of(users: Seq<UserView>, id: u64)
    ensures
        match position_of(users, id) {
            Some(i) => 0 <= i < users.len() && users[i].discordid == id && forall|j: int|
                0 <= j < i ==> (#[trigger] users[j]).discordid != id,
            None => forall|j: int| 0 <= j < users.len() ==> (#[trigger] users[j]).discordid != id,
        },
        position_of(users, id) is Some <==> knows(users, id),
    decreases users.len(),
{
    if users.len() > 0 {
        lemma_position_of(users.drop_last(), id);
        assert(forall|j: int| 0 <= j < users.len() - 1 ==> users.drop_last()[j] == users[j]);
    }
}

/// The answer of the permission gate.
#[derive(Clone, Copy, Debug, PartialEq, Eq, Structural)]
pub struct Authorization {
    /// Whether the user may run the command.
    pub allowed: bool,
    /// The user's current role; none when the stored name denotes no role.
    pub role: Option<Role>,
}

/// The answer for a user whose stored role name is `stored`: allowed exactly when
/// the name denotes a role whose rank is at least that of `required`.
pub open spec fn verdict(stored: Seq<char>, required: Role) -> Authorization {
    match Role::parsed(stored) {
        Some(role) => Authorization {
            allowed: role.rank() >= required.rank(),
            role: Some(role),
        },
        None => Authorization { allowed: false, role: None },
    }
}

/// The stored role name of `id`, which is that of the lowest role for an identity that
/// has no record yet.
pub open spec fn stored_role(users: Seq<UserView>, id: u64) -> Seq<char> {
    match position_of(users, id) {
        Some(i) => users[i].role,
        None => Role::lowest().label(),
    }
}

/// The table after the permission check has looked at `id`: an unknown identity has been given a
/// record with the lowest role, at the end; a known one changes nothing.
pub open spec fn provisioned(users: Seq<UserView>, id: u64) -> Seq<UserView> {
    if knows(users, id) {
        users
    } else {
        users.push(UserView { discordid: id, role: Role::lowest().label() })
    }
}

impl UserTable {
    /// An empty table.
    pub fn new() -> (t: UserTable)
        ensures
            t@ == Seq::<UserView>::empty(),
    {
        let t = UserTable { users: Vec::new() };
        assert(t@ =~= Seq::<UserView>::empty());
        t
    }

    /// The number of records.
    pub fn len(&self) -> (n: usize)
        ensures
            n == self@.len(),
    {
        self.users.len()
    }

    /// The position of the first record of `id`.
    pub fn find(&self, id: u64) -> (r: Option<usize>)
        ensures
            match r {
                Some(i) => position_of(self@, id) == Some(i as int),
                None => position_of(self@, id) is None,
            },
    {
        let mut i: usize = 0;
        while i < self.users.len()
            invariant
                i <= self.users.len(),
                forall|j: int| 0 <= j < i ==> (#[trigger] self@[j]).discordid != id,
            decreases self.users.len() - i,
        {
            if self.users[i].discordid == id {
                proof {
                    assert(self@[i as int] == self.users@[i as int]@);
                    lemma_position_of(self@, id);
                }
                return Some(i);
            }
            i += 1;
        }
        proof {
            lemma_position_of(self@, id);
        }
        None
    }

    /// Appends a record of `id` with the stored role name `role`.
    pub fn user_add(&mut self, id: u64, role: &str)
        ensures
            final(self)@ == old(self)@.push(UserView { discordid: id, role: role@ }),
    {
        self.users.push(User { discordid: id, role: role.to_owned() });
        assert(self@ =~= old(self)@.push(UserView { discordid: id, role: role@ }));
    }

    /// Gives `id` a record with the lowest role unless it has one. Returns whether a
    /// record was added.
    pub fn ensure_known(&mut self, id: u64) -> (added: bool)
        ensures
            final(self)@ == provisioned(old(self)@, id),
            added == !knows(old(self)@, id),
            knows(final(self)@, id),
    {
        proof {
            lemma_position_of(self@, id);
        }
        match self.find(id) {
            Some(_) => false,
            None => {
                self.user_add(id, Role::Guest.name());
                assert(self@.last().discordid == id);
                true
            },
        }
    }

    /// The permission gate. Looks up the acting identity, giving it a record with the
    /// lowest role on first contact, and compares its role with the required one.
    pub fn authorize(&mut self, id: u64, required: Role) -> (a: Authorization)
        ensures
            final(self)@ == provisioned(old(self)@, id),
            a == verdict(stored_role(old(self)@, id), required),
    {
        proof {
            lemma_position_of(self@, id);
            crate::role::lemma_name_round_trip(Role::Guest);
        }
        match self.find(id) {
            Some(i) => {
                assert(self@[i as int] == self.users@[i as int]@);
                match Role::parse(self.users[i].role.as_str()) {
                    Some(role) => Authorization { allowed: role.allows(required), role: Some(role) },
                    None => Authorization { allowed: false, role: None },
                }
            },
            None => {
                self.user_add(id, Role::Guest.name());
                Authorization { allowed: Role::Guest.allows(required), role: Some(Role::Guest) }
            },
        }
    }
}

/// The permission check allows a user exactly when the rank of the current role is at least the
/// required rank; a stored name that denotes no role is never allowed.
pub proof fn lemma_allowed_iff_rank(stored: Seq<char>, required: Role)
    ensures
        match Role::parsed(stored) {
            Some(current) => verdict(stored, required).allowed == (current.rank()
                >= required.rank()) && verdict(stored, required).role == Some(current),
            None => !verdict(stored, required).allowed,
        },
{
}

/// An identity on first contact holds the lowest role, so it is allowed exactly what the
/// lowest role suffices for.
pub proof fn lemma_first_contact(users: Seq<UserView>, id: u64, required: Role)
    requires
        !knows(users, id),
    ensures
        verdict(stored_role(users, id), required).role == Some(Role::lowest()),
        verdict(stored_role(users, id), required).allowed == (required == Role::lowest()),
        knows(provisioned(users, id), id),
{
    lemma_position_of(users, id);
    crate::role::lemma_name_round_trip(Role::Guest);
    let p = provisioned(users, id);
    assert(p[p.len() - 1].discordid == id);
}

} // verus!
