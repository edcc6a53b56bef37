//! The role hierarchy: an ordered set of permission levels.

use crate::text::same_text;
use vstd::prelude::*;

verus! {

/// A permission level. Later variants outrank earlier ones.
#[derive(Clone, Copy, Debug, PartialEq, Eq, Structural)]
pub enum Role {
    Guest,
    Member,
    Moderator,
    Admin,
}

impl Role {
    /// The rank of the role: higher means more privilege.
    pub open spec fn rank(self) -> nat {
        match self {
            Role::Guest => 0,
            Role::Member => 1,
            Role::Moderator => 2,
            Role::Admin => 3,
        }
    }

    /// The name under which the role is stored.
    pub open spec fn label(self) -> Seq<char> {
        match self {
            Role::Guest => "Guest"@,
            Role::Member => "Member"@,
            Role::Moderator => "Moderator"@,
            Role::Admin => "Admin"@,
        }
    }

    /// The role that a stored name denotes, if it denotes one.
    pub open spec fn parsed(s: Seq<char>) -> Option<Role> {
        if s == "Guest"@ {
            Some(Role::Guest)
        } else if s == "Member"@ {
            Some(Role::Member)
        } else if s == "Moderator"@ {
            Some(Role::Moderator)
        } else if s == "Admin"@ {
            Some(Role::Admin)
        } else {
            None
        }
    }

    /// The role given to an identity on first contact.
    pub open spec fn lowest() -> Role {
        Role::Guest
    }

    /// The rank of the role.
    pub fn level(&self) -> (r: u8)
        ensures
            r == self.rank(),
    {
        match self {
            Role::Guest => 0,
            Role::Member => 1,
            Role::Moderator => 2,
            Role::Admin => 3,
        }
    }

    /// The name under which the role is stored.
    pub fn name(&self) -> (s: &'static str)
        ensures
            s@ == self.label(),
    {
        match self {
            Role::Guest => "Guest",
            Role::Member => "Member",
            Role::Moderator => "Moderator",
            Role::Admin => "Admin",
        }
    }

    /// Reads a stored role name. Names are case-sensitive; anything else denotes no role.
    pub fn parse(s: &str) -> (r: Option<Role>)
        ensures
            r == Role::parsed(s@),
    {
        if same_text(s, "Guest") {
            Some(Role::Guest)
        } else if same_text(s, "Member") {
            Some(Role::Member)
        } else if same_text(s, "Moderator") {
            Some(Role::Moderator)
        } else if same_text(s, "Admin") {
            Some(Role::Admin)
        } else {
            None
        }
    }

    /// Whether a holder of this role may do what asks for `required`: the rank is at
    /// least the required one, and an equal rank suffices.
    pub fn allows(&self, required: Role) -> (b: bool)
        ensures
            b == (self.rank() >= required.rank()),
    {
        self.level() >= required.level()
    }
}

/// The ranks order the roles totally: two roles of one rank are the same role, and of
/// any two roles one allows what the other requires.
pub proof fn lemma_rank_total_order(a: Role, b: Role, c: Role)
    ensures
        a.rank() == b.rank() ==> a == b,
        a.rank() >= b.rank() || b.rank() >= a.rank(),
        a.rank() >= b.rank() && b.rank() >= c.rank() ==> a.rank() >= c.rank(),
        a.rank() >= Role::lowest().rank(),
{
}

/// The four stored names differ from one another.
pub proof fn lemma_labels_differ(a: Role, b: Role)
    ensures
        a.label() == b.label() ==> a == b,
{
    reveal_strlit("Guest");
    reveal_strlit("Member");
    reveal_strlit("Moderator");
    reveal_strlit("Admin");
    if a != b {
        assert(a.label().len() != b.label().len() || a.label()[0] != b.label()[0]);
    }
}

/// A role is read back from the name under which it is stored.
pub proof fn lemma_name_round_trip(r: Role)
    ensures
        Role::parsed(r.label()) == Some(r),
{
    lemma_labels_differ(r, Role::Guest);
    lemma_labels_differ(r, Role::Member);
    lemma_labels_differ(r, Role::Moderator);
    lemma_labels_differ(r, Role::Admin);
}

} // verus!
