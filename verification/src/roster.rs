//! The members of a community and the roles they hold, held in memory.

use crate::error::GrantError;
use crate::reconcile::holds;
use std::collections::HashMap;
use vstd::prelude::*;

verus! {

broadcast use vstd::std_specs::hash::group_hash_axioms;

/// No member holds a role twice.
pub open spec fn distinct_roles(members: Map<u64, Seq<u64>>) -> bool {
    forall|user_id: u64| #[trigger]
        members.contains_key(user_id) ==> members[user_id].no_duplicates()
}

/// The members of one community held in memory, each with the roles they
/// hold in the order in which they were granted. A roster starts empty and
/// changes by [`Roster::enroll`] and [`Roster::grant`] alone, neither of
/// which makes a member hold a role twice.
pub struct Roster {
    members: HashMap<u64, Vec<u64>>,
}

impl View for Roster {
    type V = Map<u64, Seq<u64>>;

    closed spec fn view(&self) -> Map<u64, Seq<u64>> {
        self.members@.map_values(|held: Vec<u64>| held@)
    }
}

impl Roster {
    /// A community without members.
    pub fn new() -> (r: Roster)
        ensures
            r@ == Map::<u64, Seq<u64>>::empty(),
            distinct_roles(r@),
    {
        let members: HashMap<u64, Vec<u64>> = HashMap::new();
        Roster { members }
    }

    /// Makes `user_id` a member who holds no role yet. A user who is a
    /// member already keeps what they hold.
    pub fn enroll(&mut self, user_id: u64)
        ensures
            final(self)@ == if old(self)@.contains_key(user_id) {
                old(self)@
            } else {
                old(self)@.insert(user_id, Seq::<u64>::empty())
            },
            distinct_roles(old(self)@) ==> distinct_roles(final(self)@),
    {
        if !self.members.contains_key(&user_id) {
            let ghost before = self.members@;
            self.members.insert(user_id, Vec::new());
            assert(self.members@.map_values(|held: Vec<u64>| held@) =~= before.map_values(
                |held: Vec<u64>| held@,
            ).insert(user_id, Seq::<u64>::empty()));
        }
    }

    /// The roles `user_id` holds, or `None` for a user who is not a member.
    pub fn held_privileges(&self, user_id: u64) -> (r: Option<Vec<u64>>)
        ensures
            match r {
                Some(held) => self@.contains_key(user_id) && held@ == self@[user_id],
                None => !self@.contains_key(user_id),
            },
    {
        match self.members.get(&user_id) {
            Some(held) => {
                let copy = held.clone();
                Some(copy)
            },
            None => None,
        }
    }

    /// Grants `role` to `user_id`. Granting a role that the member holds
    /// already changes nothing and succeeds. Nobody else is touched, and a
    /// user who is not a member is refused.
    pub fn grant(&mut self, user_id: u64, role: u64) -> (r: Result<(), GrantError>)
        ensures
            match r {
                Ok(_) => old(self)@.contains_key(user_id) && final(self)@ == if old(self)@[user_id]
                    .contains(role) {
                    old(self)@
                } else {
                    old(self)@.insert(user_id, old(self)@[user_id].push(role))
                },
                Err(e) => e == GrantError::UnknownMember && !old(self)@.contains_key(user_id)
                    && final(self)@ == old(self)@,
            },
            distinct_roles(old(self)@) ==> distinct_roles(final(self)@),
    {
        let ghost before = self.members@;
        match self.members.remove(&user_id) {
            None => {
                assert(self.members@ =~= before);
                Err(GrantError::UnknownMember)
            },
            Some(held) => {
                let mut held = held;
                if !holds(&held, role) {
                    held.push(role);
                }
                let ghost held_after = held@;
                self.members.insert(user_id, held);
                assert(self.members@.map_values(|held: Vec<u64>| held@) =~= before.map_values(
                    |held: Vec<u64>| held@,
                ).insert(user_id, held_after));
                Ok(())
            },
        }
    }
}

} // verus!
