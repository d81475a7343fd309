//! Reconciliation: which of the roles a user has earned are still to be
//! granted, and what the user holds once they are.

use vstd::prelude::*;

verus! {

/// The roles of `qualifying` that `held` lacks, in the order of `qualifying`.
pub open spec fn missing_seq(qualifying: Seq<u64>, held: Seq<u64>) -> Seq<u64> {
    qualifying.filter(|role: u64| !held.contains(role))
}

/// Whether `role` is among `held`.
pub fn holds(held: &Vec<u64>, role: u64) -> (r: bool)
    ensures
        r == held@.contains(role),
{
    let mut i: usize = 0;
    while i < held.len()
        invariant
            i <= held.len(),
            forall|h: int| 0 <= h < i ==> held[h] != role,
        decreases held.len() - i,
    {
        if held[i] == role {
            return true;
        }
        i += 1;
    }
    false
}

/// What is left to grant: the roles a user has earned and does not hold yet,
/// in the order in which they were earned. Nothing the user holds beyond
/// `qualifying` shows up here, so nothing is ever taken away.
pub fn missing_privileges(qualifying: &Vec<u64>, held: &Vec<u64>) -> (r: Vec<u64>)
    ensures
        r@ == missing_seq(qualifying@, held@),
        r@.to_set() == qualifying@.to_set().difference(held@.to_set()),
        qualifying@.no_duplicates() ==> r@.no_duplicates(),
{
    let mut out: Vec<u64> = Vec::new();
    let n = qualifying.len();
    let mut i: usize = 0;
    proof {
        lemma_missing_of_none(held@);
    }
    while i < n
        invariant
            n == qualifying.len(),
            i <= n,
            out@ == missing_seq(qualifying@.take(i as int), held@),
        decreases n - i,
    {
        let role = qualifying[i];
        proof {
            lemma_missing_step(qualifying@, held@, i as int);
        }
        if !holds(held, role) {
            out.push(role);
        }
        i += 1;
    }
    proof {
        assert(qualifying@.take(n as int) =~= qualifying@);
        lemma_missing_members(qualifying@, held@);
        if qualifying@.no_duplicates() {
            lemma_missing_distinct(qualifying@, held@);
        }
    }
    out
}

/// A user who has earned nothing is missing nothing.
pub proof fn lemma_missing_of_none(held: Seq<u64>)
    ensures
        missing_seq(Seq::<u64>::empty(), held) == Seq::<u64>::empty(),
{
    Seq::<u64>::empty().lemma_filter_len(|role: u64| !held.contains(role));
}

/// Looking at one more earned role either appends it or changes nothing.
pub proof fn lemma_missing_step(qualifying: Seq<u64>, held: Seq<u64>, i: int)
    requires
        0 <= i < qualifying.len(),
    ensures
        missing_seq(qualifying.take(i + 1), held) == if held.contains(qualifying[i]) {
            missing_seq(qualifying.take(i), held)
        } else {
            missing_seq(qualifying.take(i), held).push(qualifying[i])
        },
{
    let lacking = |role: u64| !held.contains(role);
    assert(qualifying.take(i + 1) =~= qualifying.take(i).push(qualifying[i]));
    Seq::lemma_filter_push(qualifying.take(i), qualifying[i], lacking);
}

/// A role is missing exactly when it was earned and is not held.
pub proof fn lemma_missing_contains(qualifying: Seq<u64>, held: Seq<u64>, role: u64)
    ensures
        missing_seq(qualifying, held).contains(role) <==> qualifying.contains(role)
            && !held.contains(role),
{
    let lacking = |role: u64| !held.contains(role);
    let missing = missing_seq(qualifying, held);
    if missing.contains(role) {
        let k = choose|k: int| 0 <= k < missing.len() && missing[k] == role;
        qualifying.lemma_filter_pred(lacking, k);
        qualifying.lemma_filter_contains_rev(lacking, role);
    }
    if qualifying.contains(role) && !held.contains(role) {
        let i = choose|i: int| 0 <= i < qualifying.len() && qualifying[i] == role;
        qualifying.lemma_filter_contains(lacking, i);
    }
}

/// As sets: what is missing is what was earned, less what is held.
pub proof fn lemma_missing_members(qualifying: Seq<u64>, held: Seq<u64>)
    ensures
        missing_seq(qualifying, held).to_set() == qualifying.to_set().difference(held.to_set()),
{
    assert forall|role: u64|
        missing_seq(qualifying, held).to_set().contains(role) <==> qualifying.to_set().difference(
            held.to_set(),
        ).contains(role) by {
        lemma_missing_contains(qualifying, held, role);
    }
    assert(missing_seq(qualifying, held).to_set() =~= qualifying.to_set().difference(
        held.to_set(),
    ));
}

/// Where no role was earned twice, none is missing twice.
pub proof fn lemma_missing_distinct(qualifying: Seq<u64>, held: Seq<u64>)
    requires
        qualifying.no_duplicates(),
    ensures
        missing_seq(qualifying, held).no_duplicates(),
    decreases qualifying.len(),
{
    if qualifying.len() == 0 {
        lemma_missing_of_none(held);
    } else {
        let last = qualifying.len() - 1;
        let before = qualifying.take(last);
        assert(qualifying.take(last + 1) =~= qualifying);
        lemma_missing_step(qualifying, held, last);
        lemma_missing_distinct(before, held);
        lemma_missing_contains(before, held, qualifying[last]);
        assert(!before.contains(qualifying[last]));
    }
}

/// The roles held once `role` has been granted: granting a role that is
/// held already changes nothing.
pub open spec fn with_role(held: Seq<u64>, role: u64) -> Seq<u64> {
    if held.contains(role) {
        held
    } else {
        held.push(role)
    }
}

/// The roles held once each of `roles` has been granted in turn.
pub open spec fn with_roles(held: Seq<u64>, roles: Seq<u64>) -> Seq<u64>
    decreases roles.len(),
{
    if roles.len() == 0 {
        held
    } else {
        with_role(with_roles(held, roles.drop_last()), roles.last())
    }
}

/// The roles held after a reconciliation in which every grant went through:
/// what was held, then what was missing.
pub open spec fn reconciled(held: Seq<u64>, qualifying: Seq<u64>) -> Seq<u64> {
    with_roles(held, missing_seq(qualifying, held))
}

/// Granting one more role after `roles.take(i)` gives what granting
/// `roles.take(i + 1)` gives.
pub proof fn lemma_with_roles_step(held: Seq<u64>, roles: Seq<u64>, i: int)
    requires
        0 <= i < roles.len(),
    ensures
        with_roles(held, roles.take(i + 1)) == with_role(
            with_roles(held, roles.take(i)),
            roles[i],
        ),
{
    assert(roles.take(i + 1).drop_last() =~= roles.take(i));
}

/// After granting `roles`, a role is held exactly if it was held before or
/// is one of `roles`; what was held before still comes first, in its order.
pub proof fn lemma_with_roles_members(held: Seq<u64>, roles: Seq<u64>)
    ensures
        held.is_prefix_of(with_roles(held, roles)),
        forall|role: u64|
            with_roles(held, roles).contains(role) <==> held.contains(role) || roles.contains(
                role,
            ),
    decreases roles.len(),
{
    if roles.len() > 0 {
        let before = with_roles(held, roles.drop_last());
        lemma_with_roles_members(held, roles.drop_last());
        let after = with_roles(held, roles);
        assert forall|role: u64| after.contains(role) <==> held.contains(role) || roles.contains(
            role,
        ) by {
            if held.contains(role) {
                let k = choose|k: int| 0 <= k < before.len() && before[k] == role;
                assert(after[k] == role);
            }
            if roles.contains(role) {
                let j = choose|j: int| 0 <= j < roles.len() && roles[j] == role;
                if j < roles.len() - 1 {
                    assert(roles.drop_last()[j] == role);
                    let k = choose|k: int| 0 <= k < before.len() && before[k] == role;
                    assert(after[k] == role);
                } else if !before.contains(role) {
                    assert(after[before.len() as int] == role);
                }
            }
        }
    }
}

/// A reconciliation in which every grant goes through leaves the user with
/// what they held and what they have earned, and with nothing else.
pub proof fn lemma_reconciled_members(held: Seq<u64>, qualifying: Seq<u64>)
    ensures
        reconciled(held, qualifying).to_set() == held.to_set().union(qualifying.to_set()),
{
    let missing = missing_seq(qualifying, held);
    lemma_with_roles_members(held, missing);
    assert forall|role: u64|
        reconciled(held, qualifying).to_set().contains(role) <==> held.to_set().union(
            qualifying.to_set(),
        ).contains(role) by {
        lemma_missing_contains(qualifying, held, role);
    }
}

/// Where no role was earned twice, the roles held after a reconciliation
/// are those held before followed by the missing ones.
pub proof fn lemma_reconciled_appends(held: Seq<u64>, qualifying: Seq<u64>)
    requires
        qualifying.no_duplicates(),
    ensures
        reconciled(held, qualifying) == held + missing_seq(qualifying, held),
{
    let missing = missing_seq(qualifying, held);
    lemma_missing_distinct(qualifying, held);
    assert forall|k: int| 0 <= k < missing.len() implies !held.contains(#[trigger] missing[k]) by {
        lemma_missing_contains(qualifying, held, missing[k]);
    }
    lemma_with_fresh_roles(held, missing);
}

/// Granting roles of which none is held yet, and none named twice, appends
/// them.
pub proof fn lemma_with_fresh_roles(held: Seq<u64>, roles: Seq<u64>)
    requires
        roles.no_duplicates(),
        forall|k: int| 0 <= k < roles.len() ==> !held.contains(#[trigger] roles[k]),
    ensures
        with_roles(held, roles) == held + roles,
    decreases roles.len(),
{
    if roles.len() > 0 {
        let front = roles.drop_last();
        lemma_with_fresh_roles(held, front);
        lemma_with_roles_members(held, front);
        assert(!front.contains(roles.last()));
    }
}

/// Once everything missing has been granted, nothing is missing any more: a
/// second reconciliation on the heels of a first grants nothing and leaves
/// the held roles as the first left them.
pub proof fn lemma_reconcile_idempotent(held: Seq<u64>, qualifying: Seq<u64>)
    ensures
        missing_seq(qualifying, reconciled(held, qualifying)) == Seq::<u64>::empty(),
        reconciled(reconciled(held, qualifying), qualifying) == reconciled(held, qualifying),
{
    let after = reconciled(held, qualifying);
    let again = missing_seq(qualifying, after);
    if again.len() > 0 {
        let role = again[0];
        lemma_missing_contains(qualifying, after, role);
        lemma_missing_contains(qualifying, held, role);
        lemma_with_roles_members(held, missing_seq(qualifying, held));
    }
}

/// Reconciliation only ever adds: every role held before is held
/// afterwards, in its old place, whether or not it was ever earned. This
/// holds of a reconciliation that was cut short as well, since granting any
/// roles at all takes none away.
pub proof fn lemma_reconcile_never_revokes(held: Seq<u64>, qualifying: Seq<u64>, role: u64)
    requires
        held.contains(role),
    ensures
        reconciled(held, qualifying).contains(role),
        held.is_prefix_of(reconciled(held, qualifying)),
        forall|granted: Seq<u64>| #[trigger] with_roles(held, granted).contains(role),
{
    lemma_with_roles_members(held, missing_seq(qualifying, held));
    assert forall|granted: Seq<u64>| #[trigger] with_roles(held, granted).contains(role) by {
        lemma_with_roles_members(held, granted);
    }
}

} // verus!
