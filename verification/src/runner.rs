//! Processing carried out against a store and a community held in memory.

use crate::counter::{count_of, incremented, CounterStore};
use crate::engine::{
    grants_left, phases_left, Action, MessageEvent, Outcome, OutcomeView, PhaseView, Processing,
    ProcessingView,
};
use crate::error::StoreError;
use crate::reconcile::{
    lemma_reconcile_idempotent, lemma_reconcile_never_revokes, lemma_reconciled_members,
    lemma_with_roles_step, missing_privileges, missing_seq, reconciled, with_role, with_roles,
};
use crate::roster::{distinct_roles, Roster};
use crate::thresholds::{
    lemma_qualifying_seq_members, qualifying_seq, qualifying_set, RoleConfig, ThresholdTable,
};
use vstd::pervasive::unreached;
use vstd::prelude::*;

verus! {

/// The community after `user_id` has been reconciled with `qualifying` and
/// every grant has gone through. A user who is not a member leaves the
/// community as it is.
pub open spec fn reconciled_members(
    members: Map<u64, Seq<u64>>,
    user_id: u64,
    qualifying: Seq<u64>,
) -> Map<u64, Seq<u64>> {
    if members.contains_key(user_id) {
        members.insert(user_id, reconciled(members[user_id], qualifying))
    } else {
        members
    }
}

/// Brings the roles that `user_id` holds in `roster` up to `qualifying`:
/// reads what the user holds, and grants what is missing, role by role.
/// Returns the roles granted, in the order of `qualifying`, or `None` for a
/// user who is not a member, for whom nothing is done. Nothing is ever
/// taken from anybody, and nobody else is touched.
pub fn reconcile(roster: &mut Roster, user_id: u64, qualifying: &Vec<u64>) -> (r: Option<
    Vec<u64>,
>)
    ensures
        final(roster)@ == reconciled_members(old(roster)@, user_id, qualifying@),
        match r {
            Some(granted) => old(roster)@.contains_key(user_id) && granted@ == missing_seq(
                qualifying@,
                old(roster)@[user_id],
            ),
            None => !old(roster)@.contains_key(user_id),
        },
        old(roster)@.contains_key(user_id) ==> final(roster)@[user_id].to_set() == old(roster)@[
            user_id].to_set().union(qualifying@.to_set()),
        distinct_roles(old(roster)@) ==> distinct_roles(final(roster)@),
{
    let ghost before = roster@;
    proof {
        if before.contains_key(user_id) {
            lemma_reconciled_members(before[user_id], qualifying@);
        }
    }
    match roster.held_privileges(user_id) {
        None => None,
        Some(held) => {
            let missing = missing_privileges(qualifying, &held);
            let n = missing.len();
            let mut i: usize = 0;
            while i < n
                invariant
                    n == missing.len(),
                    i <= n,
                    before.contains_key(user_id),
                    held@ == before[user_id],
                    roster@ == before.insert(
                        user_id,
                        with_roles(held@, missing@.take(i as int)),
                    ),
                    distinct_roles(before) ==> distinct_roles(roster@),
                decreases n - i,
            {
                proof {
                    lemma_with_roles_step(held@, missing@, i as int);
                }
                let ghost now = roster@;
                let _ = roster.grant(user_id, missing[i]);
                assert(roster@ =~= before.insert(
                    user_id,
                    with_role(now[user_id], missing[i as int]),
                ));
                i += 1;
            }
            assert(missing@.take(n as int) =~= missing@);
            Some(missing)
        },
    }
}

/// Whether processing `event` gets as far as granting: the count can grow,
/// the new count earns a role, and the author is a member of the community
/// the message was sent in.
pub open spec fn reaches_grants(
    table: Seq<RoleConfig>,
    counts: Map<u64, u64>,
    members: Map<u64, Seq<u64>>,
    event: MessageEvent,
) -> bool {
    &&& count_of(counts, event.author_id) < u64::MAX
    &&& qualifying_seq(table, count_of(counts, event.author_id) + 1).len() > 0
    &&& event.community_id is Some
    &&& members.contains_key(event.author_id)
}

/// The community after `event` has been processed.
pub open spec fn processed_members(
    table: Seq<RoleConfig>,
    counts: Map<u64, u64>,
    members: Map<u64, Seq<u64>>,
    event: MessageEvent,
) -> Map<u64, Seq<u64>> {
    if reaches_grants(table, counts, members, event) {
        members.insert(
            event.author_id,
            reconciled(
                members[event.author_id],
                qualifying_seq(table, count_of(counts, event.author_id) + 1),
            ),
        )
    } else {
        members
    }
}

/// How the processing of `event` ends.
pub open spec fn processed_outcome(
    table: Seq<RoleConfig>,
    counts: Map<u64, u64>,
    members: Map<u64, Seq<u64>>,
    event: MessageEvent,
) -> OutcomeView {
    let before = count_of(counts, event.author_id);
    if before >= u64::MAX {
        OutcomeView::CountFailed(StoreError::Saturated)
    } else {
        let count = (before + 1) as u64;
        let qualifying = qualifying_seq(table, count as nat);
        if qualifying.len() == 0 {
            OutcomeView::BelowThresholds { count }
        } else if event.community_id is None || !members.contains_key(event.author_id) {
            OutcomeView::UserUnresolved { count }
        } else {
            OutcomeView::Reconciled {
                count,
                granted: missing_seq(qualifying, members[event.author_id]),
                failed: Seq::empty(),
            }
        }
    }
}

/// What holds between two steps of [`process_message`]: the pending action
/// is the one the phase calls for, and the store and the community are
/// where the steps taken so far have brought them.
spec fn on_track(
    table: Seq<RoleConfig>,
    counts0: Map<u64, u64>,
    members0: Map<u64, Seq<u64>>,
    event: MessageEvent,
    state: ProcessingView,
    action: Action,
    counts: Map<u64, u64>,
    members: Map<u64, Seq<u64>>,
) -> bool {
    let author = event.author_id;
    let before = count_of(counts0, author);
    &&& state.event == event
    &&& match state.phase {
        PhaseView::Counting => {
            &&& action == (Action::IncrementCount { user_id: author })
            &&& counts == counts0
            &&& members == members0
        },
        PhaseView::Fetching { community_id, count, qualifying } => {
            &&& action == (Action::FetchHeld { community_id, user_id: author })
            &&& before < u64::MAX
            &&& count == before + 1
            &&& counts == incremented(counts0, author)
            &&& members == members0
            &&& qualifying == qualifying_seq(table, count as nat)
            &&& qualifying.len() > 0
            &&& event.community_id == Some(community_id)
        },
        PhaseView::Granting { community_id, count, missing, granted, failed } => {
            &&& reaches_grants(table, counts0, members0, event)
            &&& count == before + 1
            &&& counts == incremented(counts0, author)
            &&& event.community_id == Some(community_id)
            &&& missing == missing_seq(qualifying_seq(table, count as nat), members0[author])
            &&& failed == Seq::<u64>::empty()
            &&& granted.len() < missing.len()
            &&& granted == missing.take(granted.len() as int)
            &&& action == (Action::Grant {
                community_id,
                user_id: author,
                privilege: missing[granted.len() as int],
            })
            &&& members == members0.insert(author, with_roles(members0[author], granted))
        },
        PhaseView::Finished(outcome) => {
            &&& action == Action::Done
            &&& counts == incremented(counts0, author)
            &&& members == processed_members(table, counts0, members0, event)
            &&& outcome == processed_outcome(table, counts0, members0, event)
        },
    }
}

/// Processes one message against a store and a community held in memory,
/// performing each action that [`Processing`] asks for until none is left.
///
/// The author's count grows by one. If the new count earns roles and the
/// author is a member, the author ends up holding every role earned on top
/// of those held before; in every other case the community is left alone.
/// A message whose count cannot be recorded is dropped: nothing is granted.
pub fn process_message(
    table: &ThresholdTable,
    store: &mut CounterStore,
    roster: &mut Roster,
    event: MessageEvent,
) -> (outcome: Outcome)
    ensures
        final(store)@ == incremented(old(store)@, event.author_id),
        final(roster)@ == processed_members(table@, old(store)@, old(roster)@, event),
        outcome@ == processed_outcome(table@, old(store)@, old(roster)@, event),
        reaches_grants(table@, old(store)@, old(roster)@, event) ==> final(roster)@[event
            .author_id].to_set() == old(roster)@[event.author_id].to_set().union(
            qualifying_set(table@, count_of(old(store)@, event.author_id) + 1),
        ),
        distinct_roles(old(roster)@) ==> distinct_roles(final(roster)@),
{
    let ghost counts0 = store@;
    let ghost members0 = roster@;
    let (first, first_action) = Processing::on_message(event);
    let mut state = first;
    let mut action = first_action;
    loop
        invariant
            counts0 == old(store)@,
            members0 == old(roster)@,
            on_track(table@, counts0, members0, event, state@, action, store@, roster@),
            distinct_roles(members0) ==> distinct_roles(roster@),
        decreases phases_left(state@), grants_left(state@),
    {
        match action {
            Action::IncrementCount { user_id } => {
                let result = store.increment_and_get(user_id);
                let (next, next_action) = state.on_counted(table, result);
                state = next;
                action = next_action;
            },
            Action::FetchHeld { community_id: _, user_id } => {
                let held = roster.held_privileges(user_id);
                proof {
                    if held is Some {
                        let missing = missing_seq(
                            qualifying_seq(table@, count_of(counts0, user_id) + 1),
                            members0[user_id],
                        );
                        assert(missing.take(0) =~= Seq::<u64>::empty());
                        assert(missing.len() == 0 ==> missing =~= Seq::<u64>::empty());
                        assert(roster@ =~= members0.insert(user_id, members0[user_id]));
                    }
                }
                let (next, next_action) = state.on_held(held);
                state = next;
                action = next_action;
            },
            Action::Grant { community_id: _, user_id, privilege } => {
                let ghost granted = state@.phase->Granting_granted;
                let ghost missing = state@.phase->Granting_missing;
                proof {
                    lemma_with_roles_step(members0[user_id], missing, granted.len() as int);
                    assert(missing.take(granted.len() as int + 1) =~= granted.push(privilege));
                    assert(missing.take(missing.len() as int) =~= missing);
                }
                let ghost now = roster@;
                let result = roster.grant(user_id, privilege);
                assert(roster@ =~= members0.insert(user_id, with_role(now[user_id], privilege)));
                let (next, next_action) = state.on_granted(result);
                state = next;
                action = next_action;
            },
            Action::Done => {
                proof {
                    if reaches_grants(table@, counts0, members0, event) {
                        let count = count_of(counts0, event.author_id) + 1;
                        lemma_reconciled_members(
                            members0[event.author_id],
                            qualifying_seq(table@, count as nat),
                        );
                        lemma_qualifying_seq_members(table@, count as nat);
                    }
                }
                match state.outcome() {
                    Some(outcome) => {
                        return outcome;
                    },
                    None => {
                        return unreached();
                    },
                }
            },
        }
    }
}

/// Reconciling twice in a row, with nothing in between, leaves the
/// community as reconciling once does: the second time nothing is missing.
pub proof fn lemma_reconcile_twice(members: Map<u64, Seq<u64>>, user_id: u64, qualifying: Seq<u64>)
    ensures
        reconciled_members(reconciled_members(members, user_id, qualifying), user_id, qualifying)
            == reconciled_members(members, user_id, qualifying),
        members.contains_key(user_id) ==> missing_seq(
            qualifying,
            reconciled_members(members, user_id, qualifying)[user_id],
        ) == Seq::<u64>::empty(),
{
    if members.contains_key(user_id) {
        lemma_reconcile_idempotent(members[user_id], qualifying);
        let once = reconciled_members(members, user_id, qualifying);
    }
}

/// Reconciling one user revokes nothing: the community has the same
/// members, every member holds every role they held, the roles that were
/// never earned included, and everybody but that user holds exactly what
/// they held.
pub proof fn lemma_reconcile_keeps_held(
    members: Map<u64, Seq<u64>>,
    user_id: u64,
    qualifying: Seq<u64>,
    member: u64,
    role: u64,
)
    requires
        members.contains_key(member),
    ensures
        reconciled_members(members, user_id, qualifying).dom() == members.dom(),
        members[member].contains(role) ==> reconciled_members(
            members,
            user_id,
            qualifying,
        )[member].contains(role),
        member != user_id ==> reconciled_members(members, user_id, qualifying)[member]
            == members[member],
{
    if members.contains_key(user_id) {
        if member == user_id && members[member].contains(role) {
            lemma_reconcile_never_revokes(members[user_id], qualifying, role);
        }
    }
}

/// Processing a message touches its author alone: the count and the roles
/// of everybody else stay as they were, and the author loses no role.
pub proof fn lemma_processing_touches_author_only(
    table: Seq<RoleConfig>,
    counts: Map<u64, u64>,
    members: Map<u64, Seq<u64>>,
    event: MessageEvent,
    other: u64,
    role: u64,
)
    requires
        other != event.author_id,
    ensures
        count_of(incremented(counts, event.author_id), other) == count_of(counts, other),
        processed_members(table, counts, members, event).dom() == members.dom(),
        members.contains_key(other) ==> processed_members(table, counts, members, event)[other]
            == members[other],
        members.contains_key(event.author_id) && members[event.author_id].contains(role)
            ==> processed_members(table, counts, members, event)[event.author_id].contains(role),
{
    if reaches_grants(table, counts, members, event) {
        if members[event.author_id].contains(role) {
            lemma_reconcile_never_revokes(
                members[event.author_id],
                qualifying_seq(table, count_of(counts, event.author_id) + 1),
                role,
            );
        }
    }
}

/// Messages of two users may be processed in either order: the store and
/// the community end up the same, and each message ends as it would have
/// ended had the other never been sent.
pub proof fn lemma_order_of_authors_is_immaterial(
    table: Seq<RoleConfig>,
    counts: Map<u64, u64>,
    members: Map<u64, Seq<u64>>,
    first: MessageEvent,
    second: MessageEvent,
)
    requires
        first.author_id != second.author_id,
    ensures
        incremented(incremented(counts, first.author_id), second.author_id) == incremented(
            incremented(counts, second.author_id),
            first.author_id,
        ),
        processed_members(
            table,
            incremented(counts, first.author_id),
            processed_members(table, counts, members, first),
            second,
        ) == processed_members(
            table,
            incremented(counts, second.author_id),
            processed_members(table, counts, members, second),
            first,
        ),
        processed_outcome(
            table,
            incremented(counts, first.author_id),
            processed_members(table, counts, members, first),
            second,
        ) == processed_outcome(table, counts, members, second),
        processed_outcome(
            table,
            incremented(counts, second.author_id),
            processed_members(table, counts, members, second),
            first,
        ) == processed_outcome(table, counts, members, first),
{
    let counts1 = incremented(counts, first.author_id);
    let counts2 = incremented(counts, second.author_id);
    let members1 = processed_members(table, counts, members, first);
    let members2 = processed_members(table, counts, members, second);
    assert(incremented(counts1, second.author_id) =~= incremented(counts2, first.author_id));
    assert(processed_members(table, counts1, members1, second) =~= processed_members(
        table,
        counts2,
        members2,
        first,
    ));
}

} // verus!
