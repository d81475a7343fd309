//! The processing of one message, step by step. [`Processing`] decides;
//! its caller performs: it increments the count, reads the held roles and
//! grants roles when asked to, and reports each result back.

use crate::error::{GrantError, StoreError};
use crate::reconcile::{
    lemma_missing_contains, lemma_reconcile_idempotent, missing_privileges, missing_seq,
    reconciled,
};
use crate::thresholds::{qualifying_seq, RoleConfig, ThresholdTable};
use vstd::prelude::*;

verus! {

/// One message seen in the community. `community_id` is `None` for a message
/// sent outside any community, where there are no roles to grant.
#[derive(Clone, Copy, Debug, PartialEq, Eq)]
pub struct MessageEvent {
    pub event_id: u64,
    pub author_id: u64,
    pub community_id: Option<u64>,
}

/// What the platform says of the account that sent a message.
#[derive(Clone, Copy, Debug, PartialEq, Eq)]
pub struct Author {
    pub user_id: u64,
    /// The account is run by a program.
    pub is_bot: bool,
    /// The account is the platform's own.
    pub is_system: bool,
    /// The message came in through a webhook.
    pub via_webhook: bool,
}

/// Whether the messages of `author` are counted: those of a person are,
/// those of a program, of the platform or of a webhook are not.
pub open spec fn countable(author: Author) -> bool {
    !author.is_bot && !author.is_system && !author.via_webhook
}

/// Decides whether a message is counted at all. A message without an author
/// is not, nor is one whose author is not [`countable`]; every other message
/// becomes an event.
pub fn accept(event_id: u64, author: Option<Author>, community_id: Option<u64>) -> (r: Option<
    MessageEvent,
>)
    ensures
        r == match author {
            Some(author) if countable(author) => Some(
                MessageEvent { event_id, author_id: author.user_id, community_id },
            ),
            _ => None,
        },
{
    match author {
        Some(author) => {
            if author.is_bot || author.is_system || author.via_webhook {
                None
            } else {
                Some(MessageEvent { event_id, author_id: author.user_id, community_id })
            }
        },
        None => None,
    }
}

/// What the caller is asked to do next on behalf of an event. The caller
/// performs it and reports the result with the matching `on_` method of
/// [`Processing`].
#[derive(Clone, Copy, Debug, PartialEq, Eq)]
pub enum Action {
    /// Add one to the user's stored count and read it back, atomically.
    IncrementCount { user_id: u64 },
    /// Read the roles the user holds in the community.
    FetchHeld { community_id: u64, user_id: u64 },
    /// Grant the user one role.
    Grant { community_id: u64, user_id: u64, privilege: u64 },
    /// Nothing: the event has been dealt with.
    Done,
}

/// How the processing of one event ended.
#[derive(Debug, PartialEq, Eq)]
pub enum Outcome {
    /// The count could not be incremented. The event was dropped: nothing
    /// was read from the platform and nothing granted.
    CountFailed(StoreError),
    /// The message was counted and the count earns no role.
    BelowThresholds { count: u64 },
    /// The message was counted, but its author cannot be found in a
    /// community. Nothing was granted.
    UserUnresolved { count: u64 },
    /// The message was counted and every missing role was tried once:
    /// `granted` went through, `failed` did not.
    Reconciled { count: u64, granted: Vec<u64>, failed: Vec<u64> },
    /// A result was reported that answers no pending action. Processing
    /// stopped there.
    OutOfTurn,
}

/// [`Outcome`] as a mathematical value.
pub enum OutcomeView {
    CountFailed(StoreError),
    BelowThresholds { count: u64 },
    UserUnresolved { count: u64 },
    Reconciled { count: u64, granted: Seq<u64>, failed: Seq<u64> },
    OutOfTurn,
}

impl View for Outcome {
    type V = OutcomeView;

    open spec fn view(&self) -> OutcomeView {
        match *self {
            Outcome::CountFailed(e) => OutcomeView::CountFailed(e),
            Outcome::BelowThresholds { count } => OutcomeView::BelowThresholds { count },
            Outcome::UserUnresolved { count } => OutcomeView::UserUnresolved { count },
            Outcome::Reconciled { count, granted, failed } => OutcomeView::Reconciled {
                count,
                granted: granted@,
                failed: failed@,
            },
            Outcome::OutOfTurn => OutcomeView::OutOfTurn,
        }
    }
}

/// Where the processing of an event stands.
pub enum PhaseView {
    /// The count has been asked for.
    Counting,
    /// The count is known and earns `qualifying`; the held roles have been
    /// asked for.
    Fetching { community_id: u64, count: u64, qualifying: Seq<u64> },
    /// `missing` is being granted role by role. The roles in `granted` and
    /// `failed` have been tried; the next one has been asked for.
    Granting {
        community_id: u64,
        count: u64,
        missing: Seq<u64>,
        granted: Seq<u64>,
        failed: Seq<u64>,
    },
    /// Nothing is pending.
    Finished(OutcomeView),
}

/// [`Processing`] as a mathematical value.
pub struct ProcessingView {
    pub event: MessageEvent,
    pub phase: PhaseView,
}

/// The state reached, and the action asked for, when processing ends.
pub open spec fn finished(event: MessageEvent, outcome: OutcomeView) -> (ProcessingView, Action) {
    (ProcessingView { event, phase: PhaseView::Finished(outcome) }, Action::Done)
}

/// Where processing starts: the author's count is to be incremented.
pub open spec fn started(event: MessageEvent) -> (ProcessingView, Action) {
    (
        ProcessingView { event, phase: PhaseView::Counting },
        Action::IncrementCount { user_id: event.author_id },
    )
}

/// What follows the counter store's answer. A failure drops the event. A
/// count that earns nothing, or an author outside any community, ends
/// processing; otherwise the held roles are asked for.
pub open spec fn after_counted(
    table: Seq<RoleConfig>,
    state: ProcessingView,
    result: Result<u64, StoreError>,
) -> (ProcessingView, Action) {
    match state.phase {
        PhaseView::Counting => match result {
            Err(e) => finished(state.event, OutcomeView::CountFailed(e)),
            Ok(count) => {
                let qualifying = qualifying_seq(table, count as nat);
                if qualifying.len() == 0 {
                    finished(state.event, OutcomeView::BelowThresholds { count })
                } else {
                    match state.event.community_id {
                        None => finished(state.event, OutcomeView::UserUnresolved { count }),
                        Some(community_id) => (
                            ProcessingView {
                                event: state.event,
                                phase: PhaseView::Fetching { community_id, count, qualifying },
                            },
                            Action::FetchHeld { community_id, user_id: state.event.author_id },
                        ),
                    }
                }
            },
        },
        PhaseView::Finished(_) => (state, Action::Done),
        _ => finished(state.event, OutcomeView::OutOfTurn),
    }
}

/// The state and action once `granted` and `failed` have been tried: the
/// next missing role is asked for, or, when none is left, processing ends.
pub open spec fn grant_next(
    event: MessageEvent,
    community_id: u64,
    count: u64,
    missing: Seq<u64>,
    granted: Seq<u64>,
    failed: Seq<u64>,
) -> (ProcessingView, Action) {
    let tried = granted.len() + failed.len();
    if tried < missing.len() {
        (
            ProcessingView {
                event,
                phase: PhaseView::Granting { community_id, count, missing, granted, failed },
            },
            Action::Grant { community_id, user_id: event.author_id, privilege: missing[tried as int] },
        )
    } else {
        finished(event, OutcomeView::Reconciled { count, granted, failed })
    }
}

/// What follows the platform's answer about the held roles. An author the
/// platform does not know ends processing with nothing granted; otherwise
/// the roles earned and not held are granted one by one.
pub open spec fn after_held(state: ProcessingView, held: Option<Seq<u64>>) -> (
    ProcessingView,
    Action,
) {
    match state.phase {
        PhaseView::Fetching { community_id, count, qualifying } => match held {
            None => finished(state.event, OutcomeView::UserUnresolved { count }),
            Some(held) => grant_next(
                state.event,
                community_id,
                count,
                missing_seq(qualifying, held),
                Seq::empty(),
                Seq::empty(),
            ),
        },
        PhaseView::Finished(_) => (state, Action::Done),
        _ => finished(state.event, OutcomeView::OutOfTurn),
    }
}

/// What follows the platform's answer to one grant. Whether it went through
/// or not, the role is marked as tried and the next one is asked for.
pub open spec fn after_granted(state: ProcessingView, result: Result<(), GrantError>) -> (
    ProcessingView,
    Action,
) {
    match state.phase {
        PhaseView::Granting { community_id, count, missing, granted, failed } => {
            let role = missing[(granted.len() + failed.len()) as int];
            match result {
                Ok(_) => grant_next(
                    state.event,
                    community_id,
                    count,
                    missing,
                    granted.push(role),
                    failed,
                ),
                Err(_) => grant_next(
                    state.event,
                    community_id,
                    count,
                    missing,
                    granted,
                    failed.push(role),
                ),
            }
        },
        PhaseView::Finished(_) => (state, Action::Done),
        _ => finished(state.event, OutcomeView::OutOfTurn),
    }
}

enum Phase {
    Counting,
    Fetching { community_id: u64, count: u64, qualifying: Vec<u64> },
    Granting { community_id: u64, count: u64, missing: Vec<u64>, granted: Vec<u64>, failed: Vec<u64> },
    Finished(Outcome),
}

impl View for Phase {
    type V = PhaseView;

    closed spec fn view(&self) -> PhaseView {
        match *self {
            Phase::Counting => PhaseView::Counting,
            Phase::Fetching { community_id, count, qualifying } => PhaseView::Fetching {
                community_id,
                count,
                qualifying: qualifying@,
            },
            Phase::Granting { community_id, count, missing, granted, failed } => {
                PhaseView::Granting {
                    community_id,
                    count,
                    missing: missing@,
                    granted: granted@,
                    failed: failed@,
                }
            },
            Phase::Finished(outcome) => PhaseView::Finished(outcome@),
        }
    }
}

/// The processing of one message event, from the increment of its author's
/// count to the last grant. It performs nothing itself: each step hands the
/// caller one [`Action`] and waits for its result.
pub struct Processing {
    event: MessageEvent,
    phase: Phase,
}

impl View for Processing {
    type V = ProcessingView;

    closed spec fn view(&self) -> ProcessingView {
        ProcessingView { event: self.event, phase: self.phase@ }
    }
}

impl Processing {
    #[verifier::type_invariant]
    spec fn well_formed(self) -> bool {
        match self.phase {
            Phase::Granting { missing, granted, failed, .. } => granted.len() + failed.len()
                < missing.len(),
            _ => true,
        }
    }

    /// Takes up an event. The first thing asked for is always the increment
    /// of the author's count.
    pub fn on_message(event: MessageEvent) -> (r: (Processing, Action))
        ensures
            (r.0@, r.1) == started(event),
    {
        (
            Processing { event, phase: Phase::Counting },
            Action::IncrementCount { user_id: event.author_id },
        )
    }

    /// Reports the counter store's answer to [`Action::IncrementCount`].
    pub fn on_counted(self, table: &ThresholdTable, result: Result<u64, StoreError>) -> (r: (
        Processing,
        Action,
    ))
        ensures
            (r.0@, r.1) == after_counted(table@, self@, result),
    {
        let event = self.event;
        match self.phase {
            Phase::Counting => match result {
                Err(e) => Self::finish(event, Outcome::CountFailed(e)),
                Ok(count) => {
                    let qualifying = table.qualifying_privileges(count);
                    if qualifying.len() == 0 {
                        Self::finish(event, Outcome::BelowThresholds { count })
                    } else {
                        match event.community_id {
                            None => Self::finish(event, Outcome::UserUnresolved { count }),
                            Some(community_id) => (
                                Processing {
                                    event,
                                    phase: Phase::Fetching { community_id, count, qualifying },
                                },
                                Action::FetchHeld { community_id, user_id: event.author_id },
                            ),
                        }
                    }
                },
            },
            Phase::Finished(outcome) => (
                Processing { event, phase: Phase::Finished(outcome) },
                Action::Done,
            ),
            _ => Self::finish(event, Outcome::OutOfTurn),
        }
    }

    /// Reports the platform's answer to [`Action::FetchHeld`]: the roles the
    /// user holds, or `None` where the platform does not know the user.
    pub fn on_held(self, held: Option<Vec<u64>>) -> (r: (Processing, Action))
        ensures
            (r.0@, r.1) == after_held(
                self@,
                match held {
                    Some(h) => Some(h@),
                    None => None,
                },
            ),
    {
        let event = self.event;
        match self.phase {
            Phase::Fetching { community_id, count, qualifying } => match held {
                None => Self::finish(event, Outcome::UserUnresolved { count }),
                Some(held) => {
                    let missing = missing_privileges(&qualifying, &held);
                    Self::next_grant(event, community_id, count, missing, Vec::new(), Vec::new())
                },
            },
            Phase::Finished(outcome) => (
                Processing { event, phase: Phase::Finished(outcome) },
                Action::Done,
            ),
            _ => Self::finish(event, Outcome::OutOfTurn),
        }
    }

    /// Reports the platform's answer to [`Action::Grant`].
    pub fn on_granted(self, result: Result<(), GrantError>) -> (r: (Processing, Action))
        ensures
            (r.0@, r.1) == after_granted(self@, result),
    {
        proof {
            use_type_invariant(&self);
        }
        let event = self.event;
        match self.phase {
            Phase::Granting { community_id, count, missing, granted, failed } => {
                let mut granted = granted;
                let mut failed = failed;
                let role = missing[granted.len() + failed.len()];
                match result {
                    Ok(_) => {
                        granted.push(role);
                    },
                    Err(_) => {
                        failed.push(role);
                    },
                }
                Self::next_grant(event, community_id, count, missing, granted, failed)
            },
            Phase::Finished(outcome) => (
                Processing { event, phase: Phase::Finished(outcome) },
                Action::Done,
            ),
            _ => Self::finish(event, Outcome::OutOfTurn),
        }
    }

    /// The outcome, once processing has ended; `None` while an action is
    /// pending.
    pub fn outcome(self) -> (r: Option<Outcome>)
        ensures
            match r {
                Some(outcome) => self@.phase == PhaseView::Finished(outcome@),
                None => !(self@.phase is Finished),
            },
    {
        match self.phase {
            Phase::Finished(outcome) => Some(outcome),
            _ => None,
        }
    }

    fn finish(event: MessageEvent, outcome: Outcome) -> (r: (Processing, Action))
        ensures
            (r.0@, r.1) == finished(event, outcome@),
    {
        (Processing { event, phase: Phase::Finished(outcome) }, Action::Done)
    }

    fn next_grant(
        event: MessageEvent,
        community_id: u64,
        count: u64,
        missing: Vec<u64>,
        granted: Vec<u64>,
        failed: Vec<u64>,
    ) -> (r: (Processing, Action))
        requires
            granted.len() + failed.len() <= missing.len(),
        ensures
            (r.0@, r.1) == grant_next(event, community_id, count, missing@, granted@, failed@),
    {
        let tried = granted.len() + failed.len();
        if tried < missing.len() {
            let privilege = missing[tried];
            (
                Processing {
                    event,
                    phase: Phase::Granting { community_id, count, missing, granted, failed },
                },
                Action::Grant { community_id, user_id: event.author_id, privilege },
            )
        } else {
            Self::finish(event, Outcome::Reconciled { count, granted, failed })
        }
    }
}

/// How far a phase is from the end, apart from the grants still to make.
pub open spec fn phases_left(state: ProcessingView) -> nat {
    match state.phase {
        PhaseView::Counting => 3,
        PhaseView::Fetching { .. } => 2,
        PhaseView::Granting { .. } => 1,
        PhaseView::Finished(_) => 0,
    }
}

/// The grants still to make in the granting phase.
pub open spec fn grants_left(state: ProcessingView) -> nat {
    match state.phase {
        PhaseView::Granting { missing, granted, failed, .. } => (missing.len() - granted.len()
            - failed.len()) as nat,
        _ => 0,
    }
}

/// `after` is nearer to the end than `before`: it is in a later phase, or
/// in the granting phase with fewer grants to make.
pub open spec fn nearer_the_end(after: ProcessingView, before: ProcessingView) -> bool {
    phases_left(after) < phases_left(before) || (phases_left(after) == phases_left(before)
        && grants_left(after) < grants_left(before))
}

/// The state and action after the results of `results.len()` grants have
/// been reported in turn.
pub open spec fn after_results(
    start: (ProcessingView, Action),
    results: Seq<Result<(), GrantError>>,
) -> (ProcessingView, Action)
    decreases results.len(),
{
    if results.len() == 0 {
        start
    } else {
        after_granted(after_results(start, results.drop_last()).0, results.last())
    }
}

/// The roles among the first `results.len()` of `missing` whose grant went
/// through (`ok`) or did not (`!ok`), in order.
pub open spec fn tally(missing: Seq<u64>, results: Seq<Result<(), GrantError>>, ok: bool) -> Seq<
    u64,
>
    decreases results.len(),
{
    if results.len() == 0 {
        Seq::empty()
    } else {
        let front = tally(missing, results.drop_last(), ok);
        if (results.last() is Ok) == ok {
            front.push(missing[results.len() - 1])
        } else {
            front
        }
    }
}

/// Each role is tallied once: as granted or as failed.
pub proof fn lemma_tally_lengths(missing: Seq<u64>, results: Seq<Result<(), GrantError>>)
    ensures
        tally(missing, results, true).len() + tally(missing, results, false).len()
            == results.len(),
    decreases results.len(),
{
    if results.len() > 0 {
        lemma_tally_lengths(missing, results.drop_last());
    }
}

/// Whatever result is reported, however it fits the pending action,
/// processing that has not ended moves nearer to its end. So it does end,
/// after the count, the held roles and one result for each missing role at
/// the latest.
pub proof fn lemma_every_step_makes_progress(
    table: Seq<RoleConfig>,
    state: ProcessingView,
    count: Result<u64, StoreError>,
    held: Option<Seq<u64>>,
    grant: Result<(), GrantError>,
)
    requires
        !(state.phase is Finished),
        state.phase matches PhaseView::Granting { missing, granted, failed, .. } ==> granted.len()
            + failed.len() < missing.len(),
    ensures
        nearer_the_end(after_counted(table, state, count).0, state),
        nearer_the_end(after_held(state, held).0, state),
        nearer_the_end(after_granted(state, grant).0, state),
{
}

/// Processing that has ended stays as it ended: whatever is reported
/// afterwards, its outcome stands and no action is asked for. A message
/// whose count failed is such a case from the first result on, so nothing
/// is ever read from the platform or granted for it.
pub proof fn lemma_finished_stays_finished(
    table: Seq<RoleConfig>,
    state: ProcessingView,
    count: Result<u64, StoreError>,
    held: Option<Seq<u64>>,
    grant: Result<(), GrantError>,
)
    requires
        state.phase is Finished,
    ensures
        after_counted(table, state, count) == (state, Action::Done),
        after_held(state, held) == (state, Action::Done),
        after_granted(state, grant) == (state, Action::Done),
        forall|event: MessageEvent, e: StoreError| #[trigger]
            after_counted(table, started(event).0, Err(e)) == finished(
                event,
                OutcomeView::CountFailed(e),
            ),
{
}

/// Every missing role is tried exactly once, in order, whether or not the
/// grants before it went through. While results are outstanding the next
/// missing role is asked for; once each role has its result, processing
/// ends and reports which grants went through and which did not.
pub proof fn lemma_every_missing_role_is_tried(
    event: MessageEvent,
    community_id: u64,
    count: u64,
    missing: Seq<u64>,
    results: Seq<Result<(), GrantError>>,
)
    requires
        results.len() <= missing.len(),
    ensures
        after_results(
            grant_next(event, community_id, count, missing, Seq::empty(), Seq::empty()),
            results,
        ) == grant_next(
            event,
            community_id,
            count,
            missing,
            tally(missing, results, true),
            tally(missing, results, false),
        ),
        results.len() < missing.len() ==> after_results(
            grant_next(event, community_id, count, missing, Seq::empty(), Seq::empty()),
            results,
        ).1 == (Action::Grant {
            community_id,
            user_id: event.author_id,
            privilege: missing[results.len() as int],
        }),
        results.len() == missing.len() ==> after_results(
            grant_next(event, community_id, count, missing, Seq::empty(), Seq::empty()),
            results,
        ) == finished(
            event,
            OutcomeView::Reconciled {
                count,
                granted: tally(missing, results, true),
                failed: tally(missing, results, false),
            },
        ),
    decreases results.len(),
{
    lemma_tally_lengths(missing, results);
    if results.len() > 0 {
        lemma_every_missing_role_is_tried(event, community_id, count, missing, results.drop_last());
        lemma_tally_lengths(missing, results.drop_last());
    }
}

/// Nothing but grants is ever asked of the platform on a user's roles, and
/// only of roles that the user has earned and did not hold when the held
/// roles were read: whatever results come back, the action that follows
/// the held roles and any number of results is the grant of such a role, or
/// none at all.
pub proof fn lemma_only_missing_roles_are_granted(
    event: MessageEvent,
    community_id: u64,
    count: u64,
    qualifying: Seq<u64>,
    held: Seq<u64>,
    results: Seq<Result<(), GrantError>>,
)
    requires
        results.len() <= missing_seq(qualifying, held).len(),
    ensures
        ({
            let fetching = ProcessingView {
                event,
                phase: PhaseView::Fetching { community_id, count, qualifying },
            };
            match after_results(after_held(fetching, Some(held)), results).1 {
                Action::Grant { community_id: c, user_id, privilege } => {
                    &&& c == community_id
                    &&& user_id == event.author_id
                    &&& qualifying.contains(privilege)
                    &&& !held.contains(privilege)
                },
                Action::Done => results.len() == missing_seq(qualifying, held).len(),
                _ => false,
            }
        }),
{
    let missing = missing_seq(qualifying, held);
    lemma_every_missing_role_is_tried(event, community_id, count, missing, results);
    if results.len() < missing.len() {
        let role = missing[results.len() as int];
        lemma_missing_contains(qualifying, held, role);
    }
}

/// A user who has just been reconciled, with every grant gone through, is
/// asked nothing the second time: no role is missing, so processing ends
/// with the held roles as they are.
pub proof fn lemma_second_reconciliation_grants_nothing(
    event: MessageEvent,
    community_id: u64,
    count: u64,
    qualifying: Seq<u64>,
    held: Seq<u64>,
)
    ensures
        after_held(
            ProcessingView {
                event,
                phase: PhaseView::Fetching { community_id, count, qualifying },
            },
            Some(reconciled(held, qualifying)),
        ) == finished(
            event,
            OutcomeView::Reconciled { count, granted: Seq::empty(), failed: Seq::empty() },
        ),
{
    lemma_reconcile_idempotent(held, qualifying);
}

} // verus!
