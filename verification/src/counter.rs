//! The counter store: one count per user, which only ever grows by one
//! per message. The store here is held in memory; it is the model that
//! every other store is held to.

use crate::error::StoreError;
use std::collections::HashMap;
use vstd::prelude::*;

verus! {

broadcast use vstd::std_specs::hash::group_hash_axioms;

/// The count recorded for `user_id`: zero for a user without a record.
pub open spec fn count_of(counts: Map<u64, u64>, user_id: u64) -> nat {
    if counts.contains_key(user_id) {
        counts[user_id] as nat
    } else {
        0
    }
}

/// The records after one message of `user_id` has been counted. A count
/// that cannot grow any more stays as it is.
pub open spec fn incremented(counts: Map<u64, u64>, user_id: u64) -> Map<u64, u64> {
    if count_of(counts, user_id) < u64::MAX {
        counts.insert(user_id, (count_of(counts, user_id) + 1) as u64)
    } else {
        counts
    }
}

/// The records after one message of each author in `authors` has been
/// counted, in that order.
pub open spec fn after_events(counts: Map<u64, u64>, authors: Seq<u64>) -> Map<u64, u64>
    decreases authors.len(),
{
    if authors.len() == 0 {
        counts
    } else {
        incremented(after_events(counts, authors.drop_last()), authors.last())
    }
}

/// How many of the messages in `authors` were sent by `user_id`.
pub open spec fn messages_of(authors: Seq<u64>, user_id: u64) -> nat
    decreases authors.len(),
{
    if authors.len() == 0 {
        0
    } else {
        messages_of(authors.drop_last(), user_id) + if authors.last() == user_id {
            1nat
        } else {
            0nat
        }
    }
}

/// What is kept of one user: how many of their messages have been counted.
#[derive(Clone, Copy, Debug, PartialEq, Eq)]
pub struct CounterRecord {
    pub user_id: u64,
    pub count: u64,
}

/// The records read back from `records`; of two records of one user the
/// later one stands.
pub open spec fn loaded(records: Seq<CounterRecord>) -> Map<u64, u64>
    decreases records.len(),
{
    if records.len() == 0 {
        Map::empty()
    } else {
        loaded(records.drop_last()).insert(records.last().user_id, records.last().count)
    }
}

/// A counter store held in memory: one record per user who has been counted
/// at least once.
pub struct CounterStore {
    counts: HashMap<u64, u64>,
}

impl View for CounterStore {
    type V = Map<u64, u64>;

    closed spec fn view(&self) -> Map<u64, u64> {
        self.counts@
    }
}

impl CounterStore {
    /// A store without any record.
    pub fn new() -> (r: CounterStore)
        ensures
            r@ == Map::<u64, u64>::empty(),
    {
        CounterStore { counts: HashMap::new() }
    }

    /// A store that holds `records`, in the state in which an earlier store
    /// left them.
    pub fn from_records(records: &Vec<CounterRecord>) -> (r: CounterStore)
        ensures
            r@ == loaded(records@),
    {
        let mut counts: HashMap<u64, u64> = HashMap::new();
        let n = records.len();
        let mut i: usize = 0;
        while i < n
            invariant
                n == records.len(),
                i <= n,
                counts@ == loaded(records@.take(i as int)),
            decreases n - i,
        {
            let record = records[i];
            assert(records@.take(i + 1).drop_last() =~= records@.take(i as int));
            counts.insert(record.user_id, record.count);
            i += 1;
        }
        assert(records@.take(n as int) =~= records@);
        CounterStore { counts }
    }

    /// Counts one message of `user_id` and returns the new count; a user
    /// without a record starts from zero, so a first message returns 1. No
    /// other user's record changes and no count ever goes down. Where the
    /// count cannot grow any more the call fails and changes nothing.
    pub fn increment_and_get(&mut self, user_id: u64) -> (r: Result<u64, StoreError>)
        ensures
            final(self)@ == incremented(old(self)@, user_id),
            match r {
                Ok(count) => count == count_of(old(self)@, user_id) + 1,
                Err(e) => e == StoreError::Saturated && count_of(old(self)@, user_id) == u64::MAX,
            },
            forall|other: u64| count_of(old(self)@, other) <= count_of(final(self)@, other),
            forall|other: u64|
                other != user_id ==> count_of(final(self)@, other) == count_of(old(self)@, other),
    {
        let current = self.get(user_id);
        if current == u64::MAX {
            Err(StoreError::Saturated)
        } else {
            let count = current + 1;
            self.counts.insert(user_id, count);
            Ok(count)
        }
    }

    /// The number of messages counted for `user_id` so far: zero for a user
    /// who has never been counted. Reads only.
    pub fn get(&self, user_id: u64) -> (r: u64)
        ensures
            r == count_of(self@, user_id),
    {
        match self.counts.get(&user_id) {
            Some(count) => *count,
            None => 0,
        }
    }
}

/// Counting messages loses none and invents none: after any run of
/// messages, in whatever order the authors took turns, a user's count has
/// grown by exactly the number of messages that user sent, up to the largest
/// count that can be recorded.
pub proof fn lemma_every_message_counted(counts: Map<u64, u64>, authors: Seq<u64>, user_id: u64)
    ensures
        count_of(after_events(counts, authors), user_id) == if count_of(counts, user_id)
            + messages_of(authors, user_id) <= u64::MAX {
            count_of(counts, user_id) + messages_of(authors, user_id)
        } else {
            u64::MAX as nat
        },
    decreases authors.len(),
{
    if authors.len() > 0 {
        lemma_every_message_counted(counts, authors.drop_last(), user_id);
    }
}

/// Starting from nothing, `n` messages of one user, however they are mixed
/// with the messages of others, leave that user's count at `n`.
pub proof fn lemma_count_equals_messages(authors: Seq<u64>, user_id: u64)
    requires
        messages_of(authors, user_id) <= u64::MAX,
    ensures
        count_of(after_events(Map::<u64, u64>::empty(), authors), user_id) == messages_of(
            authors,
            user_id,
        ),
{
    lemma_every_message_counted(Map::<u64, u64>::empty(), authors, user_id);
}

/// The messages of others never touch a user's count.
pub proof fn lemma_others_do_not_interfere(counts: Map<u64, u64>, authors: Seq<u64>, user_id: u64)
    requires
        !authors.contains(user_id),
    ensures
        count_of(after_events(counts, authors), user_id) == count_of(counts, user_id),
    decreases authors.len(),
{
    if authors.len() > 0 {
        let before = authors.drop_last();
        assert(!before.contains(user_id));
        lemma_others_do_not_interfere(counts, before, user_id);
    }
}

/// No count ever goes down, whatever messages arrive.
pub proof fn lemma_counts_never_decrease(counts: Map<u64, u64>, authors: Seq<u64>, user_id: u64)
    ensures
        count_of(counts, user_id) <= count_of(after_events(counts, authors), user_id),
    decreases authors.len(),
{
    if authors.len() > 0 {
        lemma_counts_never_decrease(counts, authors.drop_last(), user_id);
    }
}

} // verus!
