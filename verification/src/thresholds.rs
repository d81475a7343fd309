//! The threshold table and the roles that a count earns.

use crate::error::ConfigError;
use vstd::prelude::*;

verus! {

/// One line of the threshold table: role `id` is earned by a user who has
/// sent at least `messages` messages.
#[derive(Clone, Copy, Debug, PartialEq, Eq, Structural)]
pub struct RoleConfig {
    pub id: u64,
    pub messages: u64,
}

/// No role is named by two lines.
pub open spec fn distinct_ids(entries: Seq<RoleConfig>) -> bool {
    forall|i: int, j: int| 0 <= i < j < entries.len() ==> entries[i].id != entries[j].id
}

/// Line `j` names a role that an earlier line has named already.
pub open spec fn repeats_earlier(entries: Seq<RoleConfig>, j: int) -> bool {
    exists|i: int| 0 <= i < j && entries[i].id == entries[j].id
}

/// Line `j` is the first that names a role a second time.
pub open spec fn is_first_repeat(entries: Seq<RoleConfig>, j: int) -> bool {
    &&& 0 <= j < entries.len()
    &&& repeats_earlier(entries, j)
    &&& forall|k: int| 0 <= k < j ==> !repeats_earlier(entries, k)
}

/// The role of the first line that names a role a second time, if any line
/// does.
pub open spec fn duplicate_role(entries: Seq<RoleConfig>) -> Option<u64> {
    if exists|j: int| is_first_repeat(entries, j) {
        Some(entries[choose|j: int| is_first_repeat(entries, j)].id)
    } else {
        None
    }
}

/// The roles earned at `count`, in table order.
pub open spec fn qualifying_seq(entries: Seq<RoleConfig>, count: nat) -> Seq<u64> {
    entries.filter(|e: RoleConfig| e.messages <= count).map_values(|e: RoleConfig| e.id)
}

/// The roles earned at `count`: those of every line whose threshold is at
/// most `count`.
pub open spec fn qualifying_set(entries: Seq<RoleConfig>, count: nat) -> Set<u64> {
    Set::new(
        |id: u64|
            exists|i: int|
                0 <= i < entries.len() && entries[i].id == id && entries[i].messages <= count,
    )
}

/// The threshold table: an ordered list of lines in which no role occurs
/// twice. It is built once and never changes.
#[derive(Debug, PartialEq, Eq)]
pub struct ThresholdTable {
    entries: Vec<RoleConfig>,
}

impl View for ThresholdTable {
    type V = Seq<RoleConfig>;

    closed spec fn view(&self) -> Seq<RoleConfig> {
        self.entries@
    }
}

impl Clone for ThresholdTable {
    fn clone(&self) -> (r: ThresholdTable)
        ensures
            r@ == self@,
    {
        proof {
            use_type_invariant(self);
        }
        let entries = self.entries.clone();
        ThresholdTable { entries }
    }
}

impl ThresholdTable {
    /// What holds of every table: no role is named by two lines.
    #[verifier::type_invariant]
    pub open spec fn well_formed(self) -> bool {
        distinct_ids(self@)
    }

    /// Builds the table from its lines, in the order given. A role named
    /// twice is refused; the error names the role of the first line that
    /// repeats an earlier one.
    pub fn new(entries: Vec<RoleConfig>) -> (r: Result<ThresholdTable, ConfigError>)
        ensures
            match r {
                Ok(table) => distinct_ids(entries@) && table@ == entries@,
                Err(e) => {
                    &&& !distinct_ids(entries@)
                    &&& duplicate_role(entries@) matches Some(id)
                    &&& e == (ConfigError::DuplicateRole { id })
                },
            },
    {
        let n = entries.len();
        let mut j: usize = 0;
        while j < n
            invariant
                n == entries.len(),
                j <= n,
                forall|k: int| 0 <= k < j ==> !repeats_earlier(entries@, k),
            decreases n - j,
        {
            if named_before(&entries, j) {
                proof {
                    lemma_first_repeat_is_unique(entries@, j as int);
                }
                return Err(ConfigError::DuplicateRole { id: entries[j].id });
            }
            j += 1;
        }
        assert(distinct_ids(entries@)) by {
            assert forall|a: int, b: int| 0 <= a < b < entries.len() implies entries[a].id
                != entries[b].id by {
                assert(!repeats_earlier(entries@, b));
            }
        }
        Ok(ThresholdTable { entries })
    }

    /// The number of lines.
    pub fn len(&self) -> (r: usize)
        ensures
            r == self@.len(),
    {
        self.entries.len()
    }

    /// The lines, in table order.
    pub fn entries(&self) -> (r: &Vec<RoleConfig>)
        ensures
            r@ == self@,
    {
        &self.entries
    }

    /// The roles that a user with `count` messages has earned: the role of
    /// every line whose threshold is at most `count`, in table order, each
    /// once.
    pub fn qualifying_privileges(&self, count: u64) -> (r: Vec<u64>)
        ensures
            r@ == qualifying_seq(self@, count as nat),
            r@.to_set() == qualifying_set(self@, count as nat),
            r@.no_duplicates(),
    {
        proof {
            use_type_invariant(self);
        }
        let mut out: Vec<u64> = Vec::new();
        let n = self.entries.len();
        let mut i: usize = 0;
        while i < n
            invariant
                n == self.entries.len(),
                i <= n,
                out@ == qualifying_seq(self.entries@.take(i as int), count as nat),
            decreases n - i,
        {
            let entry = self.entries[i];
            proof {
                lemma_qualifying_seq_step(self.entries@, i as int, count as nat);
            }
            if entry.messages <= count {
                out.push(entry.id);
            }
            i += 1;
        }
        proof {
            assert(self.entries@.take(n as int) =~= self.entries@);
            lemma_qualifying_seq_members(self.entries@, count as nat);
            lemma_qualifying_seq_distinct(self.entries@, count as nat);
        }
        out
    }
}

/// Whether a line before line `j` names the role of line `j`.
fn named_before(entries: &Vec<RoleConfig>, j: usize) -> (r: bool)
    requires
        j < entries.len(),
    ensures
        r == repeats_earlier(entries@, j as int),
{
    let mut i: usize = 0;
    while i < j
        invariant
            j < entries.len(),
            i <= j,
            forall|h: int| 0 <= h < i ==> entries[h].id != entries[j as int].id,
        decreases j - i,
    {
        if entries[i].id == entries[j].id {
            return true;
        }
        i += 1;
    }
    false
}

/// There is one first repeat at most, and a table that has one names some
/// role twice.
pub proof fn lemma_first_repeat_is_unique(entries: Seq<RoleConfig>, j: int)
    requires
        is_first_repeat(entries, j),
    ensures
        duplicate_role(entries) == Some(entries[j].id),
        !distinct_ids(entries),
{
    let chosen = choose|k: int| is_first_repeat(entries, k);
    assert(chosen == j);
}

/// A table names no role twice exactly if it has no first repeat.
pub proof fn lemma_distinct_has_no_repeat(entries: Seq<RoleConfig>)
    ensures
        distinct_ids(entries) <==> duplicate_role(entries) is None,
{
    if exists|j: int| is_first_repeat(entries, j) {
        lemma_first_repeat_is_unique(entries, choose|j: int| is_first_repeat(entries, j));
    } else {
        assert forall|b: int| 0 <= b < entries.len() implies !repeats_earlier(entries, b) by {
            lemma_no_repeat_up_to(entries, b);
        }
        assert forall|a: int, b: int| 0 <= a < b < entries.len() implies entries[a].id
            != entries[b].id by {
            assert(!repeats_earlier(entries, b));
        }
    }
}

/// Without a first repeat, no line up to line `b` repeats an earlier one.
proof fn lemma_no_repeat_up_to(entries: Seq<RoleConfig>, b: int)
    requires
        0 <= b < entries.len(),
        !exists|j: int| is_first_repeat(entries, j),
    ensures
        forall|k: int| 0 <= k <= b ==> !repeats_earlier(entries, k),
    decreases b,
{
    if b > 0 {
        lemma_no_repeat_up_to(entries, b - 1);
    }
    if repeats_earlier(entries, b) {
        assert(is_first_repeat(entries, b));
    }
}

/// Reading one more line either appends its role or changes nothing.
pub proof fn lemma_qualifying_seq_step(entries: Seq<RoleConfig>, i: int, count: nat)
    requires
        0 <= i < entries.len(),
    ensures
        qualifying_seq(entries.take(i + 1), count) == if entries[i].messages <= count {
            qualifying_seq(entries.take(i), count).push(entries[i].id)
        } else {
            qualifying_seq(entries.take(i), count)
        },
{
    let pred = |e: RoleConfig| e.messages <= count;
    let id_of = |e: RoleConfig| e.id;
    let before = entries.take(i);
    assert(entries.take(i + 1) =~= before.push(entries[i]));
    Seq::lemma_filter_push(before, entries[i], pred);
    if pred(entries[i]) {
        assert(before.filter(pred).push(entries[i]).map_values(id_of) =~= before.filter(
            pred,
        ).map_values(id_of).push(entries[i].id));
    }
}

/// The ordered answer holds exactly the roles of the set-valued one.
pub proof fn lemma_qualifying_seq_members(entries: Seq<RoleConfig>, count: nat)
    ensures
        qualifying_seq(entries, count).to_set() == qualifying_set(entries, count),
{
    let pred = |e: RoleConfig| e.messages <= count;
    let id_of = |e: RoleConfig| e.id;
    let kept = entries.filter(pred);
    let ids = qualifying_seq(entries, count);
    assert forall|id: u64| ids.to_set().contains(id) <==> qualifying_set(entries, count).contains(
        id,
    ) by {
        if ids.to_set().contains(id) {
            let k = choose|k: int| 0 <= k < ids.len() && ids[k] == id;
            entries.lemma_filter_pred(pred, k);
            entries.lemma_filter_contains_rev(pred, kept[k]);
        }
        if qualifying_set(entries, count).contains(id) {
            let i = choose|i: int|
                0 <= i < entries.len() && entries[i].id == id && entries[i].messages <= count;
            entries.lemma_filter_contains(pred, i);
            let k = choose|k: int| 0 <= k < kept.len() && kept[k] == entries[i];
            assert(ids[k] == id);
        }
    }
}

/// Where no role is named twice, none is earned twice.
pub proof fn lemma_qualifying_seq_distinct(entries: Seq<RoleConfig>, count: nat)
    requires
        distinct_ids(entries),
    ensures
        qualifying_seq(entries, count).no_duplicates(),
    decreases entries.len(),
{
    if entries.len() > 0 {
        let last = entries.len() - 1;
        let before = entries.take(last);
        assert(entries.take(last + 1) =~= entries);
        lemma_qualifying_seq_step(entries, last, count);
        lemma_qualifying_seq_distinct(before, count);
        lemma_qualifying_seq_members(before, count);
        let ids = qualifying_seq(before, count);
        if entries[last].messages <= count {
            assert(!ids.contains(entries[last].id)) by {
                if ids.contains(entries[last].id) {
                    assert(ids.to_set().contains(entries[last].id));
                }
            }
        }
    } else {
        entries.lemma_filter_len(|e: RoleConfig| e.messages <= count);
    }
}

/// A user who has sent more messages has earned every role they had earned
/// with fewer.
pub proof fn lemma_qualifying_monotonic(entries: Seq<RoleConfig>, count1: nat, count2: nat)
    requires
        count1 <= count2,
    ensures
        qualifying_set(entries, count1).subset_of(qualifying_set(entries, count2)),
        qualifying_seq(entries, count1).to_set().subset_of(
            qualifying_seq(entries, count2).to_set(),
        ),
{
    lemma_qualifying_seq_members(entries, count1);
    lemma_qualifying_seq_members(entries, count2);
}

} // verus!
