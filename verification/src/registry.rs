//! The registry of published values as the controller's contracts see it: a map from
//! entries to values, in which a write replaces the value of one entry and touches no
//! other.

use crate::attribute::Attribute;
use crate::controller::Outcome;
use crate::sample::Sample;
use crate::verdict::Verdict;
use vstd::prelude::*;

verus! {

/// What selects one entry of the registry: the metric of an attribute, a disk, and for a
/// metric with a `status` label the verdict that the label names.
pub struct EntryKey {
    /// The attribute whose metric the entry belongs to.
    pub attribute: Attribute,
    /// The disk, by its place in the order of discovery.
    pub disk: usize,
    /// The verdict that the `status` label names, where the metric has that label.
    pub status: Option<Verdict>,
}

/// A published value: `raw / divisor`.
pub struct Value {
    /// The dividend.
    pub raw: u64,
    /// The divisor.
    pub divisor: u64,
}

/// The entries that have been written so far, each with its latest value.
pub type Registry = Map<EntryKey, Value>;

impl Sample {
    /// The entry that the sample is written to.
    pub open spec fn key(self) -> EntryKey {
        EntryKey { attribute: self.attribute, disk: self.disk, status: self.status }
    }

    /// The value that the sample gives its entry.
    pub open spec fn value(self) -> Value {
        Value { raw: self.raw, divisor: self.divisor }
    }
}

/// The registry after one outcome: a published sample replaces the value of its entry, and
/// no other outcome writes.
pub open spec fn record(registry: Registry, outcome: Outcome) -> Registry {
    match outcome {
        Outcome::Published { sample } => registry.insert(sample.key(), sample.value()),
        _ => registry,
    }
}

/// The registry after a sequence of outcomes, recorded one after another.
pub open spec fn record_all(registry: Registry, outcomes: Seq<Outcome>) -> Registry
    decreases outcomes.len(),
{
    if outcomes.len() == 0 {
        registry
    } else {
        record_all(record(registry, outcomes.first()), outcomes.drop_first())
    }
}

/// Whether the entry `key` is the same in `before` and `after`: absent in both, or present
/// in both with one value.
pub open spec fn same_entry(before: Registry, after: Registry, key: EntryKey) -> bool {
    &&& before.contains_key(key) == after.contains_key(key)
    &&& before.contains_key(key) ==> before[key] == after[key]
}

/// Whether `outcome` writes the entry `key`.
pub open spec fn writes(outcome: Outcome, key: EntryKey) -> bool {
    outcome matches Outcome::Published { sample } && sample.key() == key
}

/// An entry that none of the outcomes writes stays as it is.
pub proof fn lemma_unwritten_entry_stays(registry: Registry, outcomes: Seq<Outcome>, key: EntryKey)
    requires
        forall|i: int| 0 <= i < outcomes.len() ==> !writes(#[trigger] outcomes[i], key),
    ensures
        same_entry(registry, record_all(registry, outcomes), key),
    decreases outcomes.len(),
{
    if outcomes.len() > 0 {
        assert(!writes(outcomes[0], key));
        let rest = outcomes.drop_first();
        assert forall|i: int| 0 <= i < rest.len() implies !writes(#[trigger] rest[i], key) by {
            assert(rest[i] == outcomes[i + 1]);
        }
        lemma_unwritten_entry_stays(record(registry, outcomes.first()), rest, key);
    }
}

} // verus!
