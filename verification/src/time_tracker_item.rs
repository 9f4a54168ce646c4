//! A named work item owning an ordered sequence of tracking entries.
//! Whether the item is currently tracked is derived from its last entry.

use vstd::prelude::*;

use crate::clock::Clock;
use crate::time_tracker_entry::TimeTrackerEntry;

verus! {

/// The mathematical model of a work item: its label as a sequence of
/// characters and its entries in order of creation.
#[verifier::ext_equal]
pub ghost struct ItemModel {
    pub label: Seq<char>,
    pub entries: Seq<TimeTrackerEntry>,
}

impl ItemModel {
    /// An item is tracked iff it has an entry and the last one is open.
    pub open spec fn is_tracked(&self) -> bool {
        self.entries.len() > 0 && !self.entries.last().spec_has_ended()
    }

    /// At most the last entry may be open; every earlier one is closed.
    pub open spec fn wf(&self) -> bool {
        forall|k: int| 0 <= k < self.entries.len() - 1 ==> self.entries[k].spec_has_ended()
    }
}

/// A named unit of work that can be tracked.  Entries are only ever
/// appended by `track` and closed in place by `end_tracking`.
#[derive(Debug)]
pub struct TimeTrackerItem {
    pub label: String,
    pub entries: Vec<TimeTrackerEntry>,
}

impl View for TimeTrackerItem {
    type V = ItemModel;

    open spec fn view(&self) -> ItemModel {
        ItemModel { label: self.label@, entries: self.entries@ }
    }
}

impl TimeTrackerItem {
    /// A fresh item with the given label and no entries.
    pub fn new(label: String) -> (item: Self)
        ensures
            item@.label == label@,
            item@.entries == Seq::<TimeTrackerEntry>::empty(),
            item@.wf(),
            !item@.is_tracked(),
    {
        TimeTrackerItem { entries: Vec::new(), label }
    }

    /// Appends a fresh open entry, started at the clock's reading at call
    /// time.  Callers must not track an item that is already tracked: that
    /// would leave an open entry buried under the new one.
    pub fn track<C: Clock>(&mut self, clock: &C)
        requires
            !old(self)@.is_tracked(),
        ensures
            final(self)@.label == old(self)@.label,
            final(self)@.entries.len() == old(self)@.entries.len() + 1,
            final(self)@.entries.last().end is None,
            clock.can_read(final(self)@.entries.last().start),
            final(self)@.entries.drop_last() == old(self)@.entries,
            final(self)@.is_tracked(),
            old(self)@.wf() ==> final(self)@.wf(),
    {
        self.entries.push(TimeTrackerEntry::new(clock));
        proof {
            assert(self@.entries.drop_last() =~= old(self)@.entries);
            if old(self)@.wf() {
                assert forall|k: int| 0 <= k < self@.entries.len() - 1 implies self@.entries[k].spec_has_ended() by {
                    assert(self@.entries[k] == old(self)@.entries[k]);
                    if k == old(self)@.entries.len() - 1 {
                        assert(old(self)@.entries[k] == old(self)@.entries.last());
                    }
                }
            }
        }
    }

    /// True iff the item has an entry and its last entry has not ended.
    pub fn is_tracked(&self) -> (r: bool)
        ensures
            r == self@.is_tracked(),
    {
        let n = self.entries.len();
        if n == 0 {
            false
        } else {
            !self.entries[n - 1].has_ended()
        }
    }

    /// Closes the last entry at the clock's reading at call time; does
    /// nothing when the item has no entries.
    pub fn end_tracking<C: Clock>(&mut self, clock: &C)
        ensures
            final(self)@.label == old(self)@.label,
            final(self)@.entries.len() == old(self)@.entries.len(),
            old(self)@.entries.len() == 0 ==> final(self)@ == old(self)@,
            old(self)@.entries.len() > 0 ==> final(self)@.entries.last().start == old(
                self,
            )@.entries.last().start,
            old(self)@.entries.len() > 0 ==> final(self)@.entries.last().end is Some,
            old(self)@.entries.len() > 0 ==> clock.can_read(final(self)@.entries.last().end->0),
            old(self)@.entries.len() > 0 ==> final(self)@.entries.drop_last() == old(
                self,
            )@.entries.drop_last(),
            !final(self)@.is_tracked(),
            old(self)@.wf() ==> final(self)@.wf(),
    {
        let n = self.entries.len();
        if n > 0 {
            let entry = &mut self.entries[n - 1];
            entry.end_tracking(clock);
            proof {
                assert(self@.entries.drop_last() =~= old(self)@.entries.drop_last());
            }
        }
    }
}

} // verus!
