//! The aggregate root: owns the items and the clock, and is the only
//! component that starts or stops tracking.  Its contracts are stated over
//! a mathematical model, a sequence of `ItemModel`s, together with spec
//! transition functions that say exactly how each operation rewrites it.

use vstd::prelude::*;

use crate::clock::Clock;
use crate::clock::Instant;
use crate::time_tracker_entry::TimeTrackerEntry;
use crate::time_tracker_item::ItemModel;
use crate::time_tracker_item::TimeTrackerItem;

verus! {

/// The one failure the tracker can report: `track_item` was given a label
/// that matches no item.
#[derive(Debug)]
pub enum TimeTrackerError {
    ItemNotFound,
}

/// Some item carries this label.
pub open spec fn has_item_with_label(items: Seq<ItemModel>, label: Seq<char>) -> bool {
    exists|i: int| 0 <= i < items.len() && items[i].label == label
}

/// The index of the first item carrying this label; `items.len()` when
/// none does.  Lookups resolve duplicate labels to the first match.
pub open spec fn first_index_with_label(items: Seq<ItemModel>, label: Seq<char>) -> int
    decreases items.len(),
{
    if items.len() == 0 {
        0
    } else if items[0].label == label {
        0
    } else {
        1 + first_index_with_label(items.drop_first(), label)
    }
}

/// Some item is currently tracked.
pub open spec fn some_item_tracked(items: Seq<ItemModel>) -> bool {
    exists|i: int| 0 <= i < items.len() && items[i].is_tracked()
}

/// The index of the first tracked item; `items.len()` when none is.
pub open spec fn first_tracked_index(items: Seq<ItemModel>) -> int
    decreases items.len(),
{
    if items.len() == 0 {
        0
    } else if items[0].is_tracked() {
        0
    } else {
        1 + first_tracked_index(items.drop_first())
    }
}

/// `first_index_with_label` is the least index carrying the label, and it
/// stays below `items.len()` exactly when the label is present.
pub proof fn lemma_first_index_with_label(items: Seq<ItemModel>, label: Seq<char>)
    ensures
        0 <= first_index_with_label(items, label) <= items.len(),
        first_index_with_label(items, label) < items.len() <==> has_item_with_label(items, label),
        first_index_with_label(items, label) < items.len() ==> items[first_index_with_label(
            items,
            label,
        )].label == label,
        forall|j: int|
            0 <= j < first_index_with_label(items, label) ==> items[j].label != label,
    decreases items.len(),
{
    if items.len() == 0 {
    } else if items[0].label == label {
    } else {
        let rest = items.drop_first();
        lemma_first_index_with_label(rest, label);
        let i = first_index_with_label(items, label);
        assert(forall|j: int| 0 <= j < rest.len() ==> rest[j] == items[j + 1]);
        assert forall|j: int| 0 <= j < i implies items[j].label != label by {
            if j > 0 {
                assert(items[j] == rest[j - 1]);
            }
        }
        if has_item_with_label(items, label) {
            let w = choose|w: int| 0 <= w < items.len() && items[w].label == label;
            assert(rest[w - 1] == items[w]);
            assert(has_item_with_label(rest, label));
        }
        if has_item_with_label(rest, label) {
            let w = choose|w: int| 0 <= w < rest.len() && rest[w].label == label;
            assert(items[w + 1] == rest[w]);
            assert(has_item_with_label(items, label));
        }
        if i < items.len() {
            assert(items[i] == rest[i - 1]);
        }
    }
}

/// `first_tracked_index` is the least index of a tracked item, and it
/// stays below `items.len()` exactly when some item is tracked.
pub proof fn lemma_first_tracked_index(items: Seq<ItemModel>)
    ensures
        0 <= first_tracked_index(items) <= items.len(),
        first_tracked_index(items) < items.len() <==> some_item_tracked(items),
        first_tracked_index(items) < items.len() ==> items[first_tracked_index(
            items,
        )].is_tracked(),
        forall|j: int| 0 <= j < first_tracked_index(items) ==> !items[j].is_tracked(),
    decreases items.len(),
{
    if items.len() == 0 {
    } else if items[0].is_tracked() {
    } else {
        let rest = items.drop_first();
        lemma_first_tracked_index(rest);
        let i = first_tracked_index(items);
        assert(forall|j: int| 0 <= j < rest.len() ==> rest[j] == items[j + 1]);
        assert forall|j: int| 0 <= j < i implies !items[j].is_tracked() by {
            if j > 0 {
                assert(items[j] == rest[j - 1]);
            }
        }
        if some_item_tracked(items) {
            let w = choose|w: int| 0 <= w < items.len() && items[w].is_tracked();
            assert(rest[w - 1] == items[w]);
            assert(some_item_tracked(rest));
        }
        if some_item_tracked(rest) {
            let w = choose|w: int| 0 <= w < rest.len() && rest[w].is_tracked();
            assert(items[w + 1] == rest[w]);
            assert(some_item_tracked(items));
        }
        if i < items.len() {
            assert(items[i] == rest[i - 1]);
        }
    }
}

/// The entries after the last one is closed at instant `t`.
pub open spec fn close_last_entry(entries: Seq<TimeTrackerEntry>, t: Instant) -> Seq<
    TimeTrackerEntry,
> {
    entries.update(
        entries.len() - 1,
        TimeTrackerEntry { start: entries.last().start, end: Some(t) },
    )
}

/// The item after its last entry is closed at instant `t`.
pub open spec fn stop_item_model(m: ItemModel, t: Instant) -> ItemModel {
    ItemModel { label: m.label, entries: close_last_entry(m.entries, t) }
}

/// The item after a fresh entry starting at instant `t` is appended.
pub open spec fn start_item_model(m: ItemModel, t: Instant) -> ItemModel {
    ItemModel { label: m.label, entries: m.entries.push(TimeTrackerEntry { start: t, end: None }) }
}

/// The items after a fresh, untracked item with this label is appended.
pub open spec fn add_item_model(items: Seq<ItemModel>, label: Seq<char>) -> Seq<ItemModel> {
    items.push(ItemModel { label, entries: Seq::empty() })
}

/// The items after the first tracked one, if any, is stopped at `t`.
pub open spec fn stop_current_model(items: Seq<ItemModel>, t: Instant) -> Seq<ItemModel> {
    let j = first_tracked_index(items);
    if j < items.len() {
        items.update(j, stop_item_model(items[j], t))
    } else {
        items
    }
}

/// The items after `track_item` succeeds on this label: the currently
/// tracked item, if any, is stopped at `t_stop`, then the first item
/// carrying the label gets a fresh entry starting at `t_start`.
pub open spec fn track_item_model(
    items: Seq<ItemModel>,
    label: Seq<char>,
    t_stop: Instant,
    t_start: Instant,
) -> Seq<ItemModel> {
    let stopped = stop_current_model(items, t_stop);
    let i = first_index_with_label(items, label);
    stopped.update(i, start_item_model(stopped[i], t_start))
}

/// The tracker's invariant over its model: every item keeps at most its
/// last entry open, and at most one item is tracked at any moment.
pub open spec fn items_wf(items: Seq<ItemModel>) -> bool {
    &&& forall|i: int| 0 <= i < items.len() ==> items[i].wf()
    &&& forall|i: int, j: int|
        0 <= i < j < items.len() ==> !(items[i].is_tracked() && items[j].is_tracked())
}

/// The aggregate root.  All starting and stopping of tracking goes through
/// it; built through its own operations it keeps `items_wf` of its model.
pub struct TimeTracker<C: Clock> {
    pub items: Vec<TimeTrackerItem>,
    pub clock: C,
}

impl<C: Clock> View for TimeTracker<C> {
    type V = Seq<ItemModel>;

    open spec fn view(&self) -> Seq<ItemModel> {
        self.items@.map_values(|item: TimeTrackerItem| item@)
    }
}

impl<C: Clock> TimeTracker<C> {
    /// The tracker's invariant: see `items_wf`.
    pub open spec fn wf(&self) -> bool {
        items_wf(self@)
    }

    /// A fresh tracker with no items, reading time from the given clock.
    pub fn new(clock: C) -> (tracker: Self)
        ensures
            tracker@ == Seq::<ItemModel>::empty(),
            tracker.clock == clock,
            tracker.wf(),
    {
        let tracker = TimeTracker { items: Vec::new(), clock };
        proof {
            assert(tracker@ =~= Seq::<ItemModel>::empty());
        }
        tracker
    }

    /// Appends a fresh, untracked item with this label.  Duplicate labels
    /// are not rejected; lookups resolve them to the first match.
    pub fn add_item(&mut self, label: String)
        requires
            old(self).wf(),
        ensures
            final(self)@ == add_item_model(old(self)@, label@),
            final(self).clock == old(self).clock,
            final(self).wf(),
    {
        self.items.push(TimeTrackerItem::new(label));
        proof {
            assert(self@ =~= add_item_model(old(self)@, label@));
            assert forall|i: int| 0 <= i < self@.len() implies self@[i].wf() by {
                if i < old(self)@.len() {
                    assert(old(self)@[i].wf());
                }
            }
            assert forall|i: int, j: int| 0 <= i < j < self@.len() implies !(self@[i].is_tracked()
                && self@[j].is_tracked()) by {
                if j < old(self)@.len() {
                    assert(!(old(self)@[i].is_tracked() && old(self)@[j].is_tracked()));
                } else {
                    assert(!self@[j].is_tracked());
                }
            }
        }
    }

    /// The first currently tracked item, in sequence order, or `None` when
    /// no item is tracked.
    pub fn get_currently_tracked_item(&self) -> (r: Option<&TimeTrackerItem>)
        ensures
            r is Some <==> some_item_tracked(self@),
            r is Some ==> first_tracked_index(self@) < self@.len(),
            r is Some ==> r->0@ == self@[first_tracked_index(self@)],
            r is Some ==> r->0@.is_tracked(),
    {
        proof {
            lemma_first_tracked_index(self@);
        }
        let n = self.items.len();
        let mut idx: usize = 0;
        while idx < n
            invariant
                0 <= idx <= n,
                n == self.items.len(),
                forall|k: int| 0 <= k < idx ==> !self@[k].is_tracked(),
            decreases n - idx,
        {
            if self.items[idx].is_tracked() {
                proof {
                    lemma_first_tracked_index(self@);
                    assert(self@[idx as int].is_tracked());
                    assert(first_tracked_index(self@) == idx as int);
                }
                return Some(&self.items[idx]);
            }
            idx = idx + 1;
        }
        proof {
            lemma_first_tracked_index(self@);
            assert(!some_item_tracked(self@));
        }
        None
    }

    /// Stops the first currently tracked item at the clock's reading at
    /// call time; does nothing when no item is tracked.
    pub fn stop_tracking_current_item(&mut self)
        requires
            old(self).wf(),
        ensures
            final(self).clock == old(self).clock,
            final(self).wf(),
            some_item_tracked(old(self)@) ==> exists|t: Instant|
                old(self).clock.can_read(t) && final(self)@ == stop_current_model(old(self)@, t),
            !some_item_tracked(old(self)@) ==> final(self)@ == old(self)@,
    {
        proof {
            lemma_first_tracked_index(old(self)@);
        }
        let n = self.items.len();
        let mut idx: usize = 0;
        while idx < n
            invariant
                0 <= idx <= n,
                n == self.items.len(),
                *self == *old(self),
                old(self).wf(),
                forall|k: int| 0 <= k < idx ==> !self@[k].is_tracked(),
            decreases n - idx,
        {
            if self.items[idx].is_tracked() {
                proof {
                    lemma_first_tracked_index(self@);
                    assert(self@[idx as int] == self.items@[idx as int]@);
                    assert(self@[idx as int].is_tracked());
                    assert(first_tracked_index(self@) == idx as int);
                }
                let item = &mut self.items[idx];
                item.end_tracking(&self.clock);
                proof {
                    let j = idx as int;
                    let t = self@[j].entries.last().end->0;
                    assert(old(self)@[j].is_tracked());
                    assert(old(self)@[j].entries.len() > 0);
                    assert(self@[j].entries =~= close_last_entry(old(self)@[j].entries, t)) by {
                        let pre = old(self)@[j].entries;
                        let post = self@[j].entries;
                        assert(post.drop_last() == pre.drop_last());
                        assert(forall|k: int|
                            0 <= k < pre.len() - 1 ==> post[k] == post.drop_last()[k]
                                && pre[k] == pre.drop_last()[k]);
                        assert(post.last() == TimeTrackerEntry {
                            start: pre.last().start,
                            end: Some(t),
                        });
                    }
                    assert(self@[j] =~= stop_item_model(old(self)@[j], t));
                    assert(self@ =~= stop_current_model(old(self)@, t));
                    assert(old(self).clock.can_read(t));
                    assert forall|i: int| 0 <= i < self@.len() implies self@[i].wf() by {
                        assert(old(self)@[i].wf());
                        if i == j {
                            assert(self@[j].wf());
                        }
                    }
                    assert forall|i: int, k: int| 0 <= i < k < self@.len() implies !(
                    self@[i].is_tracked() && self@[k].is_tracked()) by {
                        assert(!(old(self)@[i].is_tracked() && old(self)@[k].is_tracked()));
                        assert(!self@[j].is_tracked());
                    }
                }
                return ;
            }
            idx = idx + 1;
        }
        proof {
            lemma_first_tracked_index(self@);
            assert(!some_item_tracked(self@));
        }
    }

    /// Starts tracking the first item whose label equals `item_label`, or
    /// fails with `ItemNotFound` when no item carries that label, leaving
    /// the tracker unchanged.  To keep the single-active-item invariant,
    /// the currently tracked item, if any, is stopped first; this policy
    /// is this library's resolution of a choice the operation leaves open.
    pub fn track_item(&mut self, item_label: String) -> (r: Result<(), TimeTrackerError>)
        requires
            old(self).wf(),
        ensures
            final(self).clock == old(self).clock,
            final(self).wf(),
            r is Ok <==> has_item_with_label(old(self)@, item_label@),
            r is Err ==> final(self)@ == old(self)@ && r == Err::<(), TimeTrackerError>(
                TimeTrackerError::ItemNotFound,
            ),
            r is Ok ==> exists|t_stop: Instant, t_start: Instant|
                old(self).clock.can_read(t_stop) && old(self).clock.can_read(t_start)
                    && final(self)@ == track_item_model(old(self)@, item_label@, t_stop, t_start),
    {
        let n = self.items.len();
        let mut idx: usize = 0;
        while idx < n
            invariant
                idx <= n,
                n == self.items.len(),
                *self == *old(self),
                old(self).wf(),
                forall|k: int| 0 <= k < idx ==> self@[k].label != item_label@,
            decreases n - idx,
        {
            if self.items[idx].label == item_label {
                proof {
                    assert(self@[idx as int] == self.items@[idx as int]@);
                    assert(self@[idx as int].label == item_label@);
                    lemma_first_index_with_label(old(self)@, item_label@);
                    assert(first_index_with_label(old(self)@, item_label@) == idx as int);
                }
                self.stop_tracking_current_item();
                let ghost mid: Seq<ItemModel> = self@;
                proof {
                    if some_item_tracked(old(self)@) {
                        let t = choose|t: Instant|
                            old(self).clock.can_read(t) && mid == stop_current_model(
                                old(self)@,
                                t,
                            );
                        law_stop_tracking_current(old(self)@, t);
                    }
                    assert(!some_item_tracked(mid));
                    assert(mid.len() == old(self)@.len());
                    assert(self.items@[idx as int]@ == mid[idx as int]);
                    assert(!mid[idx as int].is_tracked());
                    assert(mid[idx as int].wf());
                }
                let item = &mut self.items[idx];
                item.track(&self.clock);
                proof {
                    let i = idx as int;
                    let pre = old(self)@;
                    let t_start = self@[i].entries.last().start;
                    let t_stop: Instant = if some_item_tracked(pre) {
                        choose|t: Instant|
                            old(self).clock.can_read(t) && mid == stop_current_model(pre, t)
                    } else {
                        t_start
                    };
                    if !some_item_tracked(pre) {
                        lemma_first_tracked_index(pre);
                        assert(stop_current_model(pre, t_stop) == pre);
                    }
                    assert(mid == stop_current_model(pre, t_stop));
                    assert(old(self).clock.can_read(t_stop));
                    assert(old(self).clock.can_read(t_start));
                    assert(self@[i] =~= start_item_model(mid[i], t_start)) by {
                        let before = mid[i].entries;
                        let after = self@[i].entries;
                        assert(after.drop_last() == before);
                        assert(forall|k: int| 0 <= k < before.len() ==> after[k] == after.drop_last()[k]);
                        assert(after.last() == TimeTrackerEntry { start: t_start, end: None });
                    }
                    assert(self@ =~= track_item_model(pre, item_label@, t_stop, t_start));
                    assert(has_item_with_label(pre, item_label@));
                    assert forall|a: int| 0 <= a < self@.len() implies self@[a].wf() by {
                        if a != i {
                            assert(self@[a] == mid[a]);
                        }
                    }
                    assert forall|a: int, b: int| 0 <= a < b < self@.len() implies !(
                    self@[a].is_tracked() && self@[b].is_tracked()) by {
                        if a != i {
                            assert(self@[a] == mid[a]);
                            assert(!self@[a].is_tracked());
                        } else {
                            assert(self@[b] == mid[b]);
                            assert(!self@[b].is_tracked());
                        }
                    }
                }
                return Ok(());
            }
            idx = idx + 1;
        }
        proof {
            assert(!has_item_with_label(self@, item_label@));
        }
        Err(TimeTrackerError::ItemNotFound)
    }
}

/// After an item is added, an item with its label exists, and the new item
/// is not tracked.
pub proof fn law_add_item(items: Seq<ItemModel>, label: Seq<char>)
    ensures
        has_item_with_label(add_item_model(items, label), label),
        add_item_model(items, label).last().label == label,
        !add_item_model(items, label).last().is_tracked(),
{
    let post = add_item_model(items, label);
    assert(post[post.len() - 1].label == label);
}

/// After `track_item` succeeds on a label, the first item carrying that
/// label is tracked, and its last entry starts at the clock reading taken
/// when the fresh entry was created, with no end yet.
pub proof fn law_track_item_starts(
    items: Seq<ItemModel>,
    label: Seq<char>,
    t_stop: Instant,
    t_start: Instant,
)
    requires
        has_item_with_label(items, label),
    ensures
        ({
            let i = first_index_with_label(items, label);
            let post = track_item_model(items, label, t_stop, t_start);
            &&& post.len() == items.len()
            &&& 0 <= i < post.len()
            &&& post[i].label == items[i].label
            &&& post[i].entries.len() > 0
            &&& post[i].entries.last().start == t_start
            &&& post[i].entries.last().end is None
            &&& post[i].is_tracked()
        }),
{
    lemma_first_index_with_label(items, label);
    lemma_first_tracked_index(items);
    let i = first_index_with_label(items, label);
    let stopped = stop_current_model(items, t_stop);
    let post = track_item_model(items, label, t_stop, t_start);
    assert(post[i] == start_item_model(stopped[i], t_start));
    assert(post[i].entries.last() == TimeTrackerEntry { start: t_start, end: None });
}

/// After the currently tracked item is stopped at instant `t`, its last
/// entry ends at `t` and keeps its start, it is no longer tracked, and no
/// item is tracked any more, so the currently tracked item is absent.
pub proof fn law_stop_tracking_current(items: Seq<ItemModel>, t: Instant)
    requires
        items_wf(items),
        some_item_tracked(items),
    ensures
        ({
            let j = first_tracked_index(items);
            let post = stop_current_model(items, t);
            &&& post.len() == items.len()
            &&& 0 <= j < items.len()
            &&& post[j].label == items[j].label
            &&& post[j].entries.len() == items[j].entries.len() > 0
            &&& post[j].entries.last().start == items[j].entries.last().start
            &&& post[j].entries.last().end == Some(t)
            &&& !post[j].is_tracked()
            &&& !some_item_tracked(post)
        }),
{
    lemma_first_tracked_index(items);
    let j = first_tracked_index(items);
    let post = stop_current_model(items, t);
    assert(items[j].is_tracked());
    assert(post[j] == stop_item_model(items[j], t));
    assert(post[j].entries.last() == TimeTrackerEntry {
        start: items[j].entries.last().start,
        end: Some(t),
    });
    assert forall|k: int| 0 <= k < post.len() implies !post[k].is_tracked() by {
        if k != j {
            assert(post[k] == items[k]);
            if k > j {
                assert(!(items[j].is_tracked() && items[k].is_tracked()));
            }
        }
    }
    assert(!some_item_tracked(post));
}

/// Stopping when no item is tracked changes nothing.
pub proof fn law_stop_when_none_tracked(items: Seq<ItemModel>, t: Instant)
    requires
        !some_item_tracked(items),
    ensures
        stop_current_model(items, t) == items,
{
    lemma_first_tracked_index(items);
}

} // verus!
