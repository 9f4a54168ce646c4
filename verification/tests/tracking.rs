use timetrack::clock::Instant;
use timetrack::clock::MockClock;
use timetrack::clock::SystemClock;
use timetrack::time_tracker::TimeTracker;
use timetrack::time_tracker::TimeTrackerError;
use timetrack::time_tracker_entry::TimeTrackerEntry;
use timetrack::time_tracker_item::TimeTrackerItem;

#[test]
fn can_add_items() {
    let mock_clock = MockClock { now: Instant { ticks: 100 } };

    let mut tracker = TimeTracker::new(mock_clock);
    tracker.add_item("TestItem".to_string());

    let item = &tracker.items[0];
    assert_eq!("TestItem", item.label);
}

#[test]
fn can_track_item() {
    let current_time = Instant { ticks: 100 };
    let mock_clock = MockClock { now: current_time };

    let mut tracker = TimeTracker::new(mock_clock);
    tracker.add_item("TestItem".to_string());

    assert!(tracker.track_item("TestItem".to_string()).is_ok());
    assert_eq!(tracker.items[0].entries[0].start, current_time);
}

#[test]
fn returns_err_when_tracking_non_existent_item() {
    let mock_clock = MockClock { now: Instant { ticks: 100 } };

    let mut tracker = TimeTracker::new(mock_clock);
    assert!(tracker.track_item("NonExistent".to_string()).is_err());
}

#[test]
fn returns_currently_tracked_item() {
    let mock_clock = MockClock { now: Instant { ticks: 100 } };

    let mut tracker = TimeTracker::new(mock_clock);
    tracker.add_item("TestItem".to_string());
    tracker.add_item("TrackedTestItem".to_string());
    tracker.track_item("TrackedTestItem".to_string()).unwrap();

    assert_eq!(
        tracker.get_currently_tracked_item().unwrap().label,
        "TrackedTestItem"
    );
}

#[test]
fn can_stop_tracking_current_item() {
    let current_time = Instant { ticks: 100 };
    let mock_clock = MockClock { now: current_time };

    let mut tracker = TimeTracker::new(mock_clock);
    tracker.add_item("TestItem".to_string());
    tracker.track_item("TestItem".to_string()).unwrap();
    tracker.stop_tracking_current_item();

    assert_eq!(tracker.items[0].entries[0].end, Some(current_time));
    assert!(tracker.get_currently_tracked_item().is_none());
}

#[test]
fn entry_starts_with_current_time() {
    let current_time = Instant { ticks: 41 };
    let mock_clock = MockClock { now: current_time };

    let entry = TimeTrackerEntry::new(&mock_clock);

    assert_eq!(entry.start, current_time);
}

#[test]
fn entry_ends_tracking_with_current_time() {
    let mut mock_clock = MockClock { now: Instant { ticks: 41 } };

    let mut entry = TimeTrackerEntry::new(&mock_clock);
    mock_clock.now = Instant { ticks: 55 };
    entry.end_tracking(&mock_clock);

    assert_eq!(entry.end, Some(Instant { ticks: 55 }));
}

#[test]
fn item_creates_entry_when_tracked() {
    let current_time = Instant { ticks: 41 };
    let mock_clock = MockClock { now: current_time };

    let mut item = TimeTrackerItem::new("TestItem".to_string());
    item.track(&mock_clock);

    assert_eq!(item.entries[0].start, current_time);
}

#[test]
fn added_item_exists_and_is_not_tracked() {
    let mock_clock = MockClock { now: Instant { ticks: 1 } };

    let mut tracker = TimeTracker::new(mock_clock);
    tracker.add_item("Reading".to_string());

    assert_eq!(tracker.items.len(), 1);
    assert_eq!(tracker.items[0].label, "Reading");
    assert!(!tracker.items[0].is_tracked());
}

#[test]
fn tracking_marks_item_tracked_with_open_entry() {
    let mock_clock = MockClock { now: Instant { ticks: 9 } };

    let mut tracker = TimeTracker::new(mock_clock);
    tracker.add_item("Reading".to_string());
    tracker.track_item("Reading".to_string()).unwrap();

    assert!(tracker.items[0].is_tracked());
    assert_eq!(tracker.items[0].entries.len(), 1);
    assert_eq!(tracker.items[0].entries[0].start, Instant { ticks: 9 });
    assert_eq!(tracker.items[0].entries[0].end, None);
}

#[test]
fn stopping_with_nothing_tracked_changes_nothing() {
    let mock_clock = MockClock { now: Instant { ticks: 3 } };

    let mut tracker = TimeTracker::new(mock_clock);
    tracker.add_item("A".to_string());
    tracker.add_item("B".to_string());
    tracker.stop_tracking_current_item();

    assert_eq!(tracker.items.len(), 2);
    assert!(tracker.items[0].entries.is_empty());
    assert!(tracker.items[1].entries.is_empty());
    assert!(tracker.get_currently_tracked_item().is_none());
}

#[test]
fn full_session_with_advancing_clock() {
    let t1 = Instant { ticks: 1000 };
    let t2 = Instant { ticks: 2000 };
    let mock_clock = MockClock { now: t1 };

    let mut tracker = TimeTracker::new(mock_clock);
    tracker.add_item("Writing".to_string());
    tracker.track_item("Writing".to_string()).unwrap();

    assert_eq!(tracker.items[0].entries[0].start, t1);
    assert_eq!(tracker.items[0].entries[0].end, None);

    tracker.clock.now = t2;
    tracker.stop_tracking_current_item();

    assert_eq!(tracker.items[0].entries[0].start, t1);
    assert_eq!(tracker.items[0].entries[0].end, Some(t2));
    assert!(!tracker.items[0].is_tracked());
}

#[test]
fn tracking_missing_label_on_empty_tracker_leaves_it_unchanged() {
    let mock_clock = MockClock { now: Instant { ticks: 5 } };

    let mut tracker = TimeTracker::new(mock_clock);
    let result = tracker.track_item("Missing".to_string());

    assert!(matches!(result, Err(TimeTrackerError::ItemNotFound)));
    assert!(tracker.items.is_empty());
    assert!(tracker.get_currently_tracked_item().is_none());
}

#[test]
fn tracking_second_item_stops_the_first() {
    let t1 = Instant { ticks: 10 };
    let t2 = Instant { ticks: 20 };
    let mock_clock = MockClock { now: t1 };

    let mut tracker = TimeTracker::new(mock_clock);
    tracker.add_item("A".to_string());
    tracker.add_item("B".to_string());
    tracker.track_item("A".to_string()).unwrap();

    tracker.clock.now = t2;
    tracker.track_item("B".to_string()).unwrap();

    assert_eq!(tracker.items[0].entries[0].start, t1);
    assert_eq!(tracker.items[0].entries[0].end, Some(t2));
    assert!(!tracker.items[0].is_tracked());
    assert!(tracker.items[1].is_tracked());
    assert_eq!(tracker.get_currently_tracked_item().unwrap().label, "B");
}

#[test]
fn tracking_same_item_again_closes_its_open_entry_first() {
    let t1 = Instant { ticks: 10 };
    let t2 = Instant { ticks: 20 };
    let mock_clock = MockClock { now: t1 };

    let mut tracker = TimeTracker::new(mock_clock);
    tracker.add_item("A".to_string());
    tracker.track_item("A".to_string()).unwrap();

    tracker.clock.now = t2;
    tracker.track_item("A".to_string()).unwrap();

    assert_eq!(tracker.items[0].entries.len(), 2);
    assert_eq!(tracker.items[0].entries[0].end, Some(t2));
    assert_eq!(tracker.items[0].entries[1].start, t2);
    assert_eq!(tracker.items[0].entries[1].end, None);
    assert!(tracker.items[0].is_tracked());
}

#[test]
fn duplicate_labels_resolve_to_first_match() {
    let mock_clock = MockClock { now: Instant { ticks: 7 } };

    let mut tracker = TimeTracker::new(mock_clock);
    tracker.add_item("Twice".to_string());
    tracker.add_item("Twice".to_string());
    tracker.track_item("Twice".to_string()).unwrap();

    assert!(tracker.items[0].is_tracked());
    assert!(!tracker.items[1].is_tracked());
}

#[test]
fn entry_reports_whether_it_has_ended() {
    let mock_clock = MockClock { now: Instant { ticks: 1 } };

    let mut entry = TimeTrackerEntry::new(&mock_clock);
    assert!(!entry.has_ended());

    entry.end_tracking(&mock_clock);
    assert!(entry.has_ended());
}

#[test]
fn item_end_tracking_without_entries_is_a_no_op() {
    let mock_clock = MockClock { now: Instant { ticks: 1 } };

    let mut item = TimeTrackerItem::new("Idle".to_string());
    item.end_tracking(&mock_clock);

    assert!(item.entries.is_empty());
    assert!(!item.is_tracked());
}

#[test]
fn system_clock_drives_an_entry() {
    let clock = SystemClock;

    let mut entry = TimeTrackerEntry::new(&clock);
    assert!(!entry.has_ended());

    entry.end_tracking(&clock);
    assert!(entry.has_ended());
}
