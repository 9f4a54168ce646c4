pub mod clock;
pub mod time_tracker;
pub mod time_tracker_entry;
pub mod time_tracker_item;
