use rack_picker::errors::{ErrorStateTracker, RackError};

#[test]
fn raising_twice_keeps_one_entry() {
    let mut tracker = ErrorStateTracker::new();
    let first = tracker.add_error(RackError::NotANumber);
    assert_eq!(first, Some(0));
    let second = tracker.add_error(RackError::NotANumber);
    assert_eq!(second, None);
    assert_eq!(tracker.entries.len(), 1);
    assert_eq!(tracker.entries[0], (RackError::NotANumber, 0));
}

#[test]
fn raising_ignores_bounds_of_an_active_error() {
    let mut tracker = ErrorStateTracker::new();
    assert_eq!(tracker.add_error(RackError::OutOfRange(1, 160)), Some(0));
    // a second out-of-range error is the same kind, whatever bounds it carries
    assert_eq!(tracker.add_error(RackError::OutOfRange(7, 9)), None);
    assert_eq!(tracker.entries.len(), 1);
    assert_eq!(tracker.entries[0], (RackError::OutOfRange(1, 160), 0));
}

#[test]
fn clearing_an_inactive_kind_is_a_noop() {
    let mut tracker = ErrorStateTracker::new();
    assert_eq!(tracker.clear_error(RackError::NotANumber), None);
    assert!(tracker.entries.is_empty());
    tracker.add_error(RackError::OutOfRange(1, 160));
    assert_eq!(tracker.clear_error(RackError::NotANumber), None);
    assert_eq!(tracker.entries.len(), 1);
}

#[test]
fn clearing_ignores_bounds() {
    let mut tracker = ErrorStateTracker::new();
    tracker.add_error(RackError::OutOfRange(1, 160));
    let released = tracker.clear_error(RackError::OutOfRange(0, 0));
    assert_eq!(released, Some(0));
    assert!(tracker.entries.is_empty());
}

#[test]
fn entries_keep_insertion_order() {
    let mut tracker = ErrorStateTracker::new();
    tracker.add_error(RackError::NotANumber);
    tracker.add_error(RackError::OutOfRange(1, 160));
    assert_eq!(
        tracker.entries,
        vec![
            (RackError::NotANumber, 0),
            (RackError::OutOfRange(1, 160), 1),
        ]
    );
}

#[test]
fn handles_are_never_reused() {
    let mut tracker = ErrorStateTracker::new();
    assert_eq!(tracker.add_error(RackError::NotANumber), Some(0));
    assert_eq!(tracker.clear_error(RackError::NotANumber), Some(0));
    assert_eq!(tracker.add_error(RackError::NotANumber), Some(1));
    assert_eq!(tracker.add_error(RackError::OutOfRange(1, 160)), Some(2));
}

#[test]
fn clear_all_releases_every_handle_oldest_first() {
    let mut tracker = ErrorStateTracker::new();
    tracker.add_error(RackError::OutOfRange(1, 160));
    tracker.add_error(RackError::NotANumber);
    let released = tracker.clear_all();
    assert_eq!(released, vec![0, 1]);
    assert!(tracker.entries.is_empty());
    // handles still move forward after a wholesale clear
    assert_eq!(tracker.add_error(RackError::NotANumber), Some(2));
}

#[test]
fn same_kind_compares_variants_only() {
    assert!(RackError::OutOfRange(1, 160).is_same_kind(&RackError::OutOfRange(0, 0)));
    assert!(RackError::NotANumber.is_same_kind(&RackError::NotANumber));
    assert!(!RackError::NotANumber.is_same_kind(&RackError::OutOfRange(1, 160)));
    assert!(!RackError::OutOfRange(1, 160).is_same_kind(&RackError::NotANumber));
}

#[test]
fn messages_render_their_bounds() {
    assert_eq!(
        RackError::OutOfRange(1, 160).message(),
        "Sequence must be between 1 and 160."
    );
    assert_eq!(
        RackError::OutOfRange(2, 5).message(),
        "Sequence must be between 2 and 5."
    );
    assert_eq!(
        RackError::NotANumber.message(),
        "Sequence must be a positive integer."
    );
}
