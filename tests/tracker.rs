use iced_wry::FrameTracker;

#[test]
fn new_tracker_is_empty() {
    let t = FrameTracker::new();
    assert!(t.is_empty());
    assert_eq!(t.len(), 0);
    assert_eq!(t.last_render(1), None);
}

#[test]
fn record_render_keeps_records_sorted_by_id() {
    let mut t = FrameTracker::new();
    t.record_render(5, 100);
    t.record_render(2, 200);
    t.record_render(9, 300);
    t.record_render(3, 400);
    assert_eq!(t.len(), 4);
    assert_eq!(t.record_at(0), (2, 200));
    assert_eq!(t.record_at(1), (3, 400));
    assert_eq!(t.record_at(2), (5, 100));
    assert_eq!(t.record_at(3), (9, 300));
}

#[test]
fn record_render_replaces_an_earlier_stamp() {
    let mut t = FrameTracker::new();
    t.record_render(4, 10);
    t.record_render(7, 11);
    t.record_render(4, 50);
    assert_eq!(t.len(), 2);
    assert_eq!(t.last_render(4), Some(50));
    assert_eq!(t.last_render(7), Some(11));
    assert_eq!(t.last_render(8), None);
}

#[test]
fn clear_forgets_every_record() {
    let mut t = FrameTracker::new();
    t.record_render(1, 1);
    t.record_render(2, 2);
    t.clear();
    assert!(t.is_empty());
    assert_eq!(t.last_render(1), None);
}
