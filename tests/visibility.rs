use iced_wry::{FrameTracker, IcedWryMessage, VisibilityUpdater};

fn hidden_ids(r: Option<IcedWryMessage>) -> Option<Vec<usize>> {
    match r {
        Some(IcedWryMessage::HideWebviews(ids)) => Some(ids),
        None => None,
    }
}

#[test]
fn updater_keeps_its_settings() {
    let u = VisibilityUpdater::new(7, 25);
    assert_eq!(u.id(), 7);
    assert_eq!(u.persist_duration(), 25);
}

#[test]
fn empty_tracker_yields_nothing() {
    let mut u = VisibilityUpdater::new(1, 25);
    let t = FrameTracker::new();
    assert_eq!(hidden_ids(u.on_redraw(&t, 1000)), None);
}

#[test]
fn webview_rendered_in_the_frame_stays_visible() {
    let mut u = VisibilityUpdater::new(1, 25);
    let mut t = FrameTracker::new();
    for frame in 0..10u64 {
        let now = 100 + frame * 16;
        t.record_render(3, now);
        assert_eq!(hidden_ids(u.on_redraw(&t, now)), None);
    }
}

#[test]
fn webview_left_out_of_the_tree_is_hidden_exactly_once() {
    let mut u = VisibilityUpdater::new(1, 25);
    let mut t = FrameTracker::new();
    t.record_render(3, 100);
    assert_eq!(hidden_ids(u.on_redraw(&t, 100)), None);
    // not rendered any more
    assert_eq!(hidden_ids(u.on_redraw(&t, 116)), None);
    assert_eq!(hidden_ids(u.on_redraw(&t, 125)), Some(vec![3]));
    assert_eq!(hidden_ids(u.on_redraw(&t, 141)), None);
    assert_eq!(hidden_ids(u.on_redraw(&t, 10_000)), None);
}

#[test]
fn rendering_again_rearms_the_pass() {
    let mut u = VisibilityUpdater::new(1, 25);
    let mut t = FrameTracker::new();
    t.record_render(3, 100);
    assert_eq!(hidden_ids(u.on_redraw(&t, 200)), Some(vec![3]));
    t.record_render(3, 300);
    assert_eq!(hidden_ids(u.on_redraw(&t, 300)), None);
    assert_eq!(hidden_ids(u.on_redraw(&t, 400)), Some(vec![3]));
}

#[test]
fn stale_webviews_come_in_increasing_id_order() {
    let mut u = VisibilityUpdater::new(1, 10);
    let mut t = FrameTracker::new();
    t.record_render(8, 0);
    t.record_render(2, 5);
    t.record_render(5, 95);
    t.record_render(4, 1);
    assert_eq!(hidden_ids(u.on_redraw(&t, 100)), Some(vec![2, 4, 8]));
}

#[test]
fn persist_boundary_is_inclusive() {
    let mut u = VisibilityUpdater::new(1, 25);
    let mut t = FrameTracker::new();
    t.record_render(1, 100);
    assert_eq!(hidden_ids(u.on_redraw(&t, 124)), None);
    assert_eq!(hidden_ids(u.on_redraw(&t, 125)), Some(vec![1]));
}

#[test]
fn zero_persist_hides_at_once() {
    let mut u = VisibilityUpdater::new(1, 0);
    let mut t = FrameTracker::new();
    t.record_render(6, 100);
    assert_eq!(hidden_ids(u.on_redraw(&t, 100)), Some(vec![6]));
}

#[test]
fn render_stamped_after_the_pass_counts_as_just_now() {
    let mut u = VisibilityUpdater::new(1, 25);
    let mut t = FrameTracker::new();
    t.record_render(6, 500);
    assert_eq!(hidden_ids(u.on_redraw(&t, 100)), None);
}
