use iced_wry::{on_event, FrameTracker, WidgetEvent};

#[test]
fn redraw_records_the_render() {
    let mut t = FrameTracker::new();
    assert!(!on_event(&mut t, 4, WidgetEvent::RedrawRequested(77)));
    assert_eq!(t.last_render(4), Some(77));
    assert!(!on_event(&mut t, 4, WidgetEvent::RedrawRequested(90)));
    assert_eq!(t.last_render(4), Some(90));
    assert_eq!(t.len(), 1);
}

#[test]
fn press_outside_hands_back_focus() {
    let mut t = FrameTracker::new();
    assert!(on_event(&mut t, 4, WidgetEvent::ButtonPressed { cursor_inside: Some(false) }));
    assert!(t.is_empty());
}

#[test]
fn press_inside_or_unknown_keeps_focus() {
    let mut t = FrameTracker::new();
    assert!(!on_event(&mut t, 4, WidgetEvent::ButtonPressed { cursor_inside: Some(true) }));
    assert!(!on_event(&mut t, 4, WidgetEvent::ButtonPressed { cursor_inside: None }));
    assert!(t.is_empty());
}

#[test]
fn other_events_change_nothing() {
    let mut t = FrameTracker::new();
    t.record_render(1, 5);
    assert!(!on_event(&mut t, 1, WidgetEvent::Other));
    assert_eq!(t.last_render(1), Some(5));
    assert_eq!(t.len(), 1);
}
