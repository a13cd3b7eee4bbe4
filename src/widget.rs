use vstd::prelude::*;
use crate::tracker::FrameTracker;

verus! {

/// What the widget that hosts a webview learns from the window, reduced to
/// what decides its reaction.
#[derive(Debug, Clone, Copy, PartialEq, Eq)]
pub enum WidgetEvent {
    /// A frame is being drawn at the given tick.
    RedrawRequested(u64),
    /// A mouse button was pressed. `cursor_inside` tells whether the cursor
    /// lay within the widget's bounds, and is `None` when the cursor's place
    /// is unknown.
    ButtonPressed { cursor_inside: Option<bool> },
    /// Anything else.
    Other,
}

/// Reacts to `event` for the webview `id`. A redraw at a tick records that
/// the webview was rendered then. A button pressed with the cursor outside
/// the widget returns `true`: the webview must hand the keyboard focus back
/// to its window. Every other event changes nothing.
pub fn on_event(tracker: &mut FrameTracker, id: usize, event: WidgetEvent) -> (focus_parent: bool)
    requires
        old(tracker).wf(),
    ensures
        final(tracker).wf(),
        match event {
            WidgetEvent::RedrawRequested(at) => !focus_parent && final(tracker)@ == old(
                tracker,
            )@.insert(id, at),
            WidgetEvent::ButtonPressed { cursor_inside } => focus_parent == (cursor_inside
                == Some(false)) && final(tracker)@ == old(tracker)@,
            WidgetEvent::Other => !focus_parent && final(tracker)@ == old(tracker)@,
        },
{
    match event {
        WidgetEvent::RedrawRequested(at) => {
            tracker.record_render(id, at);
            false
        },
        WidgetEvent::ButtonPressed { cursor_inside } => match cursor_inside {
            Some(inside) => !inside,
            None => false,
        },
        WidgetEvent::Other => false,
    }
}

} // verus!
