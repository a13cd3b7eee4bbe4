//! Bookkeeping for native webviews laid over the widgets of a GUI window.
//!
//! The library tracks which webview was rendered in which frame, decides
//! once per frame which webviews have dropped out of the widget tree and
//! must be hidden, hands out identifiers that are never reused, and keeps
//! the registry of live webviews that those identifiers name.
pub mod manager;
pub mod message;
pub mod subscription;
pub mod tracker;
pub mod widget;

pub use manager::{IcedWebviewManager, IdCounter, get_updater};
pub use message::IcedWryMessage;
pub use message::WebviewUpdateMessage;
pub use subscription::VisibilityUpdater;
pub use tracker::FrameTracker;
pub use widget::{WidgetEvent, on_event};
