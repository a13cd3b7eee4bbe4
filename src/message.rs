use vstd::prelude::*;

verus! {

/// Messages that the per-frame visibility pass hands to the manager.
#[derive(Debug, Clone)]
pub enum IcedWryMessage {
    /// Webviews, by identifier, that were not rendered recently enough and
    /// must be hidden: they have dropped out of the widget tree.
    HideWebviews(Vec<usize>),
}

/// An update that a single webview can be asked to perform.
#[derive(Debug, Clone, Copy, PartialEq, Eq)]
pub enum WebviewUpdateMessage {
    /// Make the webview visible.
    Show,
    /// Hide the webview.
    Hide,
    /// Give the keyboard focus back to the window that hosts the webview.
    FocusParent,
}

} // verus!
