//! What the window-title widget does when the compositor reports a change.

use vstd::prelude::*;

verus! {

/// A change the compositor reports, as far as the widget reads it.
#[derive(Debug, Clone, PartialEq, Eq)]
pub enum WindowEvent {
    /// The focus went to another window, or to none.
    FocusChanged,
    /// The set of windows was replaced.
    WindowsChanged,
    /// A window was opened, or something about it changed.
    OpenedOrChanged { is_focused: bool, title: Option<String>, app_id: Option<String> },
    /// A window was closed.
    Closed,
    /// Anything else.
    Other,
}

/// What the widget is to do.
#[derive(Debug, Clone, PartialEq, Eq)]
pub enum TitleAction {
    /// Leave the title as it is.
    Keep,
    /// Ask the compositor for the focused window and show it; if there is
    /// none, leave the title as it is.
    Ask,
    /// Ask the compositor for the focused window and show it; if there is
    /// none, show nothing.
    AskOrClear,
    /// Show this title and application.
    Show(String, Option<String>),
}

/// The mathematical content of a [`TitleAction`].
pub enum TitleActionView {
    Keep,
    Ask,
    AskOrClear,
    Show(Seq<char>, Option<Seq<char>>),
}

/// The content of a text that may be missing.
pub open spec fn text_view(text: Option<String>) -> Option<Seq<char>> {
    match text {
        Some(text) => Some(text@),
        None => None,
    }
}

impl View for TitleAction {
    type V = TitleActionView;

    open spec fn view(&self) -> TitleActionView {
        match self {
            TitleAction::Keep => TitleActionView::Keep,
            TitleAction::Ask => TitleActionView::Ask,
            TitleAction::AskOrClear => TitleActionView::AskOrClear,
            TitleAction::Show(title, app_id) => TitleActionView::Show(title@, text_view(*app_id)),
        }
    }
}

/// What a reported change calls for. A change of focus or of the set of
/// windows calls for asking; so does a closed window, after which there may
/// be no window left. A window that changed is shown if it has the focus,
/// under an empty title if it has none.
pub open spec fn action_for(event: WindowEvent) -> TitleActionView {
    match event {
        WindowEvent::FocusChanged => TitleActionView::Ask,
        WindowEvent::WindowsChanged => TitleActionView::Ask,
        WindowEvent::OpenedOrChanged { is_focused, title, app_id } => if is_focused {
            TitleActionView::Show(
                match title {
                    Some(title) => title@,
                    None => Seq::empty(),
                },
                text_view(app_id),
            )
        } else {
            TitleActionView::Keep
        },
        WindowEvent::Closed => TitleActionView::AskOrClear,
        WindowEvent::Other => TitleActionView::Keep,
    }
}

/// Decides what the widget does about a reported change.
pub fn on_window_event(event: WindowEvent) -> (action: TitleAction)
    ensures
        action@ == action_for(event),
{
    match event {
        WindowEvent::FocusChanged => TitleAction::Ask,
        WindowEvent::WindowsChanged => TitleAction::Ask,
        WindowEvent::OpenedOrChanged { is_focused, title, app_id } => {
            if is_focused {
                let shown = match title {
                    Some(title) => title,
                    None => String::new(),
                };
                TitleAction::Show(shown, app_id)
            } else {
                TitleAction::Keep
            }
        },
        WindowEvent::Closed => TitleAction::AskOrClear,
        WindowEvent::Other => TitleAction::Keep,
    }
}

} // verus!
