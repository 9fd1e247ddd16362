//! Messages between the bus side and the display side of the daemon.
use vstd::prelude::*;

verus! {

/// A request from the bus to the display.
#[derive(Debug)]
pub enum Event {
    /// Show a notification, or replace the one with the same `id`.
    Notify {
        id: u32,
        app_name: String,
        app_icon: String,
        summary: String,
        body: String,
        actions: Vec<String>,
        /// Zero means that the notification never expires.
        timeout_ms: u32,
    },
    /// Close a notification on its sender's behalf.
    Close { id: u32 },
}

/// A message from the display to the bus.
#[derive(Debug)]
pub enum Reply {
    /// A notification is gone, for the given reason.
    Closed { id: u32, reason: u32 },
    /// The user invoked an action of a notification.
    ActionInvoked { id: u32, action: String },
}

/// What an [`Event`] says.
#[verifier::ext_equal]
pub enum EventView {
    Notify {
        id: u32,
        app_name: Seq<char>,
        app_icon: Seq<char>,
        summary: Seq<char>,
        body: Seq<char>,
        actions: Seq<Seq<char>>,
        timeout_ms: u32,
    },
    Close { id: u32 },
}

/// What a [`Reply`] says.
#[verifier::ext_equal]
pub enum ReplyView {
    Closed { id: u32, reason: u32 },
    ActionInvoked { id: u32, action: Seq<char> },
}

/// The texts of a list of strings.
pub open spec fn texts(list: Seq<String>) -> Seq<Seq<char>> {
    Seq::new(list.len(), |i: int| list[i]@)
}

impl View for Event {
    type V = EventView;

    open spec fn view(&self) -> EventView {
        match *self {
            Event::Notify { id, app_name, app_icon, summary, body, actions, timeout_ms } =>
                EventView::Notify {
                    id,
                    app_name: app_name@,
                    app_icon: app_icon@,
                    summary: summary@,
                    body: body@,
                    actions: texts(actions@),
                    timeout_ms,
                },
            Event::Close { id } => EventView::Close { id },
        }
    }
}

impl View for Reply {
    type V = ReplyView;

    open spec fn view(&self) -> ReplyView {
        match *self {
            Reply::Closed { id, reason } => ReplyView::Closed { id, reason },
            Reply::ActionInvoked { id, action } => ReplyView::ActionInvoked { id, action: action@ },
        }
    }
}

} // verus!
