//! The notification service as its bus methods see it.
use vstd::prelude::*;
use vstd::string::*;

use crate::config::DEFAULT_TIMEOUT_MS;
use crate::event::{texts, Event, EventView};

verus! {

/// The state of the notification service: the identifier of the next new notification.
pub struct Notifications {
    next_id: u32,
}

impl View for Notifications {
    type V = u32;

    closed spec fn view(&self) -> u32 {
        self.next_id
    }
}

/// The identifier after `id`; they start over after the largest.
pub open spec fn id_after(id: u32) -> u32 {
    if id == u32::MAX {
        0
    } else {
        (id + 1) as u32
    }
}

/// The timeout that a sender asks for: a negative one leaves the choice to the service.
pub open spec fn timeout_of(expire_timeout: i32) -> u32 {
    if expire_timeout < 0 {
        DEFAULT_TIMEOUT_MS
    } else {
        expire_timeout as u32
    }
}

impl Notifications {
    /// A service that has not sent any notification yet.
    pub fn new() -> (service: Notifications)
        ensures
            service@ == 1,
    {
        Notifications { next_id: 1 }
    }

    /// Accepts a notification. It takes the place of `replaces_id`, or gets a new identifier if
    /// that is zero. Returns the identifier and the event for the display.
    pub fn notify(
        &mut self,
        app_name: String,
        replaces_id: u32,
        app_icon: String,
        summary: String,
        body: String,
        actions: Vec<String>,
        expire_timeout: i32,
    ) -> (accepted: (u32, Event))
        ensures
            accepted.0 == if replaces_id == 0 {
                old(self)@
            } else {
                replaces_id
            },
            final(self)@ == if replaces_id == 0 {
                id_after(old(self)@)
            } else {
                old(self)@
            },
            accepted.1@ == (EventView::Notify {
                id: accepted.0,
                app_name: app_name@,
                app_icon: app_icon@,
                summary: summary@,
                body: body@,
                actions: texts(actions@),
                timeout_ms: timeout_of(expire_timeout),
            }),
    {
        let id: u32 = if replaces_id == 0 {
            let fresh: u32 = self.next_id;
            self.next_id = fresh.wrapping_add(1);
            fresh
        } else {
            replaces_id
        };
        let timeout_ms: u32 = if expire_timeout < 0 {
            DEFAULT_TIMEOUT_MS
        } else if expire_timeout == 0 {
            0
        } else {
            expire_timeout as u32
        };
        (id, Event::Notify { id, app_name, app_icon, summary, body, actions, timeout_ms })
    }

    /// Asks for a notification to be closed. Returns the event for the display.
    pub fn close_notification(&self, id: u32) -> (event: Event)
        ensures
            event@ == (EventView::Close { id }),
    {
        Event::Close { id }
    }

    /// What the service can do, in the terms of the notification protocol.
    pub fn get_capabilities(&self) -> (capabilities: Vec<&'static str>)
        ensures
            capabilities@.len() == 4,
            capabilities@[0]@ == "body"@,
            capabilities@[1]@ == "actions"@,
            capabilities@[2]@ == "persistence"@,
            capabilities@[3]@ == "icon-static"@,
    {
        vec!["body", "actions", "persistence", "icon-static"]
    }

    /// The service's name, vendor, version, and the version of the notification protocol that it
    /// implements.
    pub fn get_server_information(&self, version: &'static str) -> (information: (
        &'static str,
        &'static str,
        &'static str,
        &'static str,
    ))
        ensures
            information.0@ == "glass"@,
            information.1@ == "glass-notify"@,
            information.2@ == version@,
            information.3@ == "1.2"@,
    {
        ("glass", "glass-notify", version, "1.2")
    }
}

/// The identifier that a service hands out after `count` new notifications, if `first` was the
/// first.
pub open spec fn id_at(first: u32, count: nat) -> u32
    decreases count,
{
    if count == 0 {
        first
    } else {
        id_after(id_at(first, (count - 1) as nat))
    }
}

proof fn lemma_id_at(first: u32, count: nat)
    ensures
        id_at(first, count) == (first + count) % 0x1_0000_0000,
    decreases count,
{
    if count > 0 {
        lemma_id_at(first, (count - 1) as nat);
    }
}

/// New notifications get identifiers of their own: none repeats within `2^32` of them.
pub proof fn law_ids_do_not_repeat(first: u32, earlier: nat, later: nat)
    requires
        earlier < later < earlier + 0x1_0000_0000,
    ensures
        id_at(first, earlier) != id_at(first, later),
{
    lemma_id_at(first, earlier);
    lemma_id_at(first, later);
}

/// Counting from one, the identifiers of the first `2^32 - 1` new notifications are not zero, which
/// stands for a new notification.
pub proof fn law_ids_are_not_zero(count: nat)
    requires
        count < 0xffff_ffff,
    ensures
        id_at(1, count) != 0,
{
    lemma_id_at(1, count);
}

} // verus!
