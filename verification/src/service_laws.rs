//! Laws of the notification service, over the calls of its methods.
use vstd::prelude::*;

use crate::event::Event;
use crate::notifications::Notifications;

verus! {

/// A notification is passed on as it was sent. Its identifier is the one it replaces, or the next
/// free one, which then moves on by one and starts over at zero after the largest. Its timeout is
/// the number of milliseconds that was asked for, or five seconds if that is negative.
pub proof fn law_notify(
    service: &mut Notifications,
    app_name: String,
    replaces_id: u32,
    app_icon: String,
    summary: String,
    body: String,
    actions: Vec<String>,
    expire_timeout: i32,
    accepted: (u32, Event),
)
    requires
        call_ensures(
            Notifications::notify,
            (
                service,
                app_name,
                replaces_id,
                app_icon,
                summary,
                body,
                actions,
                expire_timeout,
            ),
            accepted,
        ),
    ensures
        replaces_id != 0 ==> accepted.0 == replaces_id && final(service)@ == old(service)@,
        replaces_id == 0 ==> accepted.0 == old(service)@ && final(service)@ == (old(service)@ + 1)
            % 0x1_0000_0000,
        accepted.1 matches Event::Notify {
            id,
            app_name: sent_name,
            app_icon: sent_icon,
            summary: sent_summary,
            body: sent_body,
            actions: sent_actions,
            timeout_ms,
        } && {
            &&& id == accepted.0
            &&& sent_name@ == app_name@
            &&& sent_icon@ == app_icon@
            &&& sent_summary@ == summary@
            &&& sent_body@ == body@
            &&& sent_actions@.len() == actions@.len()
            &&& forall|i: int|
                0 <= i < actions@.len() ==> (#[trigger] sent_actions@[i])@ == actions@[i]@
            &&& expire_timeout >= 0 ==> timeout_ms == expire_timeout
            &&& expire_timeout < 0 ==> timeout_ms == 5000
        },
{
    if let Event::Notify { actions: sent, .. } = accepted.1 {
        assert(crate::event::texts(sent@).len() == crate::event::texts(actions@).len());
        assert forall|i: int| 0 <= i < actions@.len() implies (#[trigger] sent@[i])@
            == actions@[i]@ by {
            assert(crate::event::texts(sent@)[i] == crate::event::texts(actions@)[i]);
        }
    }
}

/// Closing names the notification that was asked for.
pub proof fn law_close_notification(service: &Notifications, id: u32, event: Event)
    requires
        call_ensures(Notifications::close_notification, (service, id), event),
    ensures
        event matches Event::Close { id: closed } && closed == id,
{
}

/// The service describes itself by the given version.
pub proof fn law_server_information(
    service: &Notifications,
    version: &'static str,
    information: (&'static str, &'static str, &'static str, &'static str),
)
    requires
        call_ensures(Notifications::get_server_information, (service, version), information),
    ensures
        information.0@ == "glass"@,
        information.1@ == "glass-notify"@,
        information.2@ == version@,
        information.3@ == "1.2"@,
{
}

/// The capabilities are always these four.
pub proof fn law_capabilities(service: &Notifications, capabilities: Vec<&'static str>)
    requires
        call_ensures(Notifications::get_capabilities, (service,), capabilities),
    ensures
        capabilities@.len() == 4,
        capabilities@[0]@ == "body"@,
        capabilities@[1]@ == "actions"@,
        capabilities@[2]@ == "persistence"@,
        capabilities@[3]@ == "icon-static"@,
{
}

/// The first new notification of a service is number one.
pub proof fn law_first_identifier(service: Notifications)
    requires
        call_ensures(Notifications::new, (), service),
    ensures
        service@ == 1,
{
}

} // verus!
