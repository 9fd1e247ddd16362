use glass::event::Event;
use glass::notifications::Notifications;

fn text(s: &str) -> String {
    s.to_string()
}

fn send(service: &mut Notifications, replaces_id: u32, expire_timeout: i32) -> (u32, Event) {
    service.notify(
        text("Mail"),
        replaces_id,
        text("mail-icon"),
        text("New message"),
        text("Hello"),
        vec![text("default"), text("Open")],
        expire_timeout,
    )
}

fn timeout_of(event: &Event) -> u32 {
    match event {
        Event::Notify { timeout_ms, .. } => *timeout_ms,
        Event::Close { .. } => panic!("not a notification"),
    }
}

#[test]
fn first_identifier_is_one() {
    let mut service = Notifications::new();
    let (id, _) = send(&mut service, 0, -1);
    assert_eq!(id, 1);
}

#[test]
fn new_notifications_count_up() {
    let mut service = Notifications::new();
    let ids: Vec<u32> = (0..5).map(|_| send(&mut service, 0, 0).0).collect();
    assert_eq!(ids, vec![1, 2, 3, 4, 5]);
}

#[test]
fn identifiers_do_not_repeat() {
    let mut service = Notifications::new();
    let mut ids: Vec<u32> = (0..1000).map(|_| send(&mut service, 0, 0).0).collect();
    assert!(!ids.contains(&0));
    ids.sort();
    ids.dedup();
    assert_eq!(ids.len(), 1000);
}

#[test]
fn replacing_uses_no_new_identifier() {
    let mut service = Notifications::new();
    assert_eq!(send(&mut service, 0, 0).0, 1);
    assert_eq!(send(&mut service, 77, 0).0, 77);
    assert_eq!(send(&mut service, u32::MAX, 0).0, u32::MAX);
    assert_eq!(send(&mut service, 0, 0).0, 2);
}

#[test]
fn negative_timeout_is_the_default() {
    let mut service = Notifications::new();
    assert_eq!(timeout_of(&send(&mut service, 0, -1).1), 5000);
    assert_eq!(timeout_of(&send(&mut service, 0, i32::MIN).1), 5000);
}

#[test]
fn other_timeouts_are_kept() {
    let mut service = Notifications::new();
    assert_eq!(timeout_of(&send(&mut service, 0, 0).1), 0);
    assert_eq!(timeout_of(&send(&mut service, 0, 1).1), 1);
    assert_eq!(timeout_of(&send(&mut service, 0, i32::MAX).1), 2147483647);
}

#[test]
fn event_carries_the_notification() {
    let mut service = Notifications::new();
    let (id, event) = send(&mut service, 9, 250);
    match event {
        Event::Notify { id: sent, app_name, app_icon, summary, body, actions, timeout_ms } => {
            assert_eq!(id, 9);
            assert_eq!(sent, 9);
            assert_eq!(app_name, "Mail");
            assert_eq!(app_icon, "mail-icon");
            assert_eq!(summary, "New message");
            assert_eq!(body, "Hello");
            assert_eq!(actions, vec!["default", "Open"]);
            assert_eq!(timeout_ms, 250);
        }
        Event::Close { .. } => panic!("not a notification"),
    }
}

#[test]
fn close_asks_for_the_identifier() {
    let service = Notifications::new();
    assert!(matches!(service.close_notification(31), Event::Close { id: 31 }));
}

#[test]
fn capabilities_and_information() {
    let service = Notifications::new();
    assert_eq!(service.get_capabilities(), vec!["body", "actions", "persistence", "icon-static"]);
    assert_eq!(
        service.get_server_information("0.1.0"),
        ("glass", "glass-notify", "0.1.0", "1.2")
    );
}
