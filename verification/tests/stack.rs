use glass::action::{Action, Card};
use glass::app_state::AppState;
use glass::event::{Event, Reply};
use glass::slots::AnimState;

const MS: u64 = 1_000_000;

fn card(name: &str) -> Card {
    Card {
        app_name: name.to_string(),
        summary: "summary".to_string(),
        body: "body".to_string(),
        icon_rgba: None,
    }
}

/// Opens a notification whose surface has the handle `100 + id`.
fn open(state: &mut AppState, id: u32, timeout_ms: u32, now: u64) -> Vec<Action> {
    let surface = 100 + id as u64;
    assert!(state.can_open(id, surface, timeout_ms, now));
    state.open(id, surface, card("app"), Vec::new(), timeout_ms, now, now)
}

/// A stack of configured cards, all opened at time zero without a timeout.
fn stack_of(ids: &[u32]) -> AppState {
    let mut state = AppState::new();
    for id in ids {
        open(&mut state, *id, 0, 0);
        state.configure(100 + *id as u64);
    }
    state
}

fn shown(actions: &[Action]) -> Vec<String> {
    actions.iter().map(|a| format!("{:?}", a)).collect()
}

fn moved(id: u32, margin_top: i32) -> String {
    format!("{:?}", Action::Move { surface: 100 + id as u64, margin_top, margin_right: 14 })
}

fn released(id: u32) -> String {
    format!("{:?}", Action::Release { surface: 100 + id as u64 })
}

fn reported(id: u32, reason: u32) -> String {
    format!("{:?}", Action::Send(Reply::Closed { id, reason }))
}

fn enter(id: u32, margin_top: i32, elapsed_ms: u64) -> String {
    let surface = 100 + id as u64;
    format!("{:?}", Action::Enter { surface, margin_top, elapsed_ms, show_close: false })
}

fn leave(id: u32, margin_top: i32, elapsed_ms: u64) -> String {
    format!("{:?}", Action::Leave { surface: 100 + id as u64, margin_top, elapsed_ms })
}

#[test]
fn new_cards_come_below_the_others() {
    let mut state = AppState::new();
    let mut margins = Vec::new();
    for id in [7u32, 3, 5] {
        for action in open(&mut state, id, 0, 0) {
            match action {
                Action::Open { id: opened, surface, namespace, margin_top, margin_right, .. } => {
                    assert_eq!(opened, id);
                    assert_eq!(surface, 100 + id as u64);
                    assert_eq!(namespace, format!("glass-{id}"));
                    assert_eq!(margin_right, -380);
                    margins.push(margin_top);
                }
                other => panic!("unexpected {other:?}"),
            }
        }
    }
    assert_eq!(margins, vec![14, 116, 218]);
    assert_eq!(state.stack_position(7), 0);
    assert_eq!(state.stack_position(3), 1);
    assert_eq!(state.stack_position(5), 2);
}

#[test]
fn absent_cards_have_position_zero() {
    let state = stack_of(&[1, 2]);
    assert_eq!(state.stack_position(9), 0);
    assert!(state.slot(9).is_none());
}

#[test]
fn namespace_of_a_large_identifier() {
    let mut state = AppState::new();
    match &open(&mut state, u32::MAX, 0, 0)[..] {
        [Action::Open { namespace, .. }] => assert_eq!(namespace, "glass-4294967295"),
        other => panic!("unexpected {other:?}"),
    }
}

#[test]
fn cards_do_not_overlap() {
    let mut state = AppState::new();
    let mut last = -1000;
    for id in 1..20u32 {
        for action in open(&mut state, id, 0, 0) {
            if let Action::Open { margin_top, .. } = action {
                assert!(margin_top >= last + 94 + 8);
                last = margin_top;
            }
        }
    }
}

#[test]
fn open_action_carries_the_card() {
    let mut state = AppState::new();
    let shown_card = Card {
        app_name: "Mail".to_string(),
        summary: "New".to_string(),
        body: "Hello".to_string(),
        icon_rgba: Some(vec![1, 2, 3, 4]),
    };
    let actions = state.open(4, 1, shown_card, Vec::new(), 0, 0, 0);
    match &actions[..] {
        [Action::Open { card, .. }] => {
            assert_eq!(card.app_name, "Mail");
            assert_eq!(card.summary, "New");
            assert_eq!(card.body, "Hello");
            assert_eq!(card.icon_rgba, Some(vec![1, 2, 3, 4]));
        }
        other => panic!("unexpected {other:?}"),
    }
}

#[test]
fn default_action_is_found_among_the_actions() {
    let mut state = AppState::new();
    let list = |names: &[&str]| names.iter().map(|n| n.to_string()).collect::<Vec<String>>();
    state.open(1, 1, card("a"), list(&["open", "default"]), 0, 0, 0);
    state.open(2, 2, card("a"), list(&["open", "Default", "defaults"]), 0, 0, 0);
    state.open(3, 3, card("a"), list(&[]), 0, 0, 0);
    assert!(state.slot(1).unwrap().has_default_action);
    assert!(!state.slot(2).unwrap().has_default_action);
    assert!(!state.slot(3).unwrap().has_default_action);
}

#[test]
fn first_draw_is_transparent() {
    let mut state = AppState::new();
    open(&mut state, 1, 0, 0);
    assert!(!state.slot(1).unwrap().configured);
    let actions = state.configure(101);
    assert_eq!(
        shown(&actions),
        shown(&[Action::Draw { surface: 101, visible: false, show_close: false }])
    );
    assert!(state.slot(1).unwrap().configured);
}

#[test]
fn later_draws_are_visible() {
    let mut state = stack_of(&[1]);
    state.tick_animations(280 * MS);
    assert_eq!(
        shown(&state.configure(101)),
        shown(&[Action::Draw { surface: 101, visible: true, show_close: false }])
    );
    state.close(1, 2, 300 * MS);
    assert_eq!(
        shown(&state.configure(101)),
        shown(&[Action::Draw { surface: 101, visible: true, show_close: false }])
    );
}

#[test]
fn unaccepted_cards_are_not_animated() {
    let mut state = AppState::new();
    open(&mut state, 1, 0, 0);
    assert!(state.tick_animations(1000 * MS).is_empty());
    assert_eq!(state.slot(1).unwrap().anim, AnimState::Entering(0));
    state.close(1, 2, 1000 * MS);
    assert!(state.tick_animations(5000 * MS).is_empty());
    assert!(state.slot(1).is_some());
}

#[test]
fn slide_in_ends_after_its_duration() {
    let mut state = stack_of(&[1]);
    assert_eq!(shown(&state.tick_animations(0)), vec![enter(1, 14, 0)]);
    assert_eq!(shown(&state.tick_animations(140 * MS)), vec![enter(1, 14, 140)]);
    assert_eq!(shown(&state.tick_animations(280 * MS - 1)), vec![enter(1, 14, 279)]);
    assert_eq!(state.slot(1).unwrap().anim, AnimState::Entering(0));
    assert_eq!(shown(&state.tick_animations(280 * MS)), vec![enter(1, 14, 280)]);
    assert_eq!(state.slot(1).unwrap().anim, AnimState::Steady);
    assert!(state.tick_animations(300 * MS).is_empty());
}

#[test]
fn late_tick_shows_the_last_frame() {
    let mut state = stack_of(&[1]);
    assert_eq!(shown(&state.tick_animations(9000 * MS)), vec![enter(1, 14, 280)]);
    assert_eq!(state.slot(1).unwrap().anim, AnimState::Steady);
}

#[test]
fn animation_that_starts_ahead_shows_its_first_frame() {
    let mut state = AppState::new();
    open(&mut state, 1, 0, 50 * MS);
    state.configure(101);
    assert_eq!(shown(&state.tick_animations(20 * MS)), vec![enter(1, 14, 0)]);
}

#[test]
fn fade_out_ends_in_removal_and_report() {
    let mut state = stack_of(&[1, 2, 3]);
    state.tick_animations(280 * MS);
    assert!(state.close(2, 3, 1000 * MS).is_empty());
    assert_eq!(shown(&state.tick_animations(1000 * MS)), vec![leave(2, 116, 0)]);
    assert_eq!(shown(&state.tick_animations(1180 * MS - 1)), vec![leave(2, 116, 179)]);
    assert!(state.slot(2).is_some());
    assert_eq!(
        shown(&state.tick_animations(1180 * MS)),
        vec![leave(2, 116, 180), released(2), reported(2, 3), moved(1, 14), moved(3, 116)]
    );
    assert!(state.slot(2).is_none());
    assert!(state.tick_animations(2000 * MS).is_empty());
    assert_eq!(state.stack_position(1), 0);
    assert_eq!(state.stack_position(3), 1);
}

#[test]
fn several_cards_leave_in_stack_order() {
    let mut state = stack_of(&[4, 9, 2]);
    state.tick_animations(280 * MS);
    state.close(2, 1, 1000 * MS);
    state.close(4, 2, 1001 * MS);
    assert_eq!(
        shown(&state.tick_animations(2000 * MS)),
        vec![
            leave(4, 14, 180),
            leave(2, 218, 180),
            released(4),
            reported(4, 2),
            moved(9, 14),
            moved(2, 116),
            released(2),
            reported(2, 1),
            moved(9, 14),
        ]
    );
}

#[test]
fn first_reason_stands() {
    let mut state = stack_of(&[1]);
    state.close(1, 1, 500 * MS);
    state.close(1, 3, 600 * MS);
    assert_eq!(
        state.slot(1).unwrap().anim,
        AnimState::Leaving { start: 500 * MS, reason: 1 }
    );
    assert_eq!(
        shown(&state.tick_animations(680 * MS)),
        vec![leave(1, 14, 180), released(1), reported(1, 1)]
    );
}

#[test]
fn reason_zero_removes_silently() {
    let mut state = stack_of(&[1, 2]);
    assert_eq!(shown(&state.close(1, 0, 0)), vec![released(1), moved(2, 14)]);
    assert!(state.slot(1).is_none());
}

#[test]
fn closing_an_absent_notification_does_nothing() {
    let mut state = stack_of(&[1]);
    let before = state.slot(1);
    assert!(state.close(2, 0, 5).is_empty());
    assert!(state.close(2, 3, 5).is_empty());
    assert_eq!(state.slot(1), before);
    assert_eq!(state.stack_position(1), 0);
}

#[test]
fn replacement_is_silent_and_comes_last() {
    let mut state = stack_of(&[1, 2, 3]);
    state.tick_animations(280 * MS);
    assert!(state.can_open(1, 500, 0, 0));
    let actions = state.open(1, 500, card("new"), Vec::new(), 0, 300 * MS, 300 * MS);
    let list = shown(&actions);
    assert_eq!(list.len(), 4);
    assert_eq!(list[..3].to_vec(), vec![released(1), moved(2, 14), moved(3, 116)]);
    assert!(matches!(&actions[3], Action::Open { id: 1, surface: 500, margin_top: 218, .. }));
    assert!(!actions.iter().any(|a| matches!(a, Action::Send(_))));
    assert_eq!(state.stack_position(2), 0);
    assert_eq!(state.stack_position(3), 1);
    assert_eq!(state.stack_position(1), 2);
    assert_eq!(state.slot(1).unwrap().anim, AnimState::Entering(300 * MS));
    assert!(state.find_id_by_surface(101).is_none());
    assert_eq!(state.find_id_by_surface(500), Some(1));
}

#[test]
fn timeout_zero_never_expires() {
    let mut state = stack_of(&[1]);
    assert_eq!(state.slot(1).unwrap().expires_at, None);
    assert!(state.expired(u64::MAX).is_empty());
    state.expire(u64::MAX, u64::MAX);
    assert!(!matches!(state.slot(1).unwrap().anim, AnimState::Leaving { .. }));
}

#[test]
fn timer_counts_from_its_start() {
    let mut state = AppState::new();
    state.open(1, 1, card("a"), Vec::new(), 5000, 100 * MS, 130 * MS);
    let slot = state.slot(1).unwrap();
    assert_eq!(slot.expires_at, Some(5100 * MS));
    assert_eq!(slot.anim, AnimState::Entering(130 * MS));
}

#[test]
fn due_notifications_start_to_leave() {
    let mut state = AppState::new();
    open(&mut state, 1, 500, 0);
    open(&mut state, 2, 100, 0);
    open(&mut state, 3, 200, 0);
    assert!(state.expired(100 * MS - 1).is_empty());
    assert_eq!(state.expired(100 * MS), vec![2]);
    assert_eq!(state.expired(500 * MS), vec![1, 2, 3]);
    state.expire(200 * MS, 201 * MS);
    let leaving = AnimState::Leaving { start: 201 * MS, reason: 1 };
    assert_eq!(state.slot(1).unwrap().anim, AnimState::Entering(0));
    assert_eq!(state.slot(2).unwrap().anim, leaving);
    assert_eq!(state.slot(3).unwrap().anim, leaving);
}

#[test]
fn due_notification_that_leaves_already_keeps_its_reason() {
    let mut state = AppState::new();
    open(&mut state, 1, 100, 0);
    state.close(1, 3, 50 * MS);
    state.expire(200 * MS, 200 * MS);
    assert_eq!(
        state.slot(1).unwrap().anim,
        AnimState::Leaving { start: 50 * MS, reason: 3 }
    );
}

#[test]
fn expiry_is_reported_after_the_fade_out() {
    let mut state = AppState::new();
    open(&mut state, 1, 1000, 0);
    state.configure(101);
    state.turn(280 * MS, 280 * MS);
    assert!(state.turn(999 * MS, 999 * MS).is_empty());
    assert_eq!(shown(&state.turn(1000 * MS, 1001 * MS)), vec![leave(1, 14, 0)]);
    assert_eq!(shown(&state.turn(1100 * MS, 1100 * MS)), vec![leave(1, 14, 99)]);
    assert_eq!(
        shown(&state.turn(1181 * MS, 1181 * MS)),
        vec![leave(1, 14, 180), released(1), reported(1, 1)]
    );
    assert!(state.turn(1200 * MS, 1200 * MS).is_empty());
}

#[test]
fn compositor_closing_a_surface_dismisses() {
    let mut state = stack_of(&[1, 2]);
    state.closed(102, 400 * MS);
    assert_eq!(
        state.slot(2).unwrap().anim,
        AnimState::Leaving { start: 400 * MS, reason: 2 }
    );
    assert_eq!(state.slot(1).unwrap().anim, AnimState::Entering(0));
}

#[test]
fn stray_surfaces_are_ignored() {
    let mut state = stack_of(&[1]);
    let before = state.slot(1);
    assert!(state.configure(999).is_empty());
    state.closed(999, 10);
    assert!(state.click(999, 0x110, 10).is_empty());
    assert_eq!(state.find_id_by_surface(999), None);
    assert_eq!(state.slot(1), before);
}

#[test]
fn notify_event_opens_a_card() {
    let mut state = AppState::new();
    let event = Event::Notify {
        id: 12,
        app_name: "Chat".to_string(),
        app_icon: "chat".to_string(),
        summary: "Hi".to_string(),
        body: "There".to_string(),
        actions: vec!["default".to_string(), "Open".to_string()],
        timeout_ms: 5000,
    };
    let actions = state.handle_event(event, 8, Some(vec![9; 4]), 10 * MS, 20 * MS);
    match &actions[..] {
        [Action::Open { id, surface, card, margin_top, .. }] => {
            assert_eq!((*id, *surface, *margin_top), (12, 8, 14));
            assert_eq!(card.app_name, "Chat");
            assert_eq!(card.summary, "Hi");
            assert_eq!(card.body, "There");
            assert_eq!(card.icon_rgba, Some(vec![9; 4]));
        }
        other => panic!("unexpected {other:?}"),
    }
    let slot = state.slot(12).unwrap();
    assert!(slot.has_default_action);
    assert_eq!(slot.expires_at, Some(5010 * MS));
    assert_eq!(slot.anim, AnimState::Entering(20 * MS));
    assert!(!slot.hovered);
    assert_eq!(slot.pointer_pos, None);
    assert_eq!(slot.remaining_on_hover, None);
}

#[test]
fn close_event_gives_its_reason() {
    let mut state = stack_of(&[1]);
    assert!(state.handle_event(Event::Close { id: 1 }, 0, None, 0, 400 * MS).is_empty());
    assert_eq!(
        shown(&state.tick_animations(580 * MS)),
        vec![leave(1, 14, 180), released(1), reported(1, 3)]
    );
}

#[test]
fn opening_needs_a_free_surface_and_a_clock_in_range() {
    let state = stack_of(&[1, 2]);
    assert!(state.can_open(3, 999, 0, 0));
    assert!(!state.can_open(3, 101, 0, 0));
    assert!(state.can_open(1, 101, 0, 0));
    assert!(state.can_open(3, 999, 1, u64::MAX - MS));
    assert!(!state.can_open(3, 999, 1, u64::MAX - MS + 1));
    assert!(state.can_open(3, 999, 0, u64::MAX));
}

#[test]
fn idle_tick_does_nothing() {
    let mut state = stack_of(&[1, 2]);
    state.tick_animations(280 * MS);
    open(&mut state, 3, 0, 300 * MS);
    let before = [state.slot(1), state.slot(2), state.slot(3)];
    assert!(state.tick_animations(9000 * MS).is_empty());
    assert_eq!([state.slot(1), state.slot(2), state.slot(3)], before);
    assert_eq!(state.stack_position(3), 2);
}
