use glass::action::{Action, Card};
use glass::app_state::AppState;
use glass::slots::{AnimState, PointerEvent, PointerEventKind};

const MS: u64 = 1_000_000;
const LEFT: u32 = 0x110;
const RIGHT: u32 = 0x111;

fn event(surface: u64, kind: PointerEventKind) -> PointerEvent {
    PointerEvent { surface, position: (0, 0), kind }
}

fn motion(surface: u64, x: i32, y: i32) -> PointerEvent {
    PointerEvent { surface, position: (x, y), kind: PointerEventKind::Motion }
}

fn press(button: u32) -> PointerEvent {
    event(0, PointerEventKind::Press { button })
}

/// A configured card at rest with the identifier 1 on surface 10.
fn resting(timeout_ms: u32, actions: &[&str]) -> AppState {
    let mut state = AppState::new();
    let card = Card {
        app_name: "app".to_string(),
        summary: "summary".to_string(),
        body: "body".to_string(),
        icon_rgba: None,
    };
    let actions = actions.iter().map(|a| a.to_string()).collect();
    state.open(1, 10, card, actions, timeout_ms, 0, 0);
    state.configure(10);
    state.tick_animations(280 * MS);
    state
}

fn shown(actions: &[Action]) -> Vec<String> {
    actions.iter().map(|a| format!("{:?}", a)).collect()
}

fn draw(show_close: bool) -> Vec<String> {
    shown(&[Action::Draw { surface: 10, visible: true, show_close }])
}

#[test]
fn hovering_pauses_the_timer() {
    let mut state = resting(5000, &[]);
    assert_eq!(state.slot(1).unwrap().expires_at, Some(5000 * MS));
    let actions = state.pointer_event(event(10, PointerEventKind::Enter), 1000 * MS);
    assert_eq!(shown(&actions), draw(true));
    let slot = state.slot(1).unwrap();
    assert!(slot.hovered);
    assert_eq!(slot.expires_at, None);
    assert_eq!(slot.remaining_on_hover, Some(4000 * MS));
    assert!(state.expired(u64::MAX).is_empty());
    state.turn(9000 * MS, 9000 * MS);
    assert_eq!(state.slot(1).unwrap().anim, AnimState::Steady);

    let actions = state.pointer_event(event(10, PointerEventKind::Leave), 10000 * MS);
    assert_eq!(shown(&actions), draw(false));
    let slot = state.slot(1).unwrap();
    assert!(!slot.hovered);
    assert_eq!(slot.expires_at, Some(14000 * MS));
    assert_eq!(slot.remaining_on_hover, None);
    assert!(state.expired(14000 * MS - 1).is_empty());
    assert_eq!(state.expired(14000 * MS), vec![1]);
}

#[test]
fn entering_after_the_expiry_leaves_no_time() {
    let mut state = resting(1000, &[]);
    state.pointer_event(event(10, PointerEventKind::Enter), 1500 * MS);
    assert_eq!(state.slot(1).unwrap().remaining_on_hover, Some(0));
    state.pointer_event(event(10, PointerEventKind::Leave), 1600 * MS);
    assert_eq!(state.slot(1).unwrap().expires_at, Some(1600 * MS));
    assert_eq!(state.expired(1600 * MS), vec![1]);
}

#[test]
fn entering_twice_keeps_the_time_left() {
    let mut state = resting(5000, &[]);
    state.pointer_event(event(10, PointerEventKind::Enter), 1000 * MS);
    state.pointer_event(event(10, PointerEventKind::Enter), 2000 * MS);
    assert_eq!(state.slot(1).unwrap().remaining_on_hover, Some(4000 * MS));
}

#[test]
fn card_without_a_timer_gets_none_by_hovering() {
    let mut state = resting(0, &[]);
    state.pointer_event(event(10, PointerEventKind::Enter), 1000 * MS);
    assert_eq!(state.slot(1).unwrap().remaining_on_hover, None);
    state.pointer_event(event(10, PointerEventKind::Leave), 2000 * MS);
    let slot = state.slot(1).unwrap();
    assert_eq!((slot.expires_at, slot.remaining_on_hover), (None, None));
}

#[test]
fn animated_cards_are_not_redrawn_by_hovering() {
    let mut state = resting(0, &[]);
    state.close(1, 2, 300 * MS);
    assert!(state.pointer_event(event(10, PointerEventKind::Enter), 310 * MS).is_empty());
    assert!(state.pointer_event(event(10, PointerEventKind::Leave), 320 * MS).is_empty());
}

#[test]
fn close_button_shows_while_sliding_in_under_the_pointer() {
    let mut state = AppState::new();
    let card = Card {
        app_name: String::new(),
        summary: String::new(),
        body: String::new(),
        icon_rgba: None,
    };
    state.open(1, 10, card, Vec::new(), 0, 0, 0);
    state.configure(10);
    assert!(state.pointer_event(event(10, PointerEventKind::Enter), 10 * MS).is_empty());
    assert_eq!(
        shown(&state.tick_animations(100 * MS)),
        shown(&[Action::Enter { surface: 10, margin_top: 14, elapsed_ms: 100, show_close: true }])
    );
}

#[test]
fn motion_is_remembered_until_the_pointer_leaves() {
    let mut state = resting(0, &[]);
    assert!(state.pointer_event(motion(10, 2560, 5120), 300 * MS).is_empty());
    assert_eq!(state.slot(1).unwrap().pointer_pos, Some((2560, 5120)));
    state.pointer_event(event(10, PointerEventKind::Leave), 310 * MS);
    assert_eq!(state.slot(1).unwrap().pointer_pos, None);
}

/// Presses a button over the card at a position and returns what happens.
fn press_at(actions: &[&str], position: Option<(i32, i32)>, button: u32) -> (AppState, Vec<Action>) {
    let mut state = resting(0, actions);
    state.pointer_event(event(10, PointerEventKind::Enter), 300 * MS);
    if let Some((x, y)) = position {
        state.pointer_event(motion(10, x, y), 310 * MS);
    }
    let effects = state.pointer_event(press(button), 320 * MS);
    assert_eq!(
        state.slot(1).unwrap().anim,
        AnimState::Leaving { start: 320 * MS, reason: 2 }
    );
    (state, effects)
}

fn invoked() -> Vec<String> {
    vec!["Send(ActionInvoked { id: 1, action: \"default\" })".to_string()]
}

#[test]
fn left_press_invokes_the_default_action() {
    let (_, effects) = press_at(&["default"], Some((100 * 256, 50 * 256)), LEFT);
    assert_eq!(shown(&effects), invoked());
    let (_, effects) = press_at(&["default"], None, LEFT);
    assert_eq!(shown(&effects), invoked());
}

#[test]
fn press_without_a_default_action_only_dismisses() {
    let (_, effects) = press_at(&["open"], Some((100 * 256, 50 * 256)), LEFT);
    assert!(effects.is_empty());
}

#[test]
fn other_buttons_only_dismiss() {
    let (_, effects) = press_at(&["default"], Some((100 * 256, 50 * 256)), RIGHT);
    assert!(effects.is_empty());
    let (_, effects) = press_at(&["default"], Some((100 * 256, 50 * 256)), 0);
    assert!(effects.is_empty());
}

#[test]
fn close_button_reaches_to_thirty_pixels() {
    let inside = 30 * 256 - 1;
    let outside = 30 * 256;
    assert!(press_at(&["default"], Some((inside, inside)), LEFT).1.is_empty());
    assert!(press_at(&["default"], Some((-5, 0)), LEFT).1.is_empty());
    assert_eq!(shown(&press_at(&["default"], Some((outside, 0)), LEFT).1), invoked());
    assert_eq!(shown(&press_at(&["default"], Some((0, outside)), LEFT).1), invoked());
}

#[test]
fn press_is_reported_after_the_fade_out() {
    let (mut state, _) = press_at(&[], None, RIGHT);
    assert_eq!(
        shown(&state.tick_animations(500 * MS)),
        vec![
            "Leave { surface: 10, margin_top: 14, elapsed_ms: 180 }",
            "Release { surface: 10 }",
            "Send(Closed { id: 1, reason: 2 })",
        ]
    );
}

#[test]
fn press_on_a_leaving_card_keeps_its_reason() {
    let mut state = resting(0, &["default"]);
    state.pointer_event(event(10, PointerEventKind::Enter), 300 * MS);
    state.close(1, 3, 310 * MS);
    let effects = state.pointer_event(press(LEFT), 320 * MS);
    assert_eq!(shown(&effects), invoked());
    assert_eq!(
        state.slot(1).unwrap().anim,
        AnimState::Leaving { start: 310 * MS, reason: 3 }
    );
}

#[test]
fn press_acts_on_the_surface_entered_last() {
    let mut state = resting(0, &["default"]);
    assert!(state.pointer_event(press(LEFT), 300 * MS).is_empty());
    state.pointer_event(event(10, PointerEventKind::Enter), 310 * MS);
    state.pointer_event(event(10, PointerEventKind::Leave), 320 * MS);
    assert!(state.pointer_event(press(LEFT), 330 * MS).is_empty());
    state.pointer_event(event(10, PointerEventKind::Enter), 340 * MS);
    state.pointer_event(event(77, PointerEventKind::Enter), 350 * MS);
    assert!(state.pointer_event(press(LEFT), 360 * MS).is_empty());
    assert_eq!(state.slot(1).unwrap().anim, AnimState::Steady);
}

#[test]
fn press_after_the_card_is_gone_does_nothing() {
    let mut state = resting(0, &["default"]);
    state.pointer_event(event(10, PointerEventKind::Enter), 300 * MS);
    state.close(1, 0, 310 * MS);
    assert!(state.pointer_event(press(LEFT), 320 * MS).is_empty());
    assert!(state.slot(1).is_none());
}

#[test]
fn stray_pointer_events_change_no_card() {
    let mut state = resting(5000, &[]);
    let before = state.slot(1);
    let kinds = [
        PointerEventKind::Enter,
        PointerEventKind::Leave,
        PointerEventKind::Motion,
        PointerEventKind::Other,
    ];
    for kind in kinds {
        assert!(state.pointer_event(event(77, kind), 400 * MS).is_empty());
        assert_eq!(state.slot(1), before);
    }
    assert!(state.pointer_event(event(10, PointerEventKind::Other), 400 * MS).is_empty());
    assert_eq!(state.slot(1), before);
}

#[test]
fn resumed_timer_must_fit_the_clock() {
    let mut state = resting(5000, &[]);
    let leave = event(10, PointerEventKind::Leave);
    assert!(state.can_resume(leave, u64::MAX));
    state.pointer_event(event(10, PointerEventKind::Enter), 1000 * MS);
    assert!(state.can_resume(leave, u64::MAX - 4000 * MS));
    assert!(!state.can_resume(leave, u64::MAX - 4000 * MS + 1));
    assert!(state.can_resume(event(77, PointerEventKind::Leave), u64::MAX));
}

#[test]
fn other_events_need_no_room_on_the_clock() {
    let mut state = resting(5000, &[]);
    state.pointer_event(event(10, PointerEventKind::Enter), 1000 * MS);
    for other in [event(10, PointerEventKind::Enter), motion(10, 1, 2), press(LEFT)] {
        assert!(state.can_resume(other, u64::MAX));
        state.pointer_event(other, u64::MAX);
    }
    let slot = state.slot(1).unwrap();
    assert_eq!(slot.remaining_on_hover, Some(4000 * MS));
    assert_eq!(slot.pointer_pos, Some((1, 2)));
    assert_eq!(slot.anim, AnimState::Leaving { start: u64::MAX, reason: 2 });
}

#[test]
fn press_is_a_click_on_the_hovered_surface() {
    let mut pressed = resting(0, &["default"]);
    pressed.pointer_event(event(10, PointerEventKind::Enter), 300 * MS);
    let mut clicked = resting(0, &["default"]);
    clicked.pointer_event(event(10, PointerEventKind::Enter), 300 * MS);
    let elsewhere = event(77, PointerEventKind::Press { button: LEFT });
    assert_eq!(
        shown(&pressed.pointer_event(elsewhere, 320 * MS)),
        shown(&clicked.click(10, LEFT, 320 * MS))
    );
    assert_eq!(pressed.slot(1), clicked.slot(1));
}

#[test]
fn events_over_one_card_leave_the_other_alone() {
    let mut state = resting(5000, &[]);
    let card = Card {
        app_name: String::new(),
        summary: String::new(),
        body: String::new(),
        icon_rgba: None,
    };
    state.open(2, 20, card, Vec::new(), 7000, 300 * MS, 300 * MS);
    let first = state.slot(1);
    state.configure(20);
    state.pointer_event(event(20, PointerEventKind::Enter), 400 * MS);
    state.pointer_event(motion(20, 50, 60), 410 * MS);
    state.pointer_event(press(LEFT), 420 * MS);
    state.pointer_event(event(20, PointerEventKind::Leave), 430 * MS);
    state.closed(20, 440 * MS);
    assert_eq!(state.slot(1), first);
    assert_eq!((state.stack_position(1), state.stack_position(2)), (0, 1));
}
