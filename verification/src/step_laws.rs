//! Laws of the steps of the notification stack, over the calls of its methods: what each does to
//! the cards and to their order, and what it asks of the display.
use vstd::prelude::*;

use crate::action::{requests, Action, ActionView, Card};
use crate::app_state::{lemma_find, lemma_without_wf, AppState};
use crate::event::{texts, Event, Reply};
use crate::slots::{is_due, AnimState, PointerEvent, PointerEventKind, Slot, StackView};
use crate::stack_laws::{law_removal_keeps_order, law_replacement_is_silent, lemma_filter_agree};
use crate::text::decimal;
use crate::text_laws::{is_number, lemma_decimal, number};

verus! {

/// The identifiers but one.
pub open spec fn is_not(id: u32) -> spec_fn(u32) -> bool {
    |x: u32| x != id
}

/// Whether nothing but one notification differs between two stacks.
pub open spec fn others_same(before: StackView, after: StackView, id: u32) -> bool {
    forall|other: u32| #![trigger after.slots.contains_key(other)]
        #![trigger after.slots[other]]
        other != id ==> (after.slots.contains_key(other) <==> before.slots.contains_key(other)) && (
        before.slots.contains_key(other) ==> after.slots[other] == before.slots[other])
}

/// Whether nothing of a stack but the state of one notification has changed.
pub open spec fn only_changed(before: StackView, after: StackView, id: u32) -> bool {
    &&& after.order == before.order
    &&& others_same(before, after, id)
    &&& after.slots.contains_key(id)
}

/// Whether a notification has been taken out of a stack.
pub open spec fn taken_out(before: StackView, after: StackView, id: u32) -> bool {
    &&& after.order == before.order.filter(is_not(id))
    &&& others_same(before, after, id)
    &&& !after.slots.contains_key(id)
    &&& after.hovered == before.hovered
}

/// Whether an action moves a surface to a position of the stack: 14 pixels from the top edge of the
/// screen for the first, and 102 further down for each one after it, 14 from the right edge.
pub open spec fn is_move(action: Action, surface: u64, position: int) -> bool {
    action matches Action::Move { surface: s, margin_top, margin_right } && s == surface
        && margin_top == 14 + 102 * position && margin_right == 14
}

/// Whether actions from an index on move the cards of an order to their places.
pub open spec fn are_moves(
    actions: Seq<Action>,
    at: int,
    slots: Map<u32, Slot>,
    order: Seq<u32>,
) -> bool {
    forall|i: int|
        0 <= i < order.len() ==> is_move(actions[at + i], slots[#[trigger] order[i]].surface, i)
}

/// Whether a notification uses a surface.
pub open spec fn uses(stack: StackView, id: u32, surface: u64) -> bool {
    stack.slots.contains_key(id) && stack.slots[id].surface == surface
}

/// Whether no notification uses a surface.
pub open spec fn unused(stack: StackView, surface: u64) -> bool {
    forall|id: u32| !#[trigger] uses(stack, id, surface)
}

proof fn lemma_found(stack: StackView, surface: u64)
    requires
        stack.wf(),
    ensures
        match stack.find(surface) {
            Some(id) => uses(stack, id, surface) && forall|other: u32| #[trigger]
                uses(stack, other, surface) ==> other == id,
            None => unused(stack, surface),
        },
{
    if let Some(id) = stack.find(surface) {
        assert(stack.shown_on(id, surface));
        assert forall|other: u32| #[trigger] uses(stack, other, surface) implies other == id by {
            assert(stack.shown_on(other, surface));
            lemma_find(stack, other, surface);
        }
    } else {
        assert forall|id: u32| !#[trigger] uses(stack, id, surface) by {
            assert(!stack.shown_on(id, surface));
        }
    }
}

/// A new stack is empty, and nothing is hovered.
pub proof fn law_new_stack(state: AppState)
    requires
        call_ensures(AppState::new, (), state),
    ensures
        state@.wf(),
        state@.order.len() == 0,
        forall|id: u32| !#[trigger] state@.slots.contains_key(id),
        state@.hovered is None,
{
}

/// The position of a notification is where it stands in the order.
pub proof fn law_stack_position(state: &AppState, id: u32, position: i32)
    requires
        state@.wf(),
        call_ensures(AppState::stack_position, (state, id), position),
    ensures
        state@.slots.contains_key(id) ==> 0 <= position < state@.order.len()
            && state@.order[position as int] == id,
        !state@.slots.contains_key(id) ==> position == 0,
{
    if state@.slots.contains_key(id) {
        assert(state@.order.contains(id));
    }
}

/// A notification's state is given as it is.
pub proof fn law_slot(state: &AppState, id: u32, slot: Option<Slot>)
    requires
        call_ensures(AppState::slot, (state, id), slot),
    ensures
        slot is Some <==> state@.slots.contains_key(id),
        slot matches Some(s) ==> s == state@.slots[id],
{
}

/// The notification of a surface is the one that uses it.
pub proof fn law_find_id_by_surface(state: &AppState, surface: u64, id: Option<u32>)
    requires
        state@.wf(),
        call_ensures(AppState::find_id_by_surface, (state, surface), id),
    ensures
        id matches Some(found) ==> uses(state@, found, surface),
        id is None ==> unused(state@, surface),
{
    lemma_found(state@, surface);
}

/// A notification can be opened exactly if its card's place fits on the screen's coordinates, no
/// other card uses its surface, and its timer ends within the clock's range.
pub proof fn law_can_open(
    state: &AppState,
    id: u32,
    surface: u64,
    timeout_ms: u32,
    timer_start: u64,
    able: bool,
)
    requires
        state@.wf(),
        call_ensures(AppState::can_open, (state, id, surface, timeout_ms, timer_start), able),
    ensures
        able <==> {
            &&& state@.slots.contains_key(id) || 14 + 102 * state@.order.len() <= i32::MAX
            &&& forall|other: u32| #[trigger] uses(state@, other, surface) ==> other == id
            &&& timer_start + timeout_ms * 1_000_000 <= u64::MAX
        },
{
    if able {
        assert forall|other: u32| #[trigger] uses(state@, other, surface) implies other == id by {
            if other != id {
                assert(!state@.shown_on(other, surface));
            }
        }
    }
    if forall|other: u32| #[trigger] uses(state@, other, surface) ==> other == id {
        assert forall|other: u32| other != id implies !#[trigger] state@.shown_on(
            other,
            surface,
        ) by {
            assert(!uses(state@, other, surface));
        }
        assert(state@.fresh_surface(id, surface));
    }
}

/// Whether actions are those that follow a card's removal: its surface is released, its reason is
/// reported if there is one, and the other cards move to their places.
pub open spec fn are_removal(
    actions: Seq<Action>,
    at: int,
    slots: Map<u32, Slot>,
    order: Seq<u32>,
    id: u32,
    reason: u32,
) -> bool {
    &&& actions[at] == (Action::Release { surface: slots[id].surface })
    &&& reason > 0 ==> actions[at + 1] == Action::Send(Reply::Closed { id, reason })
    &&& are_moves(
        actions,
        at + if reason > 0 {
            2int
        } else {
            1int
        },
        slots,
        order.filter(is_not(id)),
    )
}

/// The actions of a removal are those that it asks for.
proof fn lemma_removal(stack: StackView, id: u32, reason: u32, actions: Seq<Action>, at: int)
    requires
        stack.wf(),
        stack.slots.contains_key(id),
        0 <= at,
        at + stack.remove_immediate(id, reason).1.len() <= actions.len(),
        forall|k: int|
            0 <= k < stack.remove_immediate(id, reason).1.len() ==> requests(actions)[at + k]
                == #[trigger] stack.remove_immediate(id, reason).1[k],
    ensures
        are_removal(actions, at, stack.slots, stack.order, id, reason),
        taken_out(stack, stack.remove_immediate(id, reason).0, id),
        stack.remove_immediate(id, reason).1.len() == stack.order.len() + if reason > 0 {
            1int
        } else {
            0int
        },
{
    law_removal_keeps_order(stack, id, reason);
    lemma_filter_agree(stack.order, |x: u32| x != id, is_not(id));
    lemma_without_wf(stack, id);
    let (rest, asked) = stack.remove_immediate(id, reason);
    let skip = if reason > 0 {
        2int
    } else {
        1int
    };
    assert(requests(actions)[at + 0] == asked[0]);
    assert(asked[0] == ActionView::Release { surface: stack.slots[id].surface });
    if reason > 0 {
        assert(requests(actions)[at + 1] == asked[1]);
    }
    let order = stack.order.filter(is_not(id));
    assert forall|i: int| 0 <= i < order.len() implies is_move(
        actions[at + skip + i],
        stack.slots[#[trigger] order[i]].surface,
        i,
    ) by {
        assert(requests(actions)[at + (skip + i)] == asked[skip + i]);
        assert(asked[skip + i] == rest.relayout()[i]);
        assert(rest.order.contains(order[i]));
    }
}

/// Closing a notification without a reason takes it out at once, unreported, and moves the others
/// up. With a reason it only starts to fade out, if it does not already, and everything else stays.
/// Closing one that is not on screen does nothing.
pub proof fn law_close(state: &mut AppState, id: u32, reason: u32, now: u64, actions: Vec<Action>)
    requires
        old(state)@.wf(),
        call_ensures(AppState::close, (state, id, reason, now), actions),
    ensures
        final(state)@.wf(),
        !old(state)@.slots.contains_key(id) ==> final(state)@ == old(state)@ && actions@.len() == 0,
        old(state)@.slots.contains_key(id) && reason > 0 ==> {
            &&& only_changed(old(state)@, final(state)@, id)
            &&& final(state)@.hovered == old(state)@.hovered
            &&& actions@.len() == 0
            &&& final(state)@.slots[id] == (Slot {
                anim: match old(state)@.slots[id].anim {
                    AnimState::Leaving { start, reason: first } => AnimState::Leaving {
                        start,
                        reason: first,
                    },
                    _ => AnimState::Leaving { start: now, reason },
                },
                ..old(state)@.slots[id]
            })
        },
        old(state)@.slots.contains_key(id) && reason == 0 ==> {
            &&& taken_out(old(state)@, final(state)@, id)
            &&& are_removal(actions@, 0, old(state)@.slots, old(state)@.order, id, 0)
            &&& actions@.len() == old(state)@.order.len()
        },
{
    let stack = old(state)@;
    assert(requests(actions@).len() == actions@.len());
    if stack.slots.contains_key(id) && reason == 0 {
        lemma_removal(stack, id, 0, actions@, 0);
    }
}

/// Whether a notification has come on screen as a new one: last in the order, with its own surface
/// and a timer of its own, sliding in. Its default action is known if it is anywhere in its list of
/// actions. One with its identifier has been taken out first, and the display is asked for a
/// surface to the right of the screen, below the other cards, that shows it.
pub open spec fn opened(
    before: StackView,
    after: StackView,
    effects: Seq<Action>,
    id: u32,
    surface: u64,
    app_name: Seq<char>,
    summary: Seq<char>,
    body: Seq<char>,
    icon_rgba: Option<Vec<u8>>,
    actions: Seq<String>,
    timeout_ms: u32,
    timer_start: u64,
    now: u64,
) -> bool {
    let rest = before.order.filter(is_not(id));
    &&& after.order == rest.push(id)
    &&& others_same(before, after, id)
    &&& after.hovered == before.hovered
    &&& after.slots.contains_key(id)
    &&& after.slots[id].surface == surface
    &&& !after.slots[id].configured
    &&& timeout_ms == 0 ==> after.slots[id].expires_at is None
    &&& timeout_ms > 0 ==> after.slots[id].expires_at is Some && after.slots[id].expires_at->0
        == timer_start + timeout_ms * 1_000_000
    &&& after.slots[id].remaining_on_hover is None
    &&& after.slots[id].has_default_action <==> exists|i: int|
        0 <= i < actions.len() && (#[trigger] actions[i])@ == "default"@
    &&& after.slots[id].anim == AnimState::Entering(now)
    &&& !after.slots[id].hovered
    &&& after.slots[id].pointer_pos is None
    &&& before.slots.contains_key(id) ==> {
        &&& effects.len() == before.order.len() + 1
        &&& are_removal(effects, 0, before.slots, before.order, id, 0)
    }
    &&& !before.slots.contains_key(id) ==> effects.len() == 1
    &&& effects.last() matches Action::Open {
        id: shown,
        surface: used,
        namespace,
        card,
        margin_top,
        margin_right,
    } && {
        &&& shown == id
        &&& used == surface
        &&& namespace@.len() > 6
        &&& namespace@.take(6) == "glass-"@
        &&& is_number(namespace@.skip(6))
        &&& number(namespace@.skip(6)) == id
        &&& card.app_name@ == app_name
        &&& card.summary@ == summary
        &&& card.body@ == body
        &&& (card.icon_rgba is Some <==> icon_rgba is Some)
        &&& (icon_rgba matches Some(rgba) ==> card.icon_rgba->0@ == rgba@)
        &&& margin_top == 14 + 102 * rest.len()
        &&& margin_right == -380
    }
}

proof fn lemma_opened(
    before: StackView,
    after: StackView,
    effects: Seq<Action>,
    id: u32,
    surface: u64,
    card: Card,
    actions: Seq<String>,
    timeout_ms: u32,
    timer_start: u64,
    now: u64,
)
    requires
        before.wf(),
        timer_start + timeout_ms * 1_000_000 <= u64::MAX,
        (after, requests(effects)) == before.open(
            id,
            surface,
            card@,
            texts(actions),
            timeout_ms,
            timer_start,
            now,
        ),
    ensures
        opened(
            before,
            after,
            effects,
            id,
            surface,
            card.app_name@,
            card.summary@,
            card.body@,
            card.icon_rgba,
            actions,
            timeout_ms,
            timer_start,
            now,
        ),
{
    law_replacement_is_silent(
        before,
        id,
        surface,
        card@,
        texts(actions),
        timeout_ms,
        timer_start,
        now,
    );
    lemma_filter_agree(before.order, |x: u32| x != id, is_not(id));
    let rest = before.order.filter(is_not(id));
    let asked = requests(effects);
    assert(asked.len() == effects.len());
    if before.slots.contains_key(id) {
        let removed = before.remove_immediate(id, 0).1;
        assert forall|k: int| 0 <= k < removed.len() implies asked[0 + k] == #[trigger] removed[k] by {}
        lemma_removal(before, id, 0, effects, 0);
    }
    assert(after.order.drop_last() =~= rest);
    assert(asked.last() == effects.last()@);
    if exists|i: int| 0 <= i < actions.len() && (#[trigger] actions[i])@ == "default"@ {
        let i = choose|i: int| 0 <= i < actions.len() && (#[trigger] actions[i])@ == "default"@;
        assert(texts(actions)[i] == "default"@);
    }
    if texts(actions).contains("default"@) {
        let i = texts(actions).index_of("default"@);
        assert(actions[i]@ == "default"@);
    }
    lemma_decimal(id as nat);
    reveal_strlit("glass-");
    let name = "glass-"@ + decimal(id as nat);
    assert(name.take(6) =~= "glass-"@);
    assert(name.skip(6) =~= decimal(id as nat));
}

/// Opening brings a notification on screen as a new one.
pub proof fn law_open(
    state: &mut AppState,
    id: u32,
    surface: u64,
    card: Card,
    actions: Vec<String>,
    timeout_ms: u32,
    timer_start: u64,
    now: u64,
    effects: Vec<Action>,
)
    requires
        old(state)@.wf(),
        timer_start + timeout_ms * 1_000_000 <= u64::MAX,
        call_ensures(
            AppState::open,
            (state, id, surface, card, actions, timeout_ms, timer_start, now),
            effects,
        ),
    ensures
        final(state)@.wf(),
        opened(
            old(state)@,
            final(state)@,
            effects@,
            id,
            surface,
            card.app_name@,
            card.summary@,
            card.body@,
            card.icon_rgba,
            actions@,
            timeout_ms,
            timer_start,
            now,
        ),
{
    lemma_opened(
        old(state)@,
        final(state)@,
        effects@,
        id,
        surface,
        card,
        actions@,
        timeout_ms,
        timer_start,
        now,
    );
}

/// A notification from the bus comes on screen as a new one, with what it says and the icon that
/// was found. A request to close one starts its fade-out, which reports the reason three.
pub proof fn law_handle_event(
    state: &mut AppState,
    event: Event,
    surface: u64,
    icon_rgba: Option<Vec<u8>>,
    timer_start: u64,
    now: u64,
    effects: Vec<Action>,
)
    requires
        old(state)@.wf(),
        event matches Event::Notify { timeout_ms, .. } ==> timer_start + timeout_ms * 1_000_000
            <= u64::MAX,
        call_ensures(
            AppState::handle_event,
            (state, event, surface, icon_rgba, timer_start, now),
            effects,
        ),
    ensures
        final(state)@.wf(),
        match event {
            Event::Notify { id, app_name, app_icon: _, summary, body, actions, timeout_ms } =>
                opened(
                    old(state)@,
                    final(state)@,
                    effects@,
                    id,
                    surface,
                    app_name@,
                    summary@,
                    body@,
                    icon_rgba,
                    actions@,
                    timeout_ms,
                    timer_start,
                    now,
                ),
            Event::Close { id } => {
                &&& effects@.len() == 0
                &&& final(state)@.hovered == old(state)@.hovered
                &&& !old(state)@.slots.contains_key(id) ==> final(state)@ == old(state)@
                &&& old(state)@.slots.contains_key(id) ==> {
                    &&& only_changed(old(state)@, final(state)@, id)
                    &&& final(state)@.slots[id] == (Slot {
                        anim: match old(state)@.slots[id].anim {
                            AnimState::Leaving { start, reason } => AnimState::Leaving {
                                start,
                                reason,
                            },
                            _ => AnimState::Leaving { start: now, reason: 3 },
                        },
                        ..old(state)@.slots[id]
                    })
                }
            },
        },
{
    assert(requests(effects@).len() == effects@.len());
    match event {
        Event::Notify { id, app_name, app_icon: _, summary, body, actions, timeout_ms } => {
            let card = Card { app_name, summary, body, icon_rgba };
            lemma_opened(
                old(state)@,
                final(state)@,
                effects@,
                id,
                surface,
                card,
                actions@,
                timeout_ms,
                timer_start,
                now,
            );
        },
        Event::Close { .. } => {},
    }
}

/// Whether a notification's time is up and the pointer is not over it.
pub open spec fn time_is_up(slot: Slot, now: u64) -> bool {
    !slot.hovered && match slot.expires_at {
        Some(expiry) => expiry <= now,
        None => false,
    }
}

/// The due notifications are all those whose time is up, in stack order.
pub proof fn law_expired(state: &AppState, now: u64, ids: Vec<u32>)
    requires
        state@.wf(),
        call_ensures(AppState::expired, (state, now), ids),
    ensures
        ids@ == state@.order.filter(|id: u32| time_is_up(state@.slots[id], now)),
{
    let due = |id: u32| is_due(state@.slots[id], now);
    let up = |id: u32| time_is_up(state@.slots[id], now);
    lemma_filter_agree(state@.order, due, up);
}

/// Every notification whose time is up starts to fade out as expired, unless it fades out already.
/// All others stay, and so does the order.
pub proof fn law_expire_step(state: &mut AppState, now: u64, closed_at: u64)
    requires
        old(state)@.wf(),
        call_ensures(AppState::expire, (state, now, closed_at), ()),
    ensures
        final(state)@.wf(),
        final(state)@.order == old(state)@.order,
        final(state)@.hovered == old(state)@.hovered,
        forall|id: u32| #[trigger]
            final(state)@.slots.contains_key(id) <==> old(state)@.slots.contains_key(id),
        forall|id: u32| #[trigger]
            old(state)@.slots.contains_key(id) ==> final(state)@.slots[id] == if time_is_up(
                old(state)@.slots[id],
                now,
            ) && !(old(state)@.slots[id].anim is Leaving) {
                Slot {
                    anim: AnimState::Leaving { start: closed_at, reason: 1 },
                    ..old(state)@.slots[id]
                }
            } else {
                old(state)@.slots[id]
            },
{
}

/// Whether a press of a button dismisses a card and sends its default action if it should: for the
/// left button, on a card that has one, unless the pointer was last seen in the square of 30 pixels
/// at the card's top left corner.
pub open spec fn pressed(
    before: StackView,
    after: StackView,
    effects: Seq<Action>,
    surface: u64,
    button: u32,
    now: u64,
) -> bool {
    &&& after.hovered == before.hovered
    &&& unused(before, surface) ==> after == before && effects.len() == 0
    &&& forall|id: u32| #[trigger]
        uses(before, id, surface) ==> {
            let slot = before.slots[id];
            let on_close = match slot.pointer_pos {
                Some((x, y)) => x < 30 * 256 && y < 30 * 256,
                None => false,
            };
            &&& only_changed(before, after, id)
            &&& after.slots[id] == (Slot {
                anim: match slot.anim {
                    AnimState::Leaving { start, reason } => AnimState::Leaving { start, reason },
                    _ => AnimState::Leaving { start: now, reason: 2 },
                },
                ..slot
            })
            &&& if button == 0x110 && slot.has_default_action && !on_close {
                &&& effects.len() == 1
                &&& effects[0] matches Action::Send(Reply::ActionInvoked { id: sent, action })
                    && sent == id && action@ == "default"@
            } else {
                effects.len() == 0
            }
        }
}

proof fn lemma_pressed(
    before: StackView,
    after: StackView,
    effects: Seq<Action>,
    surface: u64,
    button: u32,
    now: u64,
)
    requires
        before.wf(),
        (after, requests(effects)) == before.click(surface, button, now),
    ensures
        pressed(before, after, effects, surface, button, now),
{
    lemma_found(before, surface);
    assert(requests(effects).len() == effects.len());
    if effects.len() == 1 {
        assert(requests(effects)[0] == effects[0]@);
    }
}

/// A click is a press on the card that uses the surface.
pub proof fn law_click(
    state: &mut AppState,
    surface: u64,
    button: u32,
    now: u64,
    effects: Vec<Action>,
)
    requires
        old(state)@.wf(),
        call_ensures(AppState::click, (state, surface, button, now), effects),
    ensures
        final(state)@.wf(),
        pressed(old(state)@, final(state)@, effects@, surface, button, now),
{
    lemma_pressed(old(state)@, final(state)@, effects@, surface, button, now);
}

/// A surface that the compositor accepts is marked so and drawn: invisible while it slides in, and
/// with a close button if the pointer is over it. Nothing else changes.
pub proof fn law_configure(state: &mut AppState, surface: u64, effects: Vec<Action>)
    requires
        old(state)@.wf(),
        call_ensures(AppState::configure, (state, surface), effects),
    ensures
        final(state)@.wf(),
        final(state)@.hovered == old(state)@.hovered,
        unused(old(state)@, surface) ==> final(state)@ == old(state)@ && effects@.len() == 0,
        forall|id: u32| #[trigger]
            uses(old(state)@, id, surface) ==> {
                let slot = old(state)@.slots[id];
                &&& only_changed(old(state)@, final(state)@, id)
                &&& final(state)@.slots[id] == (Slot { configured: true, ..slot })
                &&& effects@.len() == 1
                &&& effects@[0] == (Action::Draw {
                    surface,
                    visible: !(slot.anim is Entering),
                    show_close: slot.hovered,
                })
            },
{
    lemma_found(old(state)@, surface);
    assert(requests(effects@).len() == effects@.len());
    if effects@.len() == 1 {
        assert(requests(effects@)[0] == effects@[0]@);
    }
}

/// A surface that the compositor closes has its card dismissed, unless it fades out already.
/// Nothing else changes.
pub proof fn law_closed(state: &mut AppState, surface: u64, now: u64)
    requires
        old(state)@.wf(),
        call_ensures(AppState::closed, (state, surface, now), ()),
    ensures
        final(state)@.wf(),
        final(state)@.hovered == old(state)@.hovered,
        unused(old(state)@, surface) ==> final(state)@ == old(state)@,
        forall|id: u32| #[trigger]
            uses(old(state)@, id, surface) ==> {
                let slot = old(state)@.slots[id];
                &&& only_changed(old(state)@, final(state)@, id)
                &&& final(state)@.slots[id] == (Slot {
                    anim: match slot.anim {
                        AnimState::Leaving { start, reason } => AnimState::Leaving {
                            start,
                            reason,
                        },
                        _ => AnimState::Leaving { start: now, reason: 2 },
                    },
                    ..slot
                })
            },
{
    lemma_found(old(state)@, surface);
}

/// Only leaving a card whose paused timer would run out beyond the clock's range is not possible.
pub proof fn law_can_resume(state: &AppState, event: PointerEvent, now: u64, able: bool)
    requires
        state@.wf(),
        call_ensures(AppState::can_resume, (state, event, now), able),
    ensures
        !able <==> event.kind is Leave && exists|id: u32| #[trigger]
            uses(state@, id, event.surface) && state@.slots[id].remaining_on_hover is Some && now
                + state@.slots[id].remaining_on_hover->0 > u64::MAX,
{
    lemma_found(state@, event.surface);
}

/// Whether a card was drawn again because it was at rest, and only then.
pub open spec fn drawn_if_steady(slot: Slot, effects: Seq<Action>, show_close: bool) -> bool {
    if slot.anim is Steady {
        effects.len() == 1 && effects[0] == (Action::Draw {
            surface: slot.surface,
            visible: true,
            show_close,
        })
    } else {
        effects.len() == 0
    }
}

/// What a pointer event does. Entering a card stops its timer and keeps what is left of it; leaving
/// it lets the timer run on with that and forgets the pointer. Both draw a card that is at rest
/// again, with or without its close button. Moving is remembered, a press acts on the surface that
/// the pointer is over, and anything else does nothing. No other card is touched.
pub proof fn law_pointer_event(
    state: &mut AppState,
    event: PointerEvent,
    now: u64,
    effects: Vec<Action>,
)
    requires
        old(state)@.wf(),
        old(state)@.resumable(event, now),
        call_ensures(AppState::pointer_event, (state, event, now), effects),
    ensures
        final(state)@.wf(),
        event.kind is Enter ==> final(state)@.hovered == Some(event.surface),
        event.kind is Leave ==> final(state)@.hovered is None,
        !(event.kind is Enter) && !(event.kind is Leave) ==> final(state)@.hovered == old(state)@.hovered,
        event.kind is Other ==> final(state)@ == old(state)@ && effects@.len() == 0,
        event.kind is Motion ==> effects@.len() == 0,
        !(event.kind is Press) && unused(old(state)@, event.surface) ==> final(state)@.slots == old(state)@.slots && final(state)@.order == old(state)@.order && effects@.len() == 0,
        forall|id: u32| #[trigger]
            uses(old(state)@, id, event.surface) ==> {
                let slot = old(state)@.slots[id];
                let after = final(state)@.slots[id];
                &&& !(event.kind is Press) ==> only_changed(old(state)@, final(state)@, id)
                &&& event.kind is Enter ==> {
                    &&& after.hovered
                    &&& after.expires_at is None
                    &&& slot.expires_at is None ==> after.remaining_on_hover
                        == slot.remaining_on_hover
                    &&& slot.expires_at matches Some(expiry) ==> after.remaining_on_hover is Some
                        && after.remaining_on_hover->0 == if expiry > now {
                        expiry - now
                    } else {
                        0
                    }
                    &&& after == (Slot {
                        hovered: true,
                        expires_at: after.expires_at,
                        remaining_on_hover: after.remaining_on_hover,
                        ..slot
                    })
                    &&& drawn_if_steady(slot, effects@, true)
                }
                &&& event.kind is Leave ==> {
                    &&& !after.hovered
                    &&& after.pointer_pos is None
                    &&& after.remaining_on_hover is None
                    &&& slot.remaining_on_hover is None ==> after.expires_at == slot.expires_at
                    &&& slot.remaining_on_hover matches Some(left) ==> after.expires_at is Some
                        && after.expires_at->0 == now + left
                    &&& after == (Slot {
                        hovered: false,
                        pointer_pos: None,
                        remaining_on_hover: None,
                        expires_at: after.expires_at,
                        ..slot
                    })
                    &&& drawn_if_steady(slot, effects@, false)
                }
                &&& event.kind is Motion ==> after == (Slot {
                    pointer_pos: Some(event.position),
                    ..slot
                })
            },
        event.kind matches PointerEventKind::Press { button } ==> match old(state)@.hovered {
            Some(surface) => pressed(
                old(state)@,
                final(state)@,
                effects@,
                surface,
                button,
                now,
            ),
            None => final(state)@ == old(state)@ && effects@.len() == 0,
        },
{
    let before = old(state)@;
    lemma_found(before, event.surface);
    assert(requests(effects@).len() == effects@.len());
    if effects@.len() == 1 {
        assert(requests(effects@)[0] == effects@[0]@);
    }
    if let PointerEventKind::Press { button } = event.kind {
        if let Some(surface) = before.hovered {
            lemma_pressed(before, final(state)@, effects@, surface, button, now);
        }
    }
}

/// In a well-formed stack every card has exactly one place in the order and a surface of its own, a
/// card that fades out has a reason to report, and a timer does not run under the pointer.
pub proof fn law_well_formed(stack: StackView)
    ensures
        stack.wf() <==> {
            &&& 14 + 102 * (stack.order.len() - 1) <= i32::MAX
            &&& forall|i: int, j: int|
                0 <= i < j < stack.order.len() ==> stack.order[i] != stack.order[j]
            &&& forall|i: int|
                0 <= i < stack.order.len() ==> stack.slots.contains_key(#[trigger] stack.order[i])
            &&& forall|id: u32| #[trigger]
                stack.slots.contains_key(id) ==> exists|i: int|
                    0 <= i < stack.order.len() && stack.order[i] == id
            &&& forall|a: u32, b: u32|
                #![trigger stack.slots[a], stack.slots[b]]
                stack.slots.contains_key(a) && stack.slots.contains_key(b) && a != b
                    ==> stack.slots[a].surface != stack.slots[b].surface
            &&& forall|id: u32| #[trigger]
                stack.slots.contains_key(id) ==> {
                    let slot = stack.slots[id];
                    &&& slot.anim matches AnimState::Leaving { reason, .. } ==> reason != 0
                    &&& slot.hovered ==> slot.expires_at is None
                    &&& !slot.hovered ==> slot.remaining_on_hover is None
                }
        },
{
    if stack.wf() {
        assert forall|i: int| 0 <= i < stack.order.len() implies stack.slots.contains_key(
            #[trigger] stack.order[i],
        ) by {
            assert(stack.order.contains(stack.order[i]));
        }
        assert forall|id: u32| #[trigger] stack.slots.contains_key(id) implies exists|i: int|
            0 <= i < stack.order.len() && stack.order[i] == id by {
            assert(stack.order.contains(id));
        }
    }
}

/// A notification that was opened with the action `default` anywhere in its list, of whatever
/// length, has it invoked by a left press beside the close button; without it nothing is sent.
pub proof fn law_default_action_is_invoked(
    opening: &mut AppState,
    entering: &mut AppState,
    moving: &mut AppState,
    pressing: &mut AppState,
    id: u32,
    surface: u64,
    card: Card,
    actions: Vec<String>,
    timeout_ms: u32,
    position: (i32, i32),
    elsewhere: u64,
    times: (u64, u64, u64, u64),
    effects: (Vec<Action>, Vec<Action>, Vec<Action>, Vec<Action>),
)
    requires
        old(opening)@.wf(),
        times.0 + timeout_ms * 1_000_000 <= u64::MAX,
        position.0 >= 30 * 256 || position.1 >= 30 * 256,
        call_ensures(
            AppState::open,
            (opening, id, surface, card, actions, timeout_ms, times.0, times.0),
            effects.0,
        ),
        old(entering)@ == final(opening)@,
        call_ensures(
            AppState::pointer_event,
            (
                entering,
                PointerEvent { surface, position, kind: PointerEventKind::Enter },
                times.1,
            ),
            effects.1,
        ),
        old(moving)@ == final(entering)@,
        call_ensures(
            AppState::pointer_event,
            (
                moving,
                PointerEvent { surface, position, kind: PointerEventKind::Motion },
                times.2,
            ),
            effects.2,
        ),
        old(pressing)@ == final(moving)@,
        call_ensures(
            AppState::pointer_event,
            (
                pressing,
                PointerEvent {
                    surface: elsewhere,
                    position,
                    kind: PointerEventKind::Press { button: 0x110 },
                },
                times.3,
            ),
            effects.3,
        ),
    ensures
        (exists|i: int| 0 <= i < actions@.len() && (#[trigger] actions@[i])@ == "default"@)
            ==> effects.3@.len() == 1 && (effects.3@[0] matches Action::Send(
            Reply::ActionInvoked { id: sent, action },
        ) && sent == id && action@ == "default"@),
        !(exists|i: int| 0 <= i < actions@.len() && (#[trigger] actions@[i])@ == "default"@)
            ==> effects.3@.len() == 0,
{
    let enter = PointerEvent { surface, position, kind: PointerEventKind::Enter };
    let motion = PointerEvent { surface, position, kind: PointerEventKind::Motion };
    let press = PointerEvent {
        surface: elsewhere,
        position,
        kind: PointerEventKind::Press { button: 0x110 },
    };
    law_open(opening, id, surface, card, actions, timeout_ms, times.0, times.0, effects.0);
    assert(uses(old(entering)@, id, surface));
    law_pointer_event(entering, enter, times.1, effects.1);
    assert(uses(old(moving)@, id, surface));
    law_pointer_event(moving, motion, times.2, effects.2);
    assert(uses(old(pressing)@, id, surface));
    law_pointer_event(pressing, press, times.3, effects.3);
}

/// A notification that was opened is due once its timeout has passed since its timer was started,
/// and not before; with timeout zero it never is.
pub proof fn law_timeout_is_kept(
    opening: &mut AppState,
    id: u32,
    surface: u64,
    card: Card,
    actions: Vec<String>,
    timeout_ms: u32,
    timer_start: u64,
    opened_at: u64,
    effects: Vec<Action>,
    later: &AppState,
    now: u64,
    ids: Vec<u32>,
)
    requires
        old(opening)@.wf(),
        timer_start + timeout_ms * 1_000_000 <= u64::MAX,
        call_ensures(
            AppState::open,
            (opening, id, surface, card, actions, timeout_ms, timer_start, opened_at),
            effects,
        ),
        later@ == final(opening)@,
        call_ensures(AppState::expired, (later, now), ids),
    ensures
        ids@.contains(id) <==> timeout_ms > 0 && now >= timer_start + timeout_ms * 1_000_000,
{
    law_open(opening, id, surface, card, actions, timeout_ms, timer_start, opened_at, effects);
    law_expired(later, now, ids);
    let order = later@.order;
    let up = |x: u32| time_is_up(later@.slots[x], now);
    assert(ids@ == order.filter(up));
    if ids@.contains(id) {
        order.lemma_filter_contains_rev(up, id);
    }
    if time_is_up(later@.slots[id], now) {
        assert(order[order.len() - 1] == id);
        assert(up(id));
        order.lemma_filter_contains(up, order.len() - 1);
    }
}

} // verus!
