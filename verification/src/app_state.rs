//! The notification stack as the display loop drives it.
//!
//! Every step takes the time it happens at, in nanoseconds on the caller's monotonic clock, and
//! returns the actions that the caller has to perform, in order.
use std::collections::HashMap;
use vstd::prelude::*;
use vstd::std_specs::hash::group_hash_axioms;
use vstd::string::*;

use crate::action::{lemma_requests_add, lemma_requests_push, requests, Action, Card};
use crate::config::{
    BTN_LEFT, CLOSE_HIT_PX, ENTER_MS, FIXED_UNITS, HEIGHT, LEAVE_MS, MARGIN_RIGHT, MARGIN_TOP,
    NANOS_PER_MS, REASON_CLOSED, REASON_DISMISSED, REASON_EXPIRED, STACK_GAP, WIDTH,
};
use crate::event::{texts, Event, Reply};
use crate::slots::{
    advanced, elapsed_ms, expired, frame, is_due, namespace, new_slot, on_close_button,
    pointer_entered, pointer_left, redrawn, slot_wf, top_margin, AnimState, PointerEvent,
    PointerEventKind, Slot, StackView, MAX_SLOTS,
};
use crate::text::decimal_string;

verus! {

broadcast use group_hash_axioms;

/// The notifications on screen.
pub struct AppState {
    slots: HashMap<u32, Slot>,
    /// Stack order, oldest first.
    order: Vec<u32>,
    /// The surface that the pointer entered last.
    hovered_surface: Option<u64>,
}

impl View for AppState {
    type V = StackView;

    closed spec fn view(&self) -> StackView {
        StackView { slots: self.slots@, order: self.order@, hovered: self.hovered_surface }
    }
}

/// The only place of an element of a sequence without duplicates is its index.
proof fn lemma_index_of(order: Seq<u32>, i: int)
    requires
        order.no_duplicates(),
        0 <= i < order.len(),
    ensures
        order.index_of(order[i]) == i,
{
    assert(order.contains(order[i]));
}

/// In a well-formed stack only one notification uses a surface.
pub proof fn lemma_find(stack: StackView, id: u32, surface: u64)
    requires
        stack.wf(),
        stack.shown_on(id, surface),
    ensures
        stack.find(surface) == Some(id),
{
    let found = stack.find(surface)->0;
    assert(stack.shown_on(found, surface));
    assert(stack.slots[found].surface == stack.slots[id].surface);
}

/// Changing a notification but not its surface keeps the stack well formed.
pub proof fn lemma_with_slot_wf(stack: StackView, id: u32, slot: Slot)
    requires
        stack.wf(),
        stack.slots.contains_key(id),
        slot.surface == stack.slots[id].surface,
        slot_wf(slot),
    ensures
        stack.with_slot(id, slot).wf(),
{
    let after = stack.with_slot(id, slot);
    assert forall|a: u32, b: u32|
        #![trigger after.slots[a], after.slots[b]]
        after.slots.contains_key(a) && after.slots.contains_key(b) && after.slots[a].surface
            == after.slots[b].surface implies a == b by {
        assert(stack.slots[a].surface == stack.slots[b].surface);
    }
    assert forall|other: u32| #[trigger] after.order.contains(other) <==> after.slots.contains_key(
        other,
    ) by {
        assert(stack.order.contains(other) <==> stack.slots.contains_key(other));
    }
}

/// Removing a notification keeps the stack well formed.
pub proof fn lemma_without_wf(stack: StackView, id: u32)
    requires
        stack.wf(),
        stack.slots.contains_key(id),
    ensures
        stack.without(id).wf(),
        stack.without(id).order.len() == stack.order.len() - 1,
{
    let after = stack.without(id);
    assert(stack.order.contains(id));
    let at = stack.order.index_of(id);
    assert forall|other: u32| #[trigger] after.order.contains(other) <==> after.slots.contains_key(
        other,
    ) by {
        assert(stack.order.contains(other) <==> stack.slots.contains_key(other));
        if after.order.contains(other) {
            let i = after.order.index_of(other);
            if i < at {
                assert(stack.order[i] == other);
            } else {
                assert(stack.order[i + 1] == other);
            }
        }
        if after.slots.contains_key(other) {
            let i = stack.order.index_of(other);
            if i < at {
                assert(after.order[i] == other);
            } else {
                assert(after.order[i - 1] == other);
            }
        }
    }
    assert forall|a: u32, b: u32|
        #![trigger after.slots[a], after.slots[b]]
        after.slots.contains_key(a) && after.slots.contains_key(b) && after.slots[a].surface
            == after.slots[b].surface implies a == b by {
        assert(stack.slots[a].surface == stack.slots[b].surface);
    }
}

/// Adding a notification with a surface of its own keeps the stack well formed.
proof fn lemma_open_wf(stack: StackView, id: u32, slot: Slot)
    requires
        stack.wf(),
        !stack.slots.contains_key(id),
        stack.order.len() < MAX_SLOTS,
        stack.fresh_surface(id, slot.surface),
        slot_wf(slot),
    ensures
        (StackView { order: stack.order.push(id), ..stack.with_slot(id, slot) }).wf(),
{
    let after = StackView { order: stack.order.push(id), ..stack.with_slot(id, slot) };
    assert(!stack.order.contains(id));
    assert forall|other: u32| #[trigger] after.order.contains(other) <==> after.slots.contains_key(
        other,
    ) by {
        assert(stack.order.contains(other) <==> stack.slots.contains_key(other));
        if stack.order.contains(other) {
            let i = stack.order.index_of(other);
            assert(after.order[i] == other);
        }
        if other == id {
            assert(after.order[stack.order.len() as int] == id);
        }
        if after.order.contains(other) && other != id {
            let i = after.order.index_of(other);
            assert(stack.order[i] == other);
        }
    }
    assert forall|a: u32, b: u32|
        #![trigger after.slots[a], after.slots[b]]
        after.slots.contains_key(a) && after.slots.contains_key(b) && after.slots[a].surface
            == after.slots[b].surface implies a == b by {
        if a != id && b != id {
            assert(stack.slots[a].surface == stack.slots[b].surface);
        } else if a != id {
            assert(!stack.shown_on(a, slot.surface));
        } else if b != id {
            assert(!stack.shown_on(b, slot.surface));
        }
    }
}

/// Moving the animations on keeps the stack well formed.
pub proof fn lemma_all_advanced_wf(stack: StackView, now: u64)
    requires
        stack.wf(),
    ensures
        stack.all_advanced(now).wf(),
{
    let after = stack.all_advanced(now);
    assert forall|id: u32| #[trigger] after.order.contains(id) <==> after.slots.contains_key(
        id,
    ) by {
        assert(stack.order.contains(id) <==> stack.slots.contains_key(id));
    }
    assert forall|a: u32, b: u32|
        #![trigger after.slots[a], after.slots[b]]
        after.slots.contains_key(a) && after.slots.contains_key(b) && after.slots[a].surface
            == after.slots[b].surface implies a == b by {
        assert(stack.slots[a].surface == stack.slots[b].surface);
    }
    assert forall|id: u32| #[trigger] after.slots.contains_key(id) implies slot_wf(
        after.slots[id],
    ) by {
        assert(stack.slots.contains_key(id));
    }
}

/// Whether a list of strings holds a text.
fn contains_text(list: &Vec<String>, text: &str) -> (found: bool)
    ensures
        found == texts(list@).contains(text@),
{
    let wanted: String = text.to_owned();
    let mut i: usize = 0;
    while i < list.len()
        invariant
            wanted@ == text@,
            i <= list.len(),
            forall|j: int| 0 <= j < i ==> texts(list@)[j] != text@,
        decreases list.len() - i,
    {
        if list[i] == wanted {
            assert(texts(list@)[i as int] == text@);
            return true;
        }
        i = i + 1;
    }
    false
}

/// The top margin of the card at a position of the stack.
fn card_margin(position: usize) -> (margin: i32)
    requires
        position < MAX_SLOTS,
    ensures
        margin == top_margin(position as int),
{
    let pitch: i32 = HEIGHT as i32 + STACK_GAP;
    assert(position * pitch == position * 102) by (nonlinear_arith)
        requires
            pitch == 102,
    ;
    MARGIN_TOP + position as i32 * pitch
}

impl AppState {
    /// The invariant that every step keeps.
    pub open spec fn wf(&self) -> bool {
        self@.wf()
    }

    /// An empty stack.
    pub fn new() -> (state: AppState)
        ensures
            state@ == StackView::empty(),
            state.wf(),
    {
        let state = AppState { slots: HashMap::new(), order: Vec::new(), hovered_surface: None };
        assert(state@ =~= StackView::empty());
        state
    }

    /// The position of a notification in the stack, oldest first.
    fn position(&self, id: u32) -> (position: Option<usize>)
        requires
            self.wf(),
        ensures
            match position {
                Some(i) => {
                    &&& i < self@.order.len()
                    &&& self@.order[i as int] == id
                    &&& self@.order.index_of(id) == i
                    &&& self@.slots.contains_key(id)
                },
                None => !self@.slots.contains_key(id),
            },
    {
        let mut i: usize = 0;
        while i < self.order.len()
            invariant
                self.wf(),
                i <= self.order.len(),
                forall|j: int| 0 <= j < i ==> self@.order[j] != id,
            decreases self.order.len() - i,
        {
            if self.order[i] == id {
                proof {
                    lemma_index_of(self@.order, i as int);
                    assert(self@.order.contains(id));
                }
                return Some(i);
            }
            i = i + 1;
        }
        assert(!self@.order.contains(id));
        None
    }

    /// The position of a notification in the stack, zero if it is not there.
    pub fn stack_position(&self, id: u32) -> (position: i32)
        requires
            self.wf(),
        ensures
            position == if self@.slots.contains_key(id) {
                self@.order.index_of(id)
            } else {
                0
            },
    {
        match self.position(id) {
            Some(i) => i as i32,
            None => 0,
        }
    }

    /// Moves every card to its place in the stack.
    fn relayout(&self) -> (actions: Vec<Action>)
        requires
            self.wf(),
        ensures
            requests(actions@) == self@.relayout(),
    {
        let mut actions: Vec<Action> = Vec::new();
        let mut i: usize = 0;
        while i < self.order.len()
            invariant
                self.wf(),
                i <= self.order.len(),
                requests(actions@) == self@.relayout().take(i as int),
            decreases self.order.len() - i,
        {
            let id: u32 = self.order[i];
            assert(self@.order.contains(id));
            let ghost before = actions@;
            if let Some(slot) = self.slots.get(&id) {
                let action = Action::Move {
                    surface: slot.surface,
                    margin_top: card_margin(i),
                    margin_right: MARGIN_RIGHT,
                };
                proof {
                    lemma_requests_push(before, action);
                }
                actions.push(action);
            }
            assert(requests(actions@) =~= self@.relayout().take(i + 1));
            i = i + 1;
        }
        assert(self@.relayout().take(i as int) =~= self@.relayout());
        actions
    }

    /// Removes a notification at once, and reports the reason unless it is zero.
    fn remove_immediate(&mut self, id: u32, reason: u32) -> (actions: Vec<Action>)
        requires
            old(self).wf(),
        ensures
            final(self).wf(),
            (final(self)@, requests(actions@)) == old(self)@.remove_immediate(id, reason),
    {
        let mut actions: Vec<Action> = Vec::new();
        if let Some(i) = self.position(id) {
            if let Some(slot) = self.slots.remove(&id) {
                proof {
                    lemma_without_wf(old(self)@, id);
                }
                let ghost none = actions@;
                let released = Action::Release { surface: slot.surface };
                proof {
                    lemma_requests_push(none, released);
                }
                actions.push(released);
                let _ = self.order.remove(i);
                assert(self@ =~= old(self)@.without(id));
                if reason > 0 {
                    let ghost before = actions@;
                    let reported = Action::Send(Reply::Closed { id, reason });
                    proof {
                        lemma_requests_push(before, reported);
                    }
                    actions.push(reported);
                }
                let ghost before = actions@;
                let mut moved = self.relayout();
                proof {
                    lemma_requests_add(before, moved@);
                }
                actions.append(&mut moved);
                assert(requests(actions@) =~= old(self)@.remove_immediate(id, reason).1);
            }
        }
        assert(requests(actions@) =~= old(self)@.remove_immediate(id, reason).1);
        actions
    }

    /// Closes a notification. Reason zero removes it silently and at once; any other reason
    /// starts its fade-out, and is reported when the fade-out is over.
    pub fn close(&mut self, id: u32, reason: u32, now: u64) -> (actions: Vec<Action>)
        requires
            old(self).wf(),
        ensures
            final(self).wf(),
            (final(self)@, requests(actions@)) == old(self)@.close(id, reason, now),
    {
        let found: Option<Slot> = self.slot(id);
        if let Some(slot) = found {
            if reason == 0 {
                return self.remove_immediate(id, 0);
            }
            if !matches!(slot.anim, AnimState::Leaving { .. }) {
                let leaving = Slot { anim: AnimState::Leaving { start: now, reason }, ..slot };
                proof {
                    lemma_with_slot_wf(old(self)@, id, leaving);
                }
                self.slots.insert(id, leaving);
                assert(self@ =~= old(self)@.with_slot(id, leaving));
            }
        }
        let actions: Vec<Action> = Vec::new();
        assert(requests(actions@) =~= old(self)@.close(id, reason, now).1);
        actions
    }

    /// A copy of a notification's state.
    pub fn slot(&self, id: u32) -> (slot: Option<Slot>)
        ensures
            slot == if self@.slots.contains_key(id) {
                Some(self@.slots[id])
            } else {
                None
            },
    {
        match self.slots.get(&id) {
            Some(slot) => Some(*slot),
            None => None,
        }
    }

    /// Whether a notification could be opened: the stack has room for its card, the surface
    /// handle is not in use by another card, and its expiry lies within the clock's range.
    pub fn can_open(&self, id: u32, surface: u64, timeout_ms: u32, timer_start: u64) -> (able: bool)
        requires
            self.wf(),
        ensures
            able <==> {
                &&& self@.has_room(id)
                &&& self@.fresh_surface(id, surface)
                &&& timer_start + timeout_ms * NANOS_PER_MS <= u64::MAX
            },
    {
        let room: bool = self.slots.contains_key(&id) || self.order.len() < MAX_SLOTS;
        let fresh: bool = match self.find_id_by_surface(surface) {
            Some(other) => other == id,
            None => true,
        };
        proof {
            if fresh {
                assert forall|other: u32| other != id implies !#[trigger] self@.shown_on(
                    other,
                    surface,
                ) by {
                    if self@.shown_on(other, surface) {
                        lemma_find(self@, other, surface);
                    }
                }
            } else {
                assert(self@.shown_on(self@.find(surface)->0, surface));
            }
        }
        room && fresh && timer_start.checked_add(timeout_ms as u64 * NANOS_PER_MS).is_some()
    }

    /// The notification that uses a surface.
    pub fn find_id_by_surface(&self, surface: u64) -> (id: Option<u32>)
        requires
            self.wf(),
        ensures
            id == self@.find(surface),
    {
        let mut i: usize = 0;
        while i < self.order.len()
            invariant
                self.wf(),
                i <= self.order.len(),
                forall|j: int|
                    0 <= j < i ==> !self@.shown_on(#[trigger] self@.order[j], surface),
            decreases self.order.len() - i,
        {
            let id: u32 = self.order[i];
            if let Some(slot) = self.slots.get(&id) {
                if slot.surface == surface {
                    proof {
                        lemma_find(self@, id, surface);
                    }
                    return Some(id);
                }
            }
            i = i + 1;
        }
        assert forall|id: u32| !self@.shown_on(id, surface) by {
            if self@.slots.contains_key(id) {
                assert(self@.order.contains(id));
                let j = self@.order.index_of(id);
                assert(self@.order[j] == id);
            }
        }
        None
    }

    /// Brings a notification on screen, at the bottom of the stack. One with the same identifier
    /// is silently replaced. The timer counts from `timer_start`, the slide-in from `now`.
    pub fn open(
        &mut self,
        id: u32,
        surface: u64,
        card: Card,
        actions: Vec<String>,
        timeout_ms: u32,
        timer_start: u64,
        now: u64,
    ) -> (effects: Vec<Action>)
        requires
            old(self).wf(),
            old(self)@.has_room(id),
            old(self)@.fresh_surface(id, surface),
            timer_start + timeout_ms * NANOS_PER_MS <= u64::MAX,
        ensures
            final(self).wf(),
            (final(self)@, requests(effects@)) == old(self)@.open(
                id,
                surface,
                card@,
                texts(actions@),
                timeout_ms,
                timer_start,
                now,
            ),
    {
        let mut effects: Vec<Action> = self.close(id, 0, now);
        proof {
            if old(self)@.slots.contains_key(id) {
                lemma_without_wf(old(self)@, id);
            }
        }
        let ghost rest = self@;
        let margin_top: i32 = card_margin(self.order.len());
        let mut name: String = "glass-".to_owned();
        name.append(decimal_string(id).as_str());
        let expires_at: Option<u64> = if timeout_ms == 0 {
            None
        } else {
            Some(timer_start + timeout_ms as u64 * NANOS_PER_MS)
        };
        let has_default_action: bool = contains_text(&actions, "default");
        let slot = Slot {
            surface,
            configured: false,
            expires_at,
            remaining_on_hover: None,
            has_default_action,
            anim: AnimState::Entering(now),
            hovered: false,
            pointer_pos: None,
        };
        self.slots.insert(id, slot);
        self.order.push(id);
        let ghost before = effects@;
        let action = Action::Open {
            id,
            surface,
            namespace: name,
            card,
            margin_top,
            margin_right: -(WIDTH as i32),
        };
        proof {
            lemma_requests_push(before, action);
            assert(slot == new_slot(surface, texts(actions@), timeout_ms, timer_start, now));
            assert forall|other: u32| other != id implies !#[trigger] rest.shown_on(
                other,
                surface,
            ) by {
                assert(!old(self)@.shown_on(other, surface));
            }
            lemma_open_wf(rest, id, slot);
        }
        effects.push(action);
        assert(self@ =~= old(self)@.open(
            id,
            surface,
            card@,
            texts(actions@),
            timeout_ms,
            timer_start,
            now,
        ).0);
        effects
    }

    /// Handles an event from the bus. A notification gets the given surface and icon; the icon
    /// and the surface are not used when the event closes one.
    pub fn handle_event(
        &mut self,
        event: Event,
        surface: u64,
        icon_rgba: Option<Vec<u8>>,
        timer_start: u64,
        now: u64,
    ) -> (effects: Vec<Action>)
        requires
            old(self).wf(),
            event matches Event::Notify { id, timeout_ms, .. } ==> {
                &&& old(self)@.has_room(id)
                &&& old(self)@.fresh_surface(id, surface)
                &&& timer_start + timeout_ms * NANOS_PER_MS <= u64::MAX
            },
        ensures
            final(self).wf(),
            (final(self)@, requests(effects@)) == old(self)@.handle_event(
                event@,
                surface,
                match icon_rgba {
                    Some(rgba) => Some(rgba@),
                    None => None,
                },
                timer_start,
                now,
            ),
    {
        match event {
            Event::Notify { id, app_name, app_icon: _, summary, body, actions, timeout_ms } => {
                let card = Card { app_name, summary, body, icon_rgba };
                self.open(id, surface, card, actions, timeout_ms, timer_start, now)
            },
            Event::Close { id } => self.close(id, REASON_CLOSED, now),
        }
    }

    /// The notifications that are due, in stack order. A hovered one never is.
    pub fn expired(&self, now: u64) -> (ids: Vec<u32>)
        requires
            self.wf(),
        ensures
            ids@ == self@.order.filter(|id: u32| is_due(self@.slots[id], now)),
    {
        let mut ids: Vec<u32> = Vec::new();
        let ghost due = |id: u32| is_due(self@.slots[id], now);
        let mut i: usize = 0;
        while i < self.order.len()
            invariant
                self.wf(),
                i <= self.order.len(),
                due == (|id: u32| is_due(self@.slots[id], now)),
                ids@ == self@.order.take(i as int).filter(due),
            decreases self.order.len() - i,
        {
            let id: u32 = self.order[i];
            assert(self@.order.contains(id));
            proof {
                reveal(Seq::filter);
                assert(self@.order.take(i + 1).drop_last() =~= self@.order.take(i as int));
            }
            if let Some(slot) = self.slots.get(&id) {
                if !slot.hovered {
                    if let Some(expiry) = slot.expires_at {
                        if expiry <= now {
                            ids.push(id);
                        }
                    }
                }
            }
            i = i + 1;
        }
        assert(self@.order.take(i as int) =~= self@.order);
        ids
    }

    /// Closes the notifications that are due at `now`. Their fade-out counts from `closed_at`.
    pub fn expire(&mut self, now: u64, closed_at: u64)
        requires
            old(self).wf(),
        ensures
            final(self).wf(),
            final(self)@ == old(self)@.expire(now, closed_at),
    {
        let ghost before = self@;
        let ids: Vec<u32> = self.expired(now);
        let ghost due = |id: u32| is_due(before.slots[id], now);
        let mut i: usize = 0;
        while i < ids.len()
            invariant
                self.wf(),
                before.wf(),
                i <= ids.len(),
                due == (|id: u32| is_due(before.slots[id], now)),
                ids@ == before.order.filter(due),
                self@.order == before.order,
                self@.hovered == before.hovered,
                self@.slots.dom() == before.slots.dom(),
                forall|id: u32| #[trigger]
                    before.slots.contains_key(id) ==> self@.slots[id] == if ids@.take(
                        i as int,
                    ).contains(id) {
                        expired(before.slots[id], now, closed_at)
                    } else {
                        before.slots[id]
                    },
            decreases ids.len() - i,
        {
            let id: u32 = ids[i];
            let ghost current = self@;
            proof {
                before.order.lemma_filter_contains_rev(due, id);
                assert(ids@.contains(id));
                assert(before.order.contains(id));
            }
            let _ = self.close(id, REASON_EXPIRED, closed_at);
            proof {
                assert(ids@.take(i + 1) =~= ids@.take(i as int).push(id));
                assert(self@.slots.dom() =~= before.slots.dom());
                assert forall|other: u32| #[trigger]
                    before.slots.contains_key(other) implies self@.slots[other] == if ids@.take(
                    i + 1,
                ).contains(other) {
                    expired(before.slots[other], now, closed_at)
                } else {
                    before.slots[other]
                } by {
                    assert(ids@.take(i as int).push(id)[i as int] == id);
                    if other != id {
                        assert(ids@.take(i + 1).contains(other) == ids@.take(i as int).contains(
                            other,
                        )) by {
                            if ids@.take(i as int).contains(other) {
                                let k = ids@.take(i as int).index_of(other);
                                assert(ids@.take(i + 1)[k] == other);
                            }
                        }
                    }
                }
            }
            i = i + 1;
        }
        proof {
            assert(ids@.take(i as int) =~= ids@);
            assert forall|id: u32| #[trigger] before.slots.contains_key(id) implies self@.slots[id]
                == expired(before.slots[id], now, closed_at) by {
                assert(before.order.contains(id));
                if due(id) {
                    let k = before.order.index_of(id);
                    before.order.lemma_filter_contains(due, k);
                }
            }
            assert(self@ =~= before.expire(now, closed_at));
        }
    }

    /// Handles a press of a mouse button on a surface: the notification is dismissed, and a left
    /// press beside the close button invokes its default action first.
    pub fn click(&mut self, surface: u64, button: u32, now: u64) -> (effects: Vec<Action>)
        requires
            old(self).wf(),
        ensures
            final(self).wf(),
            (final(self)@, requests(effects@)) == old(self)@.click(surface, button, now),
    {
        let mut effects: Vec<Action> = Vec::new();
        let found: Option<u32> = self.find_id_by_surface(surface);
        if let Some(id) = found {
            assert(self@.shown_on(id, surface));
            if let Some(slot) = self.slot(id) {
                let on_close: bool = match slot.pointer_pos {
                    Some((x, y)) => x < CLOSE_HIT_PX * FIXED_UNITS && y < CLOSE_HIT_PX
                        * FIXED_UNITS,
                    None => false,
                };
                assert(on_close == on_close_button(slot.pointer_pos));
                if button == BTN_LEFT && !on_close && slot.has_default_action {
                    let action = Action::Send(
                        Reply::ActionInvoked { id, action: "default".to_owned() },
                    );
                    proof {
                        lemma_requests_push(effects@, action);
                    }
                    effects.push(action);
                }
            }
            let ghost before = effects@;
            let mut closing = self.close(id, REASON_DISMISSED, now);
            proof {
                lemma_requests_add(before, closing@);
            }
            effects.append(&mut closing);
        }
        assert(requests(effects@) =~= old(self)@.click(surface, button, now).1);
        effects
    }

    /// Draws a card outside its animation.
    fn draw(&self, id: u32) -> (effects: Vec<Action>)
        ensures
            requests(effects@) == self@.draw(id),
    {
        let mut effects: Vec<Action> = Vec::new();
        if let Some(slot) = self.slot(id) {
            if slot.configured {
                let visible: bool = match slot.anim {
                    AnimState::Entering(_) => false,
                    AnimState::Steady => true,
                    AnimState::Leaving { .. } => true,
                };
                let action = Action::Draw {
                    surface: slot.surface,
                    visible,
                    show_close: slot.hovered,
                };
                proof {
                    lemma_requests_push(effects@, action);
                }
                effects.push(action);
            }
        }
        assert(requests(effects@) =~= self@.draw(id));
        effects
    }

    /// The compositor has accepted a surface: its card is drawn for the first time.
    pub fn configure(&mut self, surface: u64) -> (effects: Vec<Action>)
        requires
            old(self).wf(),
        ensures
            final(self).wf(),
            (final(self)@, requests(effects@)) == old(self)@.configure(surface),
    {
        if let Some(id) = self.find_id_by_surface(surface) {
            assert(self@.shown_on(id, surface));
            if let Some(slot) = self.slot(id) {
                let accepted = Slot { configured: true, ..slot };
                proof {
                    lemma_with_slot_wf(old(self)@, id, accepted);
                }
                self.slots.insert(id, accepted);
                assert(self@ =~= old(self)@.with_slot(id, accepted));
            }
            self.draw(id)
        } else {
            let effects: Vec<Action> = Vec::new();
            assert(requests(effects@) =~= Seq::empty());
            effects
        }
    }

    /// The compositor has closed a surface: its notification is dismissed.
    pub fn closed(&mut self, surface: u64, now: u64)
        requires
            old(self).wf(),
        ensures
            final(self).wf(),
            final(self)@ == old(self)@.closed(surface, now),
    {
        if let Some(id) = self.find_id_by_surface(surface) {
            let _ = self.close(id, REASON_DISMISSED, now);
        }
    }

    /// Whether a timer that an event sets going again at `now` runs out within the clock's range.
    pub fn can_resume(&self, event: PointerEvent, now: u64) -> (able: bool)
        requires
            self.wf(),
        ensures
            able == self@.resumable(event, now),
    {
        if let PointerEventKind::Leave = event.kind {
            if let Some(id) = self.find_id_by_surface(event.surface) {
                assert(self@.shown_on(id, event.surface));
                if let Some(slot) = self.slot(id) {
                    if let Some(remaining) = slot.remaining_on_hover {
                        return now.checked_add(remaining).is_some();
                    }
                }
            }
        }
        true
    }

    /// Replaces a notification's state and draws its card again if it is at rest.
    fn update_hover(&mut self, id: u32, slot: Slot, show_close: bool) -> (effects: Vec<Action>)
        requires
            old(self).wf(),
            old(self)@.slots.contains_key(id),
            slot.surface == old(self)@.slots[id].surface,
            slot_wf(slot),
        ensures
            final(self).wf(),
            final(self)@ == old(self)@.with_slot(id, slot),
            requests(effects@) == redrawn(slot, show_close),
    {
        proof {
            lemma_with_slot_wf(old(self)@, id, slot);
        }
        self.slots.insert(id, slot);
        assert(self@ =~= old(self)@.with_slot(id, slot));
        let mut effects: Vec<Action> = Vec::new();
        if matches!(slot.anim, AnimState::Steady) {
            let action = Action::Draw { surface: slot.surface, visible: true, show_close };
            proof {
                lemma_requests_push(effects@, action);
            }
            effects.push(action);
        }
        assert(requests(effects@) =~= redrawn(slot, show_close));
        effects
    }

    /// Handles a pointer event: hovering pauses a notification's timer and shows its close
    /// button, and a press acts on the surface that the pointer entered last.
    pub fn pointer_event(&mut self, event: PointerEvent, now: u64) -> (effects: Vec<Action>)
        requires
            old(self).wf(),
            old(self)@.resumable(event, now),
        ensures
            final(self).wf(),
            (final(self)@, requests(effects@)) == old(self)@.pointer_event(event, now),
    {
        let ghost before = self@;
        let none: Vec<Action> = Vec::new();
        assert(requests(none@) =~= Seq::empty());
        let found: Option<u32> = self.find_id_by_surface(event.surface);
        proof {
            if found is Some {
                assert(self@.shown_on(found->0, event.surface));
            }
        }
        match event.kind {
            PointerEventKind::Enter => {
                self.hovered_surface = Some(event.surface);
                assert(self@ =~= StackView { hovered: Some(event.surface), ..before });
                if let Some(id) = found {
                    if let Some(slot) = self.slot(id) {
                        let mut entered: Slot = slot;
                        entered.hovered = true;
                        if let Some(expiry) = slot.expires_at {
                            entered.remaining_on_hover = Some(expiry.saturating_sub(now));
                            entered.expires_at = None;
                        }
                        assert(entered == pointer_entered(slot, now));
                        return self.update_hover(id, entered, true);
                    }
                }
                none
            },
            PointerEventKind::Leave => {
                self.hovered_surface = None;
                assert(self@ =~= StackView { hovered: None, ..before });
                if let Some(id) = found {
                    if let Some(slot) = self.slot(id) {
                        let mut left: Slot = slot;
                        left.hovered = false;
                        left.pointer_pos = None;
                        if let Some(remaining) = slot.remaining_on_hover {
                            left.remaining_on_hover = None;
                            left.expires_at = Some(now + remaining);
                        }
                        assert(left == pointer_left(slot, now));
                        return self.update_hover(id, left, false);
                    }
                }
                none
            },
            PointerEventKind::Motion => {
                if let Some(id) = found {
                    if let Some(slot) = self.slot(id) {
                        let moved = Slot { pointer_pos: Some(event.position), ..slot };
                        proof {
                            lemma_with_slot_wf(before, id, moved);
                        }
                        self.slots.insert(id, moved);
                        assert(self@ =~= before.with_slot(id, moved));
                    }
                }
                none
            },
            PointerEventKind::Press { button } => {
                if let Some(surface) = self.hovered_surface {
                    return self.click(surface, button, now);
                }
                none
            },
            PointerEventKind::Other => none,
        }
    }

    /// Advances every animation by one tick: draws a frame of each card that slides in or fades
    /// out, and removes the cards whose fade-out is over.
    pub fn tick_animations(&mut self, now: u64) -> (effects: Vec<Action>)
        requires
            old(self).wf(),
        ensures
            final(self).wf(),
            (final(self)@, requests(effects@)) == old(self)@.tick(now),
    {
        let ghost start_state = self@;
        let mut effects: Vec<Action> = Vec::new();
        let mut to_remove: Vec<(u32, u32)> = Vec::new();
        assert(requests(effects@) =~= start_state.frames(now, 0));
        let mut i: usize = 0;
        while i < self.order.len()
            invariant
                start_state.wf(),
                i <= self.order.len(),
                self@.order == start_state.order,
                self@.hovered == start_state.hovered,
                self@.slots.dom() == start_state.slots.dom(),
                forall|j: int|
                    0 <= j < i ==> self@.slots[#[trigger] start_state.order[j]] == advanced(
                        start_state.slots[start_state.order[j]],
                        now,
                    ),
                forall|j: int|
                    i <= j < start_state.order.len() ==> self@.slots[#[trigger] start_state.order[j]]
                        == start_state.slots[start_state.order[j]],
                requests(effects@) == start_state.frames(now, i as int),
                to_remove@ == start_state.finished(now, i as int),
            decreases self.order.len() - i,
        {
            let id: u32 = self.order[i];
            let ghost before = effects@;
            proof {
                assert(start_state.order.contains(id));
                assert forall|j: int| 0 <= j < start_state.order.len() && j != i implies
                    #[trigger] start_state.order[j] != id by {}
            }
            if let Some(slot) = self.slot(id) {
                if slot.configured {
                    let margin_top: i32 = card_margin(i);
                    match slot.anim {
                        AnimState::Entering(start) => {
                            let elapsed: u64 = now.saturating_sub(start) / NANOS_PER_MS;
                            let action = Action::Enter {
                                surface: slot.surface,
                                margin_top,
                                elapsed_ms: if elapsed <= ENTER_MS {
                                    elapsed
                                } else {
                                    ENTER_MS
                                },
                                show_close: slot.hovered,
                            };
                            proof {
                                lemma_requests_push(before, action);
                            }
                            effects.push(action);
                            if elapsed >= ENTER_MS {
                                self.slots.insert(id, Slot { anim: AnimState::Steady, ..slot });
                            }
                        },
                        AnimState::Steady => {},
                        AnimState::Leaving { start, reason } => {
                            let elapsed: u64 = now.saturating_sub(start) / NANOS_PER_MS;
                            let action = Action::Leave {
                                surface: slot.surface,
                                margin_top,
                                elapsed_ms: if elapsed <= LEAVE_MS {
                                    elapsed
                                } else {
                                    LEAVE_MS
                                },
                            };
                            proof {
                                lemma_requests_push(before, action);
                            }
                            effects.push(action);
                            if elapsed >= LEAVE_MS {
                                to_remove.push((id, reason));
                            }
                        },
                    }
                }
            }
            assert(requests(effects@) =~= start_state.frames(now, i + 1));
            assert(self@.slots.dom() =~= start_state.slots.dom());
            i = i + 1;
        }
        let ghost moved = start_state.all_advanced(now);
        proof {
            lemma_all_advanced_wf(start_state, now);
            assert forall|id: u32| #[trigger] self@.slots.contains_key(id) implies self@.slots[id]
                == moved.slots[id] by {
                assert(start_state.order.contains(id));
                let j = start_state.order.index_of(id);
                assert(start_state.order[j] == id);
            }
            assert(self@ =~= moved);
        }
        let ghost frames = effects@;
        let ghost removed = Seq::<Action>::empty();
        assert(effects@ =~= frames + removed);
        assert(requests(removed) =~= Seq::empty());
        let mut k: usize = 0;
        while k < to_remove.len()
            invariant
                self.wf(),
                k <= to_remove.len(),
                effects@ == frames + removed,
                (self@, requests(removed)) == moved.remove_all(to_remove@.take(k as int)),
            decreases to_remove.len() - k,
        {
            let (id, reason) = to_remove[k];
            let mut more = self.remove_immediate(id, reason);
            proof {
                assert(to_remove@.take(k + 1).drop_last() =~= to_remove@.take(k as int));
                lemma_requests_add(removed, more@);
                assert(effects@ + more@ =~= frames + (removed + more@));
                removed = removed + more@;
            }
            effects.append(&mut more);
            k = k + 1;
        }
        proof {
            assert(to_remove@.take(k as int) =~= to_remove@);
            lemma_requests_add(frames, removed);
        }
        effects
    }

    /// One turn of the display loop: closes what is due at `now`, then advances the animations.
    pub fn turn(&mut self, now: u64, closed_at: u64) -> (effects: Vec<Action>)
        requires
            old(self).wf(),
        ensures
            final(self).wf(),
            (final(self)@, requests(effects@)) == old(self)@.expire(now, closed_at).tick(now),
    {
        self.expire(now, closed_at);
        self.tick_animations(now)
    }
}

} // verus!
