//! The model of the notification stack: its state, its invariant, and its steps.
use vstd::prelude::*;

use crate::action::{ActionView, CardView};
use crate::config::{
    BTN_LEFT, CLOSE_HIT_PX, ENTER_MS, FIXED_UNITS, HEIGHT, LEAVE_MS, MARGIN_RIGHT, MARGIN_TOP,
    NANOS_PER_MS, REASON_CLOSED, REASON_DISMISSED, REASON_EXPIRED, STACK_GAP, WIDTH,
};
use crate::event::{EventView, ReplyView};
use crate::text::decimal;

verus! {

/// The most cards that can stand in the stack at once: the margin of one more would not fit in
/// an `i32`.
pub const MAX_SLOTS: usize = 21_053_762;

/// Where a card stands in its animation. Times are nanoseconds on a monotonic clock.
#[derive(Clone, Copy, Debug, PartialEq, Eq)]
pub enum AnimState {
    /// Sliding in since the given time.
    Entering(u64),
    /// At rest.
    Steady,
    /// Fading out since `start`; `reason` is reported once the card is gone.
    Leaving { start: u64, reason: u32 },
}

/// A notification on screen.
#[derive(Clone, Copy, Debug, PartialEq, Eq)]
pub struct Slot {
    /// The handle of the card's surface.
    pub surface: u64,
    /// Whether the compositor has accepted the surface.
    pub configured: bool,
    /// When the notification expires, unless it never does or its timer is paused.
    pub expires_at: Option<u64>,
    /// The time that was left when hovering paused the timer.
    pub remaining_on_hover: Option<u64>,
    pub has_default_action: bool,
    pub anim: AnimState,
    pub hovered: bool,
    /// The last pointer position over the card, in Wayland fixed-point units.
    pub pointer_pos: Option<(i32, i32)>,
}

/// What the pointer did.
#[derive(Clone, Copy, Debug, PartialEq, Eq)]
pub enum PointerEventKind {
    Enter,
    Leave,
    Motion,
    Press { button: u32 },
    Other,
}

/// A pointer event over a surface, with the position in Wayland fixed-point units.
#[derive(Clone, Copy, Debug, PartialEq, Eq)]
pub struct PointerEvent {
    pub surface: u64,
    pub position: (i32, i32),
    pub kind: PointerEventKind,
}

/// The state of the notification stack.
#[verifier::ext_equal]
pub struct StackView {
    /// The notifications on screen, by identifier.
    pub slots: Map<u32, Slot>,
    /// Their identifiers, oldest first: the topmost card comes first.
    pub order: Seq<u32>,
    /// The surface that the pointer entered last.
    pub hovered: Option<u64>,
}

/// The top margin of the card at a position of the stack.
pub open spec fn top_margin(position: int) -> int {
    MARGIN_TOP + position * (HEIGHT + STACK_GAP)
}

/// The invariant of a single notification: a reported reason is never zero, and a timer runs
/// only while the card is not hovered.
pub open spec fn slot_wf(slot: Slot) -> bool {
    &&& slot.anim matches AnimState::Leaving { reason, .. } ==> reason > 0
    &&& slot.hovered ==> slot.expires_at is None
    &&& slot.remaining_on_hover is Some ==> slot.hovered
}

/// The whole milliseconds from `start` to `now`, none if `start` lies ahead.
pub open spec fn elapsed_ms(start: u64, now: u64) -> int {
    if now <= start {
        0
    } else {
        (now - start) / (NANOS_PER_MS as int)
    }
}

/// The smaller of two numbers.
pub open spec fn at_most(n: int, limit: int) -> int {
    if n <= limit {
        n
    } else {
        limit
    }
}

/// Whether a notification is due: its timer has run out and the pointer is not over it.
pub open spec fn is_due(slot: Slot, now: u64) -> bool {
    !slot.hovered && slot.expires_at is Some && slot.expires_at->0 <= now
}

/// A notification after the due ones have been told to leave.
pub open spec fn expired(slot: Slot, now: u64, closed_at: u64) -> Slot {
    if is_due(slot, now) && !(slot.anim is Leaving) {
        Slot { anim: AnimState::Leaving { start: closed_at, reason: REASON_EXPIRED }, ..slot }
    } else {
        slot
    }
}

/// Whether a fade-out is over.
pub open spec fn is_gone(slot: Slot, now: u64) -> bool {
    &&& slot.configured
    &&& slot.anim matches AnimState::Leaving { start, .. }
    &&& elapsed_ms(start, now) >= LEAVE_MS
}

/// A notification after its animation has moved on: a finished slide-in comes to rest.
pub open spec fn advanced(slot: Slot, now: u64) -> Slot {
    match slot.anim {
        AnimState::Entering(start) if slot.configured && elapsed_ms(start, now) >= ENTER_MS => Slot {
            anim: AnimState::Steady,
            ..slot
        },
        _ => slot,
    }
}

/// The frame that a notification shows at `now`, if it is being animated.
pub open spec fn frame(slot: Slot, position: int, now: u64) -> Seq<ActionView> {
    match slot.anim {
        AnimState::Entering(start) if slot.configured => seq![
            ActionView::Enter {
                surface: slot.surface,
                margin_top: top_margin(position),
                elapsed_ms: at_most(elapsed_ms(start, now), ENTER_MS as int),
                show_close: slot.hovered,
            },
        ],
        AnimState::Leaving { start, .. } if slot.configured => seq![
            ActionView::Leave {
                surface: slot.surface,
                margin_top: top_margin(position),
                elapsed_ms: at_most(elapsed_ms(start, now), LEAVE_MS as int),
            },
        ],
        _ => Seq::empty(),
    }
}

/// A notification that the pointer enters: the timer stops, and what was left of it is kept.
pub open spec fn pointer_entered(slot: Slot, now: u64) -> Slot {
    match slot.expires_at {
        Some(expiry) => Slot {
            hovered: true,
            remaining_on_hover: Some(
                if expiry > now {
                    (expiry - now) as u64
                } else {
                    0
                },
            ),
            expires_at: None,
            ..slot
        },
        None => Slot { hovered: true, ..slot },
    }
}

/// A notification that the pointer leaves: the timer runs on with what was left of it.
pub open spec fn pointer_left(slot: Slot, now: u64) -> Slot {
    match slot.remaining_on_hover {
        Some(remaining) => Slot {
            hovered: false,
            pointer_pos: None,
            remaining_on_hover: None,
            expires_at: Some((now + remaining) as u64),
            ..slot
        },
        None => Slot { hovered: false, pointer_pos: None, ..slot },
    }
}

/// A resting card drawn again, with or without its close button.
pub open spec fn redrawn(slot: Slot, show_close: bool) -> Seq<ActionView> {
    if slot.anim is Steady {
        seq![ActionView::Draw { surface: slot.surface, visible: true, show_close }]
    } else {
        Seq::empty()
    }
}

/// Whether a pointer position lies on the close button.
pub open spec fn on_close_button(position: Option<(i32, i32)>) -> bool {
    match position {
        Some((x, y)) => x < CLOSE_HIT_PX * FIXED_UNITS && y < CLOSE_HIT_PX * FIXED_UNITS,
        None => false,
    }
}

/// A notification as it first comes on screen.
pub open spec fn new_slot(
    surface: u64,
    actions: Seq<Seq<char>>,
    timeout_ms: u32,
    timer_start: u64,
    now: u64,
) -> Slot {
    Slot {
        surface,
        configured: false,
        expires_at: if timeout_ms == 0 {
            None
        } else {
            Some((timer_start + timeout_ms * NANOS_PER_MS) as u64)
        },
        remaining_on_hover: None,
        has_default_action: actions.contains("default"@),
        anim: AnimState::Entering(now),
        hovered: false,
        pointer_pos: None,
    }
}

/// The layer-shell namespace of a notification's surface.
pub open spec fn namespace(id: u32) -> Seq<char> {
    "glass-"@ + decimal(id as nat)
}

impl StackView {
    /// The empty stack.
    pub open spec fn empty() -> StackView {
        StackView { slots: Map::empty(), order: Seq::empty(), hovered: None }
    }

    /// The invariant of the stack: every notification has one place in the order and a surface
    /// of its own.
    pub open spec fn wf(self) -> bool {
        &&& self.order.no_duplicates()
        &&& self.order.len() <= MAX_SLOTS
        &&& forall|id: u32| #[trigger] self.order.contains(id) <==> self.slots.contains_key(id)
        &&& forall|a: u32, b: u32|
            #![trigger self.slots[a], self.slots[b]]
            self.slots.contains_key(a) && self.slots.contains_key(b) && self.slots[a].surface
                == self.slots[b].surface ==> a == b
        &&& forall|id: u32| #[trigger]
            self.slots.contains_key(id) ==> slot_wf(self.slots[id])
    }

    /// Whether a notification uses a surface.
    pub open spec fn shown_on(self, id: u32, surface: u64) -> bool {
        self.slots.contains_key(id) && self.slots[id].surface == surface
    }

    /// The notification that uses a surface.
    pub open spec fn find(self, surface: u64) -> Option<u32> {
        if exists|id: u32| self.shown_on(id, surface) {
            Some(choose|id: u32| self.shown_on(id, surface))
        } else {
            None
        }
    }

    /// The stack with one notification changed.
    pub open spec fn with_slot(self, id: u32, slot: Slot) -> StackView {
        StackView { slots: self.slots.insert(id, slot), ..self }
    }

    /// The stack without a notification; the others keep their order.
    pub open spec fn without(self, id: u32) -> StackView {
        StackView {
            slots: self.slots.remove(id),
            order: self.order.remove(self.order.index_of(id)),
            ..self
        }
    }

    /// Every card moved to the place that its position in the stack gives it.
    pub open spec fn relayout(self) -> Seq<ActionView> {
        Seq::new(
            self.order.len(),
            |i: int|
                ActionView::Move {
                    surface: self.slots[self.order[i]].surface,
                    margin_top: top_margin(i),
                    margin_right: MARGIN_RIGHT as int,
                },
        )
    }

    /// Removing a notification at once.
    pub open spec fn remove_immediate(self, id: u32, reason: u32) -> (StackView, Seq<ActionView>) {
        if self.slots.contains_key(id) {
            let rest = self.without(id);
            let released = seq![ActionView::Release { surface: self.slots[id].surface }];
            let reported = if reason > 0 {
                seq![ActionView::Send(ReplyView::Closed { id, reason })]
            } else {
                Seq::empty()
            };
            (rest, released + reported + rest.relayout())
        } else {
            (self, Seq::empty())
        }
    }

    /// Closing a notification: reason zero removes it silently and at once, any other reason
    /// starts its fade-out unless one is already under way.
    pub open spec fn close(self, id: u32, reason: u32, now: u64) -> (StackView, Seq<ActionView>) {
        if !self.slots.contains_key(id) {
            (self, Seq::empty())
        } else if reason == 0 {
            self.remove_immediate(id, 0)
        } else if self.slots[id].anim is Leaving {
            (self, Seq::empty())
        } else {
            let leaving = Slot {
                anim: AnimState::Leaving { start: now, reason },
                ..self.slots[id]
            };
            (self.with_slot(id, leaving), Seq::empty())
        }
    }

    /// Whether a surface handle is free for the notification `id` to use.
    pub open spec fn fresh_surface(self, id: u32, surface: u64) -> bool {
        forall|other: u32| other != id ==> !#[trigger] self.shown_on(other, surface)
    }

    /// Whether the stack has room for the notification `id`.
    pub open spec fn has_room(self, id: u32) -> bool {
        self.slots.contains_key(id) || self.order.len() < MAX_SLOTS
    }

    /// Bringing a notification on screen, at the bottom of the stack; one with the same
    /// identifier is silently replaced.
    pub open spec fn open(
        self,
        id: u32,
        surface: u64,
        card: CardView,
        actions: Seq<Seq<char>>,
        timeout_ms: u32,
        timer_start: u64,
        now: u64,
    ) -> (StackView, Seq<ActionView>) {
        let (rest, cleared) = self.close(id, 0, now);
        let slot = new_slot(surface, actions, timeout_ms, timer_start, now);
        (
            StackView { order: rest.order.push(id), ..rest.with_slot(id, slot) },
            cleared.push(
                ActionView::Open {
                    id,
                    surface,
                    namespace: namespace(id),
                    card,
                    margin_top: top_margin(rest.order.len() as int),
                    margin_right: -WIDTH,
                },
            ),
        )
    }

    /// What an event from the bus does.
    pub open spec fn handle_event(
        self,
        event: EventView,
        surface: u64,
        icon_rgba: Option<Seq<u8>>,
        timer_start: u64,
        now: u64,
    ) -> (StackView, Seq<ActionView>) {
        match event {
            EventView::Notify { id, app_name, app_icon: _, summary, body, actions, timeout_ms } =>
                self.open(
                    id,
                    surface,
                    CardView { app_name, summary, body, icon_rgba },
                    actions,
                    timeout_ms,
                    timer_start,
                    now,
                ),
            EventView::Close { id } => self.close(id, REASON_CLOSED, now),
        }
    }

    /// The stack with every notification that is due at `now` fading out, since `closed_at` unless
    /// it already was.
    pub open spec fn expire(self, now: u64, closed_at: u64) -> StackView {
        StackView {
            slots: self.slots.map_values(|slot: Slot| expired(slot, now, closed_at)),
            ..self
        }
    }

    /// The frames of the first `count` cards of the stack.
    pub open spec fn frames(self, now: u64, count: int) -> Seq<ActionView>
        decreases count,
    {
        if count <= 0 {
            Seq::empty()
        } else {
            self.frames(now, count - 1) + frame(
                self.slots[self.order[count - 1]],
                count - 1,
                now,
            )
        }
    }

    /// The cards among the first `count` of the stack whose fade-out is over, each with the
    /// reason to report.
    pub open spec fn finished(self, now: u64, count: int) -> Seq<(u32, u32)>
        decreases count,
    {
        if count <= 0 {
            Seq::empty()
        } else {
            let before = self.finished(now, count - 1);
            let id = self.order[count - 1];
            if is_gone(self.slots[id], now) {
                before.push((id, self.slots[id].anim->reason))
            } else {
                before
            }
        }
    }

    /// The stack with every animation moved on.
    pub open spec fn all_advanced(self, now: u64) -> StackView {
        StackView { slots: self.slots.map_values(|slot: Slot| advanced(slot, now)), ..self }
    }

    /// Removing a list of notifications one after the other.
    pub open spec fn remove_all(self, list: Seq<(u32, u32)>) -> (StackView, Seq<ActionView>)
        decreases list.len(),
    {
        if list.len() == 0 {
            (self, Seq::empty())
        } else {
            let (before, done) = self.remove_all(list.drop_last());
            let (id, reason) = list.last();
            let (after, more) = before.remove_immediate(id, reason);
            (after, done + more)
        }
    }

    /// One tick of the animations: a frame for every animated card, then the removal of those
    /// whose fade-out is over.
    pub open spec fn tick(self, now: u64) -> (StackView, Seq<ActionView>) {
        let count = self.order.len() as int;
        let (after, removed) = self.all_advanced(now).remove_all(self.finished(now, count));
        (after, self.frames(now, count) + removed)
    }

    /// A mouse press on a surface.
    pub open spec fn click(self, surface: u64, button: u32, now: u64) -> (
        StackView,
        Seq<ActionView>,
    ) {
        match self.find(surface) {
            Some(id) => {
                let slot = self.slots[id];
                let (after, _) = self.close(id, REASON_DISMISSED, now);
                let invoked = button == BTN_LEFT && !on_close_button(slot.pointer_pos)
                    && slot.has_default_action;
                (
                    after,
                    if invoked {
                        seq![
                            ActionView::Send(
                                ReplyView::ActionInvoked { id, action: "default"@ },
                            ),
                        ]
                    } else {
                        Seq::empty()
                    },
                )
            },
            None => (self, Seq::empty()),
        }
    }

    /// Drawing a card outside its animation: transparent while it still slides in.
    pub open spec fn draw(self, id: u32) -> Seq<ActionView> {
        if self.slots.contains_key(id) && self.slots[id].configured {
            seq![
                ActionView::Draw {
                    surface: self.slots[id].surface,
                    visible: !(self.slots[id].anim is Entering),
                    show_close: self.slots[id].hovered,
                },
            ]
        } else {
            Seq::empty()
        }
    }

    /// The compositor has accepted a surface.
    pub open spec fn configure(self, surface: u64) -> (StackView, Seq<ActionView>) {
        match self.find(surface) {
            Some(id) => {
                let after = self.with_slot(id, Slot { configured: true, ..self.slots[id] });
                (after, after.draw(id))
            },
            None => (self, Seq::empty()),
        }
    }

    /// The compositor has closed a surface.
    pub open spec fn closed(self, surface: u64, now: u64) -> StackView {
        match self.find(surface) {
            Some(id) => self.close(id, REASON_DISMISSED, now).0,
            None => self,
        }
    }

    /// Whether a timer that an event sets going again at `now` runs out within the clock's range.
    /// Only the pointer's leaving a card does that.
    pub open spec fn resumable(self, event: PointerEvent, now: u64) -> bool {
        event.kind is Leave ==> (self.find(event.surface) matches Some(id) ==> (
        self.slots[id].remaining_on_hover matches Some(remaining) ==> now + remaining <= u64::MAX))
    }

    /// What a pointer event does.
    pub open spec fn pointer_event(self, event: PointerEvent, now: u64) -> (
        StackView,
        Seq<ActionView>,
    ) {
        match event.kind {
            PointerEventKind::Enter => {
                let entered = StackView { hovered: Some(event.surface), ..self };
                match self.find(event.surface) {
                    Some(id) => {
                        let slot = pointer_entered(self.slots[id], now);
                        (entered.with_slot(id, slot), redrawn(slot, true))
                    },
                    None => (entered, Seq::empty()),
                }
            },
            PointerEventKind::Leave => {
                let left = StackView { hovered: None, ..self };
                match self.find(event.surface) {
                    Some(id) => {
                        let slot = pointer_left(self.slots[id], now);
                        (left.with_slot(id, slot), redrawn(slot, false))
                    },
                    None => (left, Seq::empty()),
                }
            },
            PointerEventKind::Motion => match self.find(event.surface) {
                Some(id) => (
                    self.with_slot(
                        id,
                        Slot { pointer_pos: Some(event.position), ..self.slots[id] },
                    ),
                    Seq::empty(),
                ),
                None => (self, Seq::empty()),
            },
            PointerEventKind::Press { button } => match self.hovered {
                Some(surface) => self.click(surface, button, now),
                None => (self, Seq::empty()),
            },
            PointerEventKind::Other => (self, Seq::empty()),
        }
    }
}

} // verus!
