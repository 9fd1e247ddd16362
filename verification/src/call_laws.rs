//! When the library's functions may be called: what they ask for, in plain terms.
use vstd::prelude::*;

use crate::action::Card;
use crate::app_state::AppState;
use crate::card::{paint_card, render_card, CardText};
use crate::card_laws::{all_addressable, line_addressable};
use crate::event::Event;
use crate::layout::{card_layout, lemma_rectangle_fits, CardLayout};
use crate::raster::{
    addressable, draw_circle, draw_icon_circle, draw_text_buffer, draw_x, icon_ink, in_disc,
    is_sharp_stroke, on_cross, sharp_stroke, GlyphPixel,
};
use crate::region::add_rounded_region;
use crate::slots::PointerEvent;
use crate::step_laws::uses;

verus! {

/// The steps that need nothing but a well-formed stack.
pub proof fn law_steps_are_possible(
    state: &mut AppState,
    id: u32,
    reason: u32,
    surface: u64,
    button: u32,
    now: u64,
    closed_at: u64,
)
    requires
        old(state)@.wf(),
    ensures
        call_requires(AppState::close, (state, id, reason, now)),
        call_requires(AppState::expire, (state, now, closed_at)),
        call_requires(AppState::click, (state, surface, button, now)),
        call_requires(AppState::configure, (state, surface)),
        call_requires(AppState::closed, (state, surface, now)),
        call_requires(AppState::tick_animations, (state, now)),
        call_requires(AppState::turn, (state, now, closed_at)),
{
}

/// The questions that need nothing but a well-formed stack.
pub proof fn law_questions_are_possible(
    state: &AppState,
    id: u32,
    surface: u64,
    timeout_ms: u32,
    event: PointerEvent,
    now: u64,
)
    requires
        state@.wf(),
    ensures
        call_requires(AppState::stack_position, (state, id)),
        call_requires(AppState::slot, (state, id)),
        call_requires(AppState::find_id_by_surface, (state, surface)),
        call_requires(AppState::can_open, (state, id, surface, timeout_ms, now)),
        call_requires(AppState::can_resume, (state, event, now)),
        call_requires(AppState::expired, (state, now)),
{
}

/// A notification can be opened whenever its card's place fits on the screen's coordinates, no other
/// card uses its surface, and its timer ends within the clock's range.
pub proof fn law_opening_is_possible(
    state: &mut AppState,
    event: Event,
    icon_rgba: Option<Vec<u8>>,
    id: u32,
    surface: u64,
    card: Card,
    actions: Vec<String>,
    timeout_ms: u32,
    timer_start: u64,
    now: u64,
)
    requires
        old(state)@.wf(),
        old(state)@.slots.contains_key(id) || 14 + 102 * old(state)@.order.len() <= i32::MAX,
        forall|other: u32| #[trigger] uses(old(state)@, other, surface) ==> other == id,
        timer_start + timeout_ms * 1_000_000 <= u64::MAX,
        event matches Event::Notify { id: sent, timeout_ms: asked, .. } ==> sent == id && asked
            == timeout_ms,
    ensures
        call_requires(
            AppState::open,
            (state, id, surface, card, actions, timeout_ms, timer_start, now),
        ),
        call_requires(
            AppState::handle_event,
            (state, event, surface, icon_rgba, timer_start, now),
        ),
{
    let stack = old(state)@;
    assert forall|other: u32| other != id implies !#[trigger] stack.shown_on(other, surface) by {
        assert(!uses(stack, other, surface));
    }
}

/// A pointer event can be handled unless it leaves a card whose timer would then run out beyond the
/// clock's range. A close request can always be.
pub proof fn law_events_are_possible(
    state: &mut AppState,
    event: PointerEvent,
    now: u64,
    id: u32,
    surface: u64,
    icon_rgba: Option<Vec<u8>>,
)
    requires
        old(state)@.wf(),
        event.kind is Leave ==> forall|card: u32| #[trigger]
            uses(old(state)@, card, event.surface) ==> (old(state)@.slots[card].remaining_on_hover
                matches Some(left) ==> now + left <= u64::MAX),
    ensures
        call_requires(AppState::pointer_event, (state, event, now)),
        call_requires(
            AppState::handle_event,
            (state, Event::Close { id }, surface, icon_rgba, now, now),
        ),
{
    let stack = old(state)@;
    if let Some(card) = stack.find(event.surface) {
        assert(stack.shown_on(card, event.surface));
        assert(uses(stack, card, event.surface));
    }
}

/// Shapes can be drawn wherever the square around them can be addressed.
pub proof fn law_shapes_can_be_drawn(
    data: &mut [u8],
    pw: i32,
    cx: i32,
    cy: i32,
    reach: i32,
    color: [u8; 4],
    thickness: i32,
    unit: i32,
    alpha: u8,
)
    requires
        reach <= 32767,
        -46340 <= reach,
        reach >= 0 ==> all_addressable(cx - reach, cy - reach, cx + reach, cy + reach, pw as int),
        0 < unit,
        sharp_stroke(thickness as int, unit as int),
    ensures
        call_requires(draw_circle, (data, pw, cx, cy, reach, color)),
        call_requires(draw_x, (data, pw, cx, cy, reach, thickness, unit, alpha)),
        call_requires(is_sharp_stroke, (thickness, unit)),
{
    assert forall|dx: int, dy: int| -reach <= dx <= reach && -reach <= dy <= reach implies
        #[trigger] addressable(cx + dx, cy + dy, pw as int) by {
        lemma_rectangle_fits(
            cx - reach,
            cy - reach,
            cx + reach,
            cy + reach,
            pw as int,
            cx + dx,
            cy + dy,
        );
    }
    assert forall|dx: int, dy: int| #[trigger] in_disc(dx, dy, reach as int) implies
        addressable(cx + dx, cy + dy, pw as int) by {}
    assert forall|dx: int, dy: int| #[trigger]
        on_cross(dx, dy, reach as int, thickness as int, unit as int) implies
        addressable(cx + dx, cy + dy, pw as int) by {}
}

/// An icon can be drawn wherever its square can be addressed.
pub proof fn law_icons_can_be_drawn(
    data: &mut [u8],
    pw: i32,
    x0: i32,
    y0: i32,
    size: i32,
    rgba: &[u8],
    fade: &[u8; 256],
)
    requires
        size <= 23170,
        size > 0 ==> all_addressable(
            x0 as int,
            y0 as int,
            x0 + size - 1,
            y0 + size - 1,
            pw as int,
        ),
    ensures
        call_requires(draw_icon_circle, (data, pw, x0, y0, size, rgba, fade)),
{
    assert forall|ix: int, iy: int|
        (#[trigger] icon_ink(ix, iy, size as int, rgba@, fade@)) is Some implies
        addressable(x0 + ix, y0 + iy, pw as int) by {
        lemma_rectangle_fits(
            x0 as int,
            y0 as int,
            x0 + size - 1,
            y0 + size - 1,
            pw as int,
            x0 + ix,
            y0 + iy,
        );
    }
}

/// Text can be drawn wherever its pixels can be addressed.
pub proof fn law_text_can_be_drawn(
    data: &mut [u8],
    pw: i32,
    glyphs: &[GlyphPixel],
    offset_x: i32,
    offset_y: i32,
    color: [u8; 3],
    fade: &[u8; 256],
)
    requires
        line_addressable(glyphs@, offset_x as int, offset_y as int, pw as int),
    ensures
        call_requires(draw_text_buffer, (data, pw, glyphs, offset_x, offset_y, color, fade)),
{
}

/// A card can be painted and rendered whenever it and its text can be drawn, whatever the sizes of
/// its picture and its canvas.
pub proof fn law_cards_can_be_drawn(
    canvas: &mut [u8],
    picture: &mut [u8],
    l: &CardLayout,
    color: [u8; 4],
    app: &str,
    icon_rgba: Option<&[u8]>,
    fade: &[u8; 256],
    show_close: bool,
    text: &CardText,
    drawable: bool,
    readable: bool,
)
    requires
        call_ensures(CardLayout::can_draw, (l, show_close), drawable),
        call_ensures(CardText::can_draw, (text, l), readable),
        drawable,
        readable,
    ensures
        call_requires(
            paint_card,
            (canvas, picture, l, color, icon_rgba, fade, show_close, text),
        ),
        call_requires(
            render_card,
            (canvas, picture, l, app, icon_rgba, fade, show_close, text),
        ),
{
}

/// Cards up to a million pixels wide have a layout, and cards with corners up to 46344 a region.
pub proof fn law_sizes_are_possible(width: i32, height: i32, radius: i32)
    ensures
        0 < width <= 1_000_000 ==> call_requires(card_layout, (width, height)),
        width >= 0 && height >= 0 && 0 <= radius <= 46344 ==> call_requires(
            add_rounded_region,
            (width, height, radius),
        ),
{
}

} // verus!
