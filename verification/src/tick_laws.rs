//! Laws of the animations, over the calls of a tick and of a turn of the display loop.
use vstd::prelude::*;

use crate::action::{requests, Action, ActionView};
use crate::app_state::{lemma_all_advanced_wf, lemma_without_wf, AppState};
use crate::event::{Reply, ReplyView};
use crate::slots::{advanced, elapsed_ms, frame, is_gone, AnimState, Slot, StackView};
use crate::stack_laws::{
    law_removal_keeps_order, law_tick, lemma_filter_agree, lemma_finished, lemma_remove_all, names,
};
use crate::step_laws::is_move;

verus! {

/// Whether a card is sliding in or fading out on screen.
pub open spec fn is_animated(slot: Slot) -> bool {
    slot.configured && !(slot.anim is Steady)
}

/// Whether a card has faded out: it has been told to leave at least 180 milliseconds ago.
pub open spec fn has_faded(slot: Slot, now: u64) -> bool {
    slot.configured && match slot.anim {
        AnimState::Leaving { start, .. } => now >= start + 180 * 1_000_000,
        _ => false,
    }
}

/// Whether a number of milliseconds is how far an animation has come, up to its end.
pub open spec fn is_progress(ms: int, start: u64, now: u64, limit: int) -> bool {
    if now < start {
        ms == 0
    } else if now >= start + limit * 1_000_000 {
        ms == limit
    } else {
        0 <= ms < limit && start + ms * 1_000_000 <= now < start + (ms + 1) * 1_000_000
    }
}

/// Whether an action draws the frame that a card at a position of the stack shows: in the place of
/// its position, as far into its animation as time has passed.
pub open spec fn is_frame(action: Action, slot: Slot, position: int, now: u64) -> bool {
    match slot.anim {
        AnimState::Entering(start) => action matches Action::Enter {
            surface,
            margin_top,
            elapsed_ms: ms,
            show_close,
        } && surface == slot.surface && margin_top == 14 + 102 * position && show_close
            == slot.hovered && is_progress(ms as int, start, now, 280),
        AnimState::Leaving { start, .. } => action matches Action::Leave {
            surface,
            margin_top,
            elapsed_ms: ms,
        } && surface == slot.surface && margin_top == 14 + 102 * position && is_progress(
            ms as int,
            start,
            now,
            180,
        ),
        AnimState::Steady => false,
    }
}

/// Whether a card of a stack is animated.
pub open spec fn animated_in(stack: StackView) -> spec_fn(u32) -> bool {
    |id: u32| is_animated(stack.slots[id])
}

/// Whether a card of a stack has faded out.
pub open spec fn faded_in(stack: StackView, now: u64) -> spec_fn(u32) -> bool {
    |id: u32| has_faded(stack.slots[id], now)
}

/// Whether a card of a stack has not faded out.
pub open spec fn staying_in(stack: StackView, now: u64) -> spec_fn(u32) -> bool {
    |id: u32| !has_faded(stack.slots[id], now)
}

/// The number of frames that the first cards of a stack show.
pub open spec fn frame_count(stack: StackView, count: int) -> int {
    stack.order.take(count).filter(animated_in(stack)).len() as int
}

/// The cards of a stack that have faded out, in order.
pub open spec fn faded_cards(stack: StackView, now: u64) -> Seq<u32> {
    stack.order.filter(faded_in(stack, now))
}

/// The number of actions that removing some of `count` cards asks for: a release, a report, and a
/// move of each card that is left.
pub open spec fn removal_actions(count: int, removed: int) -> int
    decreases removed,
{
    if removed <= 0 {
        0
    } else {
        removal_actions(count, removed - 1) + 2 + (count - removed)
    }
}

/// The cards that are not among some others.
pub open spec fn not_among(list: Seq<u32>) -> spec_fn(u32) -> bool {
    |id: u32| !list.contains(id)
}

proof fn lemma_gone(slot: Slot, now: u64)
    ensures
        is_gone(slot, now) == has_faded(slot, now),
{
}

proof fn lemma_frame(action: Action, slot: Slot, position: int, now: u64)
    requires
        is_animated(slot),
        seq![action@] == frame(slot, position, now),
    ensures
        is_frame(action, slot, position, now),
{
    assert(seq![action@][0] == frame(slot, position, now)[0]);
}

/// The frames of the first cards come one for each that is animated.
proof fn lemma_frames(stack: StackView, now: u64, count: int)
    requires
        stack.wf(),
        0 <= count <= stack.order.len(),
    ensures
        stack.frames(now, count).len() == frame_count(stack, count),
        forall|i: int|
            0 <= i < count && is_animated(stack.slots[#[trigger] stack.order[i]]) ==> {
                &&& frame_count(stack, i) < frame_count(stack, count)
                &&& seq![stack.frames(now, count)[frame_count(stack, i)]] == frame(
                    stack.slots[stack.order[i]],
                    i,
                    now,
                )
            },
        forall|i: int| 0 <= i <= count ==> #[trigger] frame_count(stack, i) <= frame_count(
            stack,
            count,
        ),
    decreases count,
{
    reveal(Seq::filter);
    if count == 0 {
        assert(stack.order.take(0) =~= Seq::empty());
    } else {
        lemma_frames(stack, now, count - 1);
        let id = stack.order[count - 1];
        let slot = stack.slots[id];
        let before = stack.frames(now, count - 1);
        let last = frame(slot, count - 1, now);
        assert(stack.order.take(count).drop_last() =~= stack.order.take(count - 1));
        assert(stack.order.take(count).last() == id);
        let p = animated_in(stack);
        assert(p(id) == is_animated(slot));
        assert(frame_count(stack, count) == frame_count(stack, count - 1) + if is_animated(slot) {
            1int
        } else {
            0int
        });
        assert(last.len() == if is_animated(slot) {
            1int
        } else {
            0int
        });
        assert forall|i: int|
            0 <= i < count && is_animated(stack.slots[#[trigger] stack.order[i]]) implies {
            &&& frame_count(stack, i) < frame_count(stack, count)
            &&& seq![stack.frames(now, count)[frame_count(stack, i)]] == frame(
                stack.slots[stack.order[i]],
                i,
                now,
            )
        } by {
            if i == count - 1 {
                assert(seq![last[0]] =~= last);
            }
        }
    }
}

/// The finished cards are those that have faded out, each with its reason.
proof fn lemma_faded(stack: StackView, now: u64, count: int)
    requires
        stack.wf(),
        0 <= count <= stack.order.len(),
    ensures
        ({
            let list = stack.finished(now, count);
            let faded = stack.order.take(count).filter(faded_in(stack, now));
            &&& list.len() == faded.len()
            &&& forall|j: int|
                0 <= j < list.len() ==> #[trigger] list[j] == (
                    faded[j],
                    stack.slots[faded[j]].anim->reason,
                )
        }),
    decreases count,
{
    reveal(Seq::filter);
    if count == 0 {
        assert(stack.order.take(0) =~= Seq::empty());
    } else {
        lemma_faded(stack, now, count - 1);
        let id = stack.order[count - 1];
        assert(stack.order.take(count).drop_last() =~= stack.order.take(count - 1));
        assert(stack.order.take(count).last() == id);
        lemma_gone(stack.slots[id], now);
        let p = faded_in(stack, now);
        assert(p(id) == has_faded(stack.slots[id], now));
    }
}

/// Whether the requests from an index on are those of the removals of a list of cards.
pub open spec fn asks_removals(
    asked: Seq<ActionView>,
    slots: Map<u32, Slot>,
    order: Seq<u32>,
    list: Seq<(u32, u32)>,
    ids: Seq<u32>,
) -> bool {
    let n = order.len() as int;
    forall|j: int|
        0 <= j < list.len() ==> {
            let at = #[trigger] removal_actions(n, j);
            let rest = order.filter(not_among(ids.take(j + 1)));
            &&& asked[at] == (ActionView::Release { surface: slots[list[j].0].surface })
            &&& asked[at + 1] == ActionView::Send(
                ReplyView::Closed { id: list[j].0, reason: list[j].1 },
            )
            &&& rest.len() == n - 1 - j
            &&& forall|i: int|
                0 <= i < rest.len() ==> asked[at + 2 + i] == (ActionView::Move {
                    surface: slots[#[trigger] rest[i]].surface,
                    margin_top: 14 + 102 * i,
                    margin_right: 14,
                })
        }
}

proof fn lemma_removals(stack: StackView, list: Seq<(u32, u32)>, ids: Seq<u32>)
    requires
        stack.wf(),
        ids.len() == list.len(),
        forall|i: int|
            0 <= i < list.len() ==> stack.slots.contains_key((#[trigger] list[i]).0) && list[i].1 > 0
                && list[i].0 == ids[i],
        forall|i: int, j: int| 0 <= i < j < list.len() ==> list[i].0 != list[j].0,
    ensures
        stack.remove_all(list).1.len() == removal_actions(stack.order.len() as int, list.len() as int),
        asks_removals(stack.remove_all(list).1, stack.slots, stack.order, list, ids),
        list.len() <= stack.order.len(),
        stack.remove_all(list).0.order.len() == stack.order.len() - list.len(),
        forall|j: int|
            0 <= j < list.len() ==> 0 <= #[trigger] removal_actions(stack.order.len() as int, j)
                && removal_actions(stack.order.len() as int, j) + 1 + (stack.order.len() - j)
                <= removal_actions(stack.order.len() as int, list.len() as int),
    decreases list.len(),
{
    let n = stack.order.len() as int;
    if list.len() > 0 {
        let count = list.len() as int;
        let shorter = list.drop_last();
        let fewer = ids.drop_last();
        let (id, reason) = list.last();
        assert forall|i: int| 0 <= i < shorter.len() implies stack.slots.contains_key(
            (#[trigger] shorter[i]).0,
        ) && shorter[i].1 > 0 && shorter[i].0 == fewer[i] by {
            assert(list[i] == shorter[i]);
        }
        assert forall|i: int, j: int| 0 <= i < j < shorter.len() implies shorter[i].0
            != shorter[j].0 by {
            assert(list[i].0 != list[j].0);
        }
        lemma_removals(stack, shorter, fewer);
        lemma_remove_all(stack, shorter);
        let (before, done) = stack.remove_all(shorter);
        assert(list[count - 1] == (id, reason));
        assert(!names(shorter, id)) by {
            if names(shorter, id) {
                let i = choose|i: int| 0 <= i < shorter.len() && (#[trigger] shorter[i]).0 == id;
                assert(list[i].0 != list[count - 1].0);
            }
        }
        assert(before.slots.contains_key(id));
        assert(before.slots[id] == stack.slots[id]);
        lemma_without_wf(before, id);
        law_removal_keeps_order(before, id, reason);
        lemma_remove_all(stack, list);
        let (after, more) = before.remove_immediate(id, reason);
        assert(after == stack.remove_all(list).0);
        let asked = stack.remove_all(list).1;
        assert(asked == done + more);
        assert(more.len() == 2 + after.order.len());
        let rest = stack.order.filter(not_among(ids.take(count)));
        let keep = |x: u32| !names(list, x);
        assert forall|i: int| 0 <= i < stack.order.len() implies keep(#[trigger] stack.order[i])
            == not_among(ids.take(count))(stack.order[i]) by {
            let x = stack.order[i];
            assert(ids.take(count) =~= ids);
            if names(list, x) {
                let k = choose|k: int| 0 <= k < list.len() && (#[trigger] list[k]).0 == x;
                assert(ids[k] == x);
            }
            if ids.contains(x) {
                let k = ids.index_of(x);
                assert(list[k].0 == x);
            }
        }
        lemma_filter_agree(stack.order, keep, not_among(ids.take(count)));
        assert(after.order == rest);
        assert forall|j: int| 0 <= j < list.len() implies {
            let at = #[trigger] removal_actions(n, j);
            let left = stack.order.filter(not_among(ids.take(j + 1)));
            &&& asked[at] == (ActionView::Release { surface: stack.slots[list[j].0].surface })
            &&& asked[at + 1] == ActionView::Send(
                ReplyView::Closed { id: list[j].0, reason: list[j].1 },
            )
            &&& left.len() == n - 1 - j
            &&& forall|i: int|
                0 <= i < left.len() ==> asked[at + 2 + i] == (ActionView::Move {
                    surface: stack.slots[#[trigger] left[i]].surface,
                    margin_top: 14 + 102 * i,
                    margin_right: 14,
                })
        } by {
            let at = removal_actions(n, j);
            let left = stack.order.filter(not_among(ids.take(j + 1)));
            if j < count - 1 {
                assert(list[j] == shorter[j]);
                assert(fewer.take(j + 1) =~= ids.take(j + 1));
                assert(at + 1 + (n - j) <= done.len());
                assert(asked[at] == done[at]);
                assert(asked[at + 1] == done[at + 1]);
                assert forall|i: int| 0 <= i < left.len() implies asked[at + 2 + i] == (
                ActionView::Move {
                    surface: stack.slots[#[trigger] left[i]].surface,
                    margin_top: 14 + 102 * i,
                    margin_right: 14,
                }) by {
                    assert(asked[at + 2 + i] == done[at + 2 + i]);
                }
            } else {
                assert(at == done.len());
                assert(asked[at] == more[0]);
                assert(asked[at + 1] == more[1]);
                assert(ids.take(j + 1) =~= ids.take(count));
                assert(left == rest);
                assert forall|i: int| 0 <= i < left.len() implies asked[at + 2 + i] == (
                ActionView::Move {
                    surface: stack.slots[#[trigger] left[i]].surface,
                    margin_top: 14 + 102 * i,
                    margin_right: 14,
                }) by {
                    assert(asked[at + 2 + i] == more[2 + i]);
                    assert(more[2 + i] == after.relayout()[i]);
                    assert(after.order.contains(left[i]));
                    assert(after.slots.contains_key(left[i]));
                    assert(after.slots[left[i]] == stack.slots[left[i]]);
                }
            }
        }
    }
}

/// A tick draws one frame of every card that slides in or fades out, in stack order, each in the
/// place of its position and as far as time has passed. A slide-in that is over comes to rest. Then
/// every card that has faded out is taken out, in stack order: its surface is released, it is
/// reported with its reason, and the cards that are left move to their places. Nothing else changes,
/// and nothing else is asked for.
pub proof fn law_tick_animations(state: &mut AppState, now: u64, effects: Vec<Action>)
    requires
        old(state)@.wf(),
        call_ensures(AppState::tick_animations, (state, now), effects),
    ensures
        final(state)@.wf(),
        final(state)@.hovered == old(state)@.hovered,
        final(state)@.order == old(state)@.order.filter(staying_in(old(state)@, now)),
        forall|id: u32| #[trigger]
            final(state)@.slots.contains_key(id) <==> old(state)@.slots.contains_key(id)
                && !has_faded(old(state)@.slots[id], now),
        forall|id: u32| #[trigger]
            final(state)@.slots.contains_key(id) ==> final(state)@.slots[id] == match old(state)@.slots[id].anim {
                AnimState::Entering(start) if old(state)@.slots[id].configured && now >= start + 280
                    * 1_000_000 => Slot { anim: AnimState::Steady, ..old(state)@.slots[id] },
                _ => old(state)@.slots[id],
            },
        forall|i: int|
            0 <= i < old(state)@.order.len() && is_animated(
                old(state)@.slots[#[trigger] old(state)@.order[i]],
            ) ==> frame_count(old(state)@, i) < effects@.len() && is_frame(
                effects@[frame_count(old(state)@, i)],
                old(state)@.slots[old(state)@.order[i]],
                i,
                now,
            ),
        effects@.len() == frame_count(old(state)@, old(state)@.order.len() as int)
            + removal_actions(
            old(state)@.order.len() as int,
            faded_cards(old(state)@, now).len() as int,
        ),
        forall|j: int|
            #![trigger removal_actions(old(state)@.order.len() as int, j)]
            0 <= j < faded_cards(old(state)@, now).len() ==> {
                let stack = old(state)@;
                let faded = faded_cards(stack, now);
                let at = frame_count(stack, stack.order.len() as int) + removal_actions(
                    stack.order.len() as int,
                    j,
                );
                let rest = stack.order.filter(not_among(faded.take(j + 1)));
                &&& effects@[at] == (Action::Release { surface: stack.slots[faded[j]].surface })
                &&& effects@[at + 1] == Action::Send(
                    Reply::Closed { id: faded[j], reason: stack.slots[faded[j]].anim->reason },
                )
                &&& rest.len() == stack.order.len() - 1 - j
                &&& forall|i: int|
                    0 <= i < rest.len() ==> is_move(
                        effects@[at + 2 + i],
                        stack.slots[#[trigger] rest[i]].surface,
                        i,
                    )
            },
{
    let stack = old(state)@;
    let n = stack.order.len() as int;
    let moved = stack.all_advanced(now);
    let list = stack.finished(now, n);
    let faded = faded_cards(stack, now);
    let asked = requests(effects@);
    assert(asked.len() == effects@.len());
    assert(stack.order.take(n) =~= stack.order);
    law_tick(stack, now);
    lemma_frames(stack, now, n);
    lemma_faded(stack, now, n);
    lemma_finished(stack, now, n);
    lemma_all_advanced_wf(stack, now);
    assert forall|id: u32| is_gone(stack.slots[id], now) == has_faded(
        #[trigger] stack.slots[id],
        now,
    ) by {
        lemma_gone(stack.slots[id], now);
    }
    lemma_filter_agree(
        stack.order,
        |id: u32| !is_gone(stack.slots[id], now),
        staying_in(stack, now),
    );
    assert forall|i: int| 0 <= i < list.len() implies moved.slots.contains_key(
        (#[trigger] list[i]).0,
    ) && list[i].1 > 0 && list[i].0 == faded[i] by {
        assert(stack.order.contains(list[i].0));
    }
    lemma_remove_all(moved, list);
    lemma_removals(moved, list, faded);
    let frames = stack.frames(now, n);
    let removed = moved.remove_all(list).1;
    assert(asked == frames + removed);
    assert forall|i: int|
        0 <= i < n && is_animated(stack.slots[#[trigger] stack.order[i]]) implies frame_count(
        stack,
        i,
    ) < effects@.len() && is_frame(
        effects@[frame_count(stack, i)],
        stack.slots[stack.order[i]],
        i,
        now,
    ) by {
        let k = frame_count(stack, i);
        assert(asked[k] == frames[k]);
        assert(asked[k] == effects@[k]@);
        lemma_frame(effects@[k], stack.slots[stack.order[i]], i, now);
    }
    assert forall|j: int|
        #![trigger removal_actions(n, j)]
        0 <= j < faded.len() implies {
        let at = frame_count(stack, n) + removal_actions(n, j);
        let rest = stack.order.filter(not_among(faded.take(j + 1)));
        &&& effects@[at] == (Action::Release { surface: stack.slots[faded[j]].surface })
        &&& effects@[at + 1] == Action::Send(
            Reply::Closed { id: faded[j], reason: stack.slots[faded[j]].anim->reason },
        )
        &&& rest.len() == n - 1 - j
        &&& forall|i: int|
            0 <= i < rest.len() ==> is_move(
                effects@[at + 2 + i],
                stack.slots[#[trigger] rest[i]].surface,
                i,
            )
    } by {
        let from = removal_actions(n, j);
        let at = frames.len() + from;
        let rest = stack.order.filter(not_among(faded.take(j + 1)));
        assert(list[j].0 == faded[j]);
        assert(stack.order.contains(faded[j]));
        assert(from + 1 + (n - j) <= removed.len());
        assert(asked[at] == removed[from]);
        assert(asked[at + 1] == removed[from + 1]);
        assert(asked[at] == effects@[at]@);
        assert(asked[at + 1] == effects@[at + 1]@);
        assert forall|i: int| 0 <= i < rest.len() implies is_move(
            effects@[at + 2 + i],
            stack.slots[#[trigger] rest[i]].surface,
            i,
        ) by {
            assert(asked[at + 2 + i] == removed[from + 2 + i]);
            assert(asked[at + 2 + i] == effects@[at + 2 + i]@);
            let keep = not_among(faded.take(j + 1));
            stack.order.lemma_filter_contains_rev(keep, rest[i]);
            assert(stack.order.contains(rest[i]));
        }
    }
    assert forall|id: u32| #[trigger] final(state)@.slots.contains_key(id) implies final(state)@.slots[id] == match stack.slots[id].anim {
        AnimState::Entering(start) if stack.slots[id].configured && now >= start + 280
            * 1_000_000 => Slot { anim: AnimState::Steady, ..stack.slots[id] },
        _ => stack.slots[id],
    } by {
        assert(final(state)@.slots[id] == advanced(stack.slots[id], now));
    }
}

/// The frames of a tick never overlap: the frame of a card lies at least 102 pixels below that of
/// any card before it.
pub proof fn law_frames_do_not_overlap(
    state: &mut AppState,
    now: u64,
    effects: Vec<Action>,
    upper: int,
    lower: int,
)
    requires
        old(state)@.wf(),
        call_ensures(AppState::tick_animations, (state, now), effects),
        0 <= upper < lower < old(state)@.order.len(),
        is_animated(old(state)@.slots[old(state)@.order[upper]]),
        is_animated(old(state)@.slots[old(state)@.order[lower]]),
    ensures
        frame_top(effects@[frame_count(old(state)@, upper)]) + 102 <= frame_top(
            effects@[frame_count(old(state)@, lower)],
        ),
{
    law_tick_animations(state, now, effects);
    let stack = old(state)@;
    assert(is_frame(
        effects@[frame_count(stack, upper)],
        stack.slots[stack.order[upper]],
        upper,
        now,
    ));
    assert(is_frame(
        effects@[frame_count(stack, lower)],
        stack.slots[stack.order[lower]],
        lower,
        now,
    ));
}

/// How far from the top edge of the screen an action draws a frame.
pub open spec fn frame_top(action: Action) -> int {
    match action {
        Action::Enter { margin_top, .. } => margin_top as int,
        Action::Leave { margin_top, .. } => margin_top as int,
        _ => 0,
    }
}

/// A turn of the display loop is what closing the due notifications and then a tick do.
pub proof fn law_turn(
    state: &mut AppState,
    expiring: &mut AppState,
    ticking: &mut AppState,
    now: u64,
    closed_at: u64,
    effects: Vec<Action>,
    ticked: Vec<Action>,
)
    requires
        call_ensures(AppState::turn, (state, now, closed_at), effects),
        call_ensures(AppState::expire, (expiring, now, closed_at), ()),
        call_ensures(AppState::tick_animations, (ticking, now), ticked),
        old(expiring)@ == old(state)@,
        old(ticking)@ == final(expiring)@,
    ensures
        final(state)@.wf(),
        final(state)@ == final(ticking)@,
        effects@.len() == ticked@.len(),
        forall|i: int| 0 <= i < effects@.len() ==> (#[trigger] effects@[i])@ == ticked@[i]@,
{
    assert(requests(effects@).len() == effects@.len());
    assert forall|i: int| 0 <= i < effects@.len() implies (#[trigger] effects@[i])@
        == ticked@[i]@ by {
        assert(requests(effects@)[i] == requests(ticked@)[i]);
    }
}

} // verus!
