//! Laws of the notification stack.
use vstd::prelude::*;

use crate::action::{ActionView, CardView};
use crate::app_state::{lemma_all_advanced_wf, lemma_find, lemma_with_slot_wf, lemma_without_wf};
use crate::config::{
    BTN_LEFT, HEIGHT, LEAVE_MS, NANOS_PER_MS, REASON_DISMISSED, REASON_EXPIRED, STACK_GAP,
};
use crate::event::ReplyView;
use crate::slots::{
    advanced, expired, frame, is_due, is_gone, new_slot, on_close_button, pointer_entered,
    slot_wf, top_margin, AnimState, PointerEvent, PointerEventKind, Slot, StackView,
};

verus! {

/// The messages to the bus among a list of actions, in order.
pub open spec fn sends(actions: Seq<ActionView>) -> Seq<ReplyView>
    decreases actions.len(),
{
    if actions.len() == 0 {
        Seq::empty()
    } else {
        let before = sends(actions.drop_last());
        match actions.last() {
            ActionView::Send(reply) => before.push(reply),
            _ => before,
        }
    }
}

/// The reports that a list of closed notifications calls for.
pub open spec fn reports(list: Seq<(u32, u32)>) -> Seq<ReplyView> {
    Seq::new(list.len(), |i: int| ReplyView::Closed { id: list[i].0, reason: list[i].1 })
}

proof fn lemma_sends_add(first: Seq<ActionView>, second: Seq<ActionView>)
    ensures
        sends(first + second) == sends(first) + sends(second),
    decreases second.len(),
{
    if second.len() == 0 {
        assert(first + second =~= first);
        assert(sends(first) + sends(second) =~= sends(first));
    } else {
        lemma_sends_add(first, second.drop_last());
        assert((first + second).drop_last() =~= first + second.drop_last());
        assert(sends(first + second) =~= sends(first) + sends(second));
    }
}

proof fn lemma_no_sends(actions: Seq<ActionView>)
    requires
        forall|i: int| 0 <= i < actions.len() ==> !(#[trigger] actions[i] is Send),
    ensures
        sends(actions) == Seq::<ReplyView>::empty(),
    decreases actions.len(),
{
    if actions.len() > 0 {
        assert(!(actions[actions.len() - 1] is Send));
        assert forall|i: int| 0 <= i < actions.drop_last().len() implies !(
        #[trigger] actions.drop_last()[i] is Send) by {
            assert(!(actions[i] is Send));
        }
        lemma_no_sends(actions.drop_last());
    }
}

proof fn lemma_frames_silent(stack: StackView, now: u64, count: int)
    ensures
        sends(stack.frames(now, count)) == Seq::<ReplyView>::empty(),
    decreases count,
{
    if count > 0 {
        lemma_frames_silent(stack, now, count - 1);
        let last = frame(stack.slots[stack.order[count - 1]], count - 1, now);
        lemma_no_sends(last);
        lemma_sends_add(stack.frames(now, count - 1), last);
        assert(sends(stack.frames(now, count)) =~= Seq::empty());
    }
}

/// Filtering by predicates that agree on a sequence gives the same result.
pub proof fn lemma_filter_agree(s: Seq<u32>, p: spec_fn(u32) -> bool, q: spec_fn(u32) -> bool)
    requires
        forall|i: int| 0 <= i < s.len() ==> p(#[trigger] s[i]) == q(s[i]),
    ensures
        s.filter(p) == s.filter(q),
    decreases s.len(),
{
    reveal(Seq::filter);
    if s.len() > 0 {
        assert(p(s[s.len() - 1]) == q(s[s.len() - 1]));
        assert forall|i: int| 0 <= i < s.drop_last().len() implies p(#[trigger] s.drop_last()[i])
            == q(s.drop_last()[i]) by {
            assert(p(s[i]) == q(s[i]));
        }
        lemma_filter_agree(s.drop_last(), p, q);
    }
}

/// A filter that keeps everything changes nothing.
proof fn lemma_filter_all(s: Seq<u32>, p: spec_fn(u32) -> bool)
    requires
        forall|i: int| 0 <= i < s.len() ==> p(#[trigger] s[i]),
    ensures
        s.filter(p) == s,
    decreases s.len(),
{
    reveal(Seq::filter);
    if s.len() > 0 {
        assert(p(s[s.len() - 1]));
        assert forall|i: int| 0 <= i < s.drop_last().len() implies p(
            #[trigger] s.drop_last()[i],
        ) by {
            assert(p(s[i]));
        }
        lemma_filter_all(s.drop_last(), p);
        assert(s.drop_last().push(s.last()) =~= s);
    }
}

/// Filtering twice is filtering by both predicates.
proof fn lemma_filter_twice(s: Seq<u32>, p: spec_fn(u32) -> bool, q: spec_fn(u32) -> bool)
    ensures
        s.filter(p).filter(q) == s.filter(|x: u32| p(x) && q(x)),
    decreases s.len(),
{
    reveal(Seq::filter);
    if s.len() > 0 {
        lemma_filter_twice(s.drop_last(), p, q);
        let rest = s.drop_last().filter(p);
        assert(rest.push(s.last()).drop_last() =~= rest);
    }
}

/// Removing an element of a sequence without duplicates is filtering it out.
proof fn lemma_remove_is_filter(s: Seq<u32>, id: u32)
    requires
        s.no_duplicates(),
        s.contains(id),
    ensures
        s.remove(s.index_of(id)) == s.filter(|x: u32| x != id),
    decreases s.len(),
{
    reveal(Seq::filter);
    let at = s.index_of(id);
    let keep = |x: u32| x != id;
    let rest = s.drop_last();
    if at == s.len() - 1 {
        assert forall|i: int| 0 <= i < rest.len() implies keep(#[trigger] rest[i]) by {
            assert(s[i] != s[at]);
        }
        lemma_filter_all(rest, keep);
        assert(s.remove(at) =~= rest);
    } else {
        assert(rest[at] == id);
        assert(rest.index_of(id) == at);
        lemma_remove_is_filter(rest, id);
        assert(s.last() != id);
        assert(s.remove(at) =~= rest.remove(at).push(s.last()));
    }
}

/// Whether a list of closed notifications names `id`.
pub open spec fn names(list: Seq<(u32, u32)>, id: u32) -> bool {
    exists|i: int| 0 <= i < list.len() && (#[trigger] list[i]).0 == id
}

proof fn lemma_names_push(list: Seq<(u32, u32)>, entry: (u32, u32), id: u32)
    ensures
        names(list.push(entry), id) <==> names(list, id) || entry.0 == id,
{
    let longer = list.push(entry);
    if names(list, id) {
        let i = choose|i: int| 0 <= i < list.len() && (#[trigger] list[i]).0 == id;
        assert(longer[i].0 == id);
    }
    assert(longer[list.len() as int] == entry);
    if names(longer, id) {
        let i = choose|i: int| 0 <= i < longer.len() && (#[trigger] longer[i]).0 == id;
        if i < list.len() {
            assert(list[i].0 == id);
        }
    }
}

/// Removing a notification keeps the others in order.
pub proof fn law_removal_keeps_order(stack: StackView, id: u32, reason: u32)
    requires
        stack.wf(),
    ensures
        stack.remove_immediate(id, reason).0.order == stack.order.filter(|x: u32| x != id),
        forall|other: u32| #[trigger]
            stack.remove_immediate(id, reason).0.slots.contains_key(other) <==> other != id
                && stack.slots.contains_key(other),
        forall|other: u32|
            other != id && stack.slots.contains_key(other) ==> #[trigger] stack.remove_immediate(
                id,
                reason,
            ).0.slots[other] == stack.slots[other],
{
    if stack.slots.contains_key(id) {
        assert(stack.order.contains(id));
        lemma_remove_is_filter(stack.order, id);
    } else {
        assert(!stack.order.contains(id));
        lemma_filter_all(stack.order, |x: u32| x != id);
    }
}

/// What removing a list of notifications leaves, and what it reports.
pub proof fn lemma_remove_all(stack: StackView, list: Seq<(u32, u32)>)
    requires
        stack.wf(),
        forall|i: int|
            0 <= i < list.len() ==> stack.slots.contains_key((#[trigger] list[i]).0) && list[i].1
                > 0,
        forall|i: int, j: int| 0 <= i < j < list.len() ==> list[i].0 != list[j].0,
    ensures
        stack.remove_all(list).0.wf(),
        stack.remove_all(list).0.order == stack.order.filter(|id: u32| !names(list, id)),
        forall|id: u32| #[trigger]
            stack.remove_all(list).0.slots.contains_key(id) <==> stack.slots.contains_key(id)
                && !names(list, id),
        forall|id: u32|
            stack.slots.contains_key(id) && !names(list, id) ==> #[trigger] stack.remove_all(
                list,
            ).0.slots[id] == stack.slots[id],
        stack.remove_all(list).0.hovered == stack.hovered,
        sends(stack.remove_all(list).1) == reports(list),
    decreases list.len(),
{
    let keep = |id: u32| !names(list, id);
    if list.len() == 0 {
        lemma_filter_all(stack.order, keep);
        assert(reports(list) =~= Seq::empty());
    } else {
        let rest = list.drop_last();
        let (id, reason) = list.last();
        assert(rest.push((id, reason)) =~= list);
        assert forall|i: int| 0 <= i < rest.len() implies stack.slots.contains_key(
            (#[trigger] rest[i]).0,
        ) && rest[i].1 > 0 by {
            assert(list[i] == rest[i]);
        }
        assert forall|i: int, j: int| 0 <= i < j < rest.len() implies rest[i].0 != rest[j].0 by {
            assert(list[i].0 != list[j].0);
        }
        lemma_remove_all(stack, rest);
        assert(!names(rest, id)) by {
            if names(rest, id) {
                let i = choose|i: int| 0 <= i < rest.len() && (#[trigger] rest[i]).0 == id;
                assert(list[i].0 != list[list.len() - 1].0);
            }
        }
        let before = stack.remove_all(rest).0;
        let done = stack.remove_all(rest).1;
        assert(stack.slots.contains_key(list[list.len() - 1].0));
        assert(before.slots.contains_key(id));
        law_removal_keeps_order(before, id, reason);
        lemma_without_wf(before, id);
        let after = before.remove_immediate(id, reason).0;
        let more = before.remove_immediate(id, reason).1;
        // The order.
        let keep_before = |x: u32| !names(rest, x);
        let other = |x: u32| x != id;
        lemma_filter_twice(stack.order, keep_before, other);
        let both = |x: u32| keep_before(x) && other(x);
        assert forall|i: int| 0 <= i < stack.order.len() implies both(#[trigger] stack.order[i])
            == keep(stack.order[i]) by {
            lemma_names_push(rest, (id, reason), stack.order[i]);
        }
        lemma_filter_agree(stack.order, both, keep);
        assert forall|x: u32| #[trigger] after.slots.contains_key(x) <==> stack.slots.contains_key(
            x,
        ) && !names(list, x) by {
            lemma_names_push(rest, (id, reason), x);
            assert(before.slots.contains_key(x) <==> stack.slots.contains_key(x) && !names(
                rest,
                x,
            ));
        }
        assert forall|x: u32| stack.slots.contains_key(x) && !names(list, x) implies
            #[trigger] after.slots[x] == stack.slots[x] by {
            lemma_names_push(rest, (id, reason), x);
            assert(before.slots.contains_key(x));
            assert(before.slots[x] == stack.slots[x]);
        }
        // The messages.
        let released = seq![ActionView::Release { surface: before.slots[id].surface }];
        let reported = seq![ActionView::Send(ReplyView::Closed { id, reason })];
        let moved = before.without(id).relayout();
        lemma_no_sends(released);
        lemma_no_sends(moved);
        lemma_sends_add(released, reported);
        lemma_sends_add(released + reported, moved);
        lemma_sends_add(done, more);
        lemma_no_sends(reported.drop_last());
        assert(sends(reported) =~= seq![ReplyView::Closed { id, reason }]);
        assert(sends(more) =~= seq![ReplyView::Closed { id, reason }]);
        assert(reports(list) =~= reports(rest).push(ReplyView::Closed { id, reason }));
        assert(sends(stack.remove_all(list).1) =~= reports(list));
    }
}

/// The finished cards among the first `count` are those whose fade-out is over, each named once
/// with its own reason.
pub proof fn lemma_finished(stack: StackView, now: u64, count: int)
    requires
        stack.wf(),
        0 <= count <= stack.order.len(),
    ensures
        forall|i: int|
            0 <= i < stack.finished(now, count).len() ==> {
                let (id, reason) = #[trigger] stack.finished(now, count)[i];
                &&& stack.order.take(count).contains(id)
                &&& is_gone(stack.slots[id], now)
                &&& reason == stack.slots[id].anim->reason
                &&& reason > 0
            },
        forall|i: int, j: int|
            0 <= i < j < stack.finished(now, count).len() ==> stack.finished(now, count)[i].0
                != stack.finished(now, count)[j].0,
        forall|k: int|
            0 <= k < count && is_gone(stack.slots[#[trigger] stack.order[k]], now) ==> names(
                stack.finished(now, count),
                stack.order[k],
            ),
    decreases count,
{
    if count > 0 {
        lemma_finished(stack, now, count - 1);
        let id = stack.order[count - 1];
        let before = stack.finished(now, count - 1);
        let list = stack.finished(now, count);
        assert(stack.order.contains(id));
        assert forall|i: int| 0 <= i < list.len() implies ({
            let (x, reason) = #[trigger] list[i];
            &&& stack.order.take(count).contains(x)
            &&& is_gone(stack.slots[x], now)
            &&& reason == stack.slots[x].anim->reason
            &&& reason > 0
        }) by {
            if i < before.len() {
                let (x, reason) = before[i];
                let k = stack.order.take(count - 1).index_of(x);
                assert(stack.order.take(count)[k] == x);
            } else {
                assert(stack.order.take(count)[count - 1] == id);
            }
        }
        assert forall|i: int, j: int| 0 <= i < j < list.len() implies list[i].0 != list[j].0 by {
            if j == before.len() {
                let x = before[i].0;
                let k = stack.order.take(count - 1).index_of(x);
                assert(stack.order[k] == x);
                assert(stack.order[k] != stack.order[count - 1]);
            }
        }
        assert forall|k: int|
            0 <= k < count && is_gone(stack.slots[#[trigger] stack.order[k]], now) implies names(
            list,
            stack.order[k],
        ) by {
            if is_gone(stack.slots[id], now) {
                lemma_names_push(before, (id, stack.slots[id].anim->reason), stack.order[k]);
            }
        }
    }
}

/// A tick removes exactly the cards whose fade-out is over. The others keep their order and only
/// come to rest where their slide-in has ended, and every removed card is reported once, in stack
/// order, with the reason it was closed for.
pub proof fn law_tick(stack: StackView, now: u64)
    requires
        stack.wf(),
    ensures
        stack.tick(now).0.order == stack.order.filter(
            |id: u32| !is_gone(stack.slots[id], now),
        ),
        forall|id: u32| #[trigger]
            stack.tick(now).0.slots.contains_key(id) <==> stack.slots.contains_key(id) && !is_gone(
                stack.slots[id],
                now,
            ),
        forall|id: u32|
            stack.slots.contains_key(id) && !is_gone(stack.slots[id], now)
                ==> #[trigger] stack.tick(now).0.slots[id] == advanced(stack.slots[id], now),
        sends(stack.tick(now).1) == reports(stack.finished(now, stack.order.len() as int)),
        forall|i: int|
            0 <= i < stack.finished(now, stack.order.len() as int).len() ==> {
                let (id, reason) = #[trigger] stack.finished(now, stack.order.len() as int)[i];
                &&& stack.slots.contains_key(id)
                &&& is_gone(stack.slots[id], now)
                &&& reason == stack.slots[id].anim->reason
                &&& reason > 0
            },
        forall|id: u32|
            stack.slots.contains_key(id) && is_gone(stack.slots[id], now) ==> #[trigger] names(
                stack.finished(now, stack.order.len() as int),
                id,
            ),
        forall|i: int, j: int|
            0 <= i < j < stack.finished(now, stack.order.len() as int).len() ==> stack.finished(
                now,
                stack.order.len() as int,
            )[i].0 != stack.finished(now, stack.order.len() as int)[j].0,
{
    let count = stack.order.len() as int;
    let list = stack.finished(now, count);
    let moved = stack.all_advanced(now);
    lemma_finished(stack, now, count);
    lemma_all_advanced_wf(stack, now);
    assert(stack.order.take(count) =~= stack.order);
    assert forall|i: int| 0 <= i < list.len() implies moved.slots.contains_key(
        (#[trigger] list[i]).0,
    ) && list[i].1 > 0 by {
        assert(stack.order.contains(list[i].0));
    }
    lemma_remove_all(moved, list);
    lemma_frames_silent(stack, now, count);
    lemma_sends_add(stack.frames(now, count), moved.remove_all(list).1);
    assert(sends(stack.tick(now).1) =~= reports(list));
    assert forall|id: u32| stack.slots.contains_key(id) implies #[trigger] names(list, id)
        == is_gone(stack.slots[id], now) by {
        assert(stack.order.contains(id));
        let k = stack.order.index_of(id);
        assert(stack.order[k] == id);
        if names(list, id) {
            let i = choose|i: int| 0 <= i < list.len() && (#[trigger] list[i]).0 == id;
        }
    }
    let keep = |id: u32| !names(list, id);
    let stays = |id: u32| !is_gone(stack.slots[id], now);
    assert forall|i: int| 0 <= i < stack.order.len() implies keep(#[trigger] stack.order[i])
        == stays(stack.order[i]) by {
        assert(stack.order.contains(stack.order[i]));
    }
    lemma_filter_agree(stack.order, keep, stays);
    assert forall|i: int| 0 <= i < list.len() implies ({
        let (id, reason) = #[trigger] list[i];
        &&& stack.slots.contains_key(id)
        &&& is_gone(stack.slots[id], now)
        &&& reason == stack.slots[id].anim->reason
        &&& reason > 0
    }) by {
        assert(stack.order.contains(list[i].0));
    }
}

/// A closed notification whose card was accepted by the compositor is gone, and reported with the
/// reason it was closed for, at any tick from the end of its fade-out on, and not before.
pub proof fn law_close_then_gone(stack: StackView, id: u32, reason: u32, closed: u64, now: u64)
    requires
        stack.wf(),
        stack.slots.contains_key(id),
        stack.slots[id].configured,
        !(stack.slots[id].anim is Leaving),
        reason > 0,
    ensures
        stack.close(id, reason, closed).1.len() == 0,
        now >= closed + LEAVE_MS * NANOS_PER_MS ==> {
            let (after, effects) = stack.close(id, reason, closed).0.tick(now);
            &&& !after.slots.contains_key(id)
            &&& sends(effects).contains(ReplyView::Closed { id, reason })
        },
        now < closed + LEAVE_MS * NANOS_PER_MS ==> {
            let (after, effects) = stack.close(id, reason, closed).0.tick(now);
            &&& after.slots.contains_key(id)
            &&& forall|r: u32| !sends(effects).contains(ReplyView::Closed { id, reason: r })
        },
{
    let leaving = Slot { anim: AnimState::Leaving { start: closed, reason }, ..stack.slots[id] };
    let closing = stack.close(id, reason, closed).0;
    lemma_with_slot_wf(stack, id, leaving);
    law_tick(closing, now);
    let list = closing.finished(now, closing.order.len() as int);
    let sent = sends(closing.tick(now).1);
    assert(closing.slots[id] == leaving);
    if now >= closed + LEAVE_MS * NANOS_PER_MS {
        lemma_leaving_is_reported(closing, id, now);
    } else {
        assert(!is_gone(closing.slots[id], now));
        assert forall|r: u32| !sent.contains(ReplyView::Closed { id, reason: r }) by {
            if sent.contains(ReplyView::Closed { id, reason: r }) {
                let i = sent.index_of(ReplyView::Closed { id, reason: r });
                assert(list[i].0 == id);
            }
        }
    }
}

/// A notification that is not on screen is not reported: together with [`law_tick`], each one is
/// reported once, when it goes.
pub proof fn law_absent_is_not_reported(stack: StackView, id: u32, now: u64)
    requires
        stack.wf(),
        !stack.slots.contains_key(id),
    ensures
        forall|reason: u32|
            !(#[trigger] sends(stack.tick(now).1).contains(ReplyView::Closed { id, reason })),
        !stack.tick(now).0.slots.contains_key(id),
        forall|reason: u32|
            #[trigger] stack.close(id, reason, now) == (stack, Seq::<ActionView>::empty()),
{
    law_tick(stack, now);
    let list = stack.finished(now, stack.order.len() as int);
    let sent = sends(stack.tick(now).1);
    assert forall|reason: u32| !(#[trigger] sent.contains(ReplyView::Closed { id, reason })) by {
        if sent.contains(ReplyView::Closed { id, reason }) {
            let i = sent.index_of(ReplyView::Closed { id, reason });
            assert(list[i].0 == id);
        }
    }
}

/// Closing a notification that is already fading out changes nothing: the first reason and the
/// start of the fade-out stand.
pub proof fn law_first_close_wins(
    stack: StackView,
    id: u32,
    first: u32,
    first_at: u64,
    second: u32,
    second_at: u64,
)
    requires
        stack.wf(),
        first > 0,
        second > 0,
    ensures
        stack.close(id, first, first_at).0.close(id, second, second_at).0 == stack.close(
            id,
            first,
            first_at,
        ).0,
        stack.close(id, first, first_at).0.close(id, second, second_at).1.len() == 0,
{
}

/// A notification comes last in the stack, and one with its identifier is replaced: the other cards
/// keep their order and their state, every card still has one place in the order, and the bus hears
/// nothing of it.
pub proof fn law_replacement_is_silent(
    stack: StackView,
    id: u32,
    surface: u64,
    card: CardView,
    actions: Seq<Seq<char>>,
    timeout_ms: u32,
    timer_start: u64,
    now: u64,
)
    requires
        stack.wf(),
    ensures
        ({
            let (after, effects) = stack.open(
                id,
                surface,
                card,
                actions,
                timeout_ms,
                timer_start,
                now,
            );
            &&& after.order == stack.order.filter(|x: u32| x != id).push(id)
            &&& after.slots == stack.slots.insert(
                id,
                new_slot(surface, actions, timeout_ms, timer_start, now),
            )
            &&& after.slots.dom() == stack.slots.dom().insert(id)
            &&& after.order.no_duplicates()
            &&& forall|x: u32| #[trigger] after.order.contains(x) <==> after.slots.contains_key(x)
            &&& sends(effects) == Seq::<ReplyView>::empty()
        }),
{
    law_removal_keeps_order(stack, id, 0);
    let (after, effects) = stack.open(id, surface, card, actions, timeout_ms, timer_start, now);
    assert(after.slots =~= stack.slots.insert(
        id,
        new_slot(surface, actions, timeout_ms, timer_start, now),
    ));
    assert forall|i: int| 0 <= i < effects.len() implies !(#[trigger] effects[i] is Send) by {}
    lemma_no_sends(effects);
    if !stack.slots.contains_key(id) {
        assert(stack.close(id, 0, now).0 == stack.remove_immediate(id, 0).0);
    } else {
        lemma_without_wf(stack, id);
    }
    let rest = stack.close(id, 0, now).0;
    assert(rest.wf());
    assert(!rest.order.contains(id));
    assert forall|x: u32| #[trigger] after.order.contains(x) <==> after.slots.contains_key(x) by {
        assert(rest.order.contains(x) <==> rest.slots.contains_key(x));
        if rest.order.contains(x) {
            assert(after.order[rest.order.index_of(x)] == x);
        }
        assert(after.order[rest.order.len() as int] == id);
        if after.order.contains(x) && x != id {
            assert(rest.order[after.order.index_of(x)] == x);
        }
    }
    assert(after.slots.dom() =~= stack.slots.dom().insert(id));
}

/// Cards never overlap: each stands at least its height and the gap below the one before it.
pub proof fn law_cards_do_not_overlap(upper: int, lower: int)
    requires
        0 <= upper < lower,
    ensures
        top_margin(upper) + HEIGHT + STACK_GAP <= top_margin(lower),
{
    assert(lower * (HEIGHT + STACK_GAP) >= (upper + 1) * (HEIGHT + STACK_GAP)) by (nonlinear_arith)
        requires
            upper + 1 <= lower,
            HEIGHT + STACK_GAP >= 0,
    ;
    assert((upper + 1) * (HEIGHT + STACK_GAP) == upper * (HEIGHT + STACK_GAP) + (HEIGHT
        + STACK_GAP)) by (nonlinear_arith);
}

/// Hovering pauses the timer: when the pointer leaves, the notification has as much time left as
/// it had when the pointer came, and one without a timer still has none. Nothing else is left of
/// the hovering, and the animation is not touched. The time of expiry has to fit the clock.
pub proof fn law_hover_pauses_timer(
    stack: StackView,
    enter: PointerEvent,
    came: u64,
    leave: PointerEvent,
    left: u64,
)
    requires
        stack.wf(),
        enter.kind == PointerEventKind::Enter,
        leave.kind == PointerEventKind::Leave,
        leave.surface == enter.surface,
        stack.find(enter.surface) is Some,
        !stack.slots[stack.find(enter.surface)->0].hovered,
        stack.slots[stack.find(enter.surface)->0].expires_at matches Some(expiry) ==> left + expiry
            - came <= u64::MAX,
    ensures
        ({
            let id = stack.find(enter.surface)->0;
            let slot = stack.slots[id];
            let hovering = stack.pointer_event(enter, came).0;
            let after = hovering.pointer_event(leave, left).0;
            &&& stack.resumable(enter, came)
            &&& hovering.resumable(leave, left)
            &&& forall|now: u64| !is_due(#[trigger] hovering.slots[id], now)
            &&& after.slots[id] == Slot {
                expires_at: match slot.expires_at {
                    Some(expiry) => Some(
                        if expiry > came {
                            (left + (expiry - came)) as u64
                        } else {
                            left
                        },
                    ),
                    None => None,
                },
                remaining_on_hover: None,
                hovered: false,
                pointer_pos: None,
                ..slot
            }
            &&& after.hovered is None
            &&& after.order == stack.order
        }),
{
    let id = stack.find(enter.surface)->0;
    assert(stack.shown_on(id, enter.surface));
    let slot = pointer_entered(stack.slots[id], came);
    let hovering = stack.pointer_event(enter, came).0;
    lemma_with_slot_wf(stack, id, slot);
    assert(hovering.wf()) by {
        let plain = stack.with_slot(id, slot);
        assert(hovering.slots == plain.slots);
        assert(hovering.order == plain.order);
    }
    lemma_find(hovering, id, enter.surface);
}

/// A hovered notification is never due.
pub proof fn law_hovered_never_due(stack: StackView, id: u32, now: u64)
    requires
        stack.wf(),
        stack.slots.contains_key(id),
        stack.slots[id].hovered,
    ensures
        !is_due(stack.slots[id], now),
        forall|closed_at: u64| #[trigger]
            stack.expire(now, closed_at).slots[id] == stack.slots[id],
{
}

/// Whether a notification has no timer, neither running nor paused.
pub open spec fn timerless(slot: Slot) -> bool {
    slot.expires_at is None && slot.remaining_on_hover is None
}

/// A notification with timeout zero never expires: it comes on screen without a timer, and
/// without a timer it is not due at any time and is not told to leave.
pub proof fn law_zero_timeout_never_due(
    stack: StackView,
    id: u32,
    surface: u64,
    card: CardView,
    actions: Seq<Seq<char>>,
    timer_start: u64,
    opened: u64,
)
    ensures
        timerless(stack.open(id, surface, card, actions, 0, timer_start, opened).0.slots[id]),
        forall|slot: Slot, now: u64| timerless(slot) ==> !#[trigger] is_due(slot, now),
        forall|slot: Slot, now: u64, closed_at: u64|
            timerless(slot) ==> #[trigger] expired(slot, now, closed_at) == slot,
{
}

/// No step but a replacement gives a notification without a timer one.
pub proof fn law_timerless_stays(
    stack: StackView,
    id: u32,
    event: PointerEvent,
    now: u64,
    closed_at: u64,
)
    requires
        stack.wf(),
        stack.slots.contains_key(id),
        timerless(stack.slots[id]),
    ensures
        timerless(stack.pointer_event(event, now).0.slots[id]),
        timerless(stack.expire(now, closed_at).slots[id]),
        timerless(stack.configure(event.surface).0.slots[id]),
        timerless(stack.closed(event.surface, now).slots[id]),
        forall|reason: u32| reason > 0 ==> timerless(#[trigger] stack.close(id, reason, now).0.slots[id]),
        stack.tick(now).0.slots.contains_key(id) ==> timerless(stack.tick(now).0.slots[id]),
        forall|other: u32, reason: u32|
            other != id ==> #[trigger] stack.close(other, reason, now).0.slots[id]
                == stack.slots[id],
        forall|
            other: u32,
            surface: u64,
            card: CardView,
            actions: Seq<Seq<char>>,
            timeout_ms: u32,
            timer_start: u64,
        |
            other != id ==> #[trigger] stack.open(
                other,
                surface,
                card,
                actions,
                timeout_ms,
                timer_start,
                now,
            ).0.slots[id] == stack.slots[id],
{
    law_tick(stack, now);
    if stack.find(event.surface) is Some {
        assert(stack.shown_on(stack.find(event.surface)->0, event.surface));
    }
    if stack.hovered is Some && stack.find(stack.hovered->0) is Some {
        assert(stack.shown_on(stack.find(stack.hovered->0)->0, stack.hovered->0));
    }
}

/// A notification with a timeout is due once its time has passed, and not before, as long as the
/// pointer stays away.
pub proof fn law_timeout(
    surface: u64,
    actions: Seq<Seq<char>>,
    timeout_ms: u32,
    timer_start: u64,
    opened: u64,
    now: u64,
)
    requires
        timeout_ms > 0,
        timer_start + timeout_ms * NANOS_PER_MS <= u64::MAX,
    ensures
        is_due(new_slot(surface, actions, timeout_ms, timer_start, opened), now) <==> now
            >= timer_start + timeout_ms * NANOS_PER_MS,
{
}

/// Every notification that is due starts to leave as expired, unless it is leaving already; the
/// others stay as they are.
pub proof fn law_expire(stack: StackView, now: u64, closed_at: u64, id: u32)
    requires
        stack.wf(),
        stack.slots.contains_key(id),
    ensures
        is_due(stack.slots[id], now) ==> stack.expire(now, closed_at).slots[id].anim is Leaving,
        is_due(stack.slots[id], now) && !(stack.slots[id].anim is Leaving) ==> stack.expire(
            now,
            closed_at,
        ).slots[id].anim == (AnimState::Leaving { start: closed_at, reason: REASON_EXPIRED }),
        !is_due(stack.slots[id], now) ==> stack.expire(now, closed_at).slots[id]
            == stack.slots[id],
{
}

/// Telling the due notifications to leave keeps the stack well formed.
proof fn lemma_expire_wf(stack: StackView, now: u64, closed_at: u64)
    requires
        stack.wf(),
    ensures
        stack.expire(now, closed_at).wf(),
{
    let after = stack.expire(now, closed_at);
    assert forall|id: u32| #[trigger] after.order.contains(id) <==> after.slots.contains_key(
        id,
    ) by {
        assert(stack.order.contains(id) <==> stack.slots.contains_key(id));
    }
    assert forall|a: u32, b: u32|
        #![trigger after.slots[a], after.slots[b]]
        after.slots.contains_key(a) && after.slots.contains_key(b) && after.slots[a].surface
            == after.slots[b].surface implies a == b by {
        assert(stack.slots[a].surface == stack.slots[b].surface);
    }
    assert forall|id: u32| #[trigger] after.slots.contains_key(id) implies slot_wf(
        after.slots[id],
    ) by {
        assert(stack.slots.contains_key(id));
    }
}

/// A notification that is fading out is gone and reported at any tick from the end of its fade-out
/// on.
proof fn lemma_leaving_is_reported(stack: StackView, id: u32, now: u64)
    requires
        stack.wf(),
        stack.slots.contains_key(id),
        stack.slots[id].configured,
        stack.slots[id].anim matches AnimState::Leaving { start, .. } && now >= start + LEAVE_MS
            * NANOS_PER_MS,
    ensures
        !stack.tick(now).0.slots.contains_key(id),
        sends(stack.tick(now).1).contains(
            ReplyView::Closed { id, reason: stack.slots[id].anim->reason },
        ),
{
    law_tick(stack, now);
    let start = stack.slots[id].anim->start;
    let reason = stack.slots[id].anim->reason;
    let list = stack.finished(now, stack.order.len() as int);
    let sent = sends(stack.tick(now).1);
    assert((now - start) / 1_000_000 >= 180);
    assert(is_gone(stack.slots[id], now));
    assert(names(list, id));
    let i = choose|i: int| 0 <= i < list.len() && (#[trigger] list[i]).0 == id;
    assert(sent[i] == ReplyView::Closed { id, reason });
}

/// A notification whose time is up is reported as expired once it has faded out, if its card was
/// accepted by the compositor and nothing closed it before.
pub proof fn law_expiry_is_reported(
    stack: StackView,
    id: u32,
    now: u64,
    closed_at: u64,
    later: u64,
)
    requires
        stack.wf(),
        stack.slots.contains_key(id),
        stack.slots[id].configured,
        !(stack.slots[id].anim is Leaving),
        is_due(stack.slots[id], now),
        later >= closed_at + LEAVE_MS * NANOS_PER_MS,
    ensures
        ({
            let (after, effects) = stack.expire(now, closed_at).tick(later);
            &&& !after.slots.contains_key(id)
            &&& sends(effects).contains(ReplyView::Closed { id, reason: REASON_EXPIRED })
        }),
{
    lemma_expire_wf(stack, now, closed_at);
    lemma_leaving_is_reported(stack.expire(now, closed_at), id, later);
}

/// A notification that is pressed is reported as dismissed once it has faded out, if its card was
/// accepted by the compositor and nothing closed it before.
pub proof fn law_press_is_reported(
    stack: StackView,
    event: PointerEvent,
    button: u32,
    now: u64,
    later: u64,
)
    requires
        stack.wf(),
        event.kind == (PointerEventKind::Press { button }),
        stack.hovered is Some,
        stack.find(stack.hovered->0) is Some,
        stack.slots[stack.find(stack.hovered->0)->0].configured,
        !(stack.slots[stack.find(stack.hovered->0)->0].anim is Leaving),
        later >= now + LEAVE_MS * NANOS_PER_MS,
    ensures
        ({
            let id = stack.find(stack.hovered->0)->0;
            let (after, effects) = stack.pointer_event(event, now).0.tick(later);
            &&& !after.slots.contains_key(id)
            &&& sends(effects).contains(ReplyView::Closed { id, reason: REASON_DISMISSED })
        }),
{
    let id = stack.find(stack.hovered->0)->0;
    assert(stack.shown_on(id, stack.hovered->0));
    let leaving = Slot {
        anim: AnimState::Leaving { start: now, reason: REASON_DISMISSED },
        ..stack.slots[id]
    };
    lemma_with_slot_wf(stack, id, leaving);
    lemma_leaving_is_reported(stack.pointer_event(event, now).0, id, later);
}

/// A press acts on the surface that the pointer entered last, whatever surface it names: it is a
/// click there, and nothing if there is none.
pub proof fn law_press_is_a_click(stack: StackView, event: PointerEvent, button: u32, now: u64)
    requires
        event.kind == (PointerEventKind::Press { button }),
    ensures
        stack.resumable(event, now),
        stack.hovered is None ==> stack.pointer_event(event, now) == (
            stack,
            Seq::<ActionView>::empty(),
        ),
        stack.hovered matches Some(surface) ==> stack.pointer_event(event, now) == stack.click(
            surface,
            button,
            now,
        ),
{
}

/// A press always dismisses the card that the pointer entered last, and sends its default action
/// only for a left press, beside the close button, on a card that has one.
pub proof fn law_press(stack: StackView, event: PointerEvent, button: u32, now: u64)
    requires
        stack.wf(),
        event.kind == (PointerEventKind::Press { button }),
        stack.hovered is Some,
        stack.find(stack.hovered->0) is Some,
    ensures
        ({
            let id = stack.find(stack.hovered->0)->0;
            let slot = stack.slots[id];
            let (after, effects) = stack.pointer_event(event, now);
            &&& after.slots[id].anim is Leaving
            &&& !(slot.anim is Leaving) ==> after.slots[id].anim == (AnimState::Leaving {
                start: now,
                reason: REASON_DISMISSED,
            })
            &&& effects.len() == 0 <==> {
                ||| button != BTN_LEFT
                ||| on_close_button(slot.pointer_pos)
                ||| !slot.has_default_action
            }
            &&& effects.len() > 0 ==> effects == seq![
                ActionView::Send(ReplyView::ActionInvoked { id, action: "default"@ }),
            ]
        }),
{
    let id = stack.find(stack.hovered->0)->0;
    assert(stack.shown_on(id, stack.hovered->0));
}

/// Events on a surface that no card uses leave every notification as it is and draw nothing.
pub proof fn law_stray_surface(stack: StackView, event: PointerEvent, now: u64)
    requires
        stack.find(event.surface) is None,
        !(event.kind is Press),
    ensures
        stack.pointer_event(event, now).0.slots == stack.slots,
        stack.pointer_event(event, now).0.order == stack.order,
        stack.pointer_event(event, now).1.len() == 0,
        stack.configure(event.surface) == (stack, Seq::<ActionView>::empty()),
        stack.closed(event.surface, now) == stack,
{
}

/// A notification is changed only by what concerns it: an event on another's surface, a press over
/// another's card, and closing another leave it as it is. None of these moves a card in the stack,
/// except that a silent removal takes one out.
pub proof fn law_others_untouched(stack: StackView, id: u32, event: PointerEvent, now: u64)
    requires
        stack.wf(),
        stack.slots.contains_key(id),
        stack.slots[id].surface != event.surface,
        stack.hovered != Some(stack.slots[id].surface),
    ensures
        stack.pointer_event(event, now).0.slots[id] == stack.slots[id],
        stack.pointer_event(event, now).0.order == stack.order,
        stack.configure(event.surface).0.slots[id] == stack.slots[id],
        stack.configure(event.surface).0.order == stack.order,
        stack.closed(event.surface, now).slots[id] == stack.slots[id],
        stack.closed(event.surface, now).order == stack.order,
        forall|other: u32, reason: u32|
            other != id ==> #[trigger] stack.close(other, reason, now).0.slots[id]
                == stack.slots[id],
        forall|other: u32, reason: u32|
            reason > 0 ==> #[trigger] stack.close(other, reason, now).0.order == stack.order,
{
    if stack.find(event.surface) is Some {
        assert(stack.shown_on(stack.find(event.surface)->0, event.surface));
    }
    if stack.hovered is Some && stack.find(stack.hovered->0) is Some {
        assert(stack.shown_on(stack.find(stack.hovered->0)->0, stack.hovered->0));
    }
}

/// Whether nothing of a notification moves: it is at rest, or its card is not accepted yet.
pub open spec fn still(slot: Slot) -> bool {
    slot.anim is Steady || !slot.configured
}

/// Cards that do not move show no frame and are not finished.
proof fn lemma_still(stack: StackView, now: u64, count: int)
    requires
        stack.wf(),
        0 <= count <= stack.order.len(),
        forall|id: u32| #[trigger] stack.slots.contains_key(id) ==> still(stack.slots[id]),
    ensures
        stack.frames(now, count) == Seq::<ActionView>::empty(),
        stack.finished(now, count) == Seq::<(u32, u32)>::empty(),
    decreases count,
{
    if count > 0 {
        lemma_still(stack, now, count - 1);
        let id = stack.order[count - 1];
        assert(stack.order.contains(id));
        assert(still(stack.slots[id]));
        assert(stack.frames(now, count) =~= Seq::empty());
    }
}

/// A tick while no card moves changes nothing and asks for nothing.
pub proof fn law_idle_tick(stack: StackView, now: u64)
    requires
        stack.wf(),
        forall|id: u32| #[trigger] stack.slots.contains_key(id) ==> still(stack.slots[id]),
    ensures
        stack.tick(now) == (stack, Seq::<ActionView>::empty()),
{
    lemma_still(stack, now, stack.order.len() as int);
    let moved = stack.all_advanced(now);
    assert forall|id: u32| #[trigger] stack.slots.contains_key(id) implies moved.slots[id]
        == stack.slots[id] by {
        assert(still(stack.slots[id]));
    }
    assert(moved.slots =~= stack.slots);
    assert(stack.tick(now).1 =~= Seq::empty());
}

} // verus!
