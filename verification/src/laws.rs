//! What holds of a single endpoint's queues and timers, and of the spin bit.
use vstd::prelude::*;

use crate::endpoint::EndpointState;
use crate::proto::{Address, Call, ConnectionHandle, Datagram, Delivery, Io, Timer, NEVER};

verus! {

/// `arrived` counts the longest run of arrivals at the head of a queue: all of
/// them are due, and the delivery behind them is not.
pub proof fn law_arrived_is_longest_prefix(queue: Seq<Delivery>, now: u64)
    ensures
        0 <= crate::endpoint::arrived(queue, now) <= queue.len(),
        forall|i: int|
            0 <= i < crate::endpoint::arrived(queue, now) ==> (#[trigger] queue[i]).at <= now,
        crate::endpoint::arrived(queue, now) < queue.len() ==> queue[crate::endpoint::arrived(
            queue,
            now,
        )].at > now,
    decreases queue.len(),
{
    if queue.len() > 0 && queue[0].at <= now {
        let rest = queue.skip(1);
        law_arrived_is_longest_prefix(rest, now);
        assert forall|i: int| 0 <= i < crate::endpoint::arrived(queue, now) implies (
        #[trigger] queue[i]).at <= now by {
            if i > 0 {
                assert(rest[i - 1] == queue[i]);
            }
        }
    }
}

/// A timer is reported exactly if its deadline has come and there is a
/// connection for it; each is reported once, in the order of the slots.
pub proof fn law_expired_timers_are_due(endpoint: EndpointState, now: u64)
    ensures
        forall|timer: Timer|
            #[trigger] endpoint.expired(now).contains(timer) <==> endpoint.conn is Some
                && endpoint.timers[timer.slot()] <= now,
        forall|i: int, j: int|
            0 <= i < j < endpoint.expired(now).len() ==> (#[trigger] endpoint.expired(
                now,
            )[i]).slot() < (#[trigger] endpoint.expired(now)[j]).slot(),
{
    if endpoint.conn is Some {
        broadcast use vstd::seq_lib::group_filter_ensures;

        let due = |timer: Timer| endpoint.timers[timer.slot()] <= now;
        lemma_filter_keeps_order(Timer::all(), due);
        assert forall|timer: Timer| due(timer) implies #[trigger] endpoint.expired(now).contains(
            timer,
        ) by {
            assert(Timer::all()[timer.slot()] == timer);
        }
        assert forall|timer: Timer| #[trigger] endpoint.expired(now).contains(timer) implies due(
            timer,
        ) by {}
    }
}

/// An endpoint that has been driven is owed nothing more at that time: no timer
/// expires twice and no delivery is handed over twice.
pub proof fn law_nothing_owed_twice(endpoint: EndpointState, now: u64, remote: Address)
    requires
        endpoint.timers.len() == 4,
        now < NEVER,
    ensures
        endpoint.driven(now).owed(now, remote) == Seq::<Call>::empty(),
{
    let after = endpoint.driven(now);
    let n = crate::endpoint::arrived(endpoint.inbound, now);
    law_arrived_is_longest_prefix(endpoint.inbound, now);
    assert(n < endpoint.inbound.len() ==> after.inbound[0] == endpoint.inbound[n]);
    assert(crate::endpoint::arrived(after.inbound, now) == 0);
    if after.conn is Some {
        let due = |timer: Timer| after.timers[timer.slot()] <= now;
        lemma_filter_none(Timer::all(), due);
    }
    assert(after.expired(now) =~= Seq::<Timer>::empty());
    assert(after.owed(now, remote) =~= Seq::<Call>::empty());
}

/// The wakeup of an endpoint is the earliest of its deadlines and the arrival
/// at the head of its queue.
pub proof fn law_wakeup_is_earliest(endpoint: EndpointState)
    requires
        endpoint.timers.len() == 4,
    ensures
        forall|slot: int| 0 <= slot < 4 ==> endpoint.wakeup() <= #[trigger] endpoint.timers[slot],
        endpoint.inbound.len() > 0 ==> endpoint.wakeup() <= endpoint.inbound[0].at,
        (exists|slot: int|
            0 <= slot < 4 && endpoint.wakeup() == #[trigger] endpoint.timers[slot]) || (
        endpoint.inbound.len() > 0 && endpoint.wakeup() == endpoint.inbound[0].at),
{
    let w = endpoint.wakeup();
    let t = endpoint.timers;
    if endpoint.inbound.len() == 0 || w != endpoint.inbound[0].at {
        let slot: int = if w == t[0] {
            0
        } else if w == t[1] {
            1
        } else if w == t[2] {
            2
        } else {
            3
        };
        assert(w == t[slot]);
    }
}

/// Carrying out an endpoint's requests one after the other is carrying them out
/// all at once.
pub proof fn law_absorbed_in_turn(endpoint: EndpointState, first: Seq<Io>, second: Seq<Io>)
    ensures
        endpoint.absorbed(first).absorbed(second) == endpoint.absorbed(first + second),
{
    let whole = endpoint.absorbed(first + second);
    let parts = endpoint.absorbed(first).absorbed(second);
    lemma_transmits_concat(first, second);
    lemma_connection_concat(first, second, endpoint.conn);
    assert forall|slot: int| 0 <= slot < endpoint.timers.len() implies parts.timers[slot]
        == whole.timers[slot] by {
        lemma_deadline_concat(first, second, slot, endpoint.timers[slot]);
    }
    assert(parts.timers =~= whole.timers);
    assert(parts.outbound =~= whole.outbound);
}

/// What is held back and released again is sent behind what was sent in the
/// meantime, and nothing is left held back.
pub proof fn law_delay_reorders(endpoint: EndpointState, ios: Seq<Io>)
    ensures
        endpoint.held_back().absorbed(ios).released().outbound == crate::endpoint::transmits(ios)
            + endpoint.outbound,
        endpoint.held_back().absorbed(ios).released().delayed.len() == 0,
{
    assert(endpoint.held_back().absorbed(ios).released().outbound =~= crate::endpoint::transmits(
        ios,
    ) + endpoint.outbound);
}

/// Holding back and releasing at once changes nothing.
pub proof fn law_release_undoes_delay(endpoint: EndpointState)
    requires
        endpoint.delayed.len() == 0,
    ensures
        endpoint.held_back().released() == endpoint,
{
    assert(endpoint.held_back().released().outbound =~= endpoint.outbound);
    assert(endpoint.delayed =~= seq![]);
}

/// How the client's packets are batched makes no difference to the count of
/// spin bit flips.
pub proof fn law_flips_add_up(before: bool, first: Seq<Datagram>, second: Seq<Datagram>)
    ensures
        crate::packet::spin_after(before, first + second) == crate::packet::spin_after(
            crate::packet::spin_after(before, first),
            second,
        ),
        crate::packet::flips(before, first + second) == crate::packet::flips(before, first)
            + crate::packet::flips(crate::packet::spin_after(before, first), second),
    decreases second.len(),
{
    if second.len() == 0 {
        assert(first + second =~= first);
    } else {
        law_flips_add_up(before, first, second.drop_last());
        assert((first + second).drop_last() =~= first + second.drop_last());
    }
}

/// The spin bit has changed exactly if it flipped an odd number of times.
pub proof fn law_flips_parity(before: bool, sent: Seq<Datagram>)
    ensures
        (crate::packet::spin_after(before, sent) != before) == (crate::packet::flips(before, sent)
            % 2 == 1),
    decreases sent.len(),
{
    if sent.len() > 0 {
        law_flips_parity(before, sent.drop_last());
    }
}

proof fn lemma_filter_keeps_order(timers: Seq<Timer>, due: spec_fn(Timer) -> bool)
    requires
        forall|i: int, j: int|
            0 <= i < j < timers.len() ==> (#[trigger] timers[i]).slot() < (
            #[trigger] timers[j]).slot(),
    ensures
        forall|i: int, j: int|
            0 <= i < j < timers.filter(due).len() ==> (#[trigger] timers.filter(due)[i]).slot() < (
            #[trigger] timers.filter(due)[j]).slot(),
    decreases timers.len(),
{
    reveal(Seq::filter);
    if timers.len() > 0 {
        let rest = timers.drop_last();
        lemma_filter_keeps_order(rest, due);
        assert forall|i: int| 0 <= i < rest.filter(due).len() implies (#[trigger] rest.filter(
            due,
        )[i]).slot() < timers.last().slot() by {
            rest.lemma_filter_contains_rev(due, rest.filter(due)[i]);
        }
    }
}

proof fn lemma_filter_none(timers: Seq<Timer>, due: spec_fn(Timer) -> bool)
    requires
        forall|i: int| 0 <= i < timers.len() ==> !due(#[trigger] timers[i]),
    ensures
        timers.filter(due) == Seq::<Timer>::empty(),
    decreases timers.len(),
{
    reveal(Seq::filter);
    if timers.len() > 0 {
        lemma_filter_none(timers.drop_last(), due);
    }
    assert(timers.filter(due) =~= Seq::<Timer>::empty());
}

proof fn lemma_transmits_concat(first: Seq<Io>, second: Seq<Io>)
    ensures
        crate::endpoint::transmits(first + second) == crate::endpoint::transmits(first)
            + crate::endpoint::transmits(second),
    decreases second.len(),
{
    if second.len() == 0 {
        assert(first + second =~= first);
    } else {
        lemma_transmits_concat(first, second.drop_last());
        assert((first + second).drop_last() =~= first + second.drop_last());
    }
    assert(crate::endpoint::transmits(first + second) =~= crate::endpoint::transmits(first)
        + crate::endpoint::transmits(second));
}

proof fn lemma_connection_concat(
    first: Seq<Io>,
    second: Seq<Io>,
    before: Option<ConnectionHandle>,
)
    ensures
        crate::endpoint::connection_after(first + second, before)
            == crate::endpoint::connection_after(
            second,
            crate::endpoint::connection_after(first, before),
        ),
    decreases second.len(),
{
    if second.len() == 0 {
        assert(first + second =~= first);
    } else {
        lemma_connection_concat(first, second.drop_last(), before);
        assert((first + second).drop_last() =~= first + second.drop_last());
    }
}

proof fn lemma_deadline_concat(first: Seq<Io>, second: Seq<Io>, slot: int, before: u64)
    ensures
        crate::endpoint::deadline_after(first + second, slot, before)
            == crate::endpoint::deadline_after(
            second,
            slot,
            crate::endpoint::deadline_after(first, slot, before),
        ),
    decreases second.len(),
{
    if second.len() == 0 {
        assert(first + second =~= first);
    } else {
        lemma_deadline_concat(first, second.drop_last(), slot, before);
        assert((first + second).drop_last() =~= first + second.drop_last());
    }
}

} // verus!
