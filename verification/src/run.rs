//! Runs of the simulation, and what holds all along a run.
use vstd::prelude::*;

use crate::endpoint::EndpointState;
use crate::pair::{Action, Event, PairState};
use crate::ports::Ports;
use crate::proto::{Address, Call, Datagram, Delivery, Io, Side, Timer, NEVER};

verus! {

/// One transition of the simulation, taken in a single step or in a run of
/// steps.
pub open spec fn transition(before: PairState, event: Event, after: PairState, action: Action) -> bool {
    &&& event matches Event::Polled(side, None) ==> before.sendable(side)
    &&& crate::pair::stepped(before, event, after, action) || crate::pair::driven(
        before,
        event,
        after,
        action,
    )
}

/// A run: the states that a pair goes through, what it was told in each, and
/// what it asked for.
pub struct Run {
    pub states: Seq<PairState>,
    pub events: Seq<Event>,
    pub actions: Seq<Action>,
}

impl Run {
    /// Each state follows from the one before it.
    pub open spec fn valid(self) -> bool {
        &&& self.states.len() == self.events.len() + 1
        &&& self.actions.len() == self.events.len()
        &&& forall|i: int|
            0 <= i < self.events.len() ==> #[trigger] transition(
                self.states[i],
                self.events[i],
                self.states[i + 1],
                self.actions[i],
            )
    }

    /// The run without its last transition.
    pub open spec fn shorter(self) -> Run {
        Run {
            states: self.states.drop_last(),
            events: self.events.drop_last(),
            actions: self.actions.drop_last(),
        }
    }
}

impl EndpointState {
    /// Timers run only while there is a connection for them.
    pub open spec fn armed(self) -> bool {
        &&& self.timers.len() == 4
        &&& self.conn is None ==> forall|slot: int|
            0 <= slot < 4 ==> #[trigger] self.timers[slot] == NEVER
    }

    /// Deliveries arrive in the order of the queue, none before `from` and
    /// none after `to`.
    pub open spec fn in_order(self, from: int, to: int) -> bool {
        &&& forall|i: int, j: int|
            0 <= i <= j < self.inbound.len() ==> (#[trigger] self.inbound[i]).at <= (
            #[trigger] self.inbound[j]).at
        &&& forall|i: int|
            0 <= i < self.inbound.len() ==> from <= (#[trigger] self.inbound[i]).at <= to
    }
}

impl PairState {
    /// What holds of a pair at all times.
    pub open spec fn consistent(self) -> bool {
        &&& self.client.armed()
        &&& self.server.armed()
        &&& self.client.in_order(self.time as int, self.time + self.latency)
        &&& self.server.in_order(self.time as int, self.time + self.latency)
        &&& self.last_spin == (self.spins % 2 == 1)
    }
}

/// A new pair is consistent and idle.
pub proof fn law_new_pair_is_idle(server_port: u16, client_port: u16, mirrored: bool)
    ensures
        PairState::at_rest(server_port, client_port, mirrored).consistent(),
        PairState::at_rest(server_port, client_port, mirrored).idle(),
{
}

/// Pairs made on later ports share no address with those made before.
pub proof fn law_pairs_have_their_own_ports(first: Ports, second: Ports, mirrored: bool)
    requires
        first.server.next < second.server.next,
        first.client.next < second.client.next,
    ensures
        ({
            let one = PairState::at_rest(first.server.next, first.client.next, mirrored);
            let other = PairState::at_rest(second.server.next, second.client.next, mirrored);
            &&& one.server.addr != other.server.addr
            &&& one.client.addr != other.client.addr
        }),
{
}

/// Driving an endpoint leaves its timers armed and its queue in order.
proof fn lemma_driven_keeps(endpoint: EndpointState, now: u64, to: int)
    requires
        endpoint.armed(),
        endpoint.in_order(now as int, to),
    ensures
        endpoint.driven(now).armed(),
        endpoint.driven(now).in_order(now as int, to),
{
    crate::laws::law_arrived_is_longest_prefix(endpoint.inbound, now);
    let n = crate::endpoint::arrived(endpoint.inbound, now);
    assert forall|i: int| 0 <= i < endpoint.driven(now).inbound.len() implies (
    #[trigger] endpoint.driven(now).inbound[i]) == endpoint.inbound[n + i] by {}
}

/// Carrying out a request of one side keeps a pair consistent.
pub proof fn law_absorbing_keeps_consistent(pair: PairState, side: Side, io: Io)
    requires
        pair.consistent(),
    ensures
        pair.absorbed(side, seq![io]).consistent(),
{
    assert(seq![io].drop_last() =~= seq![]);
    reveal_with_fuel(crate::endpoint::deadline_after, 2);
    reveal_with_fuel(crate::endpoint::connection_after, 2);
    assert(pair.endpoint(side).absorbed(seq![io]).armed());
}

/// Taking out the calls owed to one side keeps a pair consistent.
pub proof fn law_driving_keeps_consistent(pair: PairState, side: Side)
    requires
        pair.consistent(),
    ensures
        pair.driven(side).consistent(),
{
    lemma_driven_keeps(pair.endpoint(side), pair.time, pair.time + pair.latency);
}

/// Putting on the link what one side has sent keeps a pair consistent.
pub proof fn law_sending_keeps_consistent(pair: PairState, side: Side)
    requires
        pair.consistent(),
        pair.sendable(side),
    ensures
        pair.sent(side).consistent(),
{
    let after = pair.sent(side);
    let queue = pair.endpoint(side.peer()).inbound;
    let sent = pair.endpoint(side).outbound;
    let at = (pair.time + pair.latency) as u64;
    let new = crate::pair::under_way(sent, at);
    assert(after.endpoint(side.peer()).inbound == queue + new);
    assert forall|i: int| 0 <= i < new.len() implies (#[trigger] new[i]).at == pair.time
        + pair.latency by {}
    assert(after.endpoint(side).inbound == pair.endpoint(side).inbound);
    if side == Side::Client {
        crate::laws::law_flips_parity(pair.last_spin, sent);
    }
}

/// Moving the clock on keeps a pair consistent.
pub proof fn law_advancing_keeps_consistent(pair: PairState)
    requires
        pair.consistent(),
    ensures
        pair.advanced().consistent(),
{
    crate::laws::law_wakeup_is_earliest(pair.client);
    crate::laws::law_wakeup_is_earliest(pair.server);
}

/// Every transition keeps a pair consistent: timers run only for a connection,
/// deliveries queue up in the order of their arrival, none is overdue, none is
/// further away than the latency, and the last spin bit tells whether the number
/// of flips is odd.
pub proof fn law_transition_keeps_consistent(
    before: PairState,
    event: Event,
    after: PairState,
    action: Action,
)
    requires
        before.consistent(),
        transition(before, event, after, action),
    ensures
        after.consistent(),
{
    match event {
        Event::Begin => law_driving_keeps_consistent(before, Side::Client),
        Event::Polled(side, Some(io)) => law_absorbing_keeps_consistent(before, side, io),
        Event::Polled(Side::Client, None) => {
            law_sending_keeps_consistent(before, Side::Client);
            law_driving_keeps_consistent(before.client_sent(), Side::Server);
        },
        Event::Polled(Side::Server, None) => {
            law_sending_keeps_consistent(before, Side::Server);
            law_advancing_keeps_consistent(before.server_sent());
            law_driving_keeps_consistent(before.server_sent().advanced(), Side::Client);
        },
    }
}

/// Holding back and releasing what an endpoint sends keeps a pair consistent.
pub proof fn law_delay_keeps_consistent(pair: PairState)
    requires
        pair.consistent(),
    ensures
        (PairState { client: pair.client.held_back(), ..pair }).consistent(),
        (PairState { client: pair.client.released(), ..pair }).consistent(),
        (PairState { server: pair.server.held_back(), ..pair }).consistent(),
        (PairState { server: pair.server.released(), ..pair }).consistent(),
{
}

/// A pair stays consistent all along a run.
pub proof fn law_run_keeps_consistent(run: Run)
    requires
        run.valid(),
        run.states[0].consistent(),
    ensures
        forall|i: int| 0 <= i < run.states.len() ==> (#[trigger] run.states[i]).consistent(),
    decreases run.events.len(),
{
    if run.events.len() > 0 {
        let rest = run.shorter();
        let n = rest.events.len() as int;
        assert forall|i: int| 0 <= i < n implies #[trigger] transition(
            rest.states[i],
            rest.events[i],
            rest.states[i + 1],
            rest.actions[i],
        ) by {
            assert(transition(run.states[i], run.events[i], run.states[i + 1], run.actions[i]));
        }
        law_run_keeps_consistent(rest);
        assert(transition(run.states[n], run.events[n], run.states[n + 1], run.actions[n]));
        assert(rest.states[n].consistent());
        law_transition_keeps_consistent(
            run.states[n],
            run.events[n],
            run.states[n + 1],
            run.actions[n],
        );
        assert forall|i: int| 0 <= i < run.states.len() implies (
        #[trigger] run.states[i]).consistent() by {
            if i <= n {
                assert(rest.states[i].consistent());
            }
        }
    }
}

/// A transition changes neither the latency nor who the endpoints are, and the
/// clock never goes back.
pub proof fn law_time_never_goes_back(
    before: PairState,
    event: Event,
    after: PairState,
    action: Action,
)
    requires
        transition(before, event, after, action),
    ensures
        after.time >= before.time,
        after.latency == before.latency,
        after.client.addr == before.client.addr,
        after.server.addr == before.server.addr,
        after.spins >= before.spins,
{
}

/// The clock never reaches the end of time: it only moves on to something that
/// does happen.
pub proof fn law_time_stays_finite(
    before: PairState,
    event: Event,
    after: PairState,
    action: Action,
)
    requires
        before.time < NEVER,
        before.client.timers.len() == 4,
        before.server.timers.len() == 4,
        transition(before, event, after, action),
    ensures
        after.time < NEVER,
{
    crate::laws::law_wakeup_is_earliest(before.server_sent().client);
    crate::laws::law_wakeup_is_earliest(before.server_sent().server);
}

/// Deliveries are handed over at the very time at which they arrive, and none
/// that has arrived is left behind.
pub proof fn law_delivered_on_time(pair: PairState, side: Side)
    requires
        pair.consistent(),
    ensures
        ({
            let queue = pair.endpoint(side).inbound;
            let n = crate::endpoint::arrived(queue, pair.time);
            &&& forall|i: int| 0 <= i < n ==> (#[trigger] queue[i]).at == pair.time
            &&& forall|i: int| n <= i < queue.len() ==> (#[trigger] queue[i]).at > pair.time
        }),
{
    crate::laws::law_arrived_is_longest_prefix(pair.endpoint(side).inbound, pair.time);
}

/// What one side sends is not handed over to the other before the latency has
/// passed.
pub proof fn law_latency_passes_first(pair: PairState, from: Side, now: u64)
    requires
        pair.sendable(from),
        now < pair.time + pair.latency,
    ensures
        crate::endpoint::arrived(pair.sent(from).endpoint(from.peer()).inbound, now)
            <= pair.endpoint(from.peer()).inbound.len(),
{
    let before = pair.endpoint(from.peer()).inbound;
    let after = pair.sent(from).endpoint(from.peer()).inbound;
    crate::laws::law_arrived_is_longest_prefix(after, now);
    if after.len() > before.len() {
        assert(after[before.len() as int].at == pair.time + pair.latency);
    }
}

/// A pair is idle exactly if no timer runs out before the idle timer of its
/// endpoint and no datagram arrives before that either.
pub proof fn law_idle_waits_for_idle_timers(pair: PairState)
    requires
        pair.consistent(),
    ensures
        pair.idle() <==> forall|side: Side|
            #![trigger pair.endpoint(side)]
            {
                let endpoint = pair.endpoint(side);
                let idle = endpoint.timers[Timer::Idle.slot()];
                &&& forall|slot: int| 0 <= slot < 4 ==> idle <= #[trigger] endpoint.timers[slot]
                &&& forall|i: int|
                    0 <= i < endpoint.inbound.len() ==> idle <= (#[trigger] endpoint.inbound[i]).at
            },
{
    lemma_endpoint_idle(pair.client);
    lemma_endpoint_idle(pair.server);
    assert(pair.endpoint(Side::Client) == pair.client);
    assert(pair.endpoint(Side::Server) == pair.server);
}

proof fn lemma_endpoint_idle(endpoint: EndpointState)
    requires
        endpoint.timers.len() == 4,
        forall|i: int, j: int|
            0 <= i <= j < endpoint.inbound.len() ==> (#[trigger] endpoint.inbound[i]).at <= (
            #[trigger] endpoint.inbound[j]).at,
    ensures
        endpoint.wakeup() == endpoint.timers[1] <==> {
            &&& forall|slot: int|
                0 <= slot < 4 ==> endpoint.timers[1] <= #[trigger] endpoint.timers[slot]
            &&& forall|i: int|
                0 <= i < endpoint.inbound.len() ==> endpoint.timers[1] <= (
                #[trigger] endpoint.inbound[i]).at
        },
{
    crate::laws::law_wakeup_is_earliest(endpoint);
}

proof fn lemma_wakeup_is_owed(endpoint: EndpointState, now: u64, remote: Address)
    requires
        endpoint.armed(),
        endpoint.wakeup() <= now,
        endpoint.wakeup() < NEVER,
    ensures
        endpoint.owed(now, remote).len() > 0,
{
    crate::laws::law_wakeup_is_earliest(endpoint);
    crate::laws::law_arrived_is_longest_prefix(endpoint.inbound, now);
    if endpoint.inbound.len() > 0 && endpoint.wakeup() == endpoint.inbound[0].at {
        crate::laws::law_arrived_is_longest_prefix(endpoint.inbound.skip(1), now);
        assert(crate::endpoint::arrived(endpoint.inbound, now) > 0);
    } else {
        let slot = choose|slot: int|
            0 <= slot < 4 && endpoint.wakeup() == #[trigger] endpoint.timers[slot];
        let due = |timer: Timer| endpoint.timers[timer.slot()] <= now;
        let timer = Timer::all()[slot];
        assert(timer.slot() == slot);
        assert(due(timer));
        broadcast use vstd::seq_lib::group_filter_ensures;

        assert(Timer::all().filter(due).contains(Timer::all()[slot]));
    }
}

/// While a pair is not idle it has something to do: once the clock has moved on,
/// one of its endpoints is owed a call.
pub proof fn law_busy_pair_has_work(pair: PairState)
    requires
        pair.consistent(),
        !pair.idle(),
    ensures
        pair.advanced().owed(Side::Client).len() > 0 || pair.advanced().owed(Side::Server).len()
            > 0,
{
    let after = pair.advanced();
    crate::laws::law_wakeup_is_earliest(pair.client);
    crate::laws::law_wakeup_is_earliest(pair.server);
    if pair.client.wakeup() <= pair.server.wakeup() {
        lemma_wakeup_is_owed(after.client, after.time, after.server.addr);
    } else {
        lemma_wakeup_is_owed(after.server, after.time, after.client.addr);
    }
}

/// The datagrams of a queue, in order.
pub open spec fn datagrams(queue: Seq<Delivery>) -> Seq<Datagram> {
    queue.map_values(|d: Delivery| (Datagram { ecn: d.ecn, packet: d.packet }))
}

/// The datagrams that `calls` hand to an endpoint, in order.
pub open spec fn handed(calls: Seq<Call>) -> Seq<Datagram>
    decreases calls.len(),
{
    if calls.len() == 0 {
        seq![]
    } else {
        match calls.last() {
            Call::Handle { ecn, packet, .. } => handed(calls.drop_last()).push(
                (Datagram { ecn, packet }),
            ),
            Call::Timeout { .. } => handed(calls.drop_last()),
        }
    }
}

/// The datagrams that `action` hands to the endpoint on one side.
pub open spec fn handed_to(side: Side, action: Action) -> Seq<Datagram> {
    match action {
        Action::Drive { side: driven, calls, .. } => if driven == side {
            handed(calls@)
        } else {
            seq![]
        },
        _ => seq![],
    }
}

/// The datagram that `event` has the endpoint on one side transmit, if any.
pub open spec fn transmitted_by(side: Side, event: Event) -> Seq<Datagram> {
    match event {
        Event::Polled(polled, Some(io)) => if polled == side {
            crate::endpoint::transmits(seq![io])
        } else {
            seq![]
        },
        _ => seq![],
    }
}

impl PairState {
    /// The datagrams that one side has transmitted and the other has not been
    /// handed, the oldest first.
    pub open spec fn in_transit(self, from: Side) -> Seq<Datagram> {
        datagrams(self.endpoint(from.peer()).inbound) + self.endpoint(from).outbound
    }
}

impl Run {
    /// Everything that the endpoint on one side was handed in the run.
    pub open spec fn handed_to(self, side: Side) -> Seq<Datagram>
        decreases self.events.len(),
    {
        if self.events.len() == 0 {
            seq![]
        } else {
            self.shorter().handed_to(side) + handed_to(side, self.actions.last())
        }
    }

    /// Everything that the endpoint on one side transmitted in the run.
    pub open spec fn transmitted_by(self, side: Side) -> Seq<Datagram>
        decreases self.events.len(),
    {
        if self.events.len() == 0 {
            seq![]
        } else {
            self.shorter().transmitted_by(side) + transmitted_by(side, self.events.last())
        }
    }
}

proof fn lemma_handed_concat(first: Seq<Call>, second: Seq<Call>)
    ensures
        handed(first + second) == handed(first) + handed(second),
    decreases second.len(),
{
    if second.len() == 0 {
        assert(first + second =~= first);
    } else {
        lemma_handed_concat(first, second.drop_last());
        assert((first + second).drop_last() =~= first + second.drop_last());
    }
    assert(handed(first + second) =~= handed(first) + handed(second));
}

proof fn lemma_handed_timeouts(calls: Seq<Call>)
    requires
        forall|i: int| 0 <= i < calls.len() ==> (#[trigger] calls[i]) is Timeout,
    ensures
        handed(calls) == Seq::<Datagram>::empty(),
    decreases calls.len(),
{
    if calls.len() > 0 {
        assert(calls.last() is Timeout);
        lemma_handed_timeouts(calls.drop_last());
    }
}

proof fn lemma_handed_deliveries(queue: Seq<Delivery>, calls: Seq<Call>)
    requires
        calls.len() == queue.len(),
        forall|i: int|
            0 <= i < calls.len() ==> ((#[trigger] calls[i]) matches Call::Handle {
                ecn,
                packet,
                ..
            } && ecn == queue[i].ecn && packet == queue[i].packet),
    ensures
        handed(calls) == datagrams(queue),
    decreases calls.len(),
{
    if calls.len() > 0 {
        lemma_handed_deliveries(queue.drop_last(), calls.drop_last());
        assert(calls.last() is Handle);
    }
    assert(handed(calls) =~= datagrams(queue));
}

proof fn lemma_handed_owed(endpoint: EndpointState, now: u64, remote: Address)
    ensures
        handed(endpoint.owed(now, remote)) + datagrams(endpoint.driven(now).inbound) == datagrams(
            endpoint.inbound,
        ),
{
    let conn = endpoint.conn->0;
    let n = crate::endpoint::arrived(endpoint.inbound, now);
    let timeouts = endpoint.expired(now).map_values(
        |timer: Timer| (Call::Timeout { now, conn, timer }),
    );
    let handles = endpoint.inbound.take(n).map_values(
        |d: Delivery| (Call::Handle { now, remote, ecn: d.ecn, packet: d.packet }),
    );
    crate::laws::law_arrived_is_longest_prefix(endpoint.inbound, now);
    lemma_handed_concat(timeouts, handles);
    lemma_handed_timeouts(timeouts);
    lemma_handed_deliveries(endpoint.inbound.take(n), handles);
    assert(handed(endpoint.owed(now, remote)) + datagrams(endpoint.driven(now).inbound)
        =~= datagrams(endpoint.inbound));
}

proof fn lemma_sent_in_transit(pair: PairState, from: Side, side: Side)
    ensures
        pair.sent(side).in_transit(from) == pair.in_transit(from),
{
    assert(pair.sent(side).in_transit(from) =~= pair.in_transit(from));
}

proof fn lemma_driven_in_transit(pair: PairState, from: Side, side: Side, action: Action)
    requires
        action.drives(side, pair),
    ensures
        handed_to(from.peer(), action) + pair.driven(side).in_transit(from) == pair.in_transit(from),
{
    if side == from.peer() {
        lemma_handed_owed(pair.endpoint(side), pair.time, pair.endpoint(from).addr);
    }
    assert(handed_to(from.peer(), action) + pair.driven(side).in_transit(from)
        =~= pair.in_transit(from));
}

/// The link neither loses, invents, alters nor reorders datagrams: in every
/// transition, what one side is handed and what is then in transit to it is what
/// was in transit to it and what its peer transmits.
pub proof fn law_link_is_faithful(
    before: PairState,
    event: Event,
    after: PairState,
    action: Action,
    from: Side,
)
    requires
        transition(before, event, after, action),
    ensures
        handed_to(from.peer(), action) + after.in_transit(from) == before.in_transit(from)
            + transmitted_by(from, event),
{
    match event {
        Event::Begin => lemma_driven_in_transit(before, from, Side::Client, action),
        Event::Polled(..) => {},
    }
    match event {
        Event::Polled(Side::Client, None) => {
            lemma_sent_in_transit(before, from, Side::Client);
            lemma_driven_in_transit(before.client_sent(), from, Side::Server, action);
        },
        Event::Polled(Side::Server, None) => {
            let sent = before.server_sent();
            lemma_sent_in_transit(before, from, Side::Server);
            assert(sent.advanced().in_transit(from) == sent.in_transit(from));
            if action is Drive {
                lemma_driven_in_transit(sent.advanced(), from, Side::Client, action);
            }
        },
        _ => {},
    }
    assert(handed_to(from.peer(), action) + after.in_transit(from) =~= before.in_transit(from)
        + transmitted_by(from, event));
}

/// Over a whole run, what one side was handed and what is in transit to it at
/// the end is what was in transit to it at the beginning and then all that its
/// peer transmitted, in order.
pub proof fn law_run_is_faithful(run: Run, from: Side)
    requires
        run.valid(),
    ensures
        run.handed_to(from.peer()) + run.states.last().in_transit(from)
            == run.states[0].in_transit(from) + run.transmitted_by(from),
    decreases run.events.len(),
{
    if run.events.len() > 0 {
        let rest = run.shorter();
        let n = rest.events.len() as int;
        assert forall|i: int| 0 <= i < n implies #[trigger] transition(
            rest.states[i],
            rest.events[i],
            rest.states[i + 1],
            rest.actions[i],
        ) by {
            assert(transition(run.states[i], run.events[i], run.states[i + 1], run.actions[i]));
        }
        law_run_is_faithful(rest, from);
        assert(transition(run.states[n], run.events[n], run.states[n + 1], run.actions[n]));
        law_link_is_faithful(
            run.states[n],
            run.events[n],
            run.states[n + 1],
            run.actions[n],
            from,
        );
        let last = run.states[n].in_transit(from);
        assert(run.handed_to(from.peer()) + run.states.last().in_transit(from)
            =~= rest.handed_to(from.peer()) + (last + transmitted_by(from, run.events.last())));
        assert(run.states[0].in_transit(from) + run.transmitted_by(from) =~= (
        rest.handed_to(from.peer()) + last) + transmitted_by(from, run.events.last()));
        assert(run.handed_to(from.peer()) + run.states.last().in_transit(from)
            =~= run.states[0].in_transit(from) + run.transmitted_by(from));
    } else {
        assert(run.handed_to(from.peer()) + run.states.last().in_transit(from)
            =~= run.states[0].in_transit(from) + run.transmitted_by(from));
    }
}

/// A run of steps that comes to its end leaves both connections idle.
pub proof fn law_drive_ends_idle(before: PairState, event: Event, after: PairState, action: Action)
    requires
        crate::pair::driven(before, event, after, action),
        action is Stepped,
    ensures
        after.idle(),
        action matches Action::Stepped { busy, .. } && !busy,
{
}

impl PairState {
    /// The pair once the client has acted and asked for `ios`.
    pub open spec fn client_acted(self, ios: Seq<Io>) -> PairState {
        self.driven(Side::Client).absorbed(Side::Client, ios)
    }

    /// The pair once the server has acted and asked for `ios`.
    pub open spec fn server_acted(self, ios: Seq<Io>) -> PairState {
        self.driven(Side::Server).absorbed(Side::Server, ios)
    }

    /// The pair once both have acted and what they sent is under way.
    pub open spec fn both_acted(self, client: Seq<Io>, server: Seq<Io>) -> PairState {
        self.client_acted(client).client_sent().server_acted(server).server_sent()
    }
}

/// What the simulation is told while the endpoint on one side is polled until it
/// has no more requests.
pub open spec fn polls(side: Side, ios: Seq<Io>) -> Seq<Event> {
    ios.map_values(|io: Io| Event::Polled(side, Some(io))).push(Event::Polled(side, None))
}

/// What the simulation is told in the course of a step in which the endpoints
/// ask for `client` and `server`.
pub open spec fn step_events(client: Seq<Io>, server: Seq<Io>) -> Seq<Event> {
    seq![Event::Begin] + polls(Side::Client, client) + polls(Side::Server, server)
}

proof fn lemma_polls(run: Run, from: int, side: Side, ios: Seq<Io>, done: int)
    requires
        run.valid(),
        0 <= from,
        from + ios.len() <= run.events.len(),
        0 <= done <= ios.len(),
        forall|i: int|
            0 <= i < ios.len() ==> run.events[from + i] == Event::Polled(
                side,
                Some(#[trigger] ios[i]),
            ),
    ensures
        run.states[from + done] == run.states[from].absorbed(side, ios.take(done)),
    decreases done,
{
    let start = run.states[from];
    if done == 0 {
        assert(ios.take(0) =~= seq![]);
        assert(start.endpoint(side).absorbed(seq![]) =~= start.endpoint(side));
    } else {
        lemma_polls(run, from, side, ios, done - 1);
        let at = from + done - 1;
        let io = ios[done - 1];
        assert(transition(run.states[at], run.events[at], run.states[at + 1], run.actions[at]));
        assert(ios.take(done) =~= ios.take(done - 1) + seq![io]);
        crate::laws::law_absorbed_in_turn(start.endpoint(side), ios.take(done - 1), seq![io]);
    }
}

/// A step lets the client act, puts what it sent on the link, lets the server
/// act, puts what it sent on the link, and moves the clock on. In a run of steps
/// the client of a pair that is not idle then acts again.
pub proof fn law_step(run: Run, client: Seq<Io>, server: Seq<Io>)
    requires
        run.valid(),
        run.events == step_events(client, server),
    ensures
        ({
            let first = run.states[0];
            let acted = first.both_acted(client, server);
            let turn = client.len() as int + 1;
            &&& run.actions[0].drives(Side::Client, first)
            &&& run.actions[turn].drives(Side::Server, first.client_acted(client).client_sent())
            &&& run.actions.last() matches Action::Stepped { busy, .. } ==> {
                &&& busy == !acted.idle()
                &&& run.states.last() == acted.advanced()
            }
            &&& run.actions.last() is Stepped || {
                &&& !acted.idle()
                &&& run.actions.last().drives(Side::Client, acted.advanced())
                &&& run.states.last() == acted.advanced().driven(Side::Client)
            }
        }),
{
    let turn = client.len() as int + 1;
    let end = turn + server.len() as int + 1;
    let events = run.events;
    assert(events.len() == end + 1);
    assert(events[0] == Event::Begin);
    assert(transition(run.states[0], events[0], run.states[1], run.actions[0]));
    assert forall|i: int| 0 <= i < client.len() implies events[1 + i] == Event::Polled(
        Side::Client,
        Some(#[trigger] client[i]),
    ) by {}
    lemma_polls(run, 1, Side::Client, client, client.len() as int);
    assert(client.take(client.len() as int) =~= client);
    assert(events[turn] == Event::Polled(Side::Client, None));
    assert(transition(run.states[turn], events[turn], run.states[turn + 1], run.actions[turn]));
    assert forall|i: int| 0 <= i < server.len() implies events[turn + 1 + i] == Event::Polled(
        Side::Server,
        Some(#[trigger] server[i]),
    ) by {}
    lemma_polls(run, turn + 1, Side::Server, server, server.len() as int);
    assert(server.take(server.len() as int) =~= server);
    assert(events[end] == Event::Polled(Side::Server, None));
    assert(transition(run.states[end], events[end], run.states[end + 1], run.actions[end]));
}

} // verus!
