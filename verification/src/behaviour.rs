//! What each operation does, said of what goes in and what comes out.
use vstd::prelude::*;

use crate::config::{Config, ConfigError, ServerConfig, TrustAnchor};
use crate::endpoint::EndpointState;
use crate::pair::{Action, Event, Mirror, NewPair, PairState, Report};
use crate::ports::Ports;
use crate::proto::{
    Address, Call, ConnectionHandle, Datagram, Delivery, EcnCodepoint, Io, Side, Timer, TimerUpdate,
};
use crate::run::Run;

verus! {

/// `calls` are the calls that an endpoint gets at `now` if its peer is at
/// `remote`, and `after` is what they leave of `before`.
///
/// First come the timers of its connection whose deadline has come, each once
/// and in the order of the slots, and those alone are stopped. Then come the
/// deliveries at the head of the queue, up to the first that has not arrived,
/// and those alone leave the queue. Nothing else changes.
pub open spec fn acts(
    before: EndpointState,
    now: u64,
    remote: Address,
    calls: Seq<Call>,
    after: EndpointState,
) -> bool {
    let handled = before.inbound.len() - after.inbound.len();
    let fired = calls.len() - handled;
    &&& 0 <= handled
    &&& 0 <= fired
    &&& forall|i: int|
        0 <= i < handled ==> {
            &&& (#[trigger] before.inbound[i]).at <= now
            &&& calls[fired + i] == (Call::Handle {
                now,
                remote,
                ecn: before.inbound[i].ecn,
                packet: before.inbound[i].packet,
            })
        }
    &&& handled < before.inbound.len() ==> before.inbound[handled].at > now
    &&& forall|i: int|
        0 <= i < after.inbound.len() ==> #[trigger] after.inbound[i] == before.inbound[handled + i]
    &&& forall|i: int|
        0 <= i < fired ==> {
            &&& #[trigger] calls[i] matches Call::Timeout { now: at, conn, timer }
            &&& at == now
            &&& before.conn == Some(conn)
            &&& before.timers[timer.slot()] <= now
        }
    &&& forall|i: int, j: int|
        0 <= i < j < fired ==> (#[trigger] calls[i])->timer.slot() < (
        #[trigger] calls[j])->timer.slot()
    &&& after.timers.len() == 4
    &&& forall|timer: Timer|
        if before.conn is Some && before.timers[timer.slot()] <= now {
            &&& #[trigger] after.timers[timer.slot()] == u64::MAX
            &&& calls.contains((Call::Timeout { now, conn: before.conn->0, timer }))
        } else {
            &&& after.timers[timer.slot()] == before.timers[timer.slot()]
            &&& forall|conn: ConnectionHandle|
                !#[trigger] calls.contains((Call::Timeout { now, conn, timer }))
        }
    &&& after.side == before.side
    &&& after.addr == before.addr
    &&& after.mirrored == before.mirrored
    &&& after.conn == before.conn
    &&& after.outbound == before.outbound
    &&& after.delayed == before.delayed
}

/// The timers have slots of their own, in the order in which they are declared.
pub proof fn law_timers_have_slots()
    ensures
        Timer::LossDetection.slot() == 0,
        Timer::Idle.slot() == 1,
        Timer::Close.slot() == 2,
        Timer::KeyDiscard.slot() == 3,
        Timer::all().len() == 4,
        forall|timer: Timer| Timer::all()[#[trigger] timer.slot()] == timer,
{
}

/// Driving an endpoint hands out the calls that are owed to it and leaves
/// everything else as it was.
pub proof fn law_drive(endpoint: EndpointState, now: u64, remote: Address)
    requires
        endpoint.timers.len() == 4,
    ensures
        acts(endpoint, now, remote, endpoint.owed(now, remote), endpoint.driven(now)),
{
    let calls = endpoint.owed(now, remote);
    let after = endpoint.driven(now);
    let n = crate::endpoint::arrived(endpoint.inbound, now);
    let expired = endpoint.expired(now);
    crate::laws::law_arrived_is_longest_prefix(endpoint.inbound, now);
    crate::laws::law_expired_timers_are_due(endpoint, now);
    let fired = expired.len() as int;
    assert(calls.len() == fired + n);
    assert forall|i: int| 0 <= i < fired implies #[trigger] calls[i] == (Call::Timeout {
        now,
        conn: endpoint.conn->0,
        timer: expired[i],
    }) by {
        assert(expired.contains(expired[i]));
    }
    assert forall|i: int| 0 <= i < fired implies endpoint.conn is Some && endpoint.timers[(
    #[trigger] expired[i]).slot()] <= now by {
        assert(expired.contains(expired[i]));
    }
    assert forall|timer: Timer|
        if endpoint.conn is Some && endpoint.timers[timer.slot()] <= now {
            &&& #[trigger] after.timers[timer.slot()] == u64::MAX
            &&& calls.contains((Call::Timeout { now, conn: endpoint.conn->0, timer }))
        } else {
            &&& after.timers[timer.slot()] == endpoint.timers[timer.slot()]
            &&& forall|conn: ConnectionHandle|
                !#[trigger] calls.contains((Call::Timeout { now, conn, timer }))
        } by {
        if endpoint.conn is Some && endpoint.timers[timer.slot()] <= now {
            assert(expired.contains(timer));
            let i = choose|i: int| 0 <= i < expired.len() && expired[i] == timer;
            assert(calls[i] == (Call::Timeout { now, conn: endpoint.conn->0, timer }));
        } else {
            assert forall|conn: ConnectionHandle|
                !#[trigger] calls.contains((Call::Timeout { now, conn, timer })) by {
                if calls.contains((Call::Timeout { now, conn, timer })) {
                    let i = choose|i: int|
                        0 <= i < calls.len() && calls[i] == (Call::Timeout { now, conn, timer });
                    if i < fired {
                        assert(expired[i] == timer);
                        assert(expired.contains(timer));
                    } else {
                        assert(calls[i] is Handle);
                    }
                }
            }
        }
    }
    assert forall|i: int| 0 <= i < n implies calls[fired + i] == (Call::Handle {
        now,
        remote,
        ecn: (#[trigger] endpoint.inbound[i]).ecn,
        packet: endpoint.inbound[i].packet,
    }) by {}
}

/// Driving an endpoint keeps the timers that have not expired, and a timer is
/// stopped only if it is reported.
pub proof fn law_drive_keeps_running_timers(
    endpoint: EndpointState,
    now: u64,
    remote: Address,
    timer: Timer,
)
    requires
        endpoint.timers.len() == 4,
    ensures
        endpoint.timers[timer.slot()] > now ==> endpoint.driven(now).timers[timer.slot()]
            == endpoint.timers[timer.slot()],
        endpoint.driven(now).timers[timer.slot()] != endpoint.timers[timer.slot()] ==> {
            &&& endpoint.conn is Some
            &&& endpoint.owed(now, remote).contains(
                (Call::Timeout { now, conn: endpoint.conn->0, timer }),
            )
        },
{
    law_drive(endpoint, now, remote);
}

/// `after` is what carrying out `io` makes of `before`.
///
/// A timer update sets the deadline of its timer to the given time, or to none if
/// it stops the timer, whatever the deadline was; the other timers keep theirs,
/// and the connection is the one that the update names. A datagram is queued
/// behind those that wait to be sent. Nothing else changes.
pub open spec fn absorbs(before: EndpointState, io: Io, after: EndpointState) -> bool {
    let n = before.outbound.len() as int;
    &&& match io {
        Io::TimerUpdate { connection, timer, update } => {
            &&& update matches TimerUpdate::Start(time) ==> after.timers[timer.slot()] == time
            &&& update is Stop ==> after.timers[timer.slot()] == u64::MAX
            &&& forall|other: Timer|
                other != timer ==> #[trigger] after.timers[other.slot()]
                    == before.timers[other.slot()]
            &&& after.timers.len() == 4
            &&& after.conn == Some(connection)
            &&& after.outbound == before.outbound
        },
        Io::Transmit { ecn, packet } => {
            &&& after.outbound.len() == n + 1
            &&& after.outbound[n] == (Datagram { ecn, packet })
            &&& forall|i: int|
                0 <= i < n ==> #[trigger] after.outbound[i] == before.outbound[i]
            &&& after.timers == before.timers
            &&& after.conn == before.conn
        },
    }
    &&& after.side == before.side
    &&& after.addr == before.addr
    &&& after.mirrored == before.mirrored
    &&& after.delayed == before.delayed
    &&& after.inbound == before.inbound
}

/// Carrying out a request does what the request says.
pub proof fn law_absorb(endpoint: EndpointState, io: Io)
    requires
        endpoint.timers.len() == 4,
    ensures
        absorbs(endpoint, io, endpoint.absorbed(seq![io])),
{
    match io {
        Io::TimerUpdate { connection, timer, update } => {
            law_absorb_timer_update(endpoint, connection, timer, update);
        },
        Io::Transmit { ecn, packet } => law_absorb_transmit(endpoint, ecn, packet),
    }
}

/// A timer update sets the deadline of its timer to the given time, or to none if
/// it stops the timer, whatever the deadline was; the other timers keep theirs.
/// The endpoint's connection is the one that the update names.
pub proof fn law_absorb_timer_update(
    endpoint: EndpointState,
    connection: ConnectionHandle,
    timer: Timer,
    update: TimerUpdate,
)
    requires
        endpoint.timers.len() == 4,
    ensures
        ({
            let after = endpoint.absorbed(seq![Io::TimerUpdate { connection, timer, update }]);
            &&& update matches TimerUpdate::Start(time) ==> after.timers[timer.slot()] == time
            &&& update is Stop ==> after.timers[timer.slot()] == u64::MAX
            &&& forall|other: Timer|
                other != timer ==> #[trigger] after.timers[other.slot()]
                    == endpoint.timers[other.slot()]
            &&& after.timers.len() == 4
            &&& after.conn == Some(connection)
            &&& after.side == endpoint.side
            &&& after.addr == endpoint.addr
            &&& after.mirrored == endpoint.mirrored
            &&& after.outbound == endpoint.outbound
            &&& after.delayed == endpoint.delayed
            &&& after.inbound == endpoint.inbound
        }),
{
    let ios = seq![Io::TimerUpdate { connection, timer, update }];
    assert(ios.drop_last() =~= seq![]);
    reveal_with_fuel(crate::endpoint::deadline_after, 2);
    reveal_with_fuel(crate::endpoint::connection_after, 2);
    reveal_with_fuel(crate::endpoint::transmits, 2);
    assert(endpoint.absorbed(ios).outbound =~= endpoint.outbound);
}

/// A transmitted datagram is queued behind those that wait to be sent, with its
/// mark and its bytes, and nothing else changes.
pub proof fn law_absorb_transmit(
    endpoint: EndpointState,
    ecn: Option<EcnCodepoint>,
    packet: Vec<u8>,
)
    requires
        endpoint.timers.len() == 4,
    ensures
        ({
            let after = endpoint.absorbed(seq![Io::Transmit { ecn, packet }]);
            let n = endpoint.outbound.len() as int;
            &&& after.outbound.len() == n + 1
            &&& after.outbound[n] == (Datagram { ecn, packet })
            &&& forall|i: int|
                0 <= i < n ==> #[trigger] after.outbound[i] == endpoint.outbound[i]
            &&& after.timers == endpoint.timers
            &&& after.conn == endpoint.conn
            &&& after.side == endpoint.side
            &&& after.addr == endpoint.addr
            &&& after.mirrored == endpoint.mirrored
            &&& after.delayed == endpoint.delayed
            &&& after.inbound == endpoint.inbound
        }),
{
    let ios = seq![Io::Transmit { ecn, packet }];
    assert(ios.drop_last() =~= seq![]);
    reveal_with_fuel(crate::endpoint::deadline_after, 2);
    reveal_with_fuel(crate::endpoint::connection_after, 2);
    reveal_with_fuel(crate::endpoint::transmits, 2);
    assert(endpoint.absorbed(ios).timers =~= endpoint.timers);
}

/// Holding back moves everything that waits to be sent, releasing appends it
/// again, and neither changes anything else.
pub proof fn law_delay(endpoint: EndpointState)
    ensures
        ({
            let held = endpoint.held_back();
            let released = endpoint.released();
            let n = endpoint.outbound.len() as int;
            &&& held.outbound.len() == 0
            &&& held.delayed == endpoint.outbound
            &&& released.delayed.len() == 0
            &&& released.outbound.len() == n + endpoint.delayed.len()
            &&& forall|i: int|
                0 <= i < n ==> #[trigger] released.outbound[i] == endpoint.outbound[i]
            &&& forall|i: int|
                0 <= i < endpoint.delayed.len() ==> released.outbound[n + i]
                    == #[trigger] endpoint.delayed[i]
            &&& held.timers == endpoint.timers && released.timers == endpoint.timers
            &&& held.inbound == endpoint.inbound && released.inbound == endpoint.inbound
            &&& held.conn == endpoint.conn && released.conn == endpoint.conn
            &&& held.side == endpoint.side && released.side == endpoint.side
            &&& held.addr == endpoint.addr && released.addr == endpoint.addr
            &&& held.mirrored == endpoint.mirrored && released.mirrored == endpoint.mirrored
        }),
{
}

/// A new pair is at time zero with no latency and no flip counted; its endpoints
/// are at the loopback address, on their ports, with no connection, no timer
/// running and nothing queued.
pub proof fn law_new_pair(server_port: u16, client_port: u16, mirrored: bool)
    ensures
        ({
            let pair = PairState::at_rest(server_port, client_port, mirrored);
            &&& pair.time == 0 && pair.latency == 0 && pair.spins == 0 && !pair.last_spin
            &&& pair.server.side is Server && pair.client.side is Client
            &&& pair.server.addr == (Address { ip: 1, port: server_port })
            &&& pair.client.addr == (Address { ip: 1, port: client_port })
            &&& forall|side: Side|
                #![trigger pair.endpoint(side)]
                {
                    let endpoint = pair.endpoint(side);
                    &&& endpoint.mirrored == mirrored
                    &&& endpoint.conn is None
                    &&& endpoint.timers.len() == 4
                    &&& forall|timer: Timer| #[trigger] endpoint.timers[timer.slot()] == u64::MAX
                    &&& endpoint.outbound.len() == 0
                    &&& endpoint.delayed.len() == 0
                    &&& endpoint.inbound.len() == 0
                }
        }),
{
}

/// The two sides are each other's peers.
pub proof fn law_sides(pair: PairState)
    ensures
        Side::Client.peer() is Server,
        Side::Server.peer() is Client,
        pair.endpoint(Side::Client) == pair.client,
        pair.endpoint(Side::Server) == pair.server,
{
}

/// Driving the client hands it what is owed to it at the time of the pair, with
/// the server's address as the origin of what has arrived; the rest of the pair
/// is left alone.
pub proof fn law_drive_client(pair: PairState)
    requires
        pair.client.timers.len() == 4,
    ensures
        ({
            let after = pair.driven(Side::Client);
            &&& acts(
                pair.client,
                pair.time,
                pair.server.addr,
                pair.owed(Side::Client),
                after.client,
            )
            &&& after.server == pair.server
            &&& after.time == pair.time && after.latency == pair.latency
            &&& after.spins == pair.spins && after.last_spin == pair.last_spin
        }),
{
    law_drive(pair.client, pair.time, pair.server.addr);
}

/// Driving the server hands it what is owed to it at the time of the pair, with
/// the client's address as the origin of what has arrived; the rest of the pair
/// is left alone.
pub proof fn law_drive_server(pair: PairState)
    requires
        pair.server.timers.len() == 4,
    ensures
        ({
            let after = pair.driven(Side::Server);
            &&& acts(
                pair.server,
                pair.time,
                pair.client.addr,
                pair.owed(Side::Server),
                after.server,
            )
            &&& after.client == pair.client
            &&& after.time == pair.time && after.latency == pair.latency
            &&& after.spins == pair.spins && after.last_spin == pair.last_spin
        }),
{
    law_drive(pair.server, pair.time, pair.client.addr);
}

/// `before` is the head of `after`, and behind it are the datagrams of `sent`,
/// with their marks and bytes, all to arrive at `at`.
pub open spec fn queued(
    before: Seq<Delivery>,
    sent: Seq<Datagram>,
    at: int,
    after: Seq<Delivery>,
) -> bool {
    let n = before.len() as int;
    &&& after.len() == n + sent.len()
    &&& forall|i: int| 0 <= i < n ==> #[trigger] after[i] == before[i]
    &&& forall|i: int|
        0 <= i < sent.len() ==> {
            &&& after[n + i].at == at
            &&& after[n + i].ecn == (#[trigger] sent[i]).ecn
            &&& after[n + i].packet == sent[i].packet
        }
}

/// `after` is `before` with nothing waiting to be sent.
pub open spec fn emptied(before: EndpointState, after: EndpointState) -> bool {
    &&& after.outbound.len() == 0
    &&& after.inbound == before.inbound
    &&& kept(before, after)
}

/// `after` differs from `before` in its queues at most.
pub open spec fn kept(before: EndpointState, after: EndpointState) -> bool {
    &&& after.timers == before.timers
    &&& after.conn == before.conn
    &&& after.side == before.side
    &&& after.addr == before.addr
    &&& after.mirrored == before.mirrored
    &&& after.delayed == before.delayed
}

/// `after` is what putting on the link all that `from` has waiting to be sent
/// makes of `before`, but for the spin bit: it leaves that side and is queued at
/// the other, to arrive one latency later.
pub open spec fn links(before: PairState, from: Side, after: PairState) -> bool {
    &&& from is Client ==> {
        &&& emptied(before.client, after.client)
        &&& queued(
            before.server.inbound,
            before.client.outbound,
            before.time + before.latency,
            after.server.inbound,
        )
        &&& after.server.outbound == before.server.outbound
        &&& kept(before.server, after.server)
    }
    &&& from is Server ==> {
        &&& emptied(before.server, after.server)
        &&& queued(
            before.client.inbound,
            before.server.outbound,
            before.time + before.latency,
            after.client.inbound,
        )
        &&& after.client.outbound == before.client.outbound
        &&& kept(before.client, after.client)
        &&& after.spins == before.spins
        &&& after.last_spin == before.last_spin
    }
    &&& after.time == before.time
    &&& after.latency == before.latency
}

/// What the client sends leaves it and is queued at the server, to arrive one
/// latency later. The spin count is that of [`law_spins_count_flips`].
pub proof fn law_send_client(pair: PairState)
    requires
        pair.sendable(Side::Client),
    ensures
        links(pair, Side::Client, pair.sent(Side::Client)),
        pair.sent(Side::Client) == pair.client_sent(),
{
}

/// What the server sends leaves it and is queued at the client, to arrive one
/// latency later. Its packets do not count for the spin bit.
pub proof fn law_send_server(pair: PairState)
    requires
        pair.sendable(Side::Server),
    ensures
        links(pair, Side::Server, pair.sent(Side::Server)),
        pair.sent(Side::Server) == pair.server_sent(),
{
}

/// Only the first byte of a packet is read. Its header is long exactly if the
/// byte is at least 128, and the spin bit is the one that counts 32.
pub proof fn law_header_bits(packet: Seq<u8>, other: Seq<u8>)
    ensures
        crate::packet::long_header(packet) <==> packet[0] >= 128,
        crate::packet::spin_bit(packet) <==> (packet[0] / 32) % 2 == 1,
        packet[0] == other[0] ==> {
            &&& crate::packet::long_header(packet) == crate::packet::long_header(other)
            &&& crate::packet::spin_bit(packet) == crate::packet::spin_bit(other)
        },
{
    let first: u8 = packet[0];
    assert((first & 0x80 != 0) == (first >= 128)) by (bit_vector);
    assert((first & 0x20 != 0) == ((first / 32) % 2 == 1)) by (bit_vector);
}

/// What one more packet of the client changes: a long header changes nothing, a
/// short header makes its spin bit the last one seen, and adds one to the count
/// if that bit differs from the one seen before. Without packets nothing
/// changes.
pub proof fn law_spins_count_flips(pair: PairState, more: Datagram)
    requires
        ({
            let longer = PairState {
                client: EndpointState {
                    outbound: pair.client.outbound.push(more),
                    ..pair.client
                },
                ..pair
            };
            longer.sendable(Side::Client)
        }),
    ensures
        ({
            let longer = PairState {
                client: EndpointState {
                    outbound: pair.client.outbound.push(more),
                    ..pair.client
                },
                ..pair
            };
            let short = more.packet@[0] < 128;
            let spin = (more.packet@[0] / 32) % 2 == 1;
            let seen = pair.sent(Side::Client);
            let after = longer.sent(Side::Client);
            &&& pair.client.outbound.len() == 0 ==> seen.spins == pair.spins && seen.last_spin
                == pair.last_spin
            &&& !short ==> after.last_spin == seen.last_spin && after.spins == seen.spins
            &&& short ==> after.last_spin == spin
            &&& short && spin == seen.last_spin ==> after.spins == seen.spins
            &&& short && spin != seen.last_spin ==> after.spins == seen.spins + 1
        }),
{
    law_header_bits(more.packet@, more.packet@);
    let sent = pair.client.outbound;
    assert(sent.push(more).drop_last() =~= sent);
    assert(sent.push(more).last() == more);
}

/// The server's datagrams can be sent unless there are some and their arrival is
/// beyond the range of the clock. For the client's, besides, none may be empty
/// and the flip count has to fit, as it does if there is room for a flip with
/// every packet.
pub proof fn law_sendable(pair: PairState)
    ensures
        pair.sendable(Side::Server) <==> pair.server.outbound.len() == 0 || pair.time
            + pair.latency <= u64::MAX,
        pair.sendable(Side::Client) ==> {
            &&& pair.client.outbound.len() == 0 || pair.time + pair.latency <= u64::MAX
            &&& forall|i: int|
                0 <= i < pair.client.outbound.len() ==> (
                #[trigger] pair.client.outbound[i]).packet@.len() > 0
            &&& pair.spins <= pair.sent(Side::Client).spins <= pair.spins
                + pair.client.outbound.len()
        },
        ({
            &&& pair.client.outbound.len() == 0 || pair.time + pair.latency <= u64::MAX
            &&& forall|i: int|
                0 <= i < pair.client.outbound.len() ==> (
                #[trigger] pair.client.outbound[i]).packet@.len() > 0
            &&& pair.spins + pair.client.outbound.len() <= u64::MAX
        }) ==> pair.sendable(Side::Client),
{
    lemma_flips_at_most(pair.last_spin, pair.client.outbound);
}

/// No packet flips the spin bit more than once.
proof fn lemma_flips_at_most(before: bool, sent: Seq<Datagram>)
    ensures
        crate::packet::flips(before, sent) <= sent.len(),
    decreases sent.len(),
{
    if sent.len() > 0 {
        lemma_flips_at_most(before, sent.drop_last());
    }
}

/// One more packet of the client can be sent exactly if the others can, it is
/// not empty, its arrival is within the range of the clock, and there is room for
/// the flip if it flips the spin bit.
pub proof fn law_one_more_sendable(pair: PairState, more: Datagram)
    ensures
        ({
            let longer = PairState {
                client: EndpointState {
                    outbound: pair.client.outbound.push(more),
                    ..pair.client
                },
                ..pair
            };
            let seen = pair.sent(Side::Client);
            let flips = more.packet@[0] < 128 && ((more.packet@[0] / 32) % 2 == 1)
                != seen.last_spin;
            longer.sendable(Side::Client) <==> {
                &&& pair.sendable(Side::Client)
                &&& pair.time + pair.latency <= u64::MAX
                &&& more.packet@.len() > 0
                &&& flips ==> seen.spins < u64::MAX
            }
        }),
{
    law_header_bits(more.packet@, more.packet@);
    let sent = pair.client.outbound;
    let longer = sent.push(more);
    assert(longer.drop_last() =~= sent);
    assert(longer.last() == more);
    assert forall|i: int| 0 <= i < sent.len() implies longer[i] == #[trigger] sent[i] by {}
    assert(longer[sent.len() as int] == more);
}

/// No timer of either side has a deadline before `time`.
pub open spec fn no_deadline_before(pair: PairState, time: u64) -> bool {
    &&& forall|timer: Timer| #[trigger] pair.client.timers[timer.slot()] >= time
    &&& forall|timer: Timer| #[trigger] pair.server.timers[timer.slot()] >= time
}

/// The next delivery of neither side arrives before `time`.
pub open spec fn no_arrival_before(pair: PairState, time: u64) -> bool {
    &&& pair.client.inbound.len() > 0 ==> pair.client.inbound[0].at >= time
    &&& pair.server.inbound.len() > 0 ==> pair.server.inbound[0].at >= time
}

/// A timer of one of the sides runs out by `time`, or its next delivery arrives.
pub open spec fn something_by(pair: PairState, time: u64) -> bool {
    ||| exists|timer: Timer| #[trigger] pair.client.timers[timer.slot()] <= time
    ||| exists|timer: Timer| #[trigger] pair.server.timers[timer.slot()] <= time
    ||| pair.client.inbound.len() > 0 && pair.client.inbound[0].at <= time
    ||| pair.server.inbound.len() > 0 && pair.server.inbound[0].at <= time
}

/// Nothing happens at an endpoint before its idle timer runs out.
pub open spec fn idles(endpoint: EndpointState) -> bool {
    &&& forall|timer: Timer|
        endpoint.timers[1] <= #[trigger] endpoint.timers[timer.slot()]
    &&& endpoint.inbound.len() > 0 ==> endpoint.timers[1] <= endpoint.inbound[0].at
}

/// An endpoint wakes up at the earliest of its deadlines and its next arrival. It
/// idles exactly if that is the deadline of its idle timer.
pub proof fn law_wakeup(endpoint: EndpointState)
    requires
        endpoint.timers.len() == 4,
    ensures
        forall|timer: Timer| endpoint.wakeup() <= #[trigger] endpoint.timers[timer.slot()],
        endpoint.inbound.len() > 0 ==> endpoint.wakeup() <= endpoint.inbound[0].at,
        (exists|timer: Timer| #[trigger] endpoint.timers[timer.slot()] == endpoint.wakeup()) || (
        endpoint.inbound.len() > 0 && endpoint.wakeup() == endpoint.inbound[0].at),
        idles(endpoint) <==> endpoint.wakeup() == endpoint.timers[1],
{
    crate::laws::law_wakeup_is_earliest(endpoint);
    let w = endpoint.wakeup();
    if !(endpoint.inbound.len() > 0 && w == endpoint.inbound[0].at) {
        let slot = choose|slot: int| 0 <= slot < 4 && w == #[trigger] endpoint.timers[slot];
        let timer = Timer::all()[slot];
        assert(timer.slot() == slot);
        assert(endpoint.timers[timer.slot()] == w);
    }
    if w == endpoint.timers[1] {
        assert(idles(endpoint));
    }
    if idles(endpoint) {
        assert(Timer::Idle.slot() == 1);
        assert(endpoint.timers[Timer::Idle.slot()] >= w);
    }
}

/// A pair is idle exactly if nothing happens at either side before its idle timer
/// runs out.
pub proof fn law_idle(pair: PairState)
    requires
        pair.client.timers.len() == 4,
        pair.server.timers.len() == 4,
    ensures
        pair.idle() <==> idles(pair.client) && idles(pair.server),
{
    law_wakeup(pair.client);
    law_wakeup(pair.server);
}

/// `after` is what moving the clock on makes of `before`.
///
/// Unless the pair is idle, the clock goes to the greater of its time and the
/// least of all deadlines and next arrivals of both sides: it moves only to a
/// time at which something happens, past nothing, and it stays only if something
/// is due already. Nothing else changes.
pub open spec fn moves_on(before: PairState, after: PairState) -> bool {
    &&& idles(before.client) && idles(before.server) ==> after.time == before.time
    &&& !(idles(before.client) && idles(before.server)) ==> {
        &&& after.time >= before.time
        &&& something_by(before, after.time)
        &&& after.time > before.time ==> no_deadline_before(before, after.time)
        &&& after.time > before.time ==> no_arrival_before(before, after.time)
    }
    &&& after.client == before.client
    &&& after.server == before.server
    &&& after.latency == before.latency
    &&& after.spins == before.spins
    &&& after.last_spin == before.last_spin
}

/// Moving the clock on takes it to the next thing that happens.
pub proof fn law_advance(pair: PairState)
    requires
        pair.client.timers.len() == 4,
        pair.server.timers.len() == 4,
    ensures
        moves_on(pair, pair.advanced()),
{
    law_wakeup(pair.client);
    law_wakeup(pair.server);
}

/// If no timer was overdue, none is after the clock has moved on.
pub proof fn law_advance_skips_no_timer(pair: PairState)
    requires
        pair.client.timers.len() == 4,
        pair.server.timers.len() == 4,
        no_deadline_before(pair, pair.time),
    ensures
        no_deadline_before(pair, pair.advanced().time),
{
    law_advance(pair);
}

/// `mirror` is to be sent from the socket of `from`, which is `endpoint`, to its
/// peer: all packets that wait to be sent, if the endpoint is mirrored, and none
/// otherwise.
pub open spec fn mirrors(
    mirror: Mirror,
    from: Side,
    endpoint: EndpointState,
    peer: EndpointState,
) -> bool {
    &&& mirror.from == from
    &&& mirror.to == peer.addr
    &&& !endpoint.mirrored ==> mirror.packets@.len() == 0
    &&& endpoint.mirrored ==> {
        &&& mirror.packets@.len() == endpoint.outbound.len()
        &&& forall|i: int|
            0 <= i < endpoint.outbound.len() ==> mirror.packets@[i]@ == (
            #[trigger] endpoint.outbound[i]).packet@
    }
}

/// What is repeated on real sockets is what the endpoint sends to its peer.
pub proof fn law_mirror(mirror: Mirror, from: Side, pair: PairState)
    requires
        mirror.repeats(from, pair),
    ensures
        from is Client ==> mirrors(mirror, from, pair.client, pair.server),
        from is Server ==> mirrors(mirror, from, pair.server, pair.client),
{
    assert forall|i: int| 0 <= i < mirror.packets@.len() implies mirror.packets@[i]@
        == pair.endpoint(from).outbound[i].packet@ by {
        assert(mirror.packets@[i] == mirror.packets@[i]);
    }
}

/// A step begins with the client, which is told what is owed to it; nothing is
/// mirrored.
pub proof fn law_step_begins(before: PairState, after: PairState, action: Action)
    requires
        before.client.timers.len() == 4,
        crate::run::transition(before, Event::Begin, after, action),
    ensures
        action matches Action::Drive { mirror, side, now, drain, calls } && {
            &&& mirror is None
            &&& side is Client
            &&& now == before.time
            &&& drain == before.client.mirrored
            &&& acts(before.client, before.time, before.server.addr, calls@, after.client)
        },
        after.server == before.server,
        after.time == before.time,
        after.latency == before.latency,
        after.spins == before.spins,
        after.last_spin == before.last_spin,
{
    law_drive_client(before);
}

/// A request of one side is carried out there and nowhere else, and the side is
/// polled again.
pub proof fn law_step_polls(
    before: PairState,
    side: Side,
    io: Io,
    after: PairState,
    action: Action,
)
    requires
        crate::run::transition(before, Event::Polled(side, Some(io)), after, action),
    ensures
        action == (Action::Poll { side, now: before.time }),
        side is Client ==> after.client == before.client.absorbed(seq![io]) && after.server
            == before.server,
        side is Server ==> after.server == before.server.absorbed(seq![io]) && after.client
            == before.client,
        after.time == before.time,
        after.latency == before.latency,
        after.spins == before.spins,
        after.last_spin == before.last_spin,
{
}

/// Once the client has no more requests, what it sent is on its way (see
/// [`law_send_client`]), and the server is told what is owed to it, at the same
/// time.
pub proof fn law_client_done(before: PairState, after: PairState, action: Action)
    requires
        before.server.timers.len() == 4,
        crate::run::transition(before, Event::Polled(Side::Client, None), after, action),
    ensures
        ({
            let sent = before.sent(Side::Client);
            &&& action matches Action::Drive { mirror: Some(mirror), side, now, drain, calls }
            &&& mirrors(mirror, Side::Client, before.client, before.server)
            &&& side is Server
            &&& now == before.time
            &&& drain == before.server.mirrored
            &&& acts(sent.server, before.time, before.client.addr, calls@, after.server)
            &&& after.client == sent.client
            &&& after.time == before.time
            &&& after.latency == before.latency
            &&& after.spins == sent.spins
            &&& after.last_spin == sent.last_spin
        }),
{
    let sent = before.sent(Side::Client);
    law_send_client(before);
    law_drive_server(sent);
    if let Action::Drive { mirror: Some(mirror), .. } = action {
        law_mirror(mirror, Side::Client, before);
    }
}

/// Once the server has no more requests, what it sent is on its way (see
/// [`law_send_server`]) and the clock moves on (see [`law_advance`]). The step is
/// over, and says whether the pair is not idle; or, in a run of steps of a pair
/// that is not idle, the client is told what is owed to it at the new time.
pub proof fn law_server_done(before: PairState, after: PairState, action: Action)
    requires
        before.client.timers.len() == 4,
        before.server.timers.len() == 4,
        crate::run::transition(before, Event::Polled(Side::Server, None), after, action),
    ensures
        ({
            let sent = before.sent(Side::Server);
            let idle = idles(sent.client) && idles(sent.server);
            &&& after.time == sent.advanced().time
            &&& after.server == sent.server
            &&& after.latency == before.latency
            &&& after.spins == before.spins && after.last_spin == before.last_spin
            &&& match action {
                Action::Stepped { mirror, busy } => {
                    &&& mirror is Some
                    &&& mirrors(mirror->0, Side::Server, before.server, before.client)
                    &&& busy == !idle
                    &&& after.client == sent.client
                },
                Action::Drive { mirror, side, now, drain, calls } => {
                    &&& mirror is Some
                    &&& mirrors(mirror->0, Side::Server, before.server, before.client)
                    &&& !idle
                    &&& side is Client
                    &&& now == after.time
                    &&& drain == before.client.mirrored
                    &&& acts(sent.client, after.time, before.server.addr, calls@, after.client)
                },
                Action::Poll { .. } => false,
            }
        }),
{
    let sent = before.sent(Side::Server);
    law_send_server(before);
    law_idle(sent);
    law_advance(sent);
    law_drive_client(sent.advanced());
    match action {
        Action::Stepped { mirror: Some(mirror), .. } => law_mirror(mirror, Side::Server, before),
        Action::Drive { mirror: Some(mirror), .. } => law_mirror(mirror, Side::Server, before),
        _ => {},
    }
}

/// In a run of steps the end of a step is reported only if the pair is idle.
pub proof fn law_drive_goes_on_while_busy(before: PairState, after: PairState, action: Action)
    requires
        before.client.timers.len() == 4,
        before.server.timers.len() == 4,
        before.sendable(Side::Server),
        crate::pair::driven(before, Event::Polled(Side::Server, None), after, action),
    ensures
        action is Stepped <==> idles(before.sent(Side::Server).client) && idles(
            before.sent(Side::Server).server,
        ),
{
    law_idle(before.sent(Side::Server));
}

/// A single step always ends when the server has no more requests.
pub proof fn law_step_ends(before: PairState, after: PairState, action: Action)
    requires
        crate::pair::stepped(before, Event::Polled(Side::Server, None), after, action),
    ensures
        action is Stepped,
{
}

/// The timeouts that `action` reports are those of timers whose deadline in
/// `pair` is the time of the report.
pub open spec fn timeouts_on_time(pair: PairState, action: Action) -> bool {
    action matches Action::Drive { side, calls, .. } ==> forall|i: int|
        0 <= i < calls@.len() ==> (#[trigger] calls@[i] matches Call::Timeout { now, timer, .. }
            ==> now == match side {
            Side::Client => pair.client.timers[timer.slot()],
            Side::Server => pair.server.timers[timer.slot()],
        })
}

/// `event` starts no timer in the past.
pub open spec fn starts_ahead(pair: PairState, event: Event) -> bool {
    event matches Event::Polled(_, Some(Io::TimerUpdate { update: TimerUpdate::Start(time), .. }))
        ==> time >= pair.time
}

/// Where an endpoint has no overdue timer, those that it is told of run out at
/// that very time, and the others are not overdue.
proof fn lemma_acts_on_time(
    before: EndpointState,
    now: u64,
    remote: Address,
    calls: Seq<Call>,
    after: EndpointState,
)
    requires
        acts(before, now, remote, calls, after),
        forall|timer: Timer| #[trigger] before.timers[timer.slot()] >= now,
    ensures
        forall|timer: Timer| #[trigger] after.timers[timer.slot()] >= now,
        forall|i: int|
            0 <= i < calls.len() ==> (#[trigger] calls[i] matches Call::Timeout {
                now: at,
                timer,
                ..
            } ==> at == before.timers[timer.slot()]),
{
    let handled = before.inbound.len() - after.inbound.len();
    let fired = calls.len() - handled;
    assert forall|i: int| 0 <= i < calls.len() implies (#[trigger] calls[i] matches Call::Timeout {
        now: at,
        timer,
        ..
    } ==> at == before.timers[timer.slot()]) by {
        if i >= fired {
            assert(before.inbound[i - fired].at <= now);
            assert(calls[fired + (i - fired)] is Handle);
        }
    }
}

/// As long as no timer is started in the past, no timer is ever overdue, and
/// every timeout is reported at the very time at which the timer runs out.
pub proof fn law_timeouts_on_time(
    before: PairState,
    event: Event,
    after: PairState,
    action: Action,
)
    requires
        before.client.timers.len() == 4,
        before.server.timers.len() == 4,
        no_deadline_before(before, before.time),
        starts_ahead(before, event),
        crate::run::transition(before, event, after, action),
    ensures
        after.client.timers.len() == 4,
        after.server.timers.len() == 4,
        no_deadline_before(after, after.time),
        timeouts_on_time(before, action),
{
    match event {
        Event::Begin => {
            law_step_begins(before, after, action);
            let calls = action->calls@;
            lemma_acts_on_time(before.client, before.time, before.server.addr, calls, after.client);
        },
        Event::Polled(side, Some(io)) => {
            law_step_polls(before, side, io, after, action);
            match io {
                Io::TimerUpdate { connection, timer, update } => {
                    let endpoint = before.endpoint(side);
                    law_absorb_timer_update(endpoint, connection, timer, update);
                    let done = endpoint.absorbed(seq![io]);
                    assert forall|other: Timer| #[trigger] done.timers[other.slot()]
                        >= before.time by {
                        if other != timer {
                            assert(endpoint.timers[other.slot()] >= before.time);
                        }
                    }
                },
                Io::Transmit { ecn, packet } => {
                    law_absorb_transmit(before.endpoint(side), ecn, packet);
                },
            }
        },
        Event::Polled(Side::Client, None) => {
            law_client_done(before, after, action);
            law_send_client(before);
            let sent = before.sent(Side::Client);
            let calls = action->calls@;
            lemma_acts_on_time(sent.server, before.time, before.client.addr, calls, after.server);
        },
        Event::Polled(Side::Server, None) => {
            law_server_done(before, after, action);
            law_send_server(before);
            let sent = before.sent(Side::Server);
            assert(no_deadline_before(sent, sent.time));
            law_advance_skips_no_timer(sent);
            if action is Drive {
                let calls = action->calls@;
                lemma_acts_on_time(
                    sent.client,
                    after.time,
                    before.server.addr,
                    calls,
                    after.client,
                );
            }
        },
    }
}

/// All along a run that starts with no overdue timer and starts no timer in the
/// past, every timeout is reported at the very time at which the timer runs out.
pub proof fn law_run_timeouts_on_time(run: Run)
    requires
        run.valid(),
        run.states[0].client.timers.len() == 4,
        run.states[0].server.timers.len() == 4,
        no_deadline_before(run.states[0], run.states[0].time),
        forall|i: int|
            0 <= i < run.events.len() ==> starts_ahead(run.states[i], #[trigger] run.events[i]),
    ensures
        forall|i: int|
            0 <= i < run.actions.len() ==> timeouts_on_time(
                run.states[i],
                #[trigger] run.actions[i],
            ),
{
    assert forall|i: int| 0 <= i < run.actions.len() implies timeouts_on_time(
        run.states[i],
        #[trigger] run.actions[i],
    ) by {
        lemma_run_never_overdue(run, i);
        assert(crate::run::transition(
            run.states[i],
            run.events[i],
            run.states[i + 1],
            run.actions[i],
        ));
        law_timeouts_on_time(run.states[i], run.events[i], run.states[i + 1], run.actions[i]);
    }
}

/// No timer is overdue in any state of such a run.
proof fn lemma_run_never_overdue(run: Run, at: int)
    requires
        run.valid(),
        0 <= at < run.states.len(),
        run.states[0].client.timers.len() == 4,
        run.states[0].server.timers.len() == 4,
        no_deadline_before(run.states[0], run.states[0].time),
        forall|i: int|
            0 <= i < run.events.len() ==> starts_ahead(run.states[i], #[trigger] run.events[i]),
    ensures
        run.states[at].client.timers.len() == 4,
        run.states[at].server.timers.len() == 4,
        no_deadline_before(run.states[at], run.states[at].time),
    decreases at,
{
    if at > 0 {
        lemma_run_never_overdue(run, at - 1);
        let before = run.states[at - 1];
        let event = run.events[at - 1];
        let action = run.actions[at - 1];
        assert(crate::run::transition(before, event, run.states[at - 1 + 1], action));
        law_timeouts_on_time(before, event, run.states[at], action);
    }
}

/// `version`, as four bytes with the most significant first, stands in `bytes`
/// at a whole number of versions behind `from`.
pub open spec fn lists_version(bytes: Seq<u8>, from: int, version: u32) -> bool {
    exists|i: int|
        0 <= i && from + 4 * i + 4 <= bytes.len() && version == #[trigger] spelled(
            bytes,
            from + 4 * i,
        )
}

/// The number that the four bytes at `at` spell, the most significant first.
pub open spec fn spelled(bytes: Seq<u8>, at: int) -> int {
    ((bytes[at] * 256 + bytes[at + 1]) * 256 + bytes[at + 2]) * 256 + bytes[at + 3]
}

/// A version is offered exactly if it stands in the list.
pub proof fn law_offered(list: Seq<u8>, version: u32)
    ensures
        crate::packet::offered(list, version) <==> lists_version(list, 0, version),
{
    assert forall|i: int| 0 <= i && 4 * i + 4 <= list.len() implies crate::packet::version_at(list, i)
        == #[trigger] spelled(list, 0 + 4 * i) by {}
    if crate::packet::offered(list, version) {
        let i = choose|i: int|
            0 <= i && 4 * i + 4 <= list.len() && #[trigger] crate::packet::version_at(list, i)
                == version;
        assert(version == spelled(list, 0 + 4 * i));
    }
    if lists_version(list, 0, version) {
        let i = choose|i: int|
            0 <= i && 0 + 4 * i + 4 <= list.len() && version == #[trigger] spelled(list, 0 + 4 * i);
        assert(crate::packet::version_at(list, i) == version);
    }
}

/// A packet answers a negotiation exactly if its first byte marks a long header,
/// the bytes behind it are those of `header`, and the version is in the list that
/// follows.
pub proof fn law_negotiation(packet: Seq<u8>, header: Seq<u8>, version: u32)
    ensures
        crate::packet::negotiation(packet, header, version) <==> {
            &&& packet.len() > header.len()
            &&& packet[0] >= 128
            &&& forall|i: int| 0 <= i < header.len() ==> packet[i + 1] == #[trigger] header[i]
            &&& lists_version(packet, header.len() as int + 1, version)
        },
{
    let n = header.len() as int + 1;
    law_header_bits(packet, packet);
    if packet.len() > header.len() {
        let list = packet.skip(n);
        law_offered(list, version);
        assert forall|i: int| 0 <= i && n + 4 * i + 4 <= packet.len() implies #[trigger] spelled(
            packet,
            n + 4 * i,
        ) == spelled(list, 0 + 4 * i) by {}
        if lists_version(list, 0, version) {
            let i = choose|i: int|
                0 <= i && 0 + 4 * i + 4 <= list.len() && version == #[trigger] spelled(
                    list,
                    0 + 4 * i,
                );
            assert(version == spelled(packet, n + 4 * i));
        }
        if lists_version(packet, n, version) {
            let i = choose|i: int|
                0 <= i && n + 4 * i + 4 <= packet.len() && version == #[trigger] spelled(
                    packet,
                    n + 4 * i,
                );
            assert(version == spelled(list, 0 + 4 * i));
        }
        let middle = packet.subrange(1, n);
        if middle == header {
            assert forall|i: int| 0 <= i < header.len() implies packet[i + 1]
                == #[trigger] header[i] by {
                assert(middle[i] == packet[i + 1]);
            }
        }
        if forall|i: int| 0 <= i < header.len() ==> packet[i + 1] == #[trigger] header[i] {
            assert(middle =~= header);
        }
    }
}

/// The text of a field is a comma, a blank, the key, a colon, a blank and the
/// value, each in its place.
pub proof fn law_field(key: Seq<char>, value: Seq<char>)
    ensures
        ({
            let text = crate::log::field(key, value);
            let k = key.len() as int;
            &&& text.len() == k + value.len() + 4
            &&& text[0] == ',' && text[1] == ' '
            &&& forall|i: int| 0 <= i < k ==> text[2 + i] == #[trigger] key[i]
            &&& text[2 + k] == ':' && text[3 + k] == ' '
            &&& forall|i: int| 0 <= i < value.len() ==> text[4 + k + i] == #[trigger] value[i]
        }),
{
}

/// A line is the level, a blank, the message and the fields, each in its place;
/// a further field is appended to the line.
pub proof fn law_line(level: Seq<char>, message: Seq<char>, fields: Seq<char>, more: Seq<char>)
    ensures
        ({
            let line = crate::log::line(level, message, fields);
            let l = level.len() as int;
            let m = message.len() as int;
            &&& line.len() == l + 1 + m + fields.len()
            &&& forall|i: int| 0 <= i < l ==> line[i] == #[trigger] level[i]
            &&& line[l] == ' '
            &&& forall|i: int| 0 <= i < m ==> line[l + 1 + i] == #[trigger] message[i]
            &&& forall|i: int| 0 <= i < fields.len() ==> line[l + 1 + m + i] == #[trigger] fields[i]
            &&& crate::log::line(level, message, fields + more) == line + more
        }),
{
    assert(crate::log::line(level, message, fields + more) =~= crate::log::line(
        level,
        message,
        fields,
    ) + more);
}

/// Connecting succeeds exactly if the server has accepted a connection and the
/// client's first report is that its own is established, and gives both handles.
/// A server that has accepted nothing is reported first.
pub proof fn law_connect(
    client_conn: ConnectionHandle,
    accepted: Option<ConnectionHandle>,
    reported: Option<(ConnectionHandle, Report)>,
)
    ensures
        ({
            let conns = crate::pair::connection(client_conn, accepted, reported);
            let established = reported matches Some((conn, report)) && conn == client_conn
                && report is Connected;
            &&& conns is Ok <==> accepted is Some && established
            &&& conns matches Ok((client, server)) ==> client == client_conn && accepted == Some(
                server,
            )
            &&& conns matches Err(error) ==> (error is NotAccepted <==> accepted is None)
        }),
{
}

/// The bytes of a list determine and are determined by the bytes of its items.
pub proof fn law_contents(first: Seq<Vec<u8>>, second: Seq<Vec<u8>>)
    ensures
        crate::config::contents(first) == crate::config::contents(second) <==> {
            &&& first.len() == second.len()
            &&& forall|i: int| 0 <= i < first.len() ==> (#[trigger] first[i])@ == second[i]@
        },
{
    let one = crate::config::contents(first);
    let other = crate::config::contents(second);
    if one == other {
        assert(one.len() == other.len());
        assert forall|i: int| 0 <= i < first.len() implies (#[trigger] first[i])@ == second[i]@ by {
            assert(one[i] == other[i]);
        }
    }
    if first.len() == second.len() && forall|i: int|
        0 <= i < first.len() ==> (#[trigger] first[i])@ == second[i]@ {
        assert(one =~= other);
    }
}

/// The items of a list are read in their order and by their bytes.
pub proof fn law_contents_in_order(list: Seq<Vec<u8>>)
    ensures
        crate::config::contents(list).len() == list.len(),
        forall|i: int|
            0 <= i < list.len() ==> crate::config::contents(list)[i] == (#[trigger] list[i])@,
{
}

/// Trust anchors are told apart by subject, public key and name constraints, and
/// by nothing else.
pub proof fn law_anchors(first: TrustAnchor, second: TrustAnchor)
    ensures
        first@ == second@ <==> {
            &&& first.subject@ == second.subject@
            &&& first.spki@ == second.spki@
            &&& first.name_constraints is Some <==> second.name_constraints is Some
            &&& first.name_constraints is Some ==> first.name_constraints->0@
                == second.name_constraints->0@
        },
        first@.0 == first.subject@,
        first@.1 == first.spki@,
        first.name_constraints matches Some(bytes) ==> first@.2 == Some(bytes@),
{
}

/// Ports are left exactly if neither range has reached the last port.
pub proof fn law_ports_left(ports: Ports)
    ensures
        ports.available() <==> ports.server.next < 65535 && ports.client.next < 65535,
{
}

/// `made` is a pair on the next of the ports `before`, set up with the given
/// settings, and `after` are the ports left.
pub open spec fn sets_up(
    made: NewPair,
    server: Config,
    client: Config,
    listen: ServerConfig,
    before: Ports,
    after: Ports,
    mirrored: bool,
) -> bool {
    &&& made.pair@ == PairState::at_rest(before.server.next, before.client.next, mirrored)
    &&& made.server.side is Server && made.client.side is Client
    &&& made.server.config == server && made.client.config == client
    &&& made.server.listen == Some(listen) && made.client.listen is None
    &&& after.server.next == before.server.next + 1
    &&& after.client.next == before.client.next + 1
}

/// Of two pairs made one after the other, the second is on the ports next to
/// those of the first, so they share no address, whatever their settings.
pub proof fn law_successive_pairs(
    first: NewPair,
    second: NewPair,
    servers: (Config, Config),
    clients: (Config, Config),
    listens: (ServerConfig, ServerConfig),
    ports: (Ports, Ports, Ports),
    mirrored: (bool, bool),
)
    requires
        sets_up(first, servers.0, clients.0, listens.0, ports.0, ports.1, mirrored.0),
        sets_up(second, servers.1, clients.1, listens.1, ports.1, ports.2, mirrored.1),
    ensures
        second.pair@.server.addr.port == first.pair@.server.addr.port + 1,
        second.pair@.client.addr.port == first.pair@.client.addr.port + 1,
        second.pair@.server.addr.ip == first.pair@.server.addr.ip,
        second.pair@.client.addr.ip == first.pair@.client.addr.ip,
        first.pair@.server.addr != second.pair@.server.addr,
        first.pair@.client.addr != second.pair@.client.addr,
{
}

/// `config` is the server's configuration from the `certs` and `keys` found, or
/// why there is none: the whole chain in order, the first key, the one protocol.
pub open spec fn configures(
    certs: Option<Vec<Vec<u8>>>,
    keys: Option<Vec<Vec<u8>>>,
    alpn: Seq<u8>,
    config: Result<ServerConfig, ConfigError>,
) -> bool {
    match config {
        Ok(config) => {
            &&& certs is Some && config.certs@ == certs->0@
            &&& keys is Some && keys->0@.len() > 0 && config.key@ == keys->0@.first()@
            &&& config.protocols@.len() == 1 && config.protocols@[0]@ == alpn
            &&& config.use_stateless_retry is None
            &&& config.accept_buffer is None
        },
        Err(ConfigError::Certificates) => certs is None,
        Err(ConfigError::PrivateKeys) => certs is Some && keys is None,
        Err(ConfigError::NoPrivateKey) => certs is Some && keys is Some && keys->0@.len() == 0,
        Err(_) => false,
    }
}

/// The server's configuration is determined by the chain and the first key:
/// further keys make no difference.
pub proof fn law_first_key_counts(
    certs: Option<Vec<Vec<u8>>>,
    keys: Vec<Vec<u8>>,
    more: Vec<Vec<u8>>,
    alpn: Seq<u8>,
    first: Result<ServerConfig, ConfigError>,
    second: Result<ServerConfig, ConfigError>,
)
    requires
        keys@.len() > 0,
        keys@.len() <= more@.len(),
        forall|i: int| 0 <= i < keys@.len() ==> #[trigger] more@[i] == keys@[i],
        configures(certs, Some(keys), alpn, first),
        configures(certs, Some(more), alpn, second),
    ensures
        first is Ok <==> second is Ok,
        first is Ok <==> certs is Some,
        first is Ok ==> {
            &&& first->Ok_0.key@ == second->Ok_0.key@
            &&& first->Ok_0.certs@ == second->Ok_0.certs@
            &&& first->Ok_0.key@ == keys@[0]@
        },
        first is Err ==> first->Err_0 == second->Err_0,
{
    assert(more@[0] == keys@[0]);
}

} // verus!
