//! The simulation's side of one endpoint: its timers and its queues.
use std::collections::VecDeque;

use vstd::prelude::*;

use crate::proto::{
    Address, Call, ConnectionHandle, Datagram, Delivery, Io, Side, Timer, NEVER, TIMER_COUNT,
};

verus! {

/// The timers and queues of one endpoint.
#[derive(Debug)]
pub struct TestEndpoint {
    pub side: Side,
    pub addr: Address,
    /// Whether the endpoint's datagrams are also sent over a real socket.
    pub mirrored: bool,
    /// The deadline of each timer, by slot.
    pub timers: [u64; 4],
    /// The connection that the timers belong to, once there is one.
    pub conn: Option<ConnectionHandle>,
    pub outbound: VecDeque<Datagram>,
    /// Outbound datagrams that are held back.
    pub delayed: VecDeque<Datagram>,
    pub inbound: VecDeque<Delivery>,
}

/// What a [`TestEndpoint`] holds.
#[verifier::ext_equal]
pub struct EndpointState {
    pub side: Side,
    pub addr: Address,
    pub mirrored: bool,
    pub timers: Seq<u64>,
    pub conn: Option<ConnectionHandle>,
    pub outbound: Seq<Datagram>,
    pub delayed: Seq<Datagram>,
    pub inbound: Seq<Delivery>,
}

/// The earlier of two times.
pub open spec fn earlier(a: u64, b: u64) -> u64 {
    if a <= b {
        a
    } else {
        b
    }
}

/// How many deliveries at the head of `queue` have arrived by `now`: a delivery
/// waits for those before it, even if it has arrived itself.
pub open spec fn arrived(queue: Seq<Delivery>, now: u64) -> int
    decreases queue.len(),
{
    if queue.len() == 0 || queue[0].at > now {
        0
    } else {
        1 + arrived(queue.skip(1), now)
    }
}

/// The datagrams among `ios`, in order.
pub open spec fn transmits(ios: Seq<Io>) -> Seq<Datagram>
    decreases ios.len(),
{
    if ios.len() == 0 {
        seq![]
    } else {
        match ios.last() {
            Io::Transmit { ecn, packet } => transmits(ios.drop_last()).push(
                (Datagram { ecn, packet }),
            ),
            Io::TimerUpdate { .. } => transmits(ios.drop_last()),
        }
    }
}

/// The deadline in `slot` after `ios`: what the last update of that timer says,
/// or `before` if none of `ios` updates it.
pub open spec fn deadline_after(ios: Seq<Io>, slot: int, before: u64) -> u64
    decreases ios.len(),
{
    if ios.len() == 0 {
        before
    } else {
        match ios.last() {
            Io::TimerUpdate { timer, update, .. } if timer.slot() == slot => update.time(),
            _ => deadline_after(ios.drop_last(), slot, before),
        }
    }
}

/// The connection that the last timer update of `ios` names, or `before` if
/// there is no timer update.
pub open spec fn connection_after(
    ios: Seq<Io>,
    before: Option<ConnectionHandle>,
) -> Option<ConnectionHandle>
    decreases ios.len(),
{
    if ios.len() == 0 {
        before
    } else {
        match ios.last() {
            Io::TimerUpdate { connection, .. } => Some(connection),
            Io::Transmit { .. } => connection_after(ios.drop_last(), before),
        }
    }
}

impl EndpointState {
    /// No connection, no timer running, nothing queued.
    pub open spec fn at_rest(side: Side, addr: Address, mirrored: bool) -> EndpointState {
        EndpointState {
            side,
            addr,
            mirrored,
            timers: seq![NEVER, NEVER, NEVER, NEVER],
            conn: None,
            outbound: seq![],
            delayed: seq![],
            inbound: seq![],
        }
    }

    /// The timers that have expired by `now`. They belong to a connection, so
    /// without one none expires.
    pub open spec fn expired(self, now: u64) -> Seq<Timer> {
        if self.conn is Some {
            Timer::all().filter(|timer: Timer| self.timers[timer.slot()] <= now)
        } else {
            seq![]
        }
    }

    /// The calls owed to the endpoint at `now`: first its expired timers, then
    /// what has arrived from `remote`.
    pub open spec fn owed(self, now: u64, remote: Address) -> Seq<Call> {
        let conn = self.conn->0;
        self.expired(now).map_values(|timer: Timer| (Call::Timeout { now, conn, timer }))
            + self.inbound.take(arrived(self.inbound, now)).map_values(
            |d: Delivery| (Call::Handle { now, remote, ecn: d.ecn, packet: d.packet }),
        )
    }

    /// The state once the calls owed at `now` are taken out: expired timers
    /// are stopped and arrived deliveries are gone.
    pub open spec fn driven(self, now: u64) -> EndpointState {
        EndpointState {
            timers: Seq::new(
                self.timers.len(),
                |slot: int|
                    if self.conn is Some && self.timers[slot] <= now {
                        NEVER
                    } else {
                        self.timers[slot]
                    },
            ),
            inbound: self.inbound.skip(arrived(self.inbound, now)),
            ..self
        }
    }

    /// When the endpoint next has something to do: the earliest deadline of a
    /// timer, or the arrival of the delivery at the head of the queue if that
    /// is earlier.
    pub open spec fn wakeup(self) -> u64 {
        let deadline = earlier(
            earlier(self.timers[0], self.timers[1]),
            earlier(self.timers[2], self.timers[3]),
        );
        if self.inbound.len() > 0 {
            earlier(deadline, self.inbound[0].at)
        } else {
            deadline
        }
    }

    /// The state once the endpoint's requests are carried out.
    pub open spec fn absorbed(self, ios: Seq<Io>) -> EndpointState {
        EndpointState {
            timers: Seq::new(
                self.timers.len(),
                |slot: int| deadline_after(ios, slot, self.timers[slot]),
            ),
            conn: connection_after(ios, self.conn),
            outbound: self.outbound + transmits(ios),
            ..self
        }
    }

    /// Everything that was waiting to be sent is held back.
    pub open spec fn held_back(self) -> EndpointState {
        EndpointState { outbound: seq![], delayed: self.outbound, ..self }
    }

    /// What was held back waits to be sent, behind everything sent since.
    pub open spec fn released(self) -> EndpointState {
        EndpointState { outbound: self.outbound + self.delayed, delayed: seq![], ..self }
    }
}

impl View for TestEndpoint {
    type V = EndpointState;

    open spec fn view(&self) -> EndpointState {
        EndpointState {
            side: self.side,
            addr: self.addr,
            mirrored: self.mirrored,
            timers: self.timers@,
            conn: self.conn,
            outbound: self.outbound@,
            delayed: self.delayed@,
            inbound: self.inbound@,
        }
    }
}

impl TestEndpoint {
    /// An endpoint at rest: no connection, no timer running, nothing queued.
    pub fn new(side: Side, addr: Address, mirrored: bool) -> (endpoint: TestEndpoint)
        ensures
            endpoint@ == EndpointState::at_rest(side, addr, mirrored),
    {
        let endpoint = TestEndpoint {
            side,
            addr,
            mirrored,
            timers: [NEVER, NEVER, NEVER, NEVER],
            conn: None,
            outbound: VecDeque::new(),
            delayed: VecDeque::new(),
            inbound: VecDeque::new(),
        };
        assert(endpoint.timers@ =~= seq![NEVER, NEVER, NEVER, NEVER]);
        endpoint
    }

    /// Takes out the calls that are owed to the protocol endpoint at `now`, in
    /// the order in which they are to be made.
    pub fn drive(&mut self, now: u64, remote: Address) -> (calls: Vec<Call>)
        ensures
            calls@ == old(self)@.owed(now, remote),
            final(self)@ == old(self)@.driven(now),
            crate::behaviour::acts(old(self)@, now, remote, calls@, final(self)@),
    {
        proof {
            crate::behaviour::law_drive(self@, now, remote);
        }
        let mut calls: Vec<Call> = Vec::new();
        self.expire(now, &mut calls);
        self.deliver(now, remote, &mut calls);
        calls
    }

    /// Stops the timers that have expired by `now` and reports them.
    fn expire(&mut self, now: u64, calls: &mut Vec<Call>)
        ensures
            final(calls)@ == old(calls)@ + old(self)@.expired(now).map_values(
                |timer: Timer| (Call::Timeout { now, conn: old(self)@.conn->0, timer }),
            ),
            final(self)@ == (EndpointState { timers: old(self)@.driven(now).timers, ..old(self)@ }),
    {
        if let Some(conn) = self.conn {
            let values = Timer::values();
            let ghost owed = |timer: Timer| (Call::Timeout { now, conn, timer });
            let ghost due = |timer: Timer| old(self)@.timers[timer.slot()] <= now;
            let mut i: usize = 0;
            assert(values@.take(0).filter(due) =~= seq![]);
            while i < TIMER_COUNT
                invariant
                    i <= TIMER_COUNT,
                    values@ == Timer::all(),
                    self.conn == Some(conn),
                    self@ == (EndpointState { timers: self@.timers, ..old(self)@ }),
                    owed == (|timer: Timer| (Call::Timeout { now, conn, timer })),
                    due == (|timer: Timer| old(self)@.timers[timer.slot()] <= now),
                    calls@ == old(calls)@ + values@.take(i as int).filter(due).map_values(owed),
                    forall|slot: int|
                        0 <= slot < i ==> self.timers@[slot] == old(self)@.driven(now).timers[slot],
                    forall|slot: int|
                        i <= slot < TIMER_COUNT ==> self.timers@[slot] == old(self)@.timers[slot],
                decreases TIMER_COUNT - i,
            {
                let timer = values[i];
                assert(timer.slot() == i);
                assert(values@.take(i + 1).drop_last() =~= values@.take(i as int));
                reveal(Seq::filter);
                if self.timers[timer.index()] <= now {
                    self.timers[timer.index()] = NEVER;
                    calls.push(Call::Timeout { now, conn, timer });
                    assert(calls@ =~= old(calls)@ + values@.take(i + 1).filter(due).map_values(owed));
                }
                i += 1;
            }
            assert(values@.take(4) =~= values@);
            assert(self.timers@ =~= old(self)@.driven(now).timers);
        } else {
            assert(self.timers@ =~= old(self)@.driven(now).timers);
        }
    }

    /// Takes the deliveries that have arrived by `now` off the inbound queue.
    fn deliver(&mut self, now: u64, remote: Address, calls: &mut Vec<Call>)
        ensures
            final(calls)@ == old(calls)@ + old(self)@.inbound.take(
                arrived(old(self)@.inbound, now),
            ).map_values(
                |d: Delivery| (Call::Handle { now, remote, ecn: d.ecn, packet: d.packet }),
            ),
            final(self)@ == (EndpointState {
                inbound: old(self)@.inbound.skip(arrived(old(self)@.inbound, now)),
                ..old(self)@
            }),
    {
        let ghost handle = |d: Delivery|
            (Call::Handle { now, remote, ecn: d.ecn, packet: d.packet });
        let ghost mut taken: int = 0;
        assert(self.inbound@.skip(0) =~= self.inbound@);
        assert(calls@ =~= old(calls)@ + old(self)@.inbound.take(0).map_values(handle));
        while self.inbound.len() > 0 && self.inbound[0].at <= now
            invariant
                0 <= taken <= old(self)@.inbound.len(),
                handle == (|d: Delivery|
                    (Call::Handle { now, remote, ecn: d.ecn, packet: d.packet })),
                self@ == (EndpointState { inbound: old(self)@.inbound.skip(taken), ..old(self)@ }),
                taken + arrived(self@.inbound, now) == arrived(old(self)@.inbound, now),
                calls@ == old(calls)@ + old(self)@.inbound.take(taken).map_values(handle),
            decreases self.inbound@.len(),
        {
            let ghost queue = old(self)@.inbound;
            if let Some(delivery) = self.inbound.pop_front() {
                calls.push(
                    Call::Handle {
                        now,
                        remote,
                        ecn: delivery.ecn,
                        packet: delivery.packet,
                    },
                );
                proof {
                    assert(queue.skip(taken).skip(1) =~= queue.skip(taken + 1));
                    assert(queue.skip(taken).subrange(1, queue.skip(taken).len() as int)
                        =~= queue.skip(taken + 1));
                    assert(queue.take(taken + 1) =~= queue.take(taken).push(queue[taken]));
                    taken = taken + 1;
                    assert(calls@ =~= old(calls)@ + queue.take(taken).map_values(handle));
                }
            }
        }
    }

    /// Carries out one request of the protocol endpoint.
    pub fn absorb(&mut self, io: Io)
        ensures
            final(self)@ == old(self)@.absorbed(seq![io]),
            crate::behaviour::absorbs(old(self)@, io, final(self)@),
    {
        proof {
            crate::behaviour::law_absorb(self@, io);
            let ios = seq![io];
            assert(ios.drop_last() =~= seq![]);
            reveal_with_fuel(deadline_after, 2);
            reveal_with_fuel(connection_after, 2);
            reveal_with_fuel(transmits, 2);
        }
        match io {
            Io::Transmit { ecn, packet } => {
                self.outbound.push_back(Datagram { ecn, packet });
            },
            Io::TimerUpdate { connection, timer, update } => {
                self.conn = Some(connection);
                self.timers[timer.index()] = update.deadline();
            },
        }
        assert(self@ =~= old(self)@.absorbed(seq![io]));
    }

    /// When the endpoint next has something to do: the earliest deadline of a
    /// timer, or the arrival of the next delivery if that is earlier.
    pub fn next_wakeup(&self) -> (time: u64)
        ensures
            time == self@.wakeup(),
            forall|timer: Timer| time <= #[trigger] self.timers@[timer.slot()],
            self.inbound@.len() > 0 ==> time <= self.inbound@[0].at,
            (exists|timer: Timer| time == #[trigger] self.timers@[timer.slot()]) || (
            self.inbound@.len() > 0 && time == self.inbound@[0].at),
    {
        proof {
            crate::behaviour::law_wakeup(self@);
        }
        let mut time: u64 = self.timers[0];
        if self.timers[1] < time {
            time = self.timers[1];
        }
        if self.timers[2] < time {
            time = self.timers[2];
        }
        if self.timers[3] < time {
            time = self.timers[3];
        }
        if self.inbound.len() > 0 && self.inbound[0].at < time {
            time = self.inbound[0].at;
        }
        time
    }

    /// Holds back everything that is waiting to be sent.
    pub fn delay_outbound(&mut self)
        requires
            old(self)@.delayed.len() == 0,
        ensures
            final(self)@ == old(self)@.held_back(),
    {
        std::mem::swap(&mut self.delayed, &mut self.outbound);
        assert(self.outbound@ =~= seq![]);
    }

    /// Sends what was held back, behind everything sent since.
    pub fn finish_delay(&mut self)
        ensures
            final(self)@ == old(self)@.released(),
    {
        self.outbound.append(&mut self.delayed);
    }
}

} // verus!
