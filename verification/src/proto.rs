//! The values that pass between a protocol endpoint and the simulation.
use vstd::prelude::*;

verus! {

/// The role an endpoint plays in a pair.
#[derive(Clone, Copy, Debug, PartialEq, Eq, Structural)]
pub enum Side {
    Client,
    Server,
}

impl Side {
    /// The other side.
    pub open spec fn peer(self) -> Side {
        match self {
            Side::Client => Side::Server,
            Side::Server => Side::Client,
        }
    }
}

/// Names a connection within one endpoint.
#[derive(Clone, Copy, Debug, PartialEq, Eq, Structural)]
pub struct ConnectionHandle(pub usize);

/// An explicit congestion notification mark carried by a datagram.
#[derive(Clone, Copy, Debug, PartialEq, Eq, Structural)]
pub enum EcnCodepoint {
    ECT0,
    ECT1,
    CE,
}

/// A network address: an IPv6 address as one number, and a port.
#[derive(Clone, Copy, Debug, PartialEq, Eq, Structural)]
pub struct Address {
    pub ip: u128,
    pub port: u16,
}

/// The IPv6 loopback address, `::1`.
pub const LOCALHOST: u128 = 1;

/// The number of timers that an endpoint keeps for its connection.
pub const TIMER_COUNT: usize = 4;

/// The deadline of a timer that is not running.
pub const NEVER: u64 = 0xffff_ffff_ffff_ffff;

/// The timers of a connection.
#[derive(Clone, Copy, Debug, PartialEq, Eq, Structural)]
pub enum Timer {
    LossDetection,
    Idle,
    Close,
    KeyDiscard,
}

impl Timer {
    /// The slot that holds the timer's deadline.
    pub open spec fn slot(self) -> int {
        match self {
            Timer::LossDetection => 0,
            Timer::Idle => 1,
            Timer::Close => 2,
            Timer::KeyDiscard => 3,
        }
    }

    /// Every timer, in the order of the slots.
    pub open spec fn all() -> Seq<Timer> {
        seq![Timer::LossDetection, Timer::Idle, Timer::Close, Timer::KeyDiscard]
    }

    /// The slot that holds the timer's deadline.
    pub fn index(self) -> (slot: usize)
        ensures
            slot == self.slot(),
            slot < TIMER_COUNT,
    {
        match self {
            Timer::LossDetection => 0,
            Timer::Idle => 1,
            Timer::Close => 2,
            Timer::KeyDiscard => 3,
        }
    }

    /// Every timer, in the order in which expired timers are reported.
    pub fn values() -> (timers: [Timer; 4])
        ensures
            timers@ == Timer::all(),
    {
        let timers = [Timer::LossDetection, Timer::Idle, Timer::Close, Timer::KeyDiscard];
        assert(timers@ =~= Timer::all());
        timers
    }
}

/// A change to a timer: run until the given time, or stop.
#[derive(Clone, Copy, Debug, PartialEq, Eq, Structural)]
pub enum TimerUpdate {
    Start(u64),
    Stop,
}

impl TimerUpdate {
    /// The deadline that the update leaves behind.
    pub open spec fn time(self) -> u64 {
        match self {
            TimerUpdate::Start(time) => time,
            TimerUpdate::Stop => NEVER,
        }
    }

    /// The deadline that the update leaves behind.
    pub fn deadline(self) -> (time: u64)
        ensures
            time == self.time(),
    {
        match self {
            TimerUpdate::Start(time) => time,
            TimerUpdate::Stop => NEVER,
        }
    }
}

/// What a protocol endpoint asks of its surroundings.
#[derive(Debug)]
pub enum Io {
    /// Send a datagram to the peer.
    Transmit { ecn: Option<EcnCodepoint>, packet: Vec<u8> },
    /// Change a timer of a connection.
    TimerUpdate { connection: ConnectionHandle, timer: Timer, update: TimerUpdate },
}

/// A call that is owed to a protocol endpoint.
#[derive(Debug)]
pub enum Call {
    /// Tell the endpoint that a timer has expired.
    Timeout { now: u64, conn: ConnectionHandle, timer: Timer },
    /// Hand the endpoint a datagram that has arrived.
    Handle { now: u64, remote: Address, ecn: Option<EcnCodepoint>, packet: Vec<u8> },
}

/// A datagram that an endpoint has sent and that has not left its host.
#[derive(Debug)]
pub struct Datagram {
    pub ecn: Option<EcnCodepoint>,
    pub packet: Vec<u8>,
}

/// A datagram under way, with the time at which it arrives.
#[derive(Debug)]
pub struct Delivery {
    pub at: u64,
    pub ecn: Option<EcnCodepoint>,
    pub packet: Vec<u8>,
}

} // verus!
