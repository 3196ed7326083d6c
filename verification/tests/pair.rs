use std::collections::VecDeque;

use quic_pair::config::{Config, ServerConfig};
use quic_pair::pair::{Action, ConnectError, Event, Mirror, NewPair, Pair, Report};
use quic_pair::ports::Ports;
use quic_pair::proto::{
    Address, Call, ConnectionHandle, EcnCodepoint, Io, Side, Timer, TimerUpdate, LOCALHOST, NEVER,
};

fn listen_keys() -> ServerConfig {
    ServerConfig {
        certs: vec![b"leaf".to_vec()],
        key: b"key".to_vec(),
        protocols: vec![],
        use_stateless_retry: None,
        accept_buffer: None,
    }
}

fn new_pair() -> Pair {
    Pair::default(listen_keys(), &mut Ports::default(), false).pair
}

const CONN: ConnectionHandle = ConnectionHandle(0);

fn set(timer: Timer, update: TimerUpdate) -> Io {
    Io::TimerUpdate { connection: CONN, timer, update }
}

fn transmit(packet: &[u8]) -> Io {
    Io::Transmit { ecn: Some(EcnCodepoint::ECT0), packet: packet.to_vec() }
}

/// An endpoint that notes what it is told and asks for what it was given to ask
/// for, and whose reaction to a packet or an expired timer is fixed.
struct Peer {
    requests: VecDeque<Io>,
    packets: Vec<(u64, Vec<u8>)>,
    timeouts: Vec<(u64, Timer)>,
    replies: VecDeque<Vec<u8>>,
    retransmit: Option<Vec<u8>>,
}

impl Peer {
    fn new() -> Peer {
        Peer {
            requests: VecDeque::new(),
            packets: Vec::new(),
            timeouts: Vec::new(),
            replies: VecDeque::new(),
            retransmit: None,
        }
    }

    fn call(&mut self, call: Call) {
        match call {
            Call::Timeout { now, conn, timer } => {
                assert_eq!(conn, CONN);
                self.timeouts.push((now, timer));
                if timer == Timer::LossDetection {
                    if let Some(packet) = self.retransmit.clone() {
                        self.requests.push_back(transmit(&packet));
                    }
                }
            }
            Call::Handle { now, ecn, packet, .. } => {
                assert_eq!(ecn, Some(EcnCodepoint::ECT0));
                self.packets.push((now, packet));
                if let Some(reply) = self.replies.pop_front() {
                    self.requests.push_back(transmit(&reply));
                }
            }
        }
    }
}

struct Net {
    pair: Pair,
    client: Peer,
    server: Peer,
}

impl Net {
    fn new() -> Net {
        Net { pair: new_pair(), client: Peer::new(), server: Peer::new() }
    }

    fn peer(&mut self, side: Side) -> &mut Peer {
        match side {
            Side::Client => &mut self.client,
            Side::Server => &mut self.server,
        }
    }

    fn poll(&mut self, side: Side) -> Event {
        let reply = self.peer(side).requests.pop_front();
        if reply.is_none() {
            assert!(self.pair.can_send(side));
        }
        Event::Polled(side, reply)
    }

    fn perform(&mut self, action: Action) -> Result<Event, bool> {
        match action {
            Action::Drive { side, now, calls, drain, .. } => {
                assert_eq!(now, self.pair.time);
                assert!(!drain);
                for call in calls {
                    self.peer(side).call(call);
                }
                Ok(self.poll(side))
            }
            Action::Poll { side, .. } => Ok(self.poll(side)),
            Action::Stepped { busy, .. } => Err(busy),
        }
    }

    fn step(&mut self) -> bool {
        let mut event = Event::Begin;
        loop {
            let action = self.pair.step(event);
            match self.perform(action) {
                Ok(next) => event = next,
                Err(busy) => return busy,
            }
        }
    }

    fn drive(&mut self) {
        let mut event = Event::Begin;
        loop {
            let action = self.pair.drive(event);
            match self.perform(action) {
                Ok(next) => event = next,
                Err(busy) => {
                    assert!(!busy);
                    return;
                }
            }
        }
    }
}

#[test]
fn pairs_take_successive_ports() {
    let mut ports = Ports::default();
    assert!(ports.has_next());
    for i in 0..3u16 {
        let pair = Pair::default(listen_keys(), &mut ports, false).pair;
        assert_eq!(pair.server.addr, Address { ip: LOCALHOST, port: 4433 + i });
        assert_eq!(pair.client.addr, Address { ip: LOCALHOST, port: 44433 + i });
    }
    ports.client.next = u16::MAX;
    assert!(!ports.has_next());
}

#[test]
fn only_the_server_listens() {
    let NewPair { pair, server, client } =
        Pair::default(listen_keys(), &mut Ports::default(), true);
    assert_eq!(server.side, Side::Server);
    assert_eq!(server.config.max_remote_streams_uni, Some(32));
    assert_eq!(server.config.max_remote_streams_bidi, Some(32));
    assert_eq!(server.listen.unwrap().certs, vec![b"leaf".to_vec()]);
    assert_eq!(client.side, Side::Client);
    assert_eq!(client.config.max_remote_streams_uni, None);
    assert!(client.listen.is_none());
    assert_eq!(pair.client.side, Side::Client);
    assert_eq!(pair.server.side, Side::Server);
    assert!(pair.client.mirrored && pair.server.mirrored);
    assert_eq!((pair.time, pair.latency, pair.spins, pair.last_spin), (0, 0, 0, false));

    let mut config = Config::default();
    config.max_remote_streams_uni = Some(1);
    let made = Pair::new(config, Config::default(), listen_keys(), &mut Ports::default(), false);
    assert_eq!(made.server.config.max_remote_streams_uni, Some(1));
    assert_eq!(made.server.config.max_remote_streams_bidi, None);
}

#[test]
fn connecting_needs_both_ends() {
    let client = ConnectionHandle(1);
    let server = ConnectionHandle(2);
    let connected = Some((client, Report::Connected));
    assert_eq!(Pair::connect(client, Some(server), connected), Ok((client, server)));
    assert_eq!(Pair::connect(client, None, connected), Err(ConnectError::NotAccepted));
    assert_eq!(Pair::connect(client, None, None), Err(ConnectError::NotAccepted));
    for report in [None, Some((server, Report::Connected)), Some((client, Report::Other))] {
        assert_eq!(
            Pair::connect(client, Some(server), report),
            Err(ConnectError::NotConnected)
        );
    }
}

#[test]
fn a_new_pair_is_idle() {
    let mut net = Net::new();
    assert!(!net.step());
    assert_eq!(net.pair.time, 0);
}

#[test]
fn datagrams_take_the_latency_each_way() {
    let mut net = Net::new();
    net.pair.latency = 200 * 1000;
    net.client.requests.push_back(transmit(b"\x80ping"));
    net.server.replies.push_back(b"\x80pong".to_vec());
    net.drive();
    assert_eq!(net.server.packets, vec![(200_000, b"\x80ping".to_vec())]);
    assert_eq!(net.client.packets, vec![(400_000, b"\x80pong".to_vec())]);
    assert_eq!(net.pair.time, 400_000);
}

#[test]
fn without_latency_the_server_answers_in_the_same_step() {
    let mut net = Net::new();
    net.client.requests.push_back(transmit(b"\x80ping"));
    net.server.replies.push_back(b"\x80pong".to_vec());
    assert!(net.step());
    assert_eq!(net.server.packets.len(), 1);
    assert!(net.client.packets.is_empty());
    assert!(!net.step());
    assert_eq!(net.client.packets, vec![(0, b"\x80pong".to_vec())]);
}

#[test]
fn the_link_keeps_the_order() {
    let mut net = Net::new();
    net.pair.latency = 5;
    let mut sent = Vec::new();
    for round in 0..3u8 {
        for i in 0..4u8 {
            let packet = vec![0x80, round, i];
            net.client.requests.push_back(transmit(&packet));
            sent.push(packet);
        }
        net.step();
    }
    net.drive();
    let handed: Vec<Vec<u8>> = net.server.packets.iter().map(|(_, p)| p.clone()).collect();
    assert_eq!(handed, sent);
}

#[test]
fn spin_bit_flips_are_counted() {
    let mut net = Net::new();
    // Short, unchanged; long, with the same bit set; flip; same; flip back.
    for first in [0x40, 0xe0, 0x60, 0x60, 0x40u8] {
        net.client.requests.push_back(transmit(&[first]));
    }
    net.step();
    assert_eq!(net.pair.spins, 2);
    assert!(!net.pair.last_spin);
    net.client.requests.push_back(transmit(&[0x20]));
    net.step();
    assert_eq!(net.pair.spins, 3);
    assert!(net.pair.last_spin);
}

#[test]
fn the_server_does_not_count_spins() {
    let mut net = Net::new();
    net.server.requests.push_back(transmit(&[0x60]));
    net.server.requests.push_back(transmit(&[0x40]));
    net.step();
    assert_eq!(net.pair.spins, 0);
    assert!(!net.pair.last_spin);
}

#[test]
fn a_lost_packet_is_sent_again_when_its_timer_expires() {
    let mut net = Net::new();
    net.client.requests.push_back(transmit(b"\x80hello"));
    net.client.requests.push_back(set(Timer::LossDetection, TimerUpdate::Start(1000)));
    net.client.requests.push_back(set(Timer::Idle, TimerUpdate::Start(10_000)));
    net.client.retransmit = Some(b"\x80again".to_vec());
    let calls = net.pair.drive_client();
    assert!(calls.is_empty());
    while let Some(io) = net.client.requests.pop_front() {
        net.pair.client.absorb(io);
    }
    net.pair.client.outbound.clear();
    net.drive();
    assert_eq!(net.client.timeouts, vec![(1000, Timer::LossDetection)]);
    assert_eq!(net.server.packets, vec![(1000, b"\x80again".to_vec())]);
    assert_eq!(net.pair.time, 1000);
    assert_eq!(net.pair.client.next_wakeup(), 10_000);
}

#[test]
fn an_idle_timer_does_not_keep_a_pair_busy() {
    let mut net = Net::new();
    net.client.requests.push_back(set(Timer::Idle, TimerUpdate::Start(10)));
    net.server.requests.push_back(set(Timer::Idle, TimerUpdate::Start(20)));
    assert!(!net.step());
    assert_eq!(net.pair.time, 0);
    net.server.requests.push_back(set(Timer::Close, TimerUpdate::Start(15)));
    assert!(net.step());
    // The client's idle timer is the next thing to happen all the same.
    assert_eq!(net.pair.time, 10);
    assert!(net.step());
    assert_eq!(net.client.timeouts, vec![(10, Timer::Idle)]);
    assert_eq!(net.pair.time, 15);
}

#[test]
fn the_clock_does_not_go_back() {
    let mut net = Net::new();
    net.pair.time = 100;
    net.client.requests.push_back(set(Timer::LossDetection, TimerUpdate::Start(40)));
    assert!(net.step());
    assert_eq!(net.pair.time, 100);
    assert!(!net.step());
    assert_eq!(net.client.timeouts, vec![(100, Timer::LossDetection)]);
}

#[test]
fn advance_goes_to_the_earlier_wakeup() {
    let mut pair = new_pair();
    pair.client.absorb(set(Timer::Close, TimerUpdate::Start(30)));
    pair.server.absorb(set(Timer::Close, TimerUpdate::Start(20)));
    assert!(pair.advance());
    assert_eq!(pair.time, 20);
    assert_eq!(pair.drive_server().len(), 1);
    assert!(pair.drive_client().is_empty());
    assert!(pair.advance());
    assert_eq!(pair.time, 30);
    assert_eq!(pair.drive_client().len(), 1);
    assert!(!pair.advance());
    assert_eq!(pair.time, 30);
}

#[test]
fn dropped_deliveries_are_gone() {
    let mut net = Net::new();
    for _ in 0..3 {
        net.server.requests.push_back(transmit(b"\x80flight"));
    }
    net.step();
    assert_eq!(net.pair.client.inbound.len(), 3);
    net.pair.client.inbound.drain(1..);
    net.drive();
    assert_eq!(net.client.packets.len(), 1);
}

#[test]
fn time_runs_out_only_if_a_timer_does() {
    let mut net = Net::new();
    net.client.requests.push_back(transmit(b"\x80ping"));
    net.client.requests.push_back(set(Timer::Idle, TimerUpdate::Start(30_000)));
    net.server.requests.push_back(set(Timer::Idle, TimerUpdate::Start(25_000)));
    let closed = |peer: &Peer| peer.timeouts.iter().any(|(_, timer)| *timer == Timer::Idle);
    while !closed(&net.client) {
        net.step();
        net.pair.client.inbound.clear();
        if !closed(&net.client) {
            net.pair.time = net.pair.client.next_wakeup();
        }
    }
    assert!(net.pair.time != NEVER);
    assert!(closed(&net.server));
    assert_eq!(net.client.timeouts, vec![(30_000, Timer::Idle)]);
    assert_eq!(net.server.timeouts, vec![(30_000, Timer::Idle)]);
}

#[test]
fn delayed_packets_arrive_behind_later_ones() {
    let mut net = Net::new();
    net.pair.client.absorb(transmit(b"\x801"));
    net.pair.client.delay_outbound();
    net.pair.client.absorb(transmit(b"\x80two"));
    net.pair.client.finish_delay();
    net.drive();
    let handed: Vec<Vec<u8>> = net.server.packets.iter().map(|(_, p)| p.clone()).collect();
    assert_eq!(handed, vec![b"\x80two".to_vec(), b"\x801".to_vec()]);
}

fn packets(mirror: &Option<Mirror>) -> Option<(Side, u16, Vec<Vec<u8>>)> {
    mirror.as_ref().map(|m| (m.from, m.to.port, m.packets.clone()))
}

#[test]
fn mirrored_packets_go_to_the_peer_as_well() {
    let mut pair = Pair::default(listen_keys(), &mut Ports::default(), true).pair;
    match pair.drive(Event::Begin) {
        Action::Drive { mirror, side, drain, .. } => {
            assert!(mirror.is_none());
            assert_eq!(side, Side::Client);
            assert!(drain);
        }
        other => panic!("unexpected action: {:?}", other),
    }
    let action = pair.drive(Event::Polled(Side::Client, Some(transmit(b"\x80a"))));
    assert!(matches!(action, Action::Poll { side: Side::Client, now: 0 }));
    match pair.drive(Event::Polled(Side::Client, None)) {
        Action::Drive { mirror, side, calls, drain, .. } => {
            assert_eq!(packets(&mirror), Some((Side::Client, 4433, vec![b"\x80a".to_vec()])));
            assert_eq!(side, Side::Server);
            assert_eq!(calls.len(), 1);
            assert!(drain);
        }
        other => panic!("unexpected action: {:?}", other),
    }
    pair.drive(Event::Polled(Side::Server, Some(transmit(b"\x80b"))));
    match pair.drive(Event::Polled(Side::Server, None)) {
        Action::Drive { mirror, side, calls, .. } => {
            assert_eq!(packets(&mirror), Some((Side::Server, 44433, vec![b"\x80b".to_vec()])));
            assert_eq!(side, Side::Client);
            assert_eq!(calls.len(), 1);
        }
        other => panic!("unexpected action: {:?}", other),
    }
    pair.drive(Event::Polled(Side::Client, None));
    match pair.drive(Event::Polled(Side::Server, None)) {
        Action::Stepped { mirror, busy } => {
            assert_eq!(packets(&mirror), Some((Side::Server, 44433, vec![])));
            assert!(!busy);
        }
        other => panic!("unexpected action: {:?}", other),
    }
}

#[test]
fn without_mirroring_nothing_is_repeated() {
    let mut pair = new_pair();
    pair.client.absorb(transmit(b"\x80a"));
    assert!(pair.send_client().packets.is_empty());
    pair.server.absorb(transmit(b"\x80b"));
    let mirror = pair.send_server();
    assert_eq!(mirror.from, Side::Server);
    assert_eq!(mirror.to, pair.client.addr);
    assert!(mirror.packets.is_empty());
    assert_eq!(pair.server.inbound[0].packet, b"\x80a");
    assert_eq!(pair.client.inbound[0].packet, b"\x80b");
}

#[test]
fn what_cannot_be_sent_is_refused_beforehand() {
    let mut pair = new_pair();
    pair.time = NEVER;
    pair.latency = 1;
    assert!(pair.can_send(Side::Client));
    assert!(pair.can_send(Side::Server));
    pair.client.absorb(transmit(&[0x80]));
    pair.server.absorb(transmit(&[0x80]));
    assert!(!pair.can_send(Side::Client));
    assert!(!pair.can_send(Side::Server));
    pair.latency = 0;
    assert!(pair.can_send(Side::Client));
    assert!(pair.can_send(Side::Server));

    pair.client.absorb(transmit(&[]));
    pair.server.absorb(transmit(&[]));
    assert!(!pair.can_send(Side::Client));
    assert!(pair.can_send(Side::Server));

    let mut pair = new_pair();
    pair.spins = u64::MAX;
    pair.client.absorb(transmit(&[0x40]));
    assert!(pair.can_send(Side::Client));
    pair.client.absorb(transmit(&[0x60]));
    assert!(!pair.can_send(Side::Client));
}
