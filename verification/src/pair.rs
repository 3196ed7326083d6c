//! A client and a server joined by a link with a fixed latency, and the clock
//! that both run by.
use vstd::prelude::*;

use crate::config::{Config, EndpointSetup, ServerConfig};
use crate::endpoint::{EndpointState, TestEndpoint};
use crate::packet::spin_of;
use crate::ports::Ports;
use crate::proto::{
    Address, Call, ConnectionHandle, Datagram, Delivery, Io, Side, Timer, LOCALHOST,
};

verus! {

/// A client, a server, and the link between them.
#[derive(Debug)]
pub struct Pair {
    pub server: TestEndpoint,
    pub client: TestEndpoint,
    /// The virtual clock, in microseconds.
    pub time: u64,
    /// How long a datagram travels one way.
    pub latency: u64,
    /// Number of spin bit flips seen in the client's packets.
    pub spins: u64,
    pub last_spin: bool,
}

/// What a [`Pair`] holds.
#[verifier::ext_equal]
pub struct PairState {
    pub server: EndpointState,
    pub client: EndpointState,
    pub time: u64,
    pub latency: u64,
    pub spins: u64,
    pub last_spin: bool,
}

/// Datagrams to be sent from one side's socket besides the simulated link.
#[derive(Debug)]
pub struct Mirror {
    pub from: Side,
    pub to: Address,
    pub packets: Vec<Vec<u8>>,
}

impl Mirror {
    /// The mirror repeats what `from` has waiting to be sent, or nothing unless
    /// `from` is mirrored.
    pub open spec fn repeats(self, from: Side, pair: PairState) -> bool {
        let sent = pair.endpoint(from).outbound;
        &&& self.from == from
        &&& self.to == pair.endpoint(from.peer()).addr
        &&& self.packets@.len() == if pair.endpoint(from).mirrored {
            sent.len()
        } else {
            0
        }
        &&& forall|i: int|
            0 <= i < self.packets@.len() ==> (#[trigger] self.packets@[i])@ == sent[i].packet@
    }
}

/// The datagrams of `sent` on their way, all to arrive at `at`.
pub open spec fn under_way(sent: Seq<Datagram>, at: u64) -> Seq<Delivery> {
    sent.map_values(|d: Datagram| (Delivery { at, ecn: d.ecn, packet: d.packet }))
}

impl PairState {
    /// Both endpoints at rest on the loopback address, at time zero, with no
    /// latency.
    pub open spec fn at_rest(server_port: u16, client_port: u16, mirrored: bool) -> PairState {
        PairState {
            server: EndpointState::at_rest(
                Side::Server,
                (Address { ip: LOCALHOST, port: server_port }),
                mirrored,
            ),
            client: EndpointState::at_rest(
                Side::Client,
                (Address { ip: LOCALHOST, port: client_port }),
                mirrored,
            ),
            time: 0,
            latency: 0,
            spins: 0,
            last_spin: false,
        }
    }

    /// The endpoint on one side.
    pub open spec fn endpoint(self, side: Side) -> EndpointState {
        match side {
            Side::Client => self.client,
            Side::Server => self.server,
        }
    }

    /// The calls owed to the endpoint on one side.
    pub open spec fn owed(self, side: Side) -> Seq<Call> {
        self.endpoint(side).owed(self.time, self.endpoint(side.peer()).addr)
    }

    /// The calls owed to one side are taken out.
    pub open spec fn driven(self, side: Side) -> PairState {
        match side {
            Side::Client => PairState { client: self.client.driven(self.time), ..self },
            Side::Server => PairState { server: self.server.driven(self.time), ..self },
        }
    }

    /// The requests of the endpoint on one side are carried out.
    pub open spec fn absorbed(self, side: Side, ios: Seq<Io>) -> PairState {
        match side {
            Side::Client => PairState { client: self.client.absorbed(ios), ..self },
            Side::Server => PairState { server: self.server.absorbed(ios), ..self },
        }
    }

    /// The datagrams of one side can be put on the link.
    pub open spec fn sendable(self, side: Side) -> bool {
        match side {
            Side::Client => self.client_sendable(),
            Side::Server => self.server_sendable(),
        }
    }

    /// The datagrams of one side are under way.
    pub open spec fn sent(self, side: Side) -> PairState {
        match side {
            Side::Client => self.client_sent(),
            Side::Server => self.server_sent(),
        }
    }

    /// The client's datagrams can be put on the link: their arrival and the
    /// count of spin bit flips are within the range of the clock and the
    /// counter, and none is empty.
    pub open spec fn client_sendable(self) -> bool {
        let sent = self.client.outbound;
        &&& sent.len() > 0 ==> self.time + self.latency <= u64::MAX
        &&& forall|i: int| 0 <= i < sent.len() ==> (#[trigger] sent[i]).packet@.len() > 0
        &&& self.spins + crate::packet::flips(self.last_spin, sent) <= u64::MAX
    }

    /// The server's datagrams can be put on the link: their arrival is within
    /// the range of the clock.
    pub open spec fn server_sendable(self) -> bool {
        self.server.outbound.len() > 0 ==> self.time + self.latency <= u64::MAX
    }

    /// The client's datagrams are under way to the server.
    pub open spec fn client_sent(self) -> PairState {
        let sent = self.client.outbound;
        PairState {
            client: EndpointState { outbound: seq![], ..self.client },
            server: EndpointState {
                inbound: self.server.inbound + under_way(sent, (self.time + self.latency) as u64),
                ..self.server
            },
            spins: (self.spins + crate::packet::flips(self.last_spin, sent)) as u64,
            last_spin: crate::packet::spin_after(self.last_spin, sent),
            ..self
        }
    }

    /// The server's datagrams are under way to the client.
    pub open spec fn server_sent(self) -> PairState {
        let sent = self.server.outbound;
        PairState {
            server: EndpointState { outbound: seq![], ..self.server },
            client: EndpointState {
                inbound: self.client.inbound + under_way(sent, (self.time + self.latency) as u64),
                ..self.client
            },
            ..self
        }
    }

    /// Neither endpoint waits for anything but its idle timer.
    pub open spec fn idle(self) -> bool {
        &&& self.client.wakeup() == self.client.timers[Timer::Idle.slot()]
        &&& self.server.wakeup() == self.server.timers[Timer::Idle.slot()]
    }

    /// When the next of the two endpoints has something to do.
    pub open spec fn wakeup(self) -> u64 {
        crate::endpoint::earlier(self.client.wakeup(), self.server.wakeup())
    }

    /// The clock has moved on to the next thing to do, never backwards.
    pub open spec fn advanced(self) -> PairState {
        if self.idle() || self.wakeup() <= self.time {
            self
        } else {
            PairState { time: self.wakeup(), ..self }
        }
    }
}

impl View for Pair {
    type V = PairState;

    open spec fn view(&self) -> PairState {
        PairState {
            server: self.server@,
            client: self.client@,
            time: self.time,
            latency: self.latency,
            spins: self.spins,
            last_spin: self.last_spin,
        }
    }
}

impl Pair {
    /// A pair at rest on the next ports, and what its two endpoints are to be
    /// made from: the server alone listens.
    pub fn new(
        server_config: Config,
        client_config: Config,
        listen_keys: ServerConfig,
        ports: &mut Ports,
        mirrored: bool,
    ) -> (made: NewPair)
        requires
            old(ports).available(),
        ensures
            made.pair@ == PairState::at_rest(
                old(ports).server.next,
                old(ports).client.next,
                mirrored,
            ),
            made.server == (EndpointSetup {
                side: Side::Server,
                config: server_config,
                listen: Some(listen_keys),
            }),
            made.client == (EndpointSetup {
                side: Side::Client,
                config: client_config,
                listen: None,
            }),
            final(ports).server.next == old(ports).server.next + 1,
            final(ports).client.next == old(ports).client.next + 1,
            crate::behaviour::sets_up(
                made,
                server_config,
                client_config,
                listen_keys,
                *old(ports),
                *final(ports),
                mirrored,
            ),
    {
        let server_addr = Address { ip: LOCALHOST, port: ports.server.take() };
        let client_addr = Address { ip: LOCALHOST, port: ports.client.take() };
        NewPair {
            pair: Pair {
                server: TestEndpoint::new(Side::Server, server_addr, mirrored),
                client: TestEndpoint::new(Side::Client, client_addr, mirrored),
                time: 0,
                latency: 0,
                spins: 0,
                last_spin: false,
            },
            server: EndpointSetup {
                side: Side::Server,
                config: server_config,
                listen: Some(listen_keys),
            },
            client: EndpointSetup { side: Side::Client, config: client_config, listen: None },
        }
    }

    /// A pair whose client may open several streams of each kind, with all
    /// other settings at their defaults.
    pub fn default(listen_keys: ServerConfig, ports: &mut Ports, mirrored: bool) -> (made: NewPair)
        requires
            old(ports).available(),
        ensures
            made.pair@ == PairState::at_rest(
                old(ports).server.next,
                old(ports).client.next,
                mirrored,
            ),
            made.server == (EndpointSetup {
                side: Side::Server,
                config: Config {
                    max_remote_streams_uni: Some(32),
                    max_remote_streams_bidi: Some(32),
                    reset_key: None,
                },
                listen: Some(listen_keys),
            }),
            made.client == (EndpointSetup {
                side: Side::Client,
                config: Config {
                    max_remote_streams_uni: None,
                    max_remote_streams_bidi: None,
                    reset_key: None,
                },
                listen: None,
            }),
            final(ports).server.next == old(ports).server.next + 1,
            final(ports).client.next == old(ports).client.next + 1,
    {
        let mut server = Config::default();
        server.max_remote_streams_uni = Some(32);
        server.max_remote_streams_bidi = Some(32);
        Pair::new(server, Config::default(), listen_keys, ports, mirrored)
    }

    /// The outcome of connecting: the handles of the connection at the client
    /// and at the server. The server has to have accepted a connection, and the
    /// first thing the client reports has to be that `client_conn` is
    /// established.
    pub fn connect(
        client_conn: ConnectionHandle,
        accepted: Option<ConnectionHandle>,
        reported: Option<(ConnectionHandle, Report)>,
    ) -> (conns: Result<(ConnectionHandle, ConnectionHandle), ConnectError>)
        ensures
            conns == match accepted {
                None => Err(ConnectError::NotAccepted),
                Some(server_conn) => if reported == Some((client_conn, Report::Connected)) {
                    Ok((client_conn, server_conn))
                } else {
                    Err(ConnectError::NotConnected)
                },
            },
            conns == connection(client_conn, accepted, reported),
    {
        match (accepted, reported) {
            (None, _) => Err(ConnectError::NotAccepted),
            (Some(server_conn), Some((conn, Report::Connected))) => if conn == client_conn {
                Ok((client_conn, server_conn))
            } else {
                Err(ConnectError::NotConnected)
            },
            (Some(_), _) => Err(ConnectError::NotConnected),
        }
    }

    /// Puts the client's datagrams on the link and counts the spin bit flips
    /// among them.
    pub fn send_client(&mut self) -> (mirror: Mirror)
        requires
            old(self)@.client_sendable(),
        ensures
            final(self)@ == old(self)@.client_sent(),
            mirror.repeats(Side::Client, old(self)@),
            crate::behaviour::links(old(self)@, Side::Client, final(self)@),
            crate::behaviour::mirrors(mirror, Side::Client, old(self)@.client, old(self)@.server),
    {
        let mut packets: Vec<Vec<u8>> = Vec::new();
        let ghost sent = old(self)@.client.outbound;
        let ghost start = self.last_spin;
        let ghost mut n: int = 0;
        assert(sent.skip(0) =~= sent);
        assert(sent.take(0) =~= seq![]);
        assert(self@.server.inbound =~= old(self)@.server.inbound + under_way(sent.take(0), 0));
        while self.client.outbound.len() > 0
            invariant
                0 <= n <= sent.len(),
                sent == old(self)@.client.outbound,
                start == old(self)@.last_spin,
                old(self)@.client_sendable(),
                self@ == (PairState {
                    client: EndpointState { outbound: sent.skip(n), ..old(self)@.client },
                    server: EndpointState {
                        inbound: old(self)@.server.inbound + under_way(
                            sent.take(n),
                            (self.time + self.latency) as u64,
                        ),
                        ..old(self)@.server
                    },
                    spins: self.spins,
                    last_spin: self.last_spin,
                    ..old(self)@
                }),
                self.last_spin == crate::packet::spin_after(start, sent.take(n)),
                self.spins == old(self)@.spins + crate::packet::flips(start, sent.take(n)),
                packets@.len() == if self.client.mirrored {
                    n
                } else {
                    0
                },
                forall|i: int|
                    0 <= i < packets@.len() ==> (#[trigger] packets@[i])@ == sent[i].packet@,
            decreases self.client.outbound@.len(),
        {
            if let Some(datagram) = self.client.outbound.pop_front() {
                proof {
                    assert(datagram == sent[n]);
                    assert(sent.take(n + 1).drop_last() =~= sent.take(n));
                    assert(sent.take(n + 1).last() == datagram);
                    lemma_flips_monotone(start, sent, n + 1);
                }
                let spin = spin_of(&datagram.packet, self.last_spin);
                if spin != self.last_spin {
                    self.spins = self.spins + 1;
                }
                self.last_spin = spin;
                if self.client.mirrored {
                    packets.push(datagram.packet.clone());
                }
                self.server.inbound.push_back(
                    Delivery {
                        at: self.time + self.latency,
                        ecn: datagram.ecn,
                        packet: datagram.packet,
                    },
                );
                proof {
                    let at = (self.time + self.latency) as u64;
                    assert(under_way(sent.take(n + 1), at) =~= under_way(sent.take(n), at).push(
                        self.server.inbound@.last(),
                    ));
                    assert(sent.skip(n).subrange(1, sent.skip(n).len() as int) =~= sent.skip(n + 1));
                    n = n + 1;
                    assert(self@.server.inbound =~= old(self)@.server.inbound + under_way(
                        sent.take(n),
                        at,
                    ));
                }
            }
        }
        assert(sent.take(n) =~= sent);
        let mirror = Mirror { from: Side::Client, to: self.server.addr, packets };
        proof {
            crate::behaviour::law_send_client(old(self)@);
            crate::behaviour::law_mirror(mirror, Side::Client, old(self)@);
        }
        mirror
    }

    /// Puts the server's datagrams on the link.
    pub fn send_server(&mut self) -> (mirror: Mirror)
        requires
            old(self)@.server_sendable(),
        ensures
            final(self)@ == old(self)@.server_sent(),
            mirror.repeats(Side::Server, old(self)@),
            crate::behaviour::links(old(self)@, Side::Server, final(self)@),
            crate::behaviour::mirrors(mirror, Side::Server, old(self)@.server, old(self)@.client),
    {
        let mut packets: Vec<Vec<u8>> = Vec::new();
        let ghost sent = old(self)@.server.outbound;
        let ghost mut n: int = 0;
        assert(sent.skip(0) =~= sent);
        assert(self@.client.inbound =~= old(self)@.client.inbound + under_way(sent.take(0), 0));
        while self.server.outbound.len() > 0
            invariant
                0 <= n <= sent.len(),
                sent == old(self)@.server.outbound,
                old(self)@.server_sendable(),
                self@ == (PairState {
                    server: EndpointState { outbound: sent.skip(n), ..old(self)@.server },
                    client: EndpointState {
                        inbound: old(self)@.client.inbound + under_way(
                            sent.take(n),
                            (self.time + self.latency) as u64,
                        ),
                        ..old(self)@.client
                    },
                    ..old(self)@
                }),
                packets@.len() == if self.server.mirrored {
                    n
                } else {
                    0
                },
                forall|i: int|
                    0 <= i < packets@.len() ==> (#[trigger] packets@[i])@ == sent[i].packet@,
            decreases self.server.outbound@.len(),
        {
            if let Some(datagram) = self.server.outbound.pop_front() {
                if self.server.mirrored {
                    packets.push(datagram.packet.clone());
                }
                self.client.inbound.push_back(
                    Delivery {
                        at: self.time + self.latency,
                        ecn: datagram.ecn,
                        packet: datagram.packet,
                    },
                );
                proof {
                    let at = (self.time + self.latency) as u64;
                    assert(under_way(sent.take(n + 1), at) =~= under_way(sent.take(n), at).push(
                        self.client.inbound@.last(),
                    ));
                    assert(sent.skip(n).subrange(1, sent.skip(n).len() as int) =~= sent.skip(n + 1));
                    n = n + 1;
                    assert(self@.client.inbound =~= old(self)@.client.inbound + under_way(
                        sent.take(n),
                        at,
                    ));
                }
            }
        }
        assert(sent.take(n) =~= sent);
        let mirror = Mirror { from: Side::Server, to: self.client.addr, packets };
        proof {
            crate::behaviour::law_send_server(old(self)@);
            crate::behaviour::law_mirror(mirror, Side::Server, old(self)@);
        }
        mirror
    }

    /// Whether the datagrams of one side can be put on the link. They cannot
    /// if their arrival is beyond the range of the clock, and the client's
    /// cannot if one is empty or the count of spin bit flips would overflow.
    pub fn can_send(&self, side: Side) -> (ok: bool)
        ensures
            ok == self@.sendable(side),
    {
        match side {
            Side::Client => self.client_can_send(),
            Side::Server => {
                self.server.outbound.len() == 0 || self.time.checked_add(self.latency).is_some()
            },
        }
    }

    fn client_can_send(&self) -> (ok: bool)
        ensures
            ok == self@.client_sendable(),
    {
        let ghost sent = self@.client.outbound;
        if self.client.outbound.len() > 0 && self.time.checked_add(self.latency).is_none() {
            return false;
        }
        let mut spins: u64 = self.spins;
        let mut last: bool = self.last_spin;
        let mut i: usize = 0;
        assert(sent.take(0) =~= seq![]);
        while i < self.client.outbound.len()
            invariant
                i <= sent.len(),
                sent == self@.client.outbound,
                sent.len() > 0 ==> self.time + self.latency <= u64::MAX,
                forall|k: int| 0 <= k < i ==> (#[trigger] sent[k]).packet@.len() > 0,
                last == crate::packet::spin_after(self.last_spin, sent.take(i as int)),
                spins == self.spins + crate::packet::flips(self.last_spin, sent.take(i as int)),
            decreases sent.len() - i,
        {
            let packet = &self.client.outbound[i].packet;
            if packet.len() == 0 {
                assert(sent[i as int].packet@.len() == 0);
                return false;
            }
            proof {
                assert(sent.take(i + 1).drop_last() =~= sent.take(i as int));
                assert(sent.take(i + 1).last() == sent[i as int]);
                lemma_flips_monotone(self.last_spin, sent, i + 1);
            }
            let spin = spin_of(packet, last);
            if spin != last {
                if spins == u64::MAX {
                    return false;
                }
                spins = spins + 1;
            }
            last = spin;
            i += 1;
        }
        assert(sent.take(i as int) =~= sent);
        true
    }

    /// Takes out the calls owed to the client.
    pub fn drive_client(&mut self) -> (calls: Vec<Call>)
        ensures
            calls@ == old(self)@.owed(Side::Client),
            final(self)@ == old(self)@.driven(Side::Client),
            crate::behaviour::acts(
                old(self)@.client,
                old(self)@.time,
                old(self)@.server.addr,
                calls@,
                final(self)@.client,
            ),
    {
        self.client.drive(self.time, self.server.addr)
    }

    /// Takes out the calls owed to the server.
    pub fn drive_server(&mut self) -> (calls: Vec<Call>)
        ensures
            calls@ == old(self)@.owed(Side::Server),
            final(self)@ == old(self)@.driven(Side::Server),
            crate::behaviour::acts(
                old(self)@.server,
                old(self)@.time,
                old(self)@.client.addr,
                calls@,
                final(self)@.server,
            ),
    {
        self.server.drive(self.time, self.client.addr)
    }

    /// Moves the clock on to the next thing to do. Returns whether the
    /// connection is not idle.
    pub fn advance(&mut self) -> (busy: bool)
        ensures
            busy == !old(self)@.idle(),
            final(self)@ == old(self)@.advanced(),
            busy == !(crate::behaviour::idles(old(self)@.client) && crate::behaviour::idles(
                old(self)@.server,
            )),
            crate::behaviour::moves_on(old(self)@, final(self)@),
    {
        proof {
            crate::behaviour::law_idle(self@);
            crate::behaviour::law_advance(self@);
        }
        let client_t = self.client.next_wakeup();
        let server_t = self.server.next_wakeup();
        if client_t == self.client.timers[Timer::Idle.index()] && server_t
            == self.server.timers[Timer::Idle.index()] {
            return false;
        }
        if client_t < server_t {
            if client_t > self.time {
                self.time = client_t;
            }
        } else {
            if server_t > self.time {
                self.time = server_t;
            }
        }
        true
    }

    /// One transition of a step. A step lets the client act, then the server,
    /// and then moves the clock on.
    pub fn step(&mut self, event: Event) -> (action: Action)
        requires
            event matches Event::Polled(side, None) ==> old(self)@.sendable(side),
        ensures
            stepped(old(self)@, event, final(self)@, action),
    {
        match event {
            Event::Begin => {
                let now = self.time;
                let drain = self.client.mirrored;
                let calls = self.drive_client();
                Action::Drive { mirror: None, side: Side::Client, now, drain, calls }
            },
            Event::Polled(side, Some(io)) => {
                match side {
                    Side::Client => self.client.absorb(io),
                    Side::Server => self.server.absorb(io),
                }
                Action::Poll { side, now: self.time }
            },
            Event::Polled(Side::Client, None) => {
                let mirror = self.send_client();
                let now = self.time;
                let drain = self.server.mirrored;
                let calls = self.drive_server();
                Action::Drive { mirror: Some(mirror), side: Side::Server, now, drain, calls }
            },
            Event::Polled(Side::Server, None) => {
                let mirror = self.send_server();
                let busy = self.advance();
                Action::Stepped { mirror: Some(mirror), busy }
            },
        }
    }

    /// One transition of a run that takes steps until both connections are
    /// idle.
    pub fn drive(&mut self, event: Event) -> (action: Action)
        requires
            event matches Event::Polled(side, None) ==> old(self)@.sendable(side),
        ensures
            driven(old(self)@, event, final(self)@, action),
    {
        match self.step(event) {
            Action::Stepped { mirror, busy: true } => {
                let now = self.time;
                let drain = self.client.mirrored;
                let calls = self.drive_client();
                Action::Drive { mirror, side: Side::Client, now, drain, calls }
            },
            action => action,
        }
    }
}

/// A new pair, and what its endpoints are to be made from.
#[derive(Debug)]
pub struct NewPair {
    pub pair: Pair,
    pub server: EndpointSetup,
    pub client: EndpointSetup,
}

/// What an endpoint reports of a connection.
#[derive(Clone, Copy, Debug, PartialEq, Eq, Structural)]
pub enum Report {
    /// The connection is established.
    Connected,
    Other,
}

/// Why a connection was not made.
#[derive(Clone, Copy, Debug, PartialEq, Eq, Structural)]
pub enum ConnectError {
    /// The server has no connection to accept.
    NotAccepted,
    /// The client did not report the connection as established.
    NotConnected,
}

/// The handles of the connection at the client and at the server, if the server
/// has `accepted` one and the client has `reported` its own as established.
pub open spec fn connection(
    client_conn: ConnectionHandle,
    accepted: Option<ConnectionHandle>,
    reported: Option<(ConnectionHandle, Report)>,
) -> Result<(ConnectionHandle, ConnectionHandle), ConnectError> {
    match (accepted, reported) {
        (Some(server_conn), Some((conn, Report::Connected))) if conn == client_conn => Ok(
            (client_conn, server_conn),
        ),
        (Some(_), _) => Err(ConnectError::NotConnected),
        (None, _) => Err(ConnectError::NotAccepted),
    }
}

/// What the simulation is told.
#[derive(Debug)]
pub enum Event {
    /// Begin a step.
    Begin,
    /// The endpoint on a side was polled: its request, or `None` if it has no
    /// more.
    Polled(Side, Option<Io>),
}

/// What the simulation wants done next.
#[derive(Debug)]
pub enum Action {
    /// Send `mirror`, discard what has come in on the socket of `side` if
    /// `drain` is set, make `calls` on its endpoint, and poll it.
    Drive { mirror: Option<Mirror>, side: Side, now: u64, drain: bool, calls: Vec<Call> },
    /// Poll the endpoint again.
    Poll { side: Side, now: u64 },
    /// Send `mirror`; the step is over. `busy` says whether the connection is
    /// not idle.
    Stepped { mirror: Option<Mirror>, busy: bool },
}

impl Action {
    /// The action lets the endpoint on one side of `pair` act.
    pub open spec fn drives(self, side: Side, pair: PairState) -> bool {
        &&& self matches Action::Drive { side: driven, now, drain, calls, .. }
        &&& driven == side
        &&& now == pair.time
        &&& drain == pair.endpoint(side).mirrored
        &&& calls@ == pair.owed(side)
    }

    /// The action repeats what `from` has waiting to be sent in `pair`.
    pub open spec fn mirrors(self, from: Side, pair: PairState) -> bool {
        match self {
            Action::Drive { mirror: Some(mirror), .. } => mirror.repeats(from, pair),
            Action::Stepped { mirror: Some(mirror), .. } => mirror.repeats(from, pair),
            _ => false,
        }
    }
}

/// What `event` does to a pair in the course of one step, and the action that
/// follows.
pub open spec fn stepped(before: PairState, event: Event, after: PairState, action: Action) -> bool {
    match event {
        Event::Begin => {
            &&& after == before.driven(Side::Client)
            &&& action.drives(Side::Client, before)
            &&& action matches Action::Drive { mirror: None, .. }
        },
        Event::Polled(side, Some(io)) => {
            &&& after == before.absorbed(side, seq![io])
            &&& action == (Action::Poll { side, now: before.time })
        },
        Event::Polled(Side::Client, None) => {
            &&& after == before.client_sent().driven(Side::Server)
            &&& action.drives(Side::Server, before.client_sent())
            &&& action.mirrors(Side::Client, before)
        },
        Event::Polled(Side::Server, None) => {
            &&& after == before.server_sent().advanced()
            &&& action matches Action::Stepped { busy, .. } && busy == !before.server_sent().idle()
            &&& action.mirrors(Side::Server, before)
        },
    }
}

/// What `event` does to a pair in the course of a run, and the action that
/// follows: as in a step, but unless the connection is idle the end of a step
/// is the beginning of the next.
pub open spec fn driven(before: PairState, event: Event, after: PairState, action: Action) -> bool {
    if event == Event::Polled(Side::Server, None) && !before.server_sent().idle() {
        &&& after == before.server_sent().advanced().driven(Side::Client)
        &&& action.drives(Side::Client, before.server_sent().advanced())
        &&& action.mirrors(Side::Server, before)
    } else {
        stepped(before, event, after, action)
    }
}

/// A prefix of what is sent holds at most as many flips as the whole.
proof fn lemma_flips_monotone(before: bool, sent: Seq<Datagram>, n: int)
    requires
        0 <= n <= sent.len(),
    ensures
        crate::packet::flips(before, sent.take(n)) <= crate::packet::flips(before, sent),
    decreases sent.len() - n,
{
    if n < sent.len() {
        lemma_flips_monotone(before, sent, n + 1);
        assert(sent.take(n + 1).drop_last() =~= sent.take(n));
    } else {
        assert(sent.take(n) =~= sent);
    }
}

} // verus!
