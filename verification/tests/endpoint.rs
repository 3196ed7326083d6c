use quic_pair::endpoint::TestEndpoint;
use quic_pair::proto::{
    Address, Call, ConnectionHandle, Delivery, EcnCodepoint, Io, Side, Timer, TimerUpdate,
    LOCALHOST, NEVER,
};

const REMOTE: Address = Address { ip: LOCALHOST, port: 7890 };

fn endpoint() -> TestEndpoint {
    TestEndpoint::new(Side::Client, Address { ip: LOCALHOST, port: 44433 }, false)
}

fn start(timer: Timer, at: u64) -> Io {
    Io::TimerUpdate { connection: ConnectionHandle(3), timer, update: TimerUpdate::Start(at) }
}

fn transmit(packet: &[u8]) -> Io {
    Io::Transmit { ecn: None, packet: packet.to_vec() }
}

fn arrive(endpoint: &mut TestEndpoint, at: u64, packet: &[u8]) {
    endpoint.inbound.push_back(Delivery {
        at,
        ecn: Some(EcnCodepoint::ECT0),
        packet: packet.to_vec(),
    });
}

fn timeouts(calls: &[Call]) -> Vec<Timer> {
    calls
        .iter()
        .filter_map(|call| match call {
            Call::Timeout { timer, .. } => Some(*timer),
            Call::Handle { .. } => None,
        })
        .collect()
}

fn packets(calls: &[Call]) -> Vec<Vec<u8>> {
    calls
        .iter()
        .filter_map(|call| match call {
            Call::Handle { packet, .. } => Some(packet.clone()),
            Call::Timeout { .. } => None,
        })
        .collect()
}

#[test]
fn new_endpoint_is_at_rest() {
    let mut endpoint = TestEndpoint::new(Side::Server, REMOTE, true);
    assert_eq!(endpoint.side, Side::Server);
    assert_eq!(endpoint.addr, REMOTE);
    assert!(endpoint.mirrored);
    assert_eq!(endpoint.timers, [NEVER; 4]);
    assert_eq!(endpoint.conn, None);
    assert!(endpoint.outbound.is_empty());
    assert!(endpoint.delayed.is_empty());
    assert!(endpoint.inbound.is_empty());
    assert_eq!(endpoint.next_wakeup(), NEVER);
    assert!(endpoint.drive(NEVER, REMOTE).is_empty());
}

#[test]
fn timers_are_slotted_in_the_order_of_values() {
    for (slot, timer) in Timer::values().iter().enumerate() {
        assert_eq!(timer.index(), slot);
    }
    assert_eq!(TimerUpdate::Start(12).deadline(), 12);
    assert_eq!(TimerUpdate::Stop.deadline(), NEVER);
}

#[test]
fn expired_timers_come_before_arrivals() {
    let mut endpoint = endpoint();
    endpoint.absorb(start(Timer::KeyDiscard, 5));
    endpoint.absorb(start(Timer::LossDetection, 10));
    endpoint.absorb(start(Timer::Idle, 11));
    arrive(&mut endpoint, 10, b"first");
    arrive(&mut endpoint, 11, b"second");

    let calls = endpoint.drive(10, REMOTE);
    assert_eq!(calls.len(), 3);
    assert_eq!(timeouts(&calls), vec![Timer::LossDetection, Timer::KeyDiscard]);
    assert!(matches!(
        calls[0],
        Call::Timeout { now: 10, conn: ConnectionHandle(3), timer: Timer::LossDetection }
    ));
    match &calls[2] {
        Call::Handle { now, remote, ecn, packet } => {
            assert_eq!(*now, 10);
            assert_eq!(*remote, REMOTE);
            assert_eq!(*ecn, Some(EcnCodepoint::ECT0));
            assert_eq!(packet, b"first");
        }
        other => panic!("unexpected call: {:?}", other),
    }
    assert_eq!(endpoint.timers, [NEVER, 11, NEVER, NEVER]);
    assert_eq!(endpoint.inbound.len(), 1);
}

#[test]
fn nothing_is_owed_twice() {
    let mut endpoint = endpoint();
    endpoint.absorb(start(Timer::Close, 7));
    arrive(&mut endpoint, 3, b"x");
    assert_eq!(endpoint.drive(8, REMOTE).len(), 2);
    assert!(endpoint.drive(8, REMOTE).is_empty());
}

#[test]
fn timers_without_a_connection_do_not_expire() {
    let mut endpoint = endpoint();
    endpoint.timers = [1, 2, 3, 4];
    assert!(endpoint.drive(100, REMOTE).is_empty());
    assert_eq!(endpoint.timers, [1, 2, 3, 4]);
}

#[test]
fn a_delivery_waits_for_those_before_it() {
    let mut endpoint = endpoint();
    arrive(&mut endpoint, 1, b"a");
    arrive(&mut endpoint, 9, b"b");
    arrive(&mut endpoint, 2, b"c");
    assert_eq!(packets(&endpoint.drive(5, REMOTE)), vec![b"a".to_vec()]);
    assert_eq!(endpoint.next_wakeup(), 9);
    assert_eq!(packets(&endpoint.drive(9, REMOTE)), vec![b"b".to_vec(), b"c".to_vec()]);
}

#[test]
fn the_last_update_of_a_timer_counts() {
    let mut endpoint = endpoint();
    endpoint.absorb(start(Timer::Idle, 50));
    endpoint.absorb(start(Timer::Close, 60));
    endpoint.absorb(Io::TimerUpdate {
        connection: ConnectionHandle(4),
        timer: Timer::Close,
        update: TimerUpdate::Stop,
    });
    endpoint.absorb(start(Timer::Idle, 70));
    endpoint.absorb(transmit(b"packet"));
    assert_eq!(endpoint.timers, [NEVER, 70, NEVER, NEVER]);
    assert_eq!(endpoint.conn, Some(ConnectionHandle(3)));
    assert_eq!(endpoint.outbound.len(), 1);
    assert_eq!(endpoint.outbound[0].ecn, None);
    assert_eq!(endpoint.outbound[0].packet, b"packet");
}

#[test]
fn wakeup_is_the_earliest_of_all() {
    let mut endpoint = endpoint();
    for (timer, at) in [
        (Timer::LossDetection, 40),
        (Timer::Idle, 30),
        (Timer::Close, 20),
        (Timer::KeyDiscard, 10),
    ] {
        endpoint.absorb(start(timer, at));
        assert_eq!(endpoint.next_wakeup(), at);
    }
    arrive(&mut endpoint, 11, b"later");
    assert_eq!(endpoint.next_wakeup(), 10);
    endpoint.inbound.clear();
    arrive(&mut endpoint, 9, b"sooner");
    assert_eq!(endpoint.next_wakeup(), 9);
}

#[test]
fn what_is_delayed_goes_out_last() {
    let mut endpoint = endpoint();
    endpoint.absorb(transmit(b"1"));
    endpoint.delay_outbound();
    assert!(endpoint.outbound.is_empty());
    assert_eq!(endpoint.delayed.len(), 1);
    endpoint.absorb(transmit(b"two"));
    endpoint.finish_delay();
    assert!(endpoint.delayed.is_empty());
    let sent: Vec<Vec<u8>> = endpoint.outbound.iter().map(|d| d.packet.clone()).collect();
    assert_eq!(sent, vec![b"two".to_vec(), b"1".to_vec()]);
}

#[test]
fn release_undoes_delay() {
    let mut endpoint = endpoint();
    endpoint.absorb(transmit(b"1"));
    endpoint.absorb(transmit(b"2"));
    endpoint.delay_outbound();
    endpoint.finish_delay();
    let sent: Vec<Vec<u8>> = endpoint.outbound.iter().map(|d| d.packet.clone()).collect();
    assert_eq!(sent, vec![b"1".to_vec(), b"2".to_vec()]);
    endpoint.delay_outbound();
    assert_eq!(endpoint.delayed.len(), 2);
}
