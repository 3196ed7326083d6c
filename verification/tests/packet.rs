use quic_pair::log::{emit_arguments, log_line};
use quic_pair::packet::{negotiates, offers_version, spin_of};

/// The header of the reply to a packet with a reserved version, behind the
/// first byte: version zero, the lengths of the connection ids, and the ids.
const HEADER: [u8; 13] = [0, 0, 0, 0, 0x11, 0, 0, 0, 0, 0, 0, 0, 0];

fn reply(first: u8, header: &[u8], list: &[u8]) -> Vec<u8> {
    let mut packet = vec![first];
    packet.extend_from_slice(header);
    packet.extend_from_slice(list);
    packet
}

#[test]
fn versions_are_read_in_big_endian_order() {
    let list = [0xff, 0x00, 0x00, 0x11, 0x0a, 0x1a, 0x2a, 0x3a];
    assert!(offers_version(&list, 0xff00_0011));
    assert!(offers_version(&list, 0x0a1a_2a3a));
    assert!(!offers_version(&list, 0x1100_00ff));
    assert!(!offers_version(&list, 0x0000_110a));
    assert!(!offers_version(&[], 0));
}

#[test]
fn a_partial_version_is_not_offered() {
    assert!(!offers_version(&[0, 0, 0], 0));
    assert!(offers_version(&[0, 0, 0, 1, 0, 0], 1));
    assert!(!offers_version(&[0, 0, 0, 1, 0, 0, 0], 0));
}

#[test]
fn negotiation_reply_is_recognised() {
    let list = [0x0a, 0x1a, 0x2a, 0x3a, 0xff, 0x00, 0x00, 0x11];
    assert!(negotiates(&reply(0x80, &HEADER, &list), &HEADER, 0xff00_0011));
    assert!(negotiates(&reply(0xff, &HEADER, &list), &HEADER, 0xff00_0011));
}

#[test]
fn other_replies_are_not_negotiation() {
    let list = [0xff, 0x00, 0x00, 0x11];
    assert!(!negotiates(&reply(0x7f, &HEADER, &list), &HEADER, 0xff00_0011));
    assert!(!negotiates(&reply(0x80, &HEADER, &list), &HEADER, 0xff00_0012));
    assert!(!negotiates(&reply(0x80, &HEADER[..12], &[]), &HEADER, 0));
    assert!(!negotiates(&[], &HEADER, 0));
    for i in 0..HEADER.len() {
        let mut header = HEADER;
        header[i] ^= 1;
        assert!(!negotiates(&reply(0x80, &header, &list), &HEADER, 0xff00_0011));
    }
}

#[test]
fn spin_bit_is_read_from_short_headers_only() {
    assert!(spin_of(&vec![0x20], false));
    assert!(!spin_of(&vec![0x5f], true));
    assert!(spin_of(&vec![0x80], true));
    assert!(!spin_of(&vec![0xa0], false));
}

#[test]
fn log_records_list_their_fields() {
    let mut fields = String::new();
    emit_arguments(&mut fields, "side", "Server");
    emit_arguments(&mut fields, "n", "3");
    assert_eq!(fields, ", side: Server, n: 3");
    assert_eq!(log_line("INFO", "closing", &fields), "INFO closing, side: Server, n: 3");
    assert_eq!(log_line("TRCE", "", ""), "TRCE ");
}
