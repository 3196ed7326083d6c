//! What the simulation reads of a packet: the form of its header, the spin
//! bit, and the versions that a version negotiation packet offers.
use byteorder::{BigEndian, ByteOrder};
use vstd::prelude::*;
use vstd::slice::slice_subrange;

use crate::proto::Datagram;

verus! {

/// The bit of a packet's first byte that marks a long header.
pub const LONG_HEADER_FORM: u8 = 0x80;

/// The bit of a short header's first byte that carries the latency spin bit.
pub const SPIN_BIT: u8 = 0x20;

/// Whether `packet` begins with a long header, which has no spin bit.
pub open spec fn long_header(packet: Seq<u8>) -> bool {
    packet[0] & LONG_HEADER_FORM != 0
}

/// The spin bit of a packet with a short header.
pub open spec fn spin_bit(packet: Seq<u8>) -> bool {
    packet[0] & SPIN_BIT != 0
}

/// The spin bit of the last short header among `sent`, or `before` if there is
/// none.
pub open spec fn spin_after(before: bool, sent: Seq<Datagram>) -> bool
    decreases sent.len(),
{
    if sent.len() == 0 {
        before
    } else if long_header(sent.last().packet@) {
        spin_after(before, sent.drop_last())
    } else {
        spin_bit(sent.last().packet@)
    }
}

/// How often the spin bit flips along the short headers of `sent`, if it was
/// `before` to begin with.
pub open spec fn flips(before: bool, sent: Seq<Datagram>) -> nat
    decreases sent.len(),
{
    if sent.len() == 0 {
        0
    } else {
        let flipped = spin_after(before, sent) != spin_after(before, sent.drop_last());
        flips(before, sent.drop_last()) + if flipped {
            1nat
        } else {
            0nat
        }
    }
}

/// The spin bit of `packet`, or `before` if its header is long.
pub fn spin_of(packet: &Vec<u8>, before: bool) -> (spin: bool)
    requires
        packet@.len() > 0,
    ensures
        spin == (if long_header(packet@) {
            before
        } else {
            spin_bit(packet@)
        }),
        packet@[0] >= 128 ==> spin == before,
        packet@[0] < 128 ==> (spin <==> (packet@[0] / 32) % 2 == 1),
{
    proof {
        crate::behaviour::law_header_bits(packet@, packet@);
    }
    if packet[0] & LONG_HEADER_FORM == 0 {
        packet[0] & SPIN_BIT != 0
    } else {
        before
    }
}

/// The number that four bytes spell, the most significant byte first.
pub open spec fn big_endian(bytes: Seq<u8>) -> int {
    bytes[0] * 0x100_0000 + bytes[1] * 0x1_0000 + bytes[2] * 0x100 + bytes[3]
}

/// The version at place `i` of a list of versions of four bytes each.
pub open spec fn version_at(list: Seq<u8>, i: int) -> int {
    big_endian(list.subrange(4 * i, 4 * i + 4))
}

/// `version` is in a list of versions. Bytes behind the last whole version are
/// no version.
pub open spec fn offered(list: Seq<u8>, version: u32) -> bool {
    exists|i: int| 0 <= i && 4 * i + 4 <= list.len() && #[trigger] version_at(list, i) == version
}

/// Calls `BigEndian::read_u32` of `byteorder`, which reads the first four bytes
/// and panics if there are fewer. Claimed: the number is theirs in big-endian
/// order.
#[verifier::external_body]
fn read_u32(bytes: &[u8]) -> (number: u32)
    requires
        bytes@.len() >= 4,
    ensures
        number == big_endian(bytes@),
{
    BigEndian::read_u32(bytes)
}

/// Whether `version` is in a list of versions of four bytes each.
pub fn offers_version(list: &[u8], version: u32) -> (found: bool)
    ensures
        found == offered(list@, version),
        found == crate::behaviour::lists_version(list@, 0, version),
{
    proof {
        crate::behaviour::law_offered(list@, version);
    }
    let mut at: usize = 0;
    while at < list.len() && list.len() - at >= 4
        invariant
            at <= list@.len(),
            at % 4 == 0,
            forall|i: int| 0 <= i < at / 4 ==> #[trigger] version_at(list@, i) != version,
        decreases list@.len() - at,
    {
        let entry = read_u32(slice_subrange(list, at, at + 4));
        assert(entry == version_at(list@, at as int / 4));
        if entry == version {
            proof {
                crate::behaviour::law_offered(list@, version);
            }
            return true;
        }
        at += 4;
    }
    false
}

/// `packet` has a long header that goes on as `header` behind the first byte,
/// and then lists versions with `version` among them.
pub open spec fn negotiation(packet: Seq<u8>, header: Seq<u8>, version: u32) -> bool {
    let list = header.len() as int + 1;
    &&& packet.len() >= list
    &&& long_header(packet)
    &&& packet.subrange(1, list) == header
    &&& offered(packet.skip(list), version)
}

/// Whether `packet` is a version negotiation packet whose header goes on as
/// `header` behind the first byte, and that offers `version`.
pub fn negotiates(packet: &[u8], header: &[u8], version: u32) -> (ok: bool)
    ensures
        ok == negotiation(packet@, header@, version),
        ok ==> crate::behaviour::lists_version(packet@, header@.len() as int + 1, version),
{
    proof {
        crate::behaviour::law_negotiation(packet@, header@, version);
    }
    if packet.len() <= header.len() || packet[0] & LONG_HEADER_FORM == 0 {
        return false;
    }
    let list: usize = header.len() + 1;
    let mut i: usize = 0;
    while i < header.len()
        invariant
            i <= header@.len() < packet@.len(),
            list == header@.len() + 1,
            forall|k: int| 0 <= k < i ==> packet@[k + 1] == #[trigger] header@[k],
        decreases header@.len() - i,
    {
        if packet[i + 1] != header[i] {
            assert(packet@.subrange(1, list as int)[i as int] != header@[i as int]);
            return false;
        }
        i += 1;
    }
    assert(packet@.subrange(1, list as int) =~= header@);
    assert(packet@.skip(list as int) =~= packet@.subrange(list as int, packet@.len() as int));
    offers_version(slice_subrange(packet, list, packet.len()), version)
}

} // verus!
