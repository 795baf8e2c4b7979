//! Reading the source address and destination port of a knock out of a raw
//! Ethernet frame. The header layouts are those that `pnet_packet` reads:
//! each accessor below states what the matching `pnet_packet` accessor
//! returns.

use vstd::prelude::*;
use crate::text::str_eq;

verus! {

/// The big-endian 16-bit number at `s[i..i + 2]`.
pub open spec fn be16(s: Seq<u8>, i: int) -> u16 {
    (s[i] as int * 256 + s[i + 1] as int) as u16
}

/// The big-endian 32-bit number at `s[i..i + 4]`.
pub open spec fn be32(s: Seq<u8>, i: int) -> u32 {
    (s[i] as int * 16777216 + s[i + 1] as int * 65536 + s[i + 2] as int * 256 + s[i + 3] as int) as u32
}

/// The EtherType of IPv4 frames.
pub const ETHERTYPE_IPV4: u16 = 0x0800;

/// The IP protocol number of TCP.
pub const IPPROTO_TCP: u8 = 6;

/// The IP protocol number of UDP.
pub const IPPROTO_UDP: u8 = 17;

/// `EthernetPacket::new` accepts a frame of at least 14 bytes.
pub open spec fn ethernet_ok(f: Seq<u8>) -> bool {
    f.len() >= 14
}

/// `EthernetPacket::get_ethertype`: bytes 12 and 13.
pub open spec fn ethertype(f: Seq<u8>) -> u16 {
    be16(f, 12)
}

/// `EthernetPacket::payload`: all that follows the 14-byte header.
pub open spec fn ethernet_payload(f: Seq<u8>) -> Seq<u8> {
    f.skip(14)
}

/// `Ipv4Packet::new` accepts a packet of at least 20 bytes.
pub open spec fn ipv4_ok(p: Seq<u8>) -> bool {
    p.len() >= 20
}

/// `Ipv4Packet::get_header_length`: the low four bits of byte 0, in 32-bit
/// words.
pub open spec fn ipv4_header_words(p: Seq<u8>) -> int {
    p[0] as int % 16
}

/// `Ipv4Packet::get_total_length`: bytes 2 and 3.
pub open spec fn ipv4_total_length(p: Seq<u8>) -> int {
    be16(p, 2) as int
}

/// `Ipv4Packet::get_next_level_protocol`: byte 9.
pub open spec fn ipv4_protocol(p: Seq<u8>) -> u8 {
    p[9]
}

/// `Ipv4Packet::get_source`: bytes 12 to 15, as a `u32`.
pub open spec fn ipv4_source(p: Seq<u8>) -> u32 {
    be32(p, 12)
}

/// Where `Ipv4Packet::payload` starts: after the 20 fixed bytes and the
/// options, which the header length gives (never before byte 20).
pub open spec fn ipv4_payload_start(p: Seq<u8>) -> int {
    if ipv4_header_words(p) * 4 > 20 {
        ipv4_header_words(p) * 4
    } else {
        20
    }
}

/// Where `Ipv4Packet::payload` ends: the total length less the header length
/// after its start, but never past the end of the packet.
pub open spec fn ipv4_payload_end(p: Seq<u8>) -> int {
    let len = if ipv4_total_length(p) > ipv4_header_words(p) * 4 {
        ipv4_total_length(p) - ipv4_header_words(p) * 4
    } else {
        0
    };
    let end = ipv4_payload_start(p) + len;
    if end < p.len() {
        end
    } else {
        p.len() as int
    }
}

/// `Ipv4Packet::payload`: empty if the packet ends before it starts.
pub open spec fn ipv4_payload(p: Seq<u8>) -> Seq<u8> {
    if p.len() <= ipv4_payload_start(p) {
        Seq::empty()
    } else {
        p.subrange(ipv4_payload_start(p), ipv4_payload_end(p))
    }
}

/// `UdpPacket::new` accepts a datagram of at least 8 bytes.
pub open spec fn udp_ok(u: Seq<u8>) -> bool {
    u.len() >= 8
}

/// `TcpPacket::new` accepts a segment of at least 20 bytes.
pub open spec fn tcp_ok(t: Seq<u8>) -> bool {
    t.len() >= 20
}

/// `UdpPacket::get_destination` and `TcpPacket::get_destination`: bytes 2
/// and 3.
pub open spec fn dst_port(s: Seq<u8>) -> u16 {
    be16(s, 2)
}

/// `TcpPacket::get_flags`: byte 13.
pub open spec fn tcp_flags(t: Seq<u8>) -> u8 {
    t[13]
}

/// Whether TCP flags mark a SYN without ACK: a connection's first segment.
pub open spec fn is_syn(flags: u8) -> bool {
    flags & 0x02 != 0 && flags & 0x10 == 0
}

/// The knock a frame carries: its IPv4 source and destination port. With
/// `proto` `"udp"` a UDP datagram counts; whatever `proto` says, a TCP SYN
/// without ACK counts. Every other frame carries none.
pub open spec fn frame_knock(f: Seq<u8>, proto: Seq<char>) -> Option<(u32, u16)> {
    if !ethernet_ok(f) || ethertype(f) != ETHERTYPE_IPV4 {
        None
    } else {
        let ip = ethernet_payload(f);
        if !ipv4_ok(ip) {
            None
        } else if proto == "udp"@ && ipv4_protocol(ip) == IPPROTO_UDP {
            let udp = ipv4_payload(ip);
            if udp_ok(udp) {
                Some((ipv4_source(ip), dst_port(udp)))
            } else {
                None
            }
        } else if ipv4_protocol(ip) == IPPROTO_TCP {
            let tcp = ipv4_payload(ip);
            if tcp_ok(tcp) && is_syn(tcp_flags(tcp)) {
                Some((ipv4_source(ip), dst_port(tcp)))
            } else {
                None
            }
        } else {
            None
        }
    }
}

/// The knock a frame carries does not depend on the IPv4 flags and fragment
/// offset (bytes 6 and 7 of the IPv4 header): a knock with the Don't
/// Fragment bit set counts like any other.
pub proof fn law_knock_ignores_ipv4_fragment_field(f: Seq<u8>, proto: Seq<char>, b6: u8, b7: u8)
    requires
        f.len() >= 14 + 20,
    ensures
        frame_knock(f.update(20, b6).update(21, b7), proto) == frame_knock(f, proto),
{
    let g = f.update(20, b6).update(21, b7);
    let ip = ethernet_payload(f);
    let jp = ethernet_payload(g);
    assert(g.len() == f.len());
    assert(be16(g, 12) == be16(f, 12));
    assert(forall|k: int| 0 <= k < ip.len() && k != 6 && k != 7 ==> #[trigger] jp[k] == ip[k]);
    assert(jp.len() == ip.len());
    assert(ipv4_header_words(jp) == ipv4_header_words(ip));
    assert(ipv4_total_length(jp) == ipv4_total_length(ip));
    assert(ipv4_protocol(jp) == ipv4_protocol(ip));
    assert(ipv4_source(jp) == ipv4_source(ip));
    assert(ipv4_payload_start(jp) == ipv4_payload_start(ip));
    assert(ipv4_payload_end(jp) == ipv4_payload_end(ip));
    assert(ipv4_payload(jp) =~= ipv4_payload(ip));
}

/// A well-formed IPv4 TCP segment with SYN set and ACK clear is a knock
/// whatever else its header holds (flags, fragment field, TTL, checksum,
/// addresses): its source address and destination port, under any `proto`.
pub proof fn law_tcp_syn_is_a_knock(f: Seq<u8>, proto: Seq<char>)
    requires
        f.len() >= 14 + 20 + 20,
        f[12] == 0x08 && f[13] == 0x00,
        f[14] % 16 == 5,
        f[23] == 6,
        be16(f, 16) as int == f.len() - 14,
        f[47] & 0x02 != 0,
        f[47] & 0x10 == 0,
    ensures
        frame_knock(f, proto) == Some((be32(f, 26), be16(f, 36))),
{
    let ip = ethernet_payload(f);
    assert(ip[0] == f[14] && ip[9] == f[23]);
    assert(ipv4_header_words(ip) == 5);
    assert(ipv4_total_length(ip) == ip.len());
    assert(ipv4_payload_start(ip) == 20);
    assert(ipv4_payload_end(ip) == ip.len());
    let tcp = ipv4_payload(ip);
    assert(tcp.len() == ip.len() - 20);
    assert(tcp[13] == f[47] && tcp[2] == f[36] && tcp[3] == f[37]);
    assert(be32(ip, 12) == be32(f, 26));
    assert(be16(tcp, 2) == be16(f, 36));
}

/// The big-endian 16-bit number at `f[i..i + 2]`.
fn read_be16(f: &[u8], i: usize) -> (r: u16)
    requires
        i + 2 <= f@.len(),
    ensures
        r == be16(f@, i as int),
{
    (f[i] as u16) * 256 + (f[i + 1] as u16)
}

/// The big-endian 32-bit number at `f[i..i + 4]`.
fn read_be32(f: &[u8], i: usize) -> (r: u32)
    requires
        i + 4 <= f@.len(),
    ensures
        r == be32(f@, i as int),
{
    (f[i] as u32) * 16777216 + (f[i + 1] as u32) * 65536 + (f[i + 2] as u32) * 256 + (f[i
        + 3] as u32)
}

/// The knock in `frame`, if it carries one: its IPv4 source address (as a
/// `u32`) and the destination port.
pub fn extract_dst_port(frame: &[u8], proto: &str) -> (r: Option<(u32, u16)>)
    ensures
        r == frame_knock(frame@, proto@),
{
    let ghost f = frame@;
    if frame.len() < 14 || read_be16(frame, 12) != ETHERTYPE_IPV4 {
        return None;
    }
    let ghost ip = ethernet_payload(f);
    let base: usize = 14;
    if frame.len() - base < 20 {
        return None;
    }
    assert(forall|k: int| 0 <= k < ip.len() ==> #[trigger] ip[k] == f[14 + k]);
    let src = read_be32(frame, base + 12);
    let protocol = frame[base + 9];
    let words: usize = (frame[base] % 16) as usize;
    let total: usize = read_be16(frame, base + 2) as usize;
    let ip_len: usize = frame.len() - base;
    let start: usize = if words * 4 > 20 { words * 4 } else { 20 };
    let len: usize = if total > words * 4 { total - words * 4 } else { 0 };
    let end: usize = if start + len < ip_len { start + len } else { ip_len };
    assert(be32(ip, 12) == be32(f, 26));
    assert(be16(ip, 2) == be16(f, 16));
    assert(start == ipv4_payload_start(ip));
    assert(end == ipv4_payload_end(ip));
    let is_udp = str_eq(proto, "udp");
    if is_udp && protocol == IPPROTO_UDP {
        if ip_len <= start || end - start < 8 {
            return None;
        }
        let ghost udp = ipv4_payload(ip);
        assert(udp[2] == f[base + start + 2]);
        assert(udp[3] == f[base + start + 3]);
        let port = read_be16(frame, base + start + 2);
        return Some((src, port));
    } else if protocol == IPPROTO_TCP {
        if ip_len <= start || end - start < 20 {
            return None;
        }
        let ghost tcp = ipv4_payload(ip);
        assert(tcp[2] == f[base + start + 2]);
        assert(tcp[3] == f[base + start + 3]);
        assert(tcp[13] == f[base + start + 13]);
        let flags = frame[base + start + 13];
        if flags & 0x02 != 0 && flags & 0x10 == 0 {
            let port = read_be16(frame, base + start + 2);
            return Some((src, port));
        }
        return None;
    }
    None
}

} // verus!
