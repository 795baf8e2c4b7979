use escutcheon::packet::extract_dst_port;
use pnet::packet::ethernet::{EtherTypes, MutableEthernetPacket};
use pnet::packet::ip::IpNextHeaderProtocols;
use pnet::packet::ipv4::MutableIpv4Packet;
use pnet::packet::tcp::MutableTcpPacket;
use pnet::packet::udp::MutableUdpPacket;
use pnet::packet::ethernet::EthernetPacket;
use pnet::packet::ipv4::Ipv4Packet;
use pnet::packet::tcp::TcpPacket;
use pnet::packet::udp::UdpPacket;
use pnet::packet::Packet;

fn frame(next: pnet::packet::ip::IpNextHeaderProtocol, transport: &[u8], header_words: u8, total: Option<u16>) -> Vec<u8> {
    let ip_len = 20 + transport.len();
    let mut buf = vec![0u8; 14 + ip_len];
    {
        let mut eth = MutableEthernetPacket::new(&mut buf).unwrap();
        eth.set_ethertype(EtherTypes::Ipv4);
    }
    {
        let mut ip = MutableIpv4Packet::new(&mut buf[14..]).unwrap();
        ip.set_version(4);
        ip.set_header_length(header_words);
        ip.set_total_length(total.unwrap_or(ip_len as u16));
        ip.set_next_level_protocol(next);
        ip.set_source([10, 1, 2, 3].into());
        ip.set_destination([10, 9, 9, 9].into());
    }
    buf[34..].copy_from_slice(transport);
    buf
}

fn tcp(dst: u16, flags: u8) -> Vec<u8> {
    let mut t = vec![0u8; 20];
    let mut p = MutableTcpPacket::new(&mut t).unwrap();
    p.set_source(40000);
    p.set_destination(dst);
    p.set_data_offset(5);
    p.set_flags(flags);
    t
}

fn udp(dst: u16) -> Vec<u8> {
    let mut u = vec![0u8; 8];
    let mut p = MutableUdpPacket::new(&mut u).unwrap();
    p.set_source(40000);
    p.set_destination(dst);
    p.set_length(8);
    u
}

/// The same decision written with `pnet_packet`'s accessors.
fn with_pnet(frame: &[u8], proto: &str) -> Option<(u32, u16)> {
    let eth = EthernetPacket::new(frame)?;
    if eth.get_ethertype() != EtherTypes::Ipv4 {
        return None;
    }
    let ip = Ipv4Packet::new(eth.payload())?;
    let src = u32::from(ip.get_source());
    match proto {
        "udp" if ip.get_next_level_protocol() == IpNextHeaderProtocols::Udp => {
            let u = UdpPacket::new(ip.payload())?;
            Some((src, u.get_destination()))
        }
        _ if ip.get_next_level_protocol() == IpNextHeaderProtocols::Tcp => {
            let t = TcpPacket::new(ip.payload())?;
            let flags = t.get_flags();
            if flags & 0x02 != 0 && flags & 0x10 == 0 { Some((src, t.get_destination())) } else { None }
        }
        _ => None,
    }
}

const SRC: u32 = 0x0a01_0203;

#[test]
fn tcp_syn_is_a_knock() {
    let f = frame(IpNextHeaderProtocols::Tcp, &tcp(7000, 0x02), 5, None);
    assert_eq!(extract_dst_port(&f, "tcp"), Some((SRC, 7000)));
    assert_eq!(extract_dst_port(&f, "udp"), Some((SRC, 7000)));
}

#[test]
fn tcp_syn_ack_and_plain_ack_are_not() {
    let f = frame(IpNextHeaderProtocols::Tcp, &tcp(7000, 0x12), 5, None);
    assert_eq!(extract_dst_port(&f, "tcp"), None);
    let f = frame(IpNextHeaderProtocols::Tcp, &tcp(7000, 0x10), 5, None);
    assert_eq!(extract_dst_port(&f, "tcp"), None);
}

#[test]
fn udp_counts_only_when_configured() {
    let f = frame(IpNextHeaderProtocols::Udp, &udp(9000), 5, None);
    assert_eq!(extract_dst_port(&f, "udp"), Some((SRC, 9000)));
    assert_eq!(extract_dst_port(&f, "tcp"), None);
}

#[test]
fn short_or_foreign_frames_are_not_knocks() {
    assert_eq!(extract_dst_port(&[], "tcp"), None);
    assert_eq!(extract_dst_port(&[0u8; 13], "tcp"), None);
    let mut f = frame(IpNextHeaderProtocols::Tcp, &tcp(7000, 0x02), 5, None);
    f[12] = 0x86;
    f[13] = 0xdd;
    assert_eq!(extract_dst_port(&f, "tcp"), None);
    let f = frame(IpNextHeaderProtocols::Icmp, &tcp(7000, 0x02), 5, None);
    assert_eq!(extract_dst_port(&f, "tcp"), None);
    // Total length leaving too little room for a TCP header.
    let f = frame(IpNextHeaderProtocols::Tcp, &tcp(7000, 0x02), 5, Some(30));
    assert_eq!(extract_dst_port(&f, "tcp"), None);
}

#[test]
fn agrees_with_pnet_on_many_frames() {
    let mut frames = Vec::new();
    for words in [0u8, 4, 5, 6, 15] {
        for total in [None, Some(0), Some(20), Some(28), Some(40), Some(48), Some(1500)] {
            frames.push(frame(IpNextHeaderProtocols::Tcp, &tcp(22, 0x02), words, total));
            frames.push(frame(IpNextHeaderProtocols::Tcp, &[tcp(22, 0x02), tcp(23, 0x02)].concat(), words, total));
            frames.push(frame(IpNextHeaderProtocols::Udp, &udp(53), words, total));
            frames.push(frame(IpNextHeaderProtocols::Udp, &[udp(53), udp(54), udp(55)].concat(), words, total));
        }
    }
    for f in &frames {
        for cut in 0..=f.len() {
            for proto in ["tcp", "udp", "other"] {
                assert_eq!(extract_dst_port(&f[..cut], proto), with_pnet(&f[..cut], proto));
            }
        }
    }
}
