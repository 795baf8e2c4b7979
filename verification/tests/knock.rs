use escutcheon::firewall::format_ipv4;
use escutcheon::knock::{knock_plan, parse_ipv4, Probe, Transport, KNOCK_INTERVAL_MS, TCP_CONNECT_TIMEOUT_MS};

#[test]
fn plan_uses_udp_only_for_udp() {
    assert_eq!(
        knock_plan(&[1, 2], "udp"),
        vec![Probe { port: 1, transport: Transport::Udp }, Probe { port: 2, transport: Transport::Udp }]
    );
    assert_eq!(knock_plan(&[3], "tcp"), vec![Probe { port: 3, transport: Transport::Tcp }]);
    assert_eq!(knock_plan(&[3], "UDP"), vec![Probe { port: 3, transport: Transport::Tcp }]);
    assert!(knock_plan(&[], "udp").is_empty());
}

#[test]
fn pacing_constants() {
    assert_eq!(KNOCK_INTERVAL_MS, 50);
    assert_eq!(TCP_CONNECT_TIMEOUT_MS, 200);
}

#[test]
fn parse_ipv4_reads_dotted_decimal() {
    assert_eq!(parse_ipv4("1.2.3.4"), Some(0x0102_0304));
    assert_eq!(parse_ipv4("0.0.0.0"), Some(0));
    assert_eq!(parse_ipv4("255.255.255.255"), Some(u32::MAX));
    assert_eq!(parse_ipv4("127.0.0.1"), Some(0x7f00_0001));
    assert_eq!(parse_ipv4("10.0.0.1"), Some(0x0a00_0001));
    assert_eq!(parse_ipv4("99.99.99.99"), Some(0x6363_6363));
}

#[test]
fn parse_ipv4_rejects_what_std_rejects() {
    let cases = [
        "256.1.1.1", "01.2.3.4", "1.2.3", "1.2.3.4.", ".1.2.3.4", "1..3.4", "1.2.3.4.5", "a.b.c.d", "",
        "1.2.3.04", "192.168.001.1", "1.2.3.4 ", "+1.2.3.4", "1000.1.1.1", "0.0.0.00", "example.com", "::1",
        "9.9.9.9x", "1.2.3.-4", "١.2.3.4",
    ];
    for c in cases {
        assert_eq!(parse_ipv4(c), None, "input {:?}", c);
    }
}

#[test]
fn parse_ipv4_reads_back_formatted_addresses() {
    for ip in [0u32, 1, 255, 256, 0x0a00_0001, 0xc0a8_0105, 0x7f00_0001, u32::MAX, 0x0102_0304, 0x6400_0a09] {
        assert_eq!(parse_ipv4(&format_ipv4(ip)), Some(ip));
    }
}
