use escutcheon::firewall::{firewall_close, firewall_open, format_ipv4};
use escutcheon::sshd::FirewallBackend;

const IP: u32 = 0xc0a8_0105; // 192.168.1.5

#[test]
fn ipv4_text_matches_std_display() {
    for ip in [0u32, IP, u32::MAX, 0x0a00_0001, 0x7f00_0001, 0x0102_0304] {
        let b = ip.to_be_bytes();
        assert_eq!(format_ipv4(ip), format!("{}.{}.{}.{}", b[0], b[1], b[2], b[3]));
    }
}

#[test]
fn ufw_commands() {
    let o = firewall_open(FirewallBackend::Ufw, IP, 22);
    assert_eq!(o.program, "ufw");
    assert_eq!(o.args, ["allow", "from", "192.168.1.5", "to", "any", "port", "22", "proto", "tcp"]);
    assert!(o.stdin.is_none() && o.check_status);
    let c = firewall_close(FirewallBackend::Ufw, IP, 22).unwrap();
    assert_eq!(c.args, ["delete", "allow", "from", "192.168.1.5", "to", "any", "port", "22", "proto", "tcp"]);
    assert!(!c.check_status);
}

#[test]
fn firewalld_commands() {
    let o = firewall_open(FirewallBackend::Firewalld, IP, 2222);
    assert_eq!(o.program, "firewall-cmd");
    let rule = "rule family=ipv4 source address=192.168.1.5 port port=2222 protocol=tcp accept";
    assert_eq!(o.args, ["--add-rich-rule", rule]);
    let c = firewall_close(FirewallBackend::Firewalld, IP, 2222).unwrap();
    assert_eq!(c.args, ["--remove-rich-rule", rule]);
}

#[test]
fn iptables_commands() {
    let o = firewall_open(FirewallBackend::Iptables, IP, 22);
    assert_eq!(o.program, "iptables");
    assert_eq!(o.args, ["-I", "INPUT", "-s", "192.168.1.5", "-p", "tcp", "--dport", "22", "-j", "ACCEPT"]);
    let c = firewall_close(FirewallBackend::Iptables, IP, 22).unwrap();
    assert_eq!(c.args, ["-D", "INPUT", "-s", "192.168.1.5", "-p", "tcp", "--dport", "22", "-j", "ACCEPT"]);
}

#[test]
fn nftables_commands() {
    let o = firewall_open(FirewallBackend::Nftables, IP, 65535);
    assert_eq!(o.program, "nft");
    assert_eq!(o.args, ["add", "rule", "inet", "filter", "input", "ip saddr 192.168.1.5 tcp dport 65535 accept"]);
    assert!(o.check_status);
    assert!(firewall_close(FirewallBackend::Nftables, IP, 65535).is_none());
}

#[test]
fn pf_commands() {
    let o = firewall_open(FirewallBackend::Pf, IP, 0);
    assert_eq!(o.program, "pfctl");
    assert_eq!(o.args, ["-a", "escutcheon", "-f", "-"]);
    assert_eq!(o.stdin.as_deref(), Some("pass in quick on egress proto tcp from 192.168.1.5 to any port 0\n"));
    assert!(!o.check_status);
    let c = firewall_close(FirewallBackend::Pf, IP, 0).unwrap();
    assert_eq!(c.program, "pfctl");
    assert_eq!(c.args, ["-a", "escutcheon", "-F", "rules"]);
}
