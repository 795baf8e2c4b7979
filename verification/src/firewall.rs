//! The commands that open and close the knocked port for one source in each
//! supported firewall.

use vstd::prelude::*;
use crate::decimal::{decimal, lemma_parse_decimal, parse_u64_spec, push_decimal};
use crate::knock::{ipv4_literal, law_ipv4_text_roundtrip};
use crate::sshd::FirewallBackend;
use crate::text::{owned, push_char};

verus! {

/// A command to run: the program, its arguments, what to write to its
/// standard input (if anything), and whether a failing exit status is an
/// error.
pub struct FirewallCommand {
    pub program: String,
    pub args: Vec<String>,
    pub stdin: Option<String>,
    pub check_status: bool,
}

/// The four octets of an IPv4 address held as a `u32`, most significant
/// first.
pub open spec fn octet(ip: u32, k: int) -> nat {
    ((ip as int / pow256(3 - k)) % 256) as nat
}

/// `256` to the power `k`, for `0 <= k <= 3`.
pub open spec fn pow256(k: int) -> int {
    if k == 3 {
        16777216
    } else if k == 2 {
        65536
    } else if k == 1 {
        256
    } else {
        1
    }
}

/// The dotted-decimal writing of an IPv4 address, as `Ipv4Addr` displays it.
pub open spec fn ipv4_text(ip: u32) -> Seq<char> {
    decimal(octet(ip, 0)) + "."@ + decimal(octet(ip, 1)) + "."@ + decimal(octet(ip, 2)) + "."@
        + decimal(octet(ip, 3))
}

/// The dotted-decimal writing of `ip`.
pub fn format_ipv4(ip: u32) -> (s: String)
    ensures
        s@ == ipv4_text(ip),
{
    let mut s = String::new();
    push_decimal(&mut s, (ip / 16777216) as u64);
    s.append(".");
    push_decimal(&mut s, ((ip / 65536) % 256) as u64);
    s.append(".");
    push_decimal(&mut s, ((ip / 256) % 256) as u64);
    s.append(".");
    push_decimal(&mut s, (ip % 256) as u64);
    assert((ip as int / pow256(3)) % 256 == ip / 16777216);
    s
}

/// The firewalld rich rule that admits TCP from `ip` to `port`.
pub open spec fn firewalld_rule(ip: u32, port: u16) -> Seq<char> {
    "rule family=ipv4 source address="@ + ipv4_text(ip) + " port port="@ + decimal(port as nat)
        + " protocol=tcp accept"@
}

/// The nftables rule that admits TCP from `ip` to `port`.
pub open spec fn nft_rule(ip: u32, port: u16) -> Seq<char> {
    "ip saddr "@ + ipv4_text(ip) + " tcp dport "@ + decimal(port as nat) + " accept"@
}

/// The pf rule that admits TCP from `ip` to `port`, with its line end.
pub open spec fn pf_rule(ip: u32, port: u16) -> Seq<char> {
    "pass in quick on egress proto tcp from "@ + ipv4_text(ip) + " to any port "@ + decimal(
        port as nat,
    ) + "\n"@
}

/// The program and arguments that open `port` to `ip`.
pub open spec fn open_argv(backend: FirewallBackend, ip: u32, port: u16) -> (Seq<char>, Seq<Seq<char>>) {
    let ip_s = ipv4_text(ip);
    let port_s = decimal(port as nat);
    match backend {
        FirewallBackend::Ufw => (
            "ufw"@,
            seq!["allow"@, "from"@, ip_s, "to"@, "any"@, "port"@, port_s, "proto"@, "tcp"@],
        ),
        FirewallBackend::Firewalld => (
            "firewall-cmd"@,
            seq!["--add-rich-rule"@, firewalld_rule(ip, port)],
        ),
        FirewallBackend::Iptables => (
            "iptables"@,
            seq!["-I"@, "INPUT"@, "-s"@, ip_s, "-p"@, "tcp"@, "--dport"@, port_s, "-j"@, "ACCEPT"@],
        ),
        FirewallBackend::Nftables => (
            "nft"@,
            seq!["add"@, "rule"@, "inet"@, "filter"@, "input"@, nft_rule(ip, port)],
        ),
        FirewallBackend::Pf => ("pfctl"@, seq!["-a"@, "escutcheon"@, "-f"@, "-"@]),
    }
}

/// The program and arguments that close `port` to `ip` again, where the
/// backend can (nftables cannot).
pub open spec fn close_argv(backend: FirewallBackend, ip: u32, port: u16) -> Option<
    (Seq<char>, Seq<Seq<char>>),
> {
    let ip_s = ipv4_text(ip);
    let port_s = decimal(port as nat);
    match backend {
        FirewallBackend::Ufw => Some(
            (
                "ufw"@,
                seq![
                    "delete"@,
                    "allow"@,
                    "from"@,
                    ip_s,
                    "to"@,
                    "any"@,
                    "port"@,
                    port_s,
                    "proto"@,
                    "tcp"@,
                ],
            ),
        ),
        FirewallBackend::Firewalld => Some(
            ("firewall-cmd"@, seq!["--remove-rich-rule"@, firewalld_rule(ip, port)]),
        ),
        FirewallBackend::Iptables => Some(
            (
                "iptables"@,
                seq![
                    "-D"@,
                    "INPUT"@,
                    "-s"@,
                    ip_s,
                    "-p"@,
                    "tcp"@,
                    "--dport"@,
                    port_s,
                    "-j"@,
                    "ACCEPT"@,
                ],
            ),
        ),
        FirewallBackend::Nftables => None,
        FirewallBackend::Pf => Some(("pfctl"@, seq!["-a"@, "escutcheon"@, "-F"@, "rules"@])),
    }
}

/// The views of a vector of strings.
pub open spec fn arg_views(v: Seq<String>) -> Seq<Seq<char>> {
    v.map_values(|x: String| x@)
}

/// Appends `s` to the argument list `v`.
fn push_arg(v: &mut Vec<String>, s: String)
    ensures
        arg_views(final(v)@) == arg_views(old(v)@).push(s@),
{
    let ghost before = v@;
    v.push(s);
    assert(arg_views(v@) =~= arg_views(before).push(s@));
}

/// Appends a copy of each of `parts` to the argument list `v`.
fn push_args(v: &mut Vec<String>, parts: &[&str])
    ensures
        arg_views(final(v)@) == arg_views(old(v)@) + parts@.map_values(|p: &str| p@),
{
    let mut i: usize = 0;
    while i < parts.len()
        invariant
            i <= parts@.len(),
            arg_views(v@) == arg_views(old(v)@) + parts@.take(i as int).map_values(|p: &str| p@),
        decreases parts@.len() - i,
    {
        push_arg(v, owned(parts[i]));
        assert(parts@.take(i + 1).map_values(|p: &str| p@) =~= parts@.take(i as int).map_values(
            |p: &str| p@,
        ).push(parts@[i as int]@));
        i = i + 1;
    }
    assert(parts@.take(i as int) =~= parts@);
}

/// Builds `prefix + ip + middle + port + suffix`.
fn rule_text(prefix: &str, ip: u32, middle: &str, port: u16, suffix: &str) -> (s: String)
    ensures
        s@ == prefix@ + ipv4_text(ip) + middle@ + decimal(port as nat) + suffix@,
{
    let mut s = owned(prefix);
    let ip_s = format_ipv4(ip);
    s.append(ip_s.as_str());
    s.append(middle);
    push_decimal(&mut s, port as u64);
    s.append(suffix);
    s
}

/// The command that opens `port` to `ip`: for pf, `pfctl` reading the rule
/// from its standard input, whose exit status is not checked; for the other
/// backends, a command whose failing exit status is an error.
pub fn firewall_open(backend: FirewallBackend, ip: u32, port: u16) -> (c: FirewallCommand)
    ensures
        (c.program@, arg_views(c.args@)) == open_argv(backend, ip, port),
        c.stdin.is_some() == (backend == FirewallBackend::Pf),
        c.stdin matches Some(text) ==> text@ == pf_rule(ip, port),
        c.check_status == (backend != FirewallBackend::Pf),
{
    let mut args: Vec<String> = Vec::new();
    match backend {
        FirewallBackend::Pf => {
            let rule = rule_text(
                "pass in quick on egress proto tcp from ",
                ip,
                " to any port ",
                port,
                "\n",
            );
            push_args(&mut args, &["-a", "escutcheon", "-f", "-"]);
            assert(arg_views(args@) =~= open_argv(backend, ip, port).1);
            FirewallCommand { program: owned("pfctl"), args, stdin: Some(rule), check_status: false }
        },
        FirewallBackend::Ufw => {
            push_args(&mut args, &["allow", "from"]);
            push_arg(&mut args, format_ipv4(ip));
            push_args(&mut args, &["to", "any", "port"]);
            push_arg(&mut args, crate::decimal::format_u64(port as u64));
            push_args(&mut args, &["proto", "tcp"]);
            assert(arg_views(args@) =~= open_argv(backend, ip, port).1);
            FirewallCommand { program: owned("ufw"), args, stdin: None, check_status: true }
        },
        FirewallBackend::Firewalld => {
            push_args(&mut args, &["--add-rich-rule"]);
            push_arg(
                &mut args,
                rule_text(
                    "rule family=ipv4 source address=",
                    ip,
                    " port port=",
                    port,
                    " protocol=tcp accept",
                ),
            );
            assert(arg_views(args@) =~= open_argv(backend, ip, port).1);
            FirewallCommand {
                program: owned("firewall-cmd"),
                args,
                stdin: None,
                check_status: true,
            }
        },
        FirewallBackend::Iptables => {
            push_args(&mut args, &["-I", "INPUT", "-s"]);
            push_arg(&mut args, format_ipv4(ip));
            push_args(&mut args, &["-p", "tcp", "--dport"]);
            push_arg(&mut args, crate::decimal::format_u64(port as u64));
            push_args(&mut args, &["-j", "ACCEPT"]);
            assert(arg_views(args@) =~= open_argv(backend, ip, port).1);
            FirewallCommand { program: owned("iptables"), args, stdin: None, check_status: true }
        },
        FirewallBackend::Nftables => {
            push_args(&mut args, &["add", "rule", "inet", "filter", "input"]);
            push_arg(&mut args, rule_text("ip saddr ", ip, " tcp dport ", port, " accept"));
            assert(arg_views(args@) =~= open_argv(backend, ip, port).1);
            FirewallCommand { program: owned("nft"), args, stdin: None, check_status: true }
        },
    }
}

/// The command that closes `port` to `ip` again; none for nftables, whose
/// rule is left for removal by hand. Closing is best effort: no exit status
/// is checked.
pub fn firewall_close(backend: FirewallBackend, ip: u32, port: u16) -> (c: Option<FirewallCommand>)
    ensures
        c.is_some() == close_argv(backend, ip, port).is_some(),
        c matches Some(cmd) ==> (cmd.program@, arg_views(cmd.args@)) == close_argv(
            backend,
            ip,
            port,
        )->0 && cmd.stdin.is_none() && !cmd.check_status,
{
    let mut args: Vec<String> = Vec::new();
    match backend {
        FirewallBackend::Nftables => None,
        FirewallBackend::Pf => {
            push_args(&mut args, &["-a", "escutcheon", "-F", "rules"]);
            assert(arg_views(args@) =~= close_argv(backend, ip, port).unwrap().1);
            Some(FirewallCommand { program: owned("pfctl"), args, stdin: None, check_status: false })
        },
        FirewallBackend::Ufw => {
            push_args(&mut args, &["delete", "allow", "from"]);
            push_arg(&mut args, format_ipv4(ip));
            push_args(&mut args, &["to", "any", "port"]);
            push_arg(&mut args, crate::decimal::format_u64(port as u64));
            push_args(&mut args, &["proto", "tcp"]);
            assert(arg_views(args@) =~= close_argv(backend, ip, port).unwrap().1);
            Some(FirewallCommand { program: owned("ufw"), args, stdin: None, check_status: false })
        },
        FirewallBackend::Firewalld => {
            push_args(&mut args, &["--remove-rich-rule"]);
            push_arg(
                &mut args,
                rule_text(
                    "rule family=ipv4 source address=",
                    ip,
                    " port port=",
                    port,
                    " protocol=tcp accept",
                ),
            );
            assert(arg_views(args@) =~= close_argv(backend, ip, port).unwrap().1);
            Some(
                FirewallCommand {
                    program: owned("firewall-cmd"),
                    args,
                    stdin: None,
                    check_status: false,
                },
            )
        },
        FirewallBackend::Iptables => {
            push_args(&mut args, &["-D", "INPUT", "-s"]);
            push_arg(&mut args, format_ipv4(ip));
            push_args(&mut args, &["-p", "tcp", "--dport"]);
            push_arg(&mut args, crate::decimal::format_u64(port as u64));
            push_args(&mut args, &["-j", "ACCEPT"]);
            assert(arg_views(args@) =~= close_argv(backend, ip, port).unwrap().1);
            Some(
                FirewallCommand { program: owned("iptables"), args, stdin: None, check_status: false },
            )
        },
    }
}

/// Each backend's close command is the open command with the rule taken
/// back: for ufw `delete` is put before the same arguments, for iptables
/// `-D` replaces `-I`, for firewalld the same rich rule is removed.
pub proof fn law_close_undoes_open(ip: u32, port: u16)
    ensures
        close_argv(FirewallBackend::Ufw, ip, port).unwrap().1 == seq!["delete"@] + open_argv(
            FirewallBackend::Ufw,
            ip,
            port,
        ).1,
        close_argv(FirewallBackend::Iptables, ip, port).unwrap().1 == open_argv(
            FirewallBackend::Iptables,
            ip,
            port,
        ).1.update(0, "-D"@),
        close_argv(FirewallBackend::Firewalld, ip, port).unwrap().1[1] == open_argv(
            FirewallBackend::Firewalld,
            ip,
            port,
        ).1[1],
{
    assert(close_argv(FirewallBackend::Ufw, ip, port).unwrap().1 =~= seq!["delete"@] + open_argv(
        FirewallBackend::Ufw,
        ip,
        port,
    ).1);
    assert(close_argv(FirewallBackend::Iptables, ip, port).unwrap().1 =~= open_argv(
        FirewallBackend::Iptables,
        ip,
        port,
    ).1.update(0, "-D"@));
}

/// The commands name the knocking source and the opened port themselves:
/// for ufw and iptables, opening and closing alike, the address argument
/// reads back as `ip` and the port argument as `port`; the firewalld,
/// nftables and pf rules hold the port's decimal writing right after the
/// address.
pub proof fn law_commands_name_source_and_port(ip: u32, port: u16)
    ensures
        ipv4_literal(open_argv(FirewallBackend::Ufw, ip, port).1[2]) == Some(ip),
        parse_u64_spec(open_argv(FirewallBackend::Ufw, ip, port).1[6]) == Some(port as u64),
        ipv4_literal(close_argv(FirewallBackend::Ufw, ip, port).unwrap().1[3]) == Some(ip),
        parse_u64_spec(close_argv(FirewallBackend::Ufw, ip, port).unwrap().1[7]) == Some(
            port as u64,
        ),
        ipv4_literal(open_argv(FirewallBackend::Iptables, ip, port).1[3]) == Some(ip),
        parse_u64_spec(open_argv(FirewallBackend::Iptables, ip, port).1[7]) == Some(port as u64),
        ipv4_literal(close_argv(FirewallBackend::Iptables, ip, port).unwrap().1[3]) == Some(ip),
        parse_u64_spec(close_argv(FirewallBackend::Iptables, ip, port).unwrap().1[7]) == Some(
            port as u64,
        ),
        open_argv(FirewallBackend::Firewalld, ip, port).1[1] == "rule family=ipv4 source address="@
            + ipv4_text(ip) + " port port="@ + decimal(port as nat) + " protocol=tcp accept"@,
        open_argv(FirewallBackend::Nftables, ip, port).1[5] == "ip saddr "@ + ipv4_text(ip)
            + " tcp dport "@ + decimal(port as nat) + " accept"@,
        parse_u64_spec(decimal(port as nat)) == Some(port as u64),
        ipv4_literal(ipv4_text(ip)) == Some(ip),
{
    law_ipv4_text_roundtrip(ip);
    lemma_parse_decimal(port as u64);
}

} // verus!
