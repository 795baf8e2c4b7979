//! Sending a knock sequence: which transport each knock uses, and the pacing
//! between knocks.

use vstd::prelude::*;
use crate::decimal::{all_digits, decimal, digit_char, digits_value, is_digit, lemma_decimal_digits};
use crate::firewall::{ipv4_text, octet};
use crate::seqtext::{find_first, lemma_split_at, lemma_split_no_sep, lemma_split_nonempty, split_on};
use crate::text::{chars_of, str_eq};

verus! {

/// Milliseconds to wait after each knock before the next.
pub const KNOCK_INTERVAL_MS: u64 = 50;

/// Milliseconds a TCP knock waits for its connection attempt; a refused
/// connection is expected, only the SYN matters.
pub const TCP_CONNECT_TIMEOUT_MS: u64 = 200;

/// How one knock is sent.
#[derive(Clone, Copy, Debug, PartialEq, Eq, Structural)]
pub enum Transport {
    /// An empty UDP datagram.
    Udp,
    /// A TCP connection attempt.
    Tcp,
}

/// One knock: the port and how to reach it.
#[derive(Clone, Copy, Debug, PartialEq, Eq, Structural)]
pub struct Probe {
    pub port: u16,
    pub transport: Transport,
}

/// The transport that the protocol name `proto` selects: UDP for `"udp"`,
/// TCP for anything else.
pub open spec fn transport_for(proto: Seq<char>) -> Transport {
    if proto == "udp"@ {
        Transport::Udp
    } else {
        Transport::Tcp
    }
}

/// The knocks to send, in order: one per port, each by the transport that
/// `proto` selects.
pub fn knock_plan(ports: &[u16], proto: &str) -> (r: Vec<Probe>)
    ensures
        r@.len() == ports@.len(),
        forall|i: int| 0 <= i < ports@.len() ==> #[trigger] r@[i] == (Probe {
            port: ports@[i],
            transport: transport_for(proto@),
        }),
{
    let transport = if str_eq(proto, "udp") {
        Transport::Udp
    } else {
        Transport::Tcp
    };
    let mut r: Vec<Probe> = Vec::new();
    let mut i: usize = 0;
    while i < ports.len()
        invariant
            i <= ports@.len(),
            transport == transport_for(proto@),
            r@.len() == i,
            forall|j: int| 0 <= j < i ==> #[trigger] r@[j] == (Probe {
                port: ports@[j],
                transport: transport_for(proto@),
            }),
        decreases ports@.len() - i,
    {
        r.push(Probe { port: ports[i], transport });
        i = i + 1;
    }
    r
}

/// Whether `s` writes one octet of a dotted-decimal IPv4 address: one to
/// three decimal digits, no leading zero, at most 255.
pub open spec fn octet_ok(s: Seq<char>) -> bool {
    &&& 1 <= s.len() <= 3
    &&& all_digits(s)
    &&& (s.len() == 1 || s[0] != '0')
    &&& digits_value(s) <= 255
}

/// The address that `s` writes in dotted-decimal form (four octets separated
/// by dots, nothing else), as `str::parse::<Ipv4Addr>` reads it, as a `u32`
/// whose most significant byte is the first octet.
pub open spec fn ipv4_literal(s: Seq<char>) -> Option<u32> {
    let p = split_on(s, '.');
    if p.len() == 4 && octet_ok(p[0]) && octet_ok(p[1]) && octet_ok(p[2]) && octet_ok(p[3]) {
        Some(
            (digits_value(p[0]) * 16777216 + digits_value(p[1]) * 65536 + digits_value(p[2]) * 256
                + digits_value(p[3])) as u32,
        )
    } else {
        None
    }
}

/// The octet written in `cs[lo..hi]`, if it is one.
fn parse_octet(cs: &Vec<char>, lo: usize, hi: usize) -> (r: Option<u32>)
    requires
        lo <= hi <= cs@.len(),
    ensures
        r == (if octet_ok(cs@.subrange(lo as int, hi as int)) {
            Some(digits_value(cs@.subrange(lo as int, hi as int)) as u32)
        } else {
            None
        }),
{
    let ghost s = cs@.subrange(lo as int, hi as int);
    if hi - lo < 1 || hi - lo > 3 {
        return None;
    }
    if hi - lo > 1 && cs[lo] == '0' {
        return None;
    }
    let mut v: u32 = 0;
    let mut i = lo;
    while i < hi
        invariant
            lo <= i <= hi <= cs@.len(),
            hi - lo <= 3,
            s == cs@.subrange(lo as int, hi as int),
            all_digits(s.take(i - lo)),
            v as nat == digits_value(s.take(i - lo)),
            i - lo == 0 ==> v == 0,
            i - lo == 1 ==> v < 10,
            i - lo == 2 ==> v < 100,
            v < 1000,
        decreases hi - i,
    {
        let c = cs[i];
        let ghost k = i - lo;
        assert(s.take(k + 1).drop_last() =~= s.take(k));
        assert(s.take(k + 1).last() == c);
        if !('0' <= c && c <= '9') {
            assert(!is_digit(s[k]));
            return None;
        }
        assert(all_digits(s.take(k + 1))) by {
            assert forall|j: int| 0 <= j < k + 1 implies #[trigger] is_digit(s.take(k + 1)[j]) by {
                if j < k {
                    assert(s.take(k + 1)[j] == s.take(k)[j]);
                }
            }
        }
        proof {
            if k == 0 {
                assert(s.take(0) =~= Seq::<char>::empty());
            }
        }
        v = v * 10 + ((c as u32) - 48);
        i = i + 1;
    }
    assert(s.take(hi - lo) =~= s);
    if v > 255 {
        return None;
    }
    Some(v)
}

/// How a sequence splits at its dots, given where the first four dots are
/// (`s.len()` standing for "no further dot").
proof fn lemma_dotted_parts(s: Seq<char>, d1: int, d2: int, d3: int, d4: int)
    requires
        0 <= d1 < s.len(),
        s[d1] == '.',
        forall|j: int| 0 <= j < d1 ==> #[trigger] s[j] != '.',
        d1 + 1 <= d2 <= s.len(),
        d2 == s.len() || s[d2] == '.',
        forall|j: int| d1 + 1 <= j < d2 ==> #[trigger] s[j] != '.',
        d2 < s.len() ==> d2 + 1 <= d3 <= s.len() && (d3 == s.len() || s[d3] == '.') && (forall|
            j: int,
        | d2 + 1 <= j < d3 ==> #[trigger] s[j] != '.'),
        d2 == s.len() ==> d3 == s.len(),
        d3 < s.len() ==> d3 + 1 <= d4 <= s.len() && (d4 == s.len() || s[d4] == '.') && (forall|
            j: int,
        | d3 + 1 <= j < d4 ==> #[trigger] s[j] != '.'),
        d3 == s.len() ==> d4 == s.len(),
    ensures
        (d2 == s.len() || d3 == s.len() || d4 != s.len()) ==> split_on(s, '.').len() != 4,
        (d2 < s.len() && d3 < s.len() && d4 == s.len()) ==> split_on(s, '.') == seq![
            s.subrange(0, d1),
            s.subrange(d1 + 1, d2),
            s.subrange(d2 + 1, d3),
            s.subrange(d3 + 1, s.len() as int),
        ],
{
    let n = s.len() as int;
    let p0 = s.subrange(0, d1);
    let r1 = s.subrange(d1 + 1, n);
    assert(s =~= p0 + seq!['.'] + r1);
    lemma_split_at(p0, r1, '.');
    lemma_split_no_sep(p0, '.');
    if d2 == n {
        lemma_split_no_sep(r1, '.');
    } else {
        let p1 = s.subrange(d1 + 1, d2);
        let r2 = s.subrange(d2 + 1, n);
        assert(r1 =~= p1 + seq!['.'] + r2);
        lemma_split_at(p1, r2, '.');
        lemma_split_no_sep(p1, '.');
        if d3 == n {
            lemma_split_no_sep(r2, '.');
        } else {
            let p2 = s.subrange(d2 + 1, d3);
            let r3 = s.subrange(d3 + 1, n);
            assert(r2 =~= p2 + seq!['.'] + r3);
            lemma_split_at(p2, r3, '.');
            lemma_split_no_sep(p2, '.');
            if d4 == n {
                lemma_split_no_sep(r3, '.');
                assert(split_on(s, '.') =~= seq![p0, p1, p2, r3]);
            } else {
                let p3 = s.subrange(d3 + 1, d4);
                let r4 = s.subrange(d4 + 1, n);
                assert(r3 =~= p3 + seq!['.'] + r4);
                lemma_split_at(p3, r4, '.');
                lemma_split_nonempty(p3, '.');
                lemma_split_nonempty(r4, '.');
            }
        }
    }
}

/// The address that `host` writes in dotted-decimal form, as
/// `host.parse::<Ipv4Addr>()` reads it; `None` for anything else (a name to
/// look up).
pub fn parse_ipv4(host: &str) -> (r: Option<u32>)
    ensures
        r == ipv4_literal(host@),
{
    let cs = chars_of(host);
    let n = cs.len();
    let ghost s = cs@;
    let d1 = find_first(&cs, '.', 0, n);
    proof {
        lemma_split_nonempty(s, '.');
    }
    if d1 == n {
        proof {
            assert(s.subrange(0, n as int) =~= s);
            lemma_split_no_sep(s, '.');
        }
        return None;
    }
    let d2 = find_first(&cs, '.', d1 + 1, n);
    let d3 = if d2 < n { find_first(&cs, '.', d2 + 1, n) } else { n };
    let d4 = if d3 < n { find_first(&cs, '.', d3 + 1, n) } else { n };
    proof {
        lemma_dotted_parts(s, d1 as int, d2 as int, d3 as int, d4 as int);
    }
    if d2 == n || d3 == n || d4 != n {
        return None;
    }
    let o0 = parse_octet(&cs, 0, d1);
    let o1 = parse_octet(&cs, d1 + 1, d2);
    let o2 = parse_octet(&cs, d2 + 1, d3);
    let o3 = parse_octet(&cs, d3 + 1, n);
    match (o0, o1, o2, o3) {
        (Some(a), Some(b), Some(c), Some(d)) => Some(a * 16777216 + b * 65536 + c * 256 + d),
        _ => None,
    }
}

/// The writing of a number below 1000 has at most three digits, and no
/// leading zero.
proof fn lemma_decimal_short(n: nat)
    requires
        n < 1000,
    ensures
        decimal(n).len() <= 3,
        n >= 10 ==> decimal(n)[0] != '0',
        n >= 100 ==> decimal(n).len() == 3,
        10 <= n < 100 ==> decimal(n).len() == 2,
        n < 10 ==> decimal(n).len() == 1,
    decreases n,
{
    if n >= 10 {
        lemma_decimal_short(n / 10);
        assert(decimal(n)[0] == decimal(n / 10)[0]);
        if n / 10 < 10 {
            assert(decimal(n / 10)[0] == digit_char(n / 10));
        }
    }
}

/// The writing of an octet value is an octet.
proof fn lemma_octet_text(n: nat)
    requires
        n <= 255,
    ensures
        octet_ok(decimal(n)),
        digits_value(decimal(n)) == n,
        forall|i: int| 0 <= i < decimal(n).len() ==> #[trigger] decimal(n)[i] != '.',
{
    lemma_decimal_short(n);
    lemma_decimal_digits(n);
    assert forall|i: int| 0 <= i < decimal(n).len() implies #[trigger] decimal(n)[i] != '.' by {
        assert(is_digit(decimal(n)[i]));
    }
}

/// Reading back the dotted-decimal writing of an address gives that address.
pub proof fn law_ipv4_text_roundtrip(ip: u32)
    ensures
        ipv4_literal(ipv4_text(ip)) == Some(ip),
{
    reveal_strlit(".");
    let d0 = decimal(octet(ip, 0));
    let d1 = decimal(octet(ip, 1));
    let d2 = decimal(octet(ip, 2));
    let d3 = decimal(octet(ip, 3));
    lemma_octet_text(octet(ip, 0));
    lemma_octet_text(octet(ip, 1));
    lemma_octet_text(octet(ip, 2));
    lemma_octet_text(octet(ip, 3));
    let t = ipv4_text(ip);
    assert(t =~= d0 + seq!['.'] + (d1 + seq!['.'] + (d2 + seq!['.'] + d3)));
    lemma_split_at(d0, d1 + seq!['.'] + (d2 + seq!['.'] + d3), '.');
    lemma_split_at(d1, d2 + seq!['.'] + d3, '.');
    lemma_split_at(d2, d3, '.');
    lemma_split_no_sep(d0, '.');
    lemma_split_no_sep(d1, '.');
    lemma_split_no_sep(d2, '.');
    lemma_split_no_sep(d3, '.');
    assert(split_on(t, '.') =~= seq![d0, d1, d2, d3]);
    let x = ip as int;
    assert(octet(ip, 0) * 16777216 + octet(ip, 1) * 65536 + octet(ip, 2) * 256 + octet(ip, 3) == x)
        by (nonlinear_arith)
        requires
            0 <= x < 0x1_0000_0000,
            octet(ip, 0) == (x / 16777216) % 256,
            octet(ip, 1) == (x / 65536) % 256,
            octet(ip, 2) == (x / 256) % 256,
            octet(ip, 3) == (x / 1) % 256,
    ;
}

} // verus!
