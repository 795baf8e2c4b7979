//! When a host was last knocked: the record kept per host, and whether it is
//! recent enough to skip knocking again.

use vstd::prelude::*;
use crate::decimal::{decimal, format_u64, lemma_parse_decimal, parse_u64_range, parse_u64_spec, trim, trim_bounds};
use crate::text::{chars_of, push_char};

verus! {

/// Whether to knock, given the time to live in seconds and the age in whole
/// seconds of the last recorded knock (absent when there is no readable
/// record): always with a time to live of 0 or no record, else only when the
/// record is older than the time to live.
pub fn should_knock(ttl_secs: u64, last_knock_age: Option<u64>) -> (r: bool)
    ensures
        r == (ttl_secs == 0 || match last_knock_age {
            Some(age) => age > ttl_secs,
            None => true,
        }),
{
    if ttl_secs == 0 {
        return true;
    }
    match last_knock_age {
        Some(age) => age > ttl_secs,
        None => true,
    }
}

/// What a knock record holds: the time of the knock, in seconds since the
/// Unix epoch, in decimal.
pub fn format_record(now_secs: u64) -> (s: String)
    ensures
        s@ == decimal(now_secs as nat),
{
    format_u64(now_secs)
}

/// The time a knock record states, read as `contents.trim().parse::<u64>()`
/// reads it.
pub fn parse_record(contents: &str) -> (r: Option<u64>)
    ensures
        r == parse_u64_spec(trim(contents@)),
{
    let cs = chars_of(contents);
    let (lo, hi) = trim_bounds(&cs);
    parse_u64_range(&cs, lo, hi)
}

/// The age in seconds, at `now_secs`, of the knock that a record with
/// `contents` states; `None` if the record states no time. A record from the
/// future has age 0.
pub fn record_age(contents: &str, now_secs: u64) -> (r: Option<u64>)
    ensures
        r == (match parse_u64_spec(trim(contents@)) {
            Some(ts) => Some(if now_secs >= ts { (now_secs - ts) as u64 } else { 0u64 }),
            None => None,
        }),
{
    match parse_record(contents) {
        Some(ts) => Some(now_secs.saturating_sub(ts)),
        None => None,
    }
}

/// The characters that cannot stand in a file name here.
pub open spec fn is_path_separator(c: char) -> bool {
    c == '/' || c == '\\' || c == ':'
}

/// `host` with each `/`, `\` and `:` replaced by `_`.
pub open spec fn sanitized(host: Seq<char>) -> Seq<char> {
    host.map_values(|c: char| if is_path_separator(c) { '_' } else { c })
}

/// `host` made safe as a file name: each `/`, `\` and `:` becomes `_`.
pub fn sanitize_host(host: &str) -> (s: String)
    ensures
        s@ == sanitized(host@),
{
    let cs = chars_of(host);
    let mut s = String::new();
    let mut i: usize = 0;
    while i < cs.len()
        invariant
            i <= cs@.len(),
            cs@ == host@,
            s@ == sanitized(cs@.take(i as int)),
        decreases cs@.len() - i,
    {
        let c = cs[i];
        if c == '/' || c == '\\' || c == ':' {
            push_char(&mut s, '_');
        } else {
            push_char(&mut s, c);
        }
        assert(sanitized(cs@.take(i + 1)) =~= sanitized(cs@.take(i as int)).push(
            if is_path_separator(c) { '_' } else { c },
        ));
        i = i + 1;
    }
    assert(cs@.take(i as int) =~= cs@);
    s
}

/// The name of the file that holds the knock record of `host`.
pub fn record_file_name(host: &str) -> (s: String)
    ensures
        s@ == sanitized(host@) + ".knock"@,
{
    let mut s = sanitize_host(host);
    s.append(".knock");
    s
}

/// A knock record names no directory: it holds no `/`, `\` or `:`.
pub proof fn law_record_file_name_is_plain(host: Seq<char>)
    ensures
        forall|i: int| 0 <= i < sanitized(host).len() ==> !is_path_separator(
            #[trigger] sanitized(host)[i],
        ),
        sanitized(host).len() == host.len(),
{
}

/// Reading a knock record gives back the time that was written to it.
pub proof fn law_record_roundtrip(t: u64)
    ensures
        parse_u64_spec(trim(decimal(t as nat))) == Some(t),
{
    lemma_parse_decimal(t);
    lemma_trim_decimal(t as nat);
}

/// A decimal writing has no whitespace to trim.
proof fn lemma_trim_decimal(n: nat)
    ensures
        trim(decimal(n)) == decimal(n),
{
    lemma_decimal_not_white(n);
    let s = decimal(n);
    assert(crate::decimal::trim_start(s) == s);
    assert(crate::decimal::trim_end(s) == s);
}

proof fn lemma_decimal_not_white(n: nat)
    ensures
        decimal(n).len() > 0,
        !crate::decimal::is_white_space(decimal(n)[0]),
        !crate::decimal::is_white_space(decimal(n).last()),
    decreases n,
{
    if n >= 10 {
        lemma_decimal_not_white(n / 10);
        assert(decimal(n)[0] == decimal(n / 10)[0]);
    }
}

/// A host knocked at `t1` (seconds) is knocked again at `t2` exactly when the
/// time to live is 0 or more than `ttl_secs` seconds have passed.
pub proof fn law_knock_again_after_ttl(t1: u64, t2: u64, ttl_secs: u64)
    ensures
        ({
            let age = match parse_u64_spec(trim(decimal(t1 as nat))) {
                Some(ts) => Some(if t2 >= ts { (t2 - ts) as u64 } else { 0u64 }),
                None => None,
            };
            (ttl_secs == 0 || match age {
                Some(a) => a > ttl_secs,
                None => true,
            }) == (ttl_secs == 0 || t2 - t1 > ttl_secs)
        }),
{
    law_record_roundtrip(t1);
}

} // verus!
