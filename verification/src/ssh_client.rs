//! The decisions of the SSH wrapper: which hosts to knock (the destination
//! and any ProxyJump hosts), and what to knock each with.

use vstd::prelude::*;
use vstd::string::StrSliceExecFns;
use crate::config::{Config, HostConfig};
use crate::seqtext::{
    after_last, before_first, find_after_last, find_first, lemma_find_after_last_piece,
    lemma_find_first_piece, split_on,
};
use crate::text::{chars_eq, chars_of, owned, starts_with, string_of, is_prefix};
use crate::ttl::should_knock;

verus! {

/// The host of an SSH destination `[user@]host`: what follows its last `@`.
pub fn strip_user(dest: &str) -> (r: &str)
    ensures
        r@ == after_last(dest@, '@'),
{
    let cs = chars_of(dest);
    let n = cs.len();
    let start = find_after_last(&cs, '@', 0, n);
    proof {
        lemma_find_after_last_piece(cs@, '@', 0, n as int, start as int);
        assert(cs@.subrange(0, n as int) =~= dest@);
    }
    dest.substring_char(start, n)
}

/// The host of one jump entry `[user@]host[:port]`.
pub open spec fn jump_host(entry: Seq<char>) -> Seq<char> {
    after_last(before_first(entry, ':'), '@')
}

/// The hosts of a comma-separated jump list, one per entry, in order.
pub open spec fn jump_list(s: Seq<char>) -> Seq<Seq<char>> {
    split_on(s, ',').map_values(|e: Seq<char>| jump_host(e))
}

/// The views of a vector of strings.
pub open spec fn views(v: Seq<String>) -> Seq<Seq<char>> {
    v.map_values(|x: String| x@)
}

/// The host of the jump entry `cs[lo..hi]`.
fn jump_host_of(cs: &Vec<char>, lo: usize, hi: usize) -> (r: String)
    requires
        lo <= hi <= cs@.len(),
    ensures
        r@ == jump_host(cs@.subrange(lo as int, hi as int)),
{
    let e = find_first(cs, ':', lo, hi);
    let b = find_after_last(cs, '@', lo, e);
    proof {
        lemma_find_first_piece(cs@, ':', lo as int, hi as int, e as int);
        lemma_find_after_last_piece(cs@, '@', lo as int, e as int, b as int);
    }
    string_of(cs, b, e)
}

/// The hosts of the jump list `cs[lo..]`.
fn jump_list_of(cs: &Vec<char>, lo: usize) -> (r: Vec<String>)
    requires
        lo <= cs@.len(),
    ensures
        views(r@) == jump_list(cs@.skip(lo as int)),
{
    let n = cs.len();
    let ghost s = cs@.skip(lo as int);
    let mut res: Vec<String> = Vec::new();
    let mut start = lo;
    let mut i = lo;
    let ghost mut done: Seq<Seq<char>> = Seq::empty();
    assert(cs@.subrange(lo as int, lo as int) =~= Seq::<char>::empty());
    assert(s.take(0) =~= Seq::<char>::empty());
    assert(split_on(s.take(0), ',') =~= done.push(cs@.subrange(start as int, i as int)));
    while i < n
        invariant
            lo <= start <= i <= n == cs@.len(),
            s == cs@.skip(lo as int),
            split_on(s.take(i - lo), ',') == done.push(cs@.subrange(start as int, i as int)),
            views(res@) == done.map_values(|e: Seq<char>| jump_host(e)),
        decreases n - i,
    {
        let ghost k = i - lo;
        assert(s.take(k + 1).drop_last() =~= s.take(k));
        assert(s.take(k + 1).last() == cs@[i as int]);
        if cs[i] == ',' {
            let h = jump_host_of(cs, start, i);
            proof {
                let old_done = done;
                done = done.push(cs@.subrange(start as int, i as int));
                assert(views(res@.push(h)) =~= views(res@).push(h@));
                assert(done.map_values(|e: Seq<char>| jump_host(e)) =~= old_done.map_values(
                    |e: Seq<char>| jump_host(e),
                ).push(jump_host(cs@.subrange(start as int, i as int))));
                assert(cs@.subrange(i + 1, i + 1) =~= Seq::<char>::empty());
                assert(split_on(s.take(k + 1), ',') =~= done.push(cs@.subrange(i + 1, i + 1)));
            }
            res.push(h);
            start = i + 1;
        } else {
            proof {
                let p = split_on(s.take(k), ',');
                assert(p.len() - 1 == done.len());
                assert(cs@.subrange(start as int, i as int).push(cs@[i as int]) =~= cs@.subrange(
                    start as int,
                    i + 1,
                ));
                assert(split_on(s.take(k + 1), ',') =~= done.push(
                    cs@.subrange(start as int, i + 1),
                ));
            }
        }
        i = i + 1;
    }
    let h = jump_host_of(cs, start, n);
    proof {
        assert(s.take(n - lo) =~= s);
        assert(views(res@.push(h)) =~= views(res@).push(h@));
        let all = done.push(cs@.subrange(start as int, n as int));
        assert(all.map_values(|e: Seq<char>| jump_host(e)) =~= done.map_values(
            |e: Seq<char>| jump_host(e),
        ).push(jump_host(cs@.subrange(start as int, n as int))));
    }
    res.push(h);
    res
}

/// The hosts of a jump list `[user@]host[:port],...`, as `-J` and
/// `ProxyJump=` take it: `"user@host:port,host2"` gives `["host", "host2"]`.
pub fn parse_jump_list(s: &str) -> (r: Vec<String>)
    ensures
        views(r@) == jump_list(s@),
{
    let cs = chars_of(s);
    assert(cs@.skip(0) =~= cs@);
    jump_list_of(&cs, 0)
}

/// The jump hosts named in SSH arguments: by `-J <list>`, `-J<list>` and
/// `-o ProxyJump=<list>`, in the order they come. An option missing its
/// argument ends the scan.
pub open spec fn proxy_hosts(args: Seq<Seq<char>>) -> Seq<Seq<char>>
    decreases args.len(),
{
    if args.len() == 0 {
        Seq::empty()
    } else if args[0] == "-J"@ {
        if args.len() >= 2 {
            jump_list(args[1]) + proxy_hosts(args.skip(2))
        } else {
            Seq::empty()
        }
    } else if is_prefix("-J"@, args[0]) {
        jump_list(args[0].skip("-J"@.len() as int)) + proxy_hosts(args.skip(1))
    } else if args[0] == "-o"@ {
        if args.len() >= 2 {
            (if is_prefix("ProxyJump="@, args[1]) {
                jump_list(args[1].skip("ProxyJump="@.len() as int))
            } else {
                Seq::empty()
            }) + proxy_hosts(args.skip(2))
        } else {
            Seq::empty()
        }
    } else {
        proxy_hosts(args.skip(1))
    }
}

/// The jump hosts named in `ssh_args` by `-J <list>`, `-J<list>` and
/// `-o ProxyJump=<list>`, in order.
pub fn extract_proxy_hosts(ssh_args: &[String]) -> (r: Vec<String>)
    ensures
        views(r@) == proxy_hosts(views(ssh_args@)),
{
    let ghost args = views(ssh_args@);
    let dash_j = chars_of("-J");
    let dash_o = chars_of("-o");
    let proxy_jump = chars_of("ProxyJump=");
    let n = ssh_args.len();
    let mut hosts: Vec<String> = Vec::new();
    let mut i: usize = 0;
    assert(args.skip(0) =~= args);
    while i < n
        invariant
            i <= n == ssh_args@.len(),
            args == views(ssh_args@),
            dash_j@ == "-J"@,
            dash_o@ == "-o"@,
            proxy_jump@ == "ProxyJump="@,
            views(hosts@) + proxy_hosts(args.skip(i as int)) == proxy_hosts(args),
        decreases n - i,
    {
        let ghost rest = args.skip(i as int);
        let arg = chars_of(ssh_args[i].as_str());
        assert(rest[0] == arg@);
        assert(rest.len() == n - i);
        if chars_eq(&arg, &dash_j) {
            if i + 1 < n {
                let val = chars_of(ssh_args[i + 1].as_str());
                assert(rest[1] == val@);
                assert(val@.skip(0) =~= val@);
                let mut list = jump_list_of(&val, 0);
                proof {
                    assert(rest.skip(2) =~= args.skip(i + 2));
                    assert(views(hosts@ + list@) =~= views(hosts@) + views(list@));
                }
                hosts.append(&mut list);
                i = i + 2;
            } else {
                assert(views(hosts@) + Seq::<Seq<char>>::empty() =~= views(hosts@));
                return hosts;
            }
        } else if starts_with(&arg, &dash_j) {
            let mut list = jump_list_of(&arg, dash_j.len());
            proof {
                assert(rest.skip(1) =~= args.skip(i + 1));
                assert(views(hosts@ + list@) =~= views(hosts@) + views(list@));
            }
            hosts.append(&mut list);
            i = i + 1;
        } else if chars_eq(&arg, &dash_o) {
            if i + 1 < n {
                let val = chars_of(ssh_args[i + 1].as_str());
                assert(rest[1] == val@);
                proof {
                    assert(rest.skip(2) =~= args.skip(i + 2));
                }
                if starts_with(&val, &proxy_jump) {
                    let mut list = jump_list_of(&val, proxy_jump.len());
                    proof {
                        assert(views(hosts@ + list@) =~= views(hosts@) + views(list@));
                    }
                    hosts.append(&mut list);
                } else {
                    assert(Seq::<Seq<char>>::empty() + proxy_hosts(args.skip(i + 2)) =~= proxy_hosts(
                        args.skip(i + 2),
                    ));
                }
                i = i + 2;
            } else {
                assert(views(hosts@) + Seq::<Seq<char>>::empty() =~= views(hosts@));
                return hosts;
            }
        } else {
            assert(rest.skip(1) =~= args.skip(i + 1));
            i = i + 1;
        }
    }
    assert(args.skip(n as int) =~= Seq::<Seq<char>>::empty());
    assert(views(hosts@) + Seq::<Seq<char>>::empty() =~= views(hosts@));
    hosts
}

/// The settings of `host` as the configuration gives them: its own entry
/// where it has one and that entry sets the field, else the default.
pub open spec fn host_entry(cfg: &Config, host: Seq<char>) -> Option<HostConfig> {
    if cfg.hosts@.contains_key(host) {
        Some(cfg.hosts@[host])
    } else {
        None
    }
}

/// The ports to knock for `host`: its own, else the defaults, else none.
pub open spec fn chosen_ports(cfg: &Config, host: Seq<char>) -> Seq<u16> {
    let h = host_entry(cfg, host);
    if h is Some && h->0.knock_ports is Some {
        h->0.knock_ports->0@
    } else if cfg.defaults.knock_ports is Some {
        cfg.defaults.knock_ports->0@
    } else {
        Seq::empty()
    }
}

/// The time to live for `host`: its own, else the default, else 0.
pub open spec fn chosen_ttl(cfg: &Config, host: Seq<char>) -> u64 {
    let h = host_entry(cfg, host);
    if h is Some && h->0.ttl_secs is Some {
        h->0.ttl_secs->0
    } else if cfg.defaults.ttl_secs is Some {
        cfg.defaults.ttl_secs->0
    } else {
        0
    }
}

/// The protocol for `host`: its own, else the default, else `"tcp"`.
pub open spec fn chosen_proto(cfg: &Config, host: Seq<char>) -> Seq<char> {
    let h = host_entry(cfg, host);
    if h is Some && h->0.knock_proto is Some {
        h->0.knock_proto->0@
    } else if cfg.defaults.knock_proto is Some {
        cfg.defaults.knock_proto->0@
    } else {
        "tcp"@
    }
}

/// What to knock a host with.
pub struct KnockSettings {
    pub ports: Vec<u16>,
    pub ttl_secs: u64,
    pub proto: String,
}

/// The knock settings of `host`, each field from the host's entry if it sets
/// it, else from the defaults, else empty ports, a time to live of 0 and
/// `"tcp"`.
pub fn knock_settings(host: &str, cfg: &Config) -> (s: KnockSettings)
    ensures
        s.ports@ == chosen_ports(cfg, host@),
        s.ttl_secs == chosen_ttl(cfg, host@),
        s.proto@ == chosen_proto(cfg, host@),
{
    let host_cfg = cfg.resolve_host(host);
    let own_ports: Option<&Vec<u16>> = match host_cfg {
        Some(h) => match &h.knock_ports {
            Some(p) => Some(p),
            None => None,
        },
        None => None,
    };
    let ports: Vec<u16> = match own_ports {
        Some(p) => p.clone(),
        None => match &cfg.defaults.knock_ports {
            Some(p) => p.clone(),
            None => Vec::new(),
        },
    };
    let ttl_secs: u64 = match host_cfg {
        Some(h) if h.ttl_secs.is_some() => h.ttl_secs.unwrap(),
        _ => match cfg.defaults.ttl_secs {
            Some(t) => t,
            None => 0,
        },
    };
    let own_proto: Option<&String> = match host_cfg {
        Some(h) => match &h.knock_proto {
            Some(p) => Some(p),
            None => None,
        },
        None => None,
    };
    let proto: String = match own_proto {
        Some(p) => p.clone(),
        None => match &cfg.defaults.knock_proto {
            Some(p) => p.clone(),
            None => owned("tcp"),
        },
    };
    assert(ports@ =~= chosen_ports(cfg, host@));
    KnockSettings { ports, ttl_secs, proto }
}

/// Decides whether to knock `host` and with what: not when it has no ports
/// to knock, nor when its last knock (`last_knock_age` seconds ago, if
/// recorded) is within its time to live; otherwise its settings.
pub fn knock_host(host: &str, cfg: &Config, last_knock_age: Option<u64>) -> (r: Option<
    KnockSettings,
>)
    ensures
        r.is_some() == (chosen_ports(cfg, host@).len() > 0 && (chosen_ttl(cfg, host@) == 0
            || match last_knock_age {
            Some(age) => age > chosen_ttl(cfg, host@),
            None => true,
        })),
        r matches Some(s) ==> s.ports@ == chosen_ports(cfg, host@) && s.ttl_secs == chosen_ttl(
            cfg,
            host@,
        ) && s.proto@ == chosen_proto(cfg, host@),
{
    let settings = knock_settings(host, cfg);
    if settings.ports.len() == 0 {
        return None;
    }
    if !should_knock(settings.ttl_secs, last_knock_age) {
        return None;
    }
    Some(settings)
}

/// The hosts to knock before connecting to `destination` with `ssh_args`,
/// in order: the jump hosts first, then the destination's host.
pub fn hosts_to_knock(destination: &str, ssh_args: &[String]) -> (r: Vec<String>)
    ensures
        views(r@) == proxy_hosts(views(ssh_args@)).push(after_last(destination@, '@')),
{
    let mut hosts = extract_proxy_hosts(ssh_args);
    let dest = owned(strip_user(destination));
    let ghost before = hosts@;
    hosts.push(dest);
    assert(views(hosts@) =~= views(before).push(dest@));
    hosts
}

/// Where to look for the `ssh` program, in order.
pub fn ssh_candidates() -> (r: Vec<String>)
    ensures
        views(r@) == seq!["/usr/bin/ssh"@, "/usr/local/bin/ssh"@, "/opt/homebrew/bin/ssh"@],
{
    let mut r: Vec<String> = Vec::new();
    r.push(owned("/usr/bin/ssh"));
    r.push(owned("/usr/local/bin/ssh"));
    r.push(owned("/opt/homebrew/bin/ssh"));
    assert(views(r@) =~= seq!["/usr/bin/ssh"@, "/usr/local/bin/ssh"@, "/opt/homebrew/bin/ssh"@]);
    r
}

/// The first candidate that exists, given whether each one does; `None`
/// when none does (ssh is not installed).
pub fn first_existing(exists: &[bool]) -> (r: Option<usize>)
    ensures
        r matches Some(i) ==> i < exists@.len() && exists@[i as int] && forall|j: int|
            0 <= j < i ==> !#[trigger] exists@[j],
        r is None ==> forall|j: int| 0 <= j < exists@.len() ==> !#[trigger] exists@[j],
{
    let mut i: usize = 0;
    while i < exists.len()
        invariant
            i <= exists@.len(),
            forall|j: int| 0 <= j < i ==> !#[trigger] exists@[j],
        decreases exists@.len() - i,
    {
        if exists[i] {
            return Some(i);
        }
        i = i + 1;
    }
    None
}

/// A jump list given with `-o ProxyJump=` is read exactly as the same list
/// given with `-J`: one host per comma-separated entry, each the host part
/// of its entry.
pub proof fn law_proxyjump_option_reads_like_dash_j(list: Seq<char>)
    ensures
        proxy_hosts(seq!["-o"@, "ProxyJump="@ + list]) == proxy_hosts(seq!["-J"@, list]),
        proxy_hosts(seq!["-J"@, list]) == jump_list(list),
        proxy_hosts(seq!["-J"@, list]).len() == split_on(list, ',').len(),
        forall|i: int|
            0 <= i < split_on(list, ',').len() ==> proxy_hosts(seq!["-o"@, "ProxyJump="@ + list])[i]
                == jump_host(#[trigger] split_on(list, ',')[i]),
{
    reveal_strlit("-J");
    reveal_strlit("-o");
    let o_args = seq!["-o"@, "ProxyJump="@ + list];
    let j_args = seq!["-J"@, list];
    let v = "ProxyJump="@ + list;
    assert("-o"@.len() == 2 && "-J"@.len() == 2);
    assert("-o"@[1] == 'o' && "-J"@[1] == 'J');
    assert(o_args[0] == "-o"@);
    assert(o_args[0][1] != "-J"@[1]);
    assert(o_args[0] != "-J"@);
    assert("-o"@.take(2) =~= "-o"@);
    assert(!is_prefix("-J"@, o_args[0]));
    assert(v.take("ProxyJump="@.len() as int) =~= "ProxyJump="@);
    assert(v.skip("ProxyJump="@.len() as int) =~= list);
    assert(o_args.skip(2) =~= Seq::<Seq<char>>::empty());
    assert(j_args.skip(2) =~= Seq::<Seq<char>>::empty());
    assert(proxy_hosts(Seq::<Seq<char>>::empty()) == Seq::<Seq<char>>::empty());
    assert(jump_list(list) + Seq::<Seq<char>>::empty() =~= jump_list(list));
    assert(j_args[0] == "-J"@ && j_args[1] == list);
    assert(proxy_hosts(j_args) == jump_list(list) + proxy_hosts(j_args.skip(2)));
    assert(proxy_hosts(j_args) == jump_list(list));
    assert(proxy_hosts(o_args) == jump_list(v.skip("ProxyJump="@.len() as int)) + proxy_hosts(
        o_args.skip(2),
    ));
}

/// A jump list with one more entry after a comma yields the hosts of the
/// first part followed by the host of that entry.
pub proof fn law_jump_list_appends_entry(list: Seq<char>, entry: Seq<char>)
    requires
        !entry.contains(','),
    ensures
        jump_list(list + seq![','] + entry) == jump_list(list).push(jump_host(entry)),
{
    crate::seqtext::lemma_split_at(list, entry, ',');
    assert forall|i: int| 0 <= i < entry.len() implies #[trigger] entry[i] != ',' by {
        if entry[i] == ',' {
            assert(entry.contains(','));
        }
    }
    crate::seqtext::lemma_split_no_sep(entry, ',');
    assert(jump_list(list + seq![','] + entry) =~= jump_list(list).push(jump_host(entry)));
}

/// Each setting of a host falls back on its own: a field the host's entry
/// sets is used; a field it leaves out (or a host with no entry) takes the
/// default; with neither, no ports, a time to live of 0 and `"tcp"`.
pub proof fn law_settings_fall_back_field_by_field(cfg: &Config, host: Seq<char>)
    ensures
        ({
            let present = cfg.hosts@.contains_key(host);
            let h = cfg.hosts@[host];
            &&& (present && h.knock_proto is Some) ==> chosen_proto(cfg, host) == h.knock_proto->0@
            &&& (!present || h.knock_proto is None) && cfg.defaults.knock_proto is Some ==> chosen_proto(
                cfg,
                host,
            ) == cfg.defaults.knock_proto->0@
            &&& (!present || h.knock_proto is None) && cfg.defaults.knock_proto is None ==> chosen_proto(
                cfg,
                host,
            ) == "tcp"@
            &&& (present && h.ttl_secs is Some) ==> chosen_ttl(cfg, host) == h.ttl_secs->0
            &&& (!present || h.ttl_secs is None) && cfg.defaults.ttl_secs is Some ==> chosen_ttl(cfg, host)
                == cfg.defaults.ttl_secs->0
            &&& (!present || h.ttl_secs is None) && cfg.defaults.ttl_secs is None ==> chosen_ttl(cfg, host)
                == 0
            &&& (present && h.knock_ports is Some) ==> chosen_ports(cfg, host) == h.knock_ports->0@
            &&& (!present || h.knock_ports is None) && cfg.defaults.knock_ports is Some ==> chosen_ports(
                cfg,
                host,
            ) == cfg.defaults.knock_ports->0@
            &&& (!present || h.knock_ports is None) && cfg.defaults.knock_ports is None ==> chosen_ports(
                cfg,
                host,
            ) == Seq::<u16>::empty()
        }),
{
}

/// A host whose entry sets no time to live uses the default one: with a
/// default of `t > 0`, a host knocked `age <= t` seconds ago is not knocked
/// again, and one knocked longer ago (or never) is, when it has ports.
pub proof fn law_default_ttl_skips_recent_knock(cfg: &Config, host: Seq<char>, t: u64, age: u64)
    requires
        cfg.hosts@.contains_key(host),
        cfg.hosts@[host].ttl_secs is None,
        cfg.defaults.ttl_secs == Some(t),
        t > 0,
    ensures
        chosen_ttl(cfg, host) == t,
        age <= t ==> !(chosen_ttl(cfg, host) == 0 || age > chosen_ttl(cfg, host)),
        age > t ==> (chosen_ttl(cfg, host) == 0 || age > chosen_ttl(cfg, host)),
{
}

/// The host part of a destination holds no `@`.
pub proof fn law_strip_user_has_no_at(dest: Seq<char>)
    ensures
        !after_last(dest, '@').contains('@'),
        after_last(after_last(dest, '@'), '@') == after_last(dest, '@'),
    decreases dest.len(),
{
    if dest.len() > 0 && dest.last() != '@' {
        law_strip_user_has_no_at(dest.drop_last());
        let a = after_last(dest.drop_last(), '@');
        assert(after_last(dest, '@') == a.push(dest.last()));
        assert(a.push(dest.last()).drop_last() =~= a);
        if a.push(dest.last()).contains('@') {
            let j = choose|j: int| 0 <= j < a.push(dest.last()).len() && a.push(dest.last())[j]
                == '@';
            if j < a.len() {
                assert(a[j] == '@');
            }
        }
    }
}

} // verus!
