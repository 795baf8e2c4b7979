//! The client's configuration: defaults, and settings per host alias.

use vstd::prelude::*;
use crate::text::{chars_eq, chars_of};

verus! {

/// Knock settings for one host alias; an absent field falls back to the
/// defaults.
pub struct HostConfig {
    pub knock_ports: Option<Vec<u16>>,
    pub knock_proto: Option<String>,
    pub ttl_secs: Option<u64>,
}

/// Knock settings used where a host has none of its own.
pub struct Defaults {
    pub knock_ports: Option<Vec<u16>>,
    pub knock_proto: Option<String>,
    pub ttl_secs: Option<u64>,
}

/// The map of host aliases to their settings, as the entries in the order they
/// were added: a later entry for an alias stands in for an earlier one.
pub struct HostTable {
    entries: Vec<(String, HostConfig)>,
}

/// The map that a list of entries stands for: each alias to its last entry.
pub open spec fn entries_map(s: Seq<(String, HostConfig)>) -> Map<Seq<char>, HostConfig>
    decreases s.len(),
{
    if s.len() == 0 {
        Map::empty()
    } else {
        entries_map(s.drop_last()).insert(s.last().0@, s.last().1)
    }
}

/// Entries after position `i` that do not name `k` change nothing about `k`.
proof fn lemma_entries_suffix(s: Seq<(String, HostConfig)>, i: int, k: Seq<char>)
    requires
        0 <= i <= s.len(),
        forall|j: int| i <= j < s.len() ==> #[trigger] s[j].0@ != k,
    ensures
        entries_map(s).contains_key(k) == entries_map(s.take(i)).contains_key(k),
        entries_map(s).contains_key(k) ==> entries_map(s)[k] == entries_map(s.take(i))[k],
    decreases s.len(),
{
    if s.len() > i {
        assert(s.drop_last().take(i) =~= s.take(i));
        assert forall|j: int| i <= j < s.drop_last().len() implies #[trigger] s.drop_last()[j].0@
            != k by {
            assert(s.drop_last()[j] == s[j]);
        }
        lemma_entries_suffix(s.drop_last(), i, k);
        assert(s.last() == s[s.len() - 1]);
    } else {
        assert(s.take(i) =~= s);
    }
}

impl View for HostTable {
    type V = Map<Seq<char>, HostConfig>;

    closed spec fn view(&self) -> Map<Seq<char>, HostConfig> {
        entries_map(self.entries@)
    }
}

impl HostTable {
    /// A table with no alias in it.
    pub fn new() -> (t: HostTable)
        ensures
            t@ == Map::<Seq<char>, HostConfig>::empty(),
    {
        HostTable { entries: Vec::new() }
    }

    /// Sets the settings of `alias`, replacing any it had.
    pub fn insert(&mut self, alias: String, cfg: HostConfig)
        ensures
            final(self)@ == old(self)@.insert(alias@, cfg),
    {
        self.entries.push((alias, cfg));
        proof {
            assert(self.entries@.drop_last() =~= old(self).entries@);
        }
    }

    /// The settings of `alias`, if it has any.
    pub fn get(&self, alias: &str) -> (r: Option<&HostConfig>)
        ensures
            r.is_some() == self@.contains_key(alias@),
            r matches Some(h) ==> *h == self@[alias@],
    {
        let key = chars_of(alias);
        let mut i = self.entries.len();
        while i > 0
            invariant
                i <= self.entries@.len(),
                key@ == alias@,
                forall|j: int| i <= j < self.entries@.len() ==> #[trigger] self.entries@[j].0@
                    != alias@,
            decreases i,
        {
            let name = chars_of(self.entries[i - 1].0.as_str());
            if chars_eq(&name, &key) {
                proof {
                    let s = self.entries@;
                    lemma_entries_suffix(s, i as int, alias@);
                    assert(s.take(i as int).drop_last() =~= s.take(i - 1));
                    assert(s.take(i as int).last() == s[i - 1]);
                }
                return Some(&self.entries[i - 1].1);
            }
            i = i - 1;
        }
        proof {
            lemma_entries_suffix(self.entries@, 0, alias@);
            assert(self.entries@.take(0) =~= Seq::<(String, HostConfig)>::empty());
        }
        None
    }
}

/// The client's configuration.
pub struct Config {
    pub defaults: Defaults,
    pub hosts: HostTable,
}

impl Default for Defaults {
    fn default() -> (d: Defaults)
        ensures
            d.knock_ports.is_none(),
            d.knock_proto.is_none(),
            d.ttl_secs.is_none(),
    {
        Defaults { knock_ports: None, knock_proto: None, ttl_secs: None }
    }
}

impl Default for Config {
    /// The configuration used when there is no configuration file: no
    /// defaults and no hosts.
    fn default() -> (c: Config)
        ensures
            c.defaults.knock_ports.is_none(),
            c.defaults.knock_proto.is_none(),
            c.defaults.ttl_secs.is_none(),
            c.hosts@ == Map::<Seq<char>, HostConfig>::empty(),
    {
        Config { defaults: Defaults::default(), hosts: HostTable::new() }
    }
}

impl Config {
    /// The settings of the host alias `alias`, if the configuration has any.
    pub fn resolve_host(&self, alias: &str) -> (r: Option<&HostConfig>)
        ensures
            r.is_some() == self.hosts@.contains_key(alias@),
            r matches Some(h) ==> *h == self.hosts@[alias@],
    {
        self.hosts.get(alias)
    }
}

} // verus!
