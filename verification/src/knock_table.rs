//! Per-source knock progress, kept in a `dashmap::DashMap` keyed by the
//! source's IPv4 address (as its `u32`).

use vstd::prelude::*;
use dashmap::DashMap;

verus! {

#[verifier::external_type_specification]
#[verifier::external_body]
#[verifier::reject_recursive_types(K)]
#[verifier::reject_recursive_types(V)]
#[verifier::reject_recursive_types(S)]
pub struct ExDashMap<K, V, S>(DashMap<K, V, S>);

/// Number of nanoseconds in a second.
pub const NANOS_PER_SEC: u64 = 1_000_000_000;

/// How far one source address has come through the knock sequence:
/// `next_idx` knocks of the sequence are done, and the last of them was seen
/// at `last_seen` (nanoseconds on the daemon's monotonic clock).
#[derive(Clone, Copy, Debug)]
pub struct KnockState {
    pub next_idx: usize,
    pub last_seen: u64,
}

impl KnockState {
    /// Whether, at time `now`, more than `ttl_secs` seconds have passed since
    /// the last knock (a clock read before `last_seen` counts as no time).
    pub open spec fn expired_at(self, now: u64, ttl_secs: u64) -> bool {
        now - self.last_seen > ttl_secs * NANOS_PER_SEC
    }

    /// A state with no knock done, last seen at `now`.
    pub fn new(now: u64) -> (s: KnockState)
        ensures
            s.next_idx == 0,
            s.last_seen == now,
    {
        KnockState { next_idx: 0, last_seen: now }
    }

    /// Whether, at time `now`, more than `ttl_secs` seconds have passed since
    /// the last knock.
    pub fn is_expired(&self, now: u64, ttl_secs: u64) -> (r: bool)
        ensures
            r == self.expired_at(now, ttl_secs),
    {
        let elapsed: u64 = now.saturating_sub(self.last_seen);
        (elapsed as u128) > (ttl_secs as u128) * (NANOS_PER_SEC as u128)
    }

    /// Whether the state is still within its time to live at `now`.
    pub fn is_live(&self, now: u64, ttl_secs: u64) -> (r: bool)
        ensures
            r == !self.expired_at(now, ttl_secs),
    {
        !self.is_expired(now, ttl_secs)
    }
}

/// What a `DashMap` of knock states holds: source address to state.
pub uninterp spec fn knock_states(m: DashMap<u32, KnockState>) -> Map<u32, KnockState>;

/// `DashMap::new`: a map that holds nothing.
#[verifier::external_body]
fn dashmap_new() -> (table: DashMap<u32, KnockState>)
    ensures
        knock_states(table).dom() == Set::<u32>::empty(),
{
    DashMap::new()
}

/// `DashMap::get`: the state stored for `ip`, copied out of the map.
#[verifier::external_body]
fn dashmap_get(m: &DashMap<u32, KnockState>, ip: u32) -> (r: Option<KnockState>)
    ensures
        r == (if knock_states(*m).contains_key(ip) {
            Some(knock_states(*m)[ip])
        } else {
            None
        }),
{
    match m.get(&ip) {
        Some(entry) => Some(*entry),
        None => None,
    }
}

/// `DashMap::contains_key`: whether a state is stored for `ip`.
#[verifier::external_body]
fn dashmap_contains_key(m: &DashMap<u32, KnockState>, ip: u32) -> (r: bool)
    ensures
        r == knock_states(*m).contains_key(ip),
{
    m.contains_key(&ip)
}

/// `DashMap::insert`: stores `state` for `ip`, replacing what was there.
#[verifier::external_body]
fn dashmap_insert(m: &mut DashMap<u32, KnockState>, ip: u32, state: KnockState)
    ensures
        knock_states(*final(m)) == knock_states(*old(m)).insert(ip, state),
{
    m.insert(ip, state);
}

/// `DashMap::remove`: forgets the state of `ip`, if any.
#[verifier::external_body]
fn dashmap_remove(m: &mut DashMap<u32, KnockState>, ip: u32)
    ensures
        knock_states(*final(m)) == knock_states(*old(m)).remove(ip),
{
    m.remove(&ip);
}

/// `DashMap::retain`: keeps exactly the states for which the closure, which
/// asks `KnockState::is_live`, answers `true`.
#[verifier::external_body]
fn dashmap_retain_live(m: &mut DashMap<u32, KnockState>, now: u64, ttl_secs: u64)
    ensures
        knock_states(*final(m)).dom() == knock_states(*old(m)).dom().filter(
            |ip: u32| !knock_states(*old(m))[ip].expired_at(now, ttl_secs),
        ),
        forall|ip: u32| #[trigger]
            knock_states(*final(m)).contains_key(ip) ==> knock_states(*final(m))[ip]
                == knock_states(*old(m))[ip],
{
    m.retain(|_, state| state.is_live(now, ttl_secs));
}

/// The knock progress of every source address that is part way through the
/// sequence.
pub struct KnockTable {
    states: DashMap<u32, KnockState>,
}

impl View for KnockTable {
    type V = Map<u32, KnockState>;

    closed spec fn view(&self) -> Map<u32, KnockState> {
        knock_states(self.states)
    }
}

impl KnockTable {
    /// A table with no source in it.
    pub fn new() -> (t: KnockTable)
        ensures
            t@.dom() == Set::<u32>::empty(),
    {
        KnockTable { states: dashmap_new() }
    }

    /// The state of `ip`, if it has one.
    pub fn get(&self, ip: u32) -> (r: Option<KnockState>)
        ensures
            r == (if self@.contains_key(ip) {
                Some(self@[ip])
            } else {
                None
            }),
    {
        dashmap_get(&self.states, ip)
    }

    /// Whether `ip` has a state.
    pub fn contains(&self, ip: u32) -> (r: bool)
        ensures
            r == self@.contains_key(ip),
    {
        dashmap_contains_key(&self.states, ip)
    }

    /// Stores `state` for `ip`.
    pub fn set(&mut self, ip: u32, state: KnockState)
        ensures
            final(self)@ == old(self)@.insert(ip, state),
    {
        dashmap_insert(&mut self.states, ip, state);
    }

    /// Forgets the state of `ip`.
    pub fn forget(&mut self, ip: u32)
        ensures
            final(self)@ == old(self)@.remove(ip),
    {
        dashmap_remove(&mut self.states, ip);
    }

    /// Drops every state that has outlived `ttl_secs` at `now`, and keeps the
    /// others unchanged.
    pub fn sweep_expired(&mut self, now: u64, ttl_secs: u64)
        ensures
            final(self)@ == old(self)@.restrict(
                old(self)@.dom().filter(|ip: u32| !old(self)@[ip].expired_at(now, ttl_secs)),
            ),
    {
        dashmap_retain_live(&mut self.states, now, ttl_secs);
        proof {
            let kept = old(self)@.dom().filter(|ip: u32| !old(self)@[ip].expired_at(now, ttl_secs));
            assert(self@ =~= old(self)@.restrict(kept));
        }
    }
}

} // verus!
