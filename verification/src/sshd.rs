//! The knock daemon's decisions: its configuration, and what one observed
//! knock does to the table of sources part way through the sequence.

use vstd::prelude::*;
use crate::knock_table::{KnockState, KnockTable};
use crate::text::owned;

verus! {

/// The firewall that the daemon drives.
#[derive(Clone, Copy, Debug, PartialEq, Eq, Structural)]
pub enum FirewallBackend {
    Ufw,
    Firewalld,
    Iptables,
    Nftables,
    Pf,
}

/// The daemon's configuration.
pub struct Config {
    /// The ports to knock, in order.
    pub sequence: Vec<u16>,
    /// `"udp"` to count UDP datagrams; TCP SYNs count whatever it says.
    pub proto: String,
    /// The port that a completed sequence opens.
    pub open_port: u16,
    /// Seconds a source may pause between two knocks.
    pub ttl_secs: u64,
    /// Seconds the port stays open.
    pub open_secs: u64,
    pub firewall: FirewallBackend,
    /// The interface to listen on; the first suitable one when absent.
    pub interface: Option<String>,
}

/// Seconds between two sweeps of expired progress.
pub const SWEEP_INTERVAL_SECS: u64 = 5;

/// The protocol used when the configuration names none: `"tcp"`.
pub fn default_proto() -> (s: String)
    ensures
        s@ == "tcp"@,
{
    owned("tcp")
}

/// The time to live of a partial sequence when none is configured.
pub fn default_ttl() -> (n: u64)
    ensures
        n == 10,
{
    10
}

/// How long the port stays open when nothing is configured.
pub fn default_open_secs() -> (n: u64)
    ensures
        n == 30,
{
    30
}

/// What a knock did.
#[derive(Clone, Copy, Debug, PartialEq, Eq, Structural)]
pub enum KnockOutcome {
    /// A port other than the expected one, from a source with no progress.
    Ignored,
    /// A port other than the expected one: the source's progress is dropped.
    Reset,
    /// The expected port; this many knocks of the sequence are now done.
    Progress(usize),
    /// The last port of the sequence: the firewall is to be opened.
    Complete,
}

/// Whether every source in `m` is part way through a sequence of
/// `seq_len` ports: at least one knock done, and not all of them.
pub open spec fn table_valid(m: Map<u32, KnockState>, seq_len: nat) -> bool {
    forall|ip: u32| #[trigger]
        m.contains_key(ip) ==> 1 <= m[ip].next_idx && m[ip].next_idx < seq_len
}

/// The position in the sequence that `src` is expected to knock next.
pub open spec fn expected_index(m: Map<u32, KnockState>, src: u32) -> int {
    if m.contains_key(src) {
        m[src].next_idx as int
    } else {
        0
    }
}

/// What a knock on `port` from `src` at time `now` does: the table after it,
/// and the outcome.
pub open spec fn knock_step(
    m: Map<u32, KnockState>,
    seq: Seq<u16>,
    src: u32,
    port: u16,
    ttl_secs: u64,
    now: u64,
) -> (Map<u32, KnockState>, KnockOutcome) {
    if port != seq[expected_index(m, src)] {
        if m.contains_key(src) {
            (m.remove(src), KnockOutcome::Reset)
        } else {
            (m, KnockOutcome::Ignored)
        }
    } else {
        let done: int = if m.contains_key(src) && !m[src].expired_at(now, ttl_secs) {
            m[src].next_idx as int
        } else {
            0
        };
        if done + 1 < seq.len() {
            (
                m.insert(src, KnockState { next_idx: (done + 1) as usize, last_seen: now }),
                KnockOutcome::Progress((done + 1) as usize),
            )
        } else {
            (m.remove(src), KnockOutcome::Complete)
        }
    }
}

/// Handles one knock on `port` from `src` seen at time `now` (nanoseconds on
/// the daemon's monotonic clock).
///
/// The port expected from a source is the sequence's entry at its progress
/// (the first entry for a source with none). Any other port drops the
/// source's progress. The expected port advances it by one, starting over
/// from the first knock if the previous one is more than `ttl_secs` old; the
/// knock that completes the sequence drops the progress and answers
/// `Complete`.
pub fn handle_packet(
    src: u32,
    port: u16,
    cfg: &Config,
    states: &mut KnockTable,
    ttl_secs: u64,
    now: u64,
) -> (r: KnockOutcome)
    requires
        cfg.sequence@.len() > 0,
        table_valid(old(states)@, cfg.sequence@.len()),
    ensures
        (final(states)@, r) == knock_step(old(states)@, cfg.sequence@, src, port, ttl_secs, now),
        table_valid(final(states)@, cfg.sequence@.len()),
{
    let prior = states.get(src);
    proof {
        if states@.contains_key(src) {
            assert(1 <= states@[src].next_idx < cfg.sequence@.len());
        }
    }
    let idx: usize = match prior {
        Some(st) => st.next_idx,
        None => 0,
    };
    let expected = cfg.sequence[idx];
    if port != expected {
        if states.contains(src) {
            states.forget(src);
            return KnockOutcome::Reset;
        }
        return KnockOutcome::Ignored;
    }
    let mut entry = match prior {
        Some(st) => st,
        None => KnockState::new(now),
    };
    if entry.is_expired(now, ttl_secs) {
        entry.next_idx = 0;
    }
    let seq_len = cfg.sequence.len();
    assert(entry.next_idx < seq_len);
    entry.next_idx = entry.next_idx + 1;
    entry.last_seen = now;
    if entry.next_idx < seq_len {
        let done = entry.next_idx;
        states.set(src, entry);
        return KnockOutcome::Progress(done);
    }
    states.forget(src);
    KnockOutcome::Complete
}

/// What the daemon knows of a network interface.
pub struct InterfaceInfo {
    pub name: String,
    pub is_up: bool,
    pub is_loopback: bool,
    /// Whether the interface has any IP address.
    pub has_ips: bool,
}

/// Why no interface was chosen.
#[derive(Debug)]
pub enum InterfaceError {
    /// No interface has the configured name.
    NotFound(String),
    /// No interface is up, not loopback, and addressed.
    NoneSuitable,
}

/// Whether an interface can be listened on when none is configured.
pub open spec fn suitable(i: InterfaceInfo) -> bool {
    i.is_up && !i.is_loopback && i.has_ips
}

/// The interface to capture on: the first named `wanted` when a name is
/// configured, else the first that is up, not loopback and addressed.
pub fn select_interface(ifaces: &Vec<InterfaceInfo>, wanted: &Option<String>) -> (r: Result<
    usize,
    InterfaceError,
>)
    ensures
        match wanted {
            Some(name) => match r {
                Ok(i) => i < ifaces@.len() && ifaces@[i as int].name@ == name@ && forall|j: int|
                    0 <= j < i ==> #[trigger] ifaces@[j].name@ != name@,
                Err(InterfaceError::NotFound(n)) => n@ == name@ && forall|j: int|
                    0 <= j < ifaces@.len() ==> #[trigger] ifaces@[j].name@ != name@,
                Err(InterfaceError::NoneSuitable) => false,
            },
            None => match r {
                Ok(i) => i < ifaces@.len() && suitable(ifaces@[i as int]) && forall|j: int|
                    0 <= j < i ==> !suitable(#[trigger] ifaces@[j]),
                Err(InterfaceError::NoneSuitable) => forall|j: int|
                    0 <= j < ifaces@.len() ==> !suitable(#[trigger] ifaces@[j]),
                Err(InterfaceError::NotFound(_)) => false,
            },
        },
{
    let mut i: usize = 0;
    match wanted {
        Some(name) => {
            let key = crate::text::chars_of(name.as_str());
            while i < ifaces.len()
                invariant
                    i <= ifaces@.len(),
                    key@ == name@,
                    *wanted == Some(*name),
                    forall|j: int| 0 <= j < i ==> #[trigger] ifaces@[j].name@ != name@,
                decreases ifaces@.len() - i,
            {
                let candidate = crate::text::chars_of(ifaces[i].name.as_str());
                if crate::text::chars_eq(&candidate, &key) {
                    return Ok(i);
                }
                i = i + 1;
            }
            Err(InterfaceError::NotFound(name.clone()))
        },
        None => {
            while i < ifaces.len()
                invariant
                    i <= ifaces@.len(),
                    wanted.is_none(),
                    forall|j: int| 0 <= j < i ==> !suitable(#[trigger] ifaces@[j]),
                decreases ifaces@.len() - i,
            {
                let f = &ifaces[i];
                if f.is_up && !f.is_loopback && f.has_ips {
                    return Ok(i);
                }
                i = i + 1;
            }
            Err(InterfaceError::NoneSuitable)
        },
    }
}

/// The table and outcomes after the knocks `knocks` (port, time) from `src`,
/// handled one after the other.
pub open spec fn run_knocks(
    m: Map<u32, KnockState>,
    seq: Seq<u16>,
    src: u32,
    knocks: Seq<(u16, u64)>,
    ttl_secs: u64,
) -> (Map<u32, KnockState>, Seq<KnockOutcome>)
    decreases knocks.len(),
{
    if knocks.len() == 0 {
        (m, Seq::empty())
    } else {
        let prev = run_knocks(m, seq, src, knocks.drop_last(), ttl_secs);
        let step = knock_step(prev.0, seq, src, knocks.last().0, ttl_secs, knocks.last().1);
        (step.0, prev.1.push(step.1))
    }
}

/// Whether `knocks` are the ports of `seq`, in order, each one no more than
/// `ttl_secs` seconds after the one before.
pub open spec fn knocks_follow_sequence(
    seq: Seq<u16>,
    knocks: Seq<(u16, u64)>,
    ttl_secs: u64,
) -> bool {
    &&& knocks.len() == seq.len()
    &&& forall|i: int| 0 <= i < seq.len() ==> #[trigger] knocks[i].0 == seq[i]
    &&& forall|i: int|
        0 < i < seq.len() ==> #[trigger] knocks[i].1 - knocks[i - 1].1 <= ttl_secs * 1_000_000_000
}

/// The outcomes `Progress(1)`, ..., `Progress(k)`.
pub open spec fn progress_outcomes(k: nat) -> Seq<KnockOutcome> {
    Seq::new(k, |i: int| KnockOutcome::Progress((i + 1) as usize))
}

/// The table after `k` knocks of the sequence, `0 < k`.
pub open spec fn partway(m: Map<u32, KnockState>, src: u32, knocks: Seq<(u16, u64)>, k: nat) -> Map<
    u32,
    KnockState,
> {
    m.insert(src, KnockState { next_idx: k as usize, last_seen: knocks[k - 1].1 })
}

/// Part way through knocking the whole sequence from a source with no
/// progress, each knock within the time to live of the one before: after the
/// first `k` knocks (`1 <= k < n`) the source's progress is `k`, last seen at
/// the time of knock `k`, every other source is as it was, and the outcomes
/// so far are `Progress(1)`, ..., `Progress(k)`: no knock before the last
/// completes the sequence.
pub proof fn law_sequence_prefix(
    m: Map<u32, KnockState>,
    seq: Seq<u16>,
    src: u32,
    knocks: Seq<(u16, u64)>,
    ttl_secs: u64,
    k: nat,
)
    requires
        seq.len() <= usize::MAX,
        !m.contains_key(src),
        knocks_follow_sequence(seq, knocks, ttl_secs),
        1 <= k < seq.len(),
    ensures
        run_knocks(m, seq, src, knocks.take(k as int), ttl_secs) == (
            partway(m, src, knocks, k),
            progress_outcomes(k),
        ),
    decreases k,
{
    let pre = knocks.take(k as int);
    assert(pre.drop_last() =~= knocks.take(k - 1));
    assert(pre.last() == knocks[k - 1]);
    assert(knocks[k - 1].0 == seq[k - 1]);
    let target = KnockState { next_idx: k as usize, last_seen: knocks[k - 1].1 };
    if k == 1 {
        assert(knocks.take(0) =~= Seq::<(u16, u64)>::empty());
        let prev = run_knocks(m, seq, src, knocks.take(0), ttl_secs);
        assert(prev == (m, Seq::<KnockOutcome>::empty()));
        assert(expected_index(m, src) == 0);
        let st = knock_step(m, seq, src, knocks[0].0, ttl_secs, knocks[0].1);
        assert(st == (m.insert(src, target), KnockOutcome::Progress(1)));
        assert(Seq::<KnockOutcome>::empty().push(KnockOutcome::Progress(1)) =~= progress_outcomes(1));
        assert(run_knocks(m, seq, src, pre, ttl_secs) == (st.0, prev.1.push(st.1)));
    } else {
        law_sequence_prefix(m, seq, src, knocks, ttl_secs, (k - 1) as nat);
        let prev = run_knocks(m, seq, src, knocks.take(k - 1), ttl_secs);
        let pm = partway(m, src, knocks, (k - 1) as nat);
        assert(prev == (pm, progress_outcomes((k - 1) as nat)));
        assert(pm.contains_key(src));
        assert(pm[src].next_idx == k - 1);
        assert(expected_index(pm, src) == k - 1);
        assert(knocks[k - 1].1 - knocks[k - 2].1 <= ttl_secs * 1_000_000_000);
        assert(!pm[src].expired_at(knocks[k - 1].1, ttl_secs));
        let st = knock_step(pm, seq, src, knocks[k - 1].0, ttl_secs, knocks[k - 1].1);
        assert(pm.insert(src, target) =~= partway(m, src, knocks, k));
        assert(st == (partway(m, src, knocks, k), KnockOutcome::Progress(k as usize)));
        assert(progress_outcomes((k - 1) as nat).push(KnockOutcome::Progress(k as usize))
            =~= progress_outcomes(k));
        assert(run_knocks(m, seq, src, pre, ttl_secs) == (st.0, prev.1.push(st.1)));
    }
}

/// Knocking the whole sequence from a source with no progress, each knock
/// within the time to live of the one before, answers `Progress(1)`, ...,
/// `Progress(n - 1)` and then `Complete` on the last knock, and leaves the
/// table as it was.
pub proof fn law_full_sequence_completes(
    m: Map<u32, KnockState>,
    seq: Seq<u16>,
    src: u32,
    knocks: Seq<(u16, u64)>,
    ttl_secs: u64,
)
    requires
        seq.len() > 0,
        seq.len() <= usize::MAX,
        !m.contains_key(src),
        knocks_follow_sequence(seq, knocks, ttl_secs),
    ensures
        run_knocks(m, seq, src, knocks, ttl_secs) == (
            m,
            progress_outcomes((seq.len() - 1) as nat).push(KnockOutcome::Complete),
        ),
{
    let n = seq.len();
    assert(knocks.drop_last() =~= knocks.take(n - 1));
    assert(knocks.last() == knocks[n - 1]);
    assert(knocks[n - 1].0 == seq[n - 1]);
    if n == 1 {
        assert(knocks.take(0) =~= Seq::<(u16, u64)>::empty());
        let prev = run_knocks(m, seq, src, knocks.take(0), ttl_secs);
        assert(prev == (m, Seq::<KnockOutcome>::empty()));
        assert(expected_index(m, src) == 0);
        let st = knock_step(m, seq, src, knocks[0].0, ttl_secs, knocks[0].1);
        assert(m.remove(src) =~= m);
        assert(st == (m, KnockOutcome::Complete));
        assert(progress_outcomes(0) =~= Seq::<KnockOutcome>::empty());
        assert(run_knocks(m, seq, src, knocks, ttl_secs) == (st.0, prev.1.push(st.1)));
    } else {
        law_sequence_prefix(m, seq, src, knocks, ttl_secs, (n - 1) as nat);
        let prev = run_knocks(m, seq, src, knocks.take(n - 1), ttl_secs);
        let pm = partway(m, src, knocks, (n - 1) as nat);
        assert(prev == (pm, progress_outcomes((n - 1) as nat)));
        assert(pm.contains_key(src));
        assert(expected_index(pm, src) == n - 1);
        assert(knocks[n - 1].1 - knocks[n - 2].1 <= ttl_secs * 1_000_000_000);
        assert(!pm[src].expired_at(knocks[n - 1].1, ttl_secs));
        let st = knock_step(pm, seq, src, knocks[n - 1].0, ttl_secs, knocks[n - 1].1);
        assert(pm.remove(src) =~= m);
        assert(st == (m, KnockOutcome::Complete));
        assert(run_knocks(m, seq, src, knocks, ttl_secs) == (st.0, prev.1.push(st.1)));
    }
}

/// The table and outcomes after the knocks `events` (source, port, time),
/// from any sources, handled one after the other.
pub open spec fn run_events(
    m: Map<u32, KnockState>,
    seq: Seq<u16>,
    events: Seq<(u32, u16, u64)>,
    ttl_secs: u64,
) -> (Map<u32, KnockState>, Seq<KnockOutcome>)
    decreases events.len(),
{
    if events.len() == 0 {
        (m, Seq::empty())
    } else {
        let prev = run_events(m, seq, events.drop_last(), ttl_secs);
        let e = events.last();
        let step = knock_step(prev.0, seq, e.0, e.1, ttl_secs, e.2);
        (step.0, prev.1.push(step.1))
    }
}

/// The ports that `src` knocked among `events`, in order.
pub open spec fn ports_from(events: Seq<(u32, u16, u64)>, src: u32) -> Seq<u16>
    decreases events.len(),
{
    if events.len() == 0 {
        Seq::empty()
    } else if events.last().0 == src {
        ports_from(events.drop_last(), src).push(events.last().1)
    } else {
        ports_from(events.drop_last(), src)
    }
}

/// Whether no knock of `src` among `events` arrives more than the time to
/// live after the previous one that `src`'s progress records.
pub open spec fn in_time_for(
    m: Map<u32, KnockState>,
    seq: Seq<u16>,
    events: Seq<(u32, u16, u64)>,
    src: u32,
    ttl_secs: u64,
) -> bool {
    forall|i: int|
        0 <= i < events.len() && #[trigger] events[i].0 == src && run_events(
            m,
            seq,
            events.take(i),
            ttl_secs,
        ).0.contains_key(src) ==> !run_events(m, seq, events.take(i), ttl_secs).0[src].expired_at(
            events[i].2,
            ttl_secs,
        )
}

/// Every knock keeps every source part way through the sequence.
pub proof fn law_knock_keeps_table_valid(
    m: Map<u32, KnockState>,
    seq: Seq<u16>,
    src: u32,
    port: u16,
    ttl_secs: u64,
    now: u64,
)
    requires
        seq.len() > 0,
        seq.len() <= usize::MAX,
        table_valid(m, seq.len()),
    ensures
        table_valid(knock_step(m, seq, src, port, ttl_secs, now).0, seq.len()),
{
    let r = knock_step(m, seq, src, port, ttl_secs, now).0;
    assert forall|ip: u32| #[trigger] r.contains_key(ip) implies 1 <= r[ip].next_idx
        && r[ip].next_idx < seq.len() by {
        if ip != src {
            assert(m.contains_key(ip));
        }
    }
}

/// The progress of `src` after `events` stands for the knocks it made: a
/// progress of `k` means that its last `k` knocks were the first `k` ports
/// of the sequence, in order.
proof fn lemma_progress_records_ports(
    m: Map<u32, KnockState>,
    seq: Seq<u16>,
    events: Seq<(u32, u16, u64)>,
    src: u32,
    ttl_secs: u64,
)
    requires
        seq.len() > 0,
        seq.len() <= usize::MAX,
        table_valid(m, seq.len()),
        !m.contains_key(src),
        in_time_for(m, seq, events, src, ttl_secs),
    ensures
        table_valid(run_events(m, seq, events, ttl_secs).0, seq.len()),
        ({
            let r = run_events(m, seq, events, ttl_secs).0;
            let p = ports_from(events, src);
            r.contains_key(src) ==> r[src].next_idx <= p.len() && p.skip(
                p.len() - r[src].next_idx,
            ) == seq.take(r[src].next_idx as int)
        }),
    decreases events.len(),
{
    if events.len() > 0 {
        let pre = events.drop_last();
        assert forall|i: int|
            0 <= i < pre.len() && #[trigger] pre[i].0 == src && run_events(
                m,
                seq,
                pre.take(i),
                ttl_secs,
            ).0.contains_key(src) implies !run_events(m, seq, pre.take(i), ttl_secs).0[src].expired_at(
            pre[i].2,
            ttl_secs,
        ) by {
            assert(pre.take(i) =~= events.take(i));
            assert(pre[i] == events[i]);
        }
        lemma_progress_records_ports(m, seq, pre, src, ttl_secs);
        let prev = run_events(m, seq, pre, ttl_secs).0;
        let e = events.last();
        law_knock_keeps_table_valid(prev, seq, e.0, e.1, ttl_secs, e.2);
        let r = run_events(m, seq, events, ttl_secs).0;
        let pp = ports_from(pre, src);
        let p = ports_from(events, src);
        if e.0 != src {
            law_knock_leaves_other_sources(prev, seq, e.0, e.1, ttl_secs, e.2, src);
            assert(p == pp);
        } else {
            let n = events.len() - 1;
            assert(events.take(n) =~= pre);
            assert(events[n] == e);
            if prev.contains_key(src) {
                assert(!prev[src].expired_at(e.2, ttl_secs));
            }
            if r.contains_key(src) {
                let d = expected_index(prev, src);
                assert(e.1 == seq[d]);
                assert(r[src].next_idx == d + 1);
                assert(p == pp.push(e.1));
                if d == 0 {
                    assert(seq.take(1) =~= seq![seq[0]]);
                    assert(p.skip(p.len() - 1) =~= seq![e.1]);
                } else {
                    assert(pp.skip(pp.len() - d) == seq.take(d));
                    assert(p.skip(p.len() - (d + 1)) =~= pp.skip(pp.len() - d).push(e.1));
                    assert(seq.take(d + 1) =~= seq.take(d).push(seq[d]));
                }
            }
        }
    }
}

/// The firewall opens only after a full run: when a knock completes the
/// sequence (starting from a table where its source has no progress, and
/// with that source never pausing longer than the time to live between
/// knocks), the last `n` knocks of that source, whatever other sources did
/// in between, were exactly the `n` ports of the sequence, in order.
pub proof fn law_complete_follows_full_run(
    m: Map<u32, KnockState>,
    seq: Seq<u16>,
    events: Seq<(u32, u16, u64)>,
    ttl_secs: u64,
)
    requires
        seq.len() > 0,
        seq.len() <= usize::MAX,
        table_valid(m, seq.len()),
        events.len() > 0,
        !m.contains_key(events.last().0),
        in_time_for(m, seq, events, events.last().0, ttl_secs),
        run_events(m, seq, events, ttl_secs).1.last() == KnockOutcome::Complete,
    ensures
        ports_from(events, events.last().0).len() >= seq.len(),
        ports_from(events, events.last().0).skip(
            ports_from(events, events.last().0).len() - seq.len(),
        ) == seq,
{
    let src = events.last().0;
    let pre = events.drop_last();
    let n = events.len() - 1;
    assert(events.take(n) =~= pre);
    assert(events[n] == events.last());
    assert forall|i: int|
        0 <= i < pre.len() && #[trigger] pre[i].0 == src && run_events(
            m,
            seq,
            pre.take(i),
            ttl_secs,
        ).0.contains_key(src) implies !run_events(m, seq, pre.take(i), ttl_secs).0[src].expired_at(
        pre[i].2,
        ttl_secs,
    ) by {
        assert(pre.take(i) =~= events.take(i));
        assert(pre[i] == events[i]);
    }
    lemma_progress_records_ports(m, seq, pre, src, ttl_secs);
    let prev = run_events(m, seq, pre, ttl_secs).0;
    let e = events.last();
    let pp = ports_from(pre, src);
    let p = ports_from(events, src);
    assert(p == pp.push(e.1));
    if prev.contains_key(src) {
        assert(!prev[src].expired_at(e.2, ttl_secs));
    }
    let d = expected_index(prev, src);
    assert(knock_step(prev, seq, src, e.1, ttl_secs, e.2).1 == KnockOutcome::Complete);
    assert(e.1 == seq[d]);
    assert(d + 1 >= seq.len());
    assert(d == seq.len() - 1);
    if d == 0 {
        assert(p.skip(p.len() - 1) =~= seq![e.1]);
        assert(seq =~= seq![seq[0]]);
    } else {
        assert(pp.skip(pp.len() - d) == seq.take(d));
        assert(p.skip(p.len() - (d + 1)) =~= pp.skip(pp.len() - d).push(e.1));
        assert(seq =~= seq.take(d).push(seq[d]));
    }
}

/// A knock only ever changes the progress of the source that sent it.
pub proof fn law_knock_leaves_other_sources(
    m: Map<u32, KnockState>,
    seq: Seq<u16>,
    src: u32,
    port: u16,
    ttl_secs: u64,
    now: u64,
    other: u32,
)
    requires
        other != src,
    ensures
        knock_step(m, seq, src, port, ttl_secs, now).0.contains_key(other) == m.contains_key(
            other,
        ),
        m.contains_key(other) ==> knock_step(m, seq, src, port, ttl_secs, now).0[other]
            == m[other],
{
}

/// A knock on any port but the expected one leaves the source with no
/// progress, and is never answered with `Progress` or `Complete`.
pub proof fn law_wrong_knock_resets(
    m: Map<u32, KnockState>,
    seq: Seq<u16>,
    src: u32,
    port: u16,
    ttl_secs: u64,
    now: u64,
)
    requires
        port != seq[expected_index(m, src)],
    ensures
        !knock_step(m, seq, src, port, ttl_secs, now).0.contains_key(src),
        knock_step(m, seq, src, port, ttl_secs, now).1 == KnockOutcome::Reset
            || knock_step(m, seq, src, port, ttl_secs, now).1 == KnockOutcome::Ignored,
{
}

/// The expected knock arriving more than the time to live after the
/// source's previous one counts as the first knock of the sequence.
pub proof fn law_late_knock_restarts(
    m: Map<u32, KnockState>,
    seq: Seq<u16>,
    src: u32,
    ttl_secs: u64,
    now: u64,
)
    requires
        m.contains_key(src),
        0 <= m[src].next_idx < seq.len(),
        m[src].expired_at(now, ttl_secs),
    ensures
        knock_step(m, seq, src, seq[m[src].next_idx as int], ttl_secs, now) == (if 1 < seq.len() {
            (
                m.insert(src, KnockState { next_idx: 1, last_seen: now }),
                KnockOutcome::Progress(1),
            )
        } else {
            (m.remove(src), KnockOutcome::Complete)
        }),
{
}

/// Dropping expired sources keeps every remaining source part way through
/// the sequence.
pub proof fn law_sweep_keeps_table_valid(
    m: Map<u32, KnockState>,
    seq_len: nat,
    now: u64,
    ttl_secs: u64,
)
    requires
        table_valid(m, seq_len),
    ensures
        table_valid(
            m.restrict(m.dom().filter(|ip: u32| !m[ip].expired_at(now, ttl_secs))),
            seq_len,
        ),
{
}

} // verus!
