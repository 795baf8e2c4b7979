use escutcheon::knock_table::{KnockState, KnockTable, NANOS_PER_SEC};
use escutcheon::sshd::{
    default_open_secs, default_proto, default_ttl, handle_packet, select_interface, Config,
    FirewallBackend, InterfaceError, InterfaceInfo, KnockOutcome,
};

fn cfg(sequence: Vec<u16>) -> Config {
    Config {
        sequence,
        proto: "tcp".to_string(),
        open_port: 22,
        ttl_secs: 10,
        open_secs: 30,
        firewall: FirewallBackend::Iptables,
        interface: None,
    }
}

const A: u32 = 0x0a00_0001;
const B: u32 = 0x0a00_0002;

#[test]
fn defaults_are_tcp_ten_and_thirty() {
    assert_eq!(default_proto(), "tcp");
    assert_eq!(default_ttl(), 10);
    assert_eq!(default_open_secs(), 30);
}

#[test]
fn full_sequence_completes_on_last_knock() {
    let c = cfg(vec![7000, 8000, 9000]);
    let mut t = KnockTable::new();
    assert_eq!(handle_packet(A, 7000, &c, &mut t, 10, 1), KnockOutcome::Progress(1));
    assert_eq!(t.get(A).unwrap().next_idx, 1);
    assert_eq!(t.get(A).unwrap().last_seen, 1);
    assert_eq!(handle_packet(A, 8000, &c, &mut t, 10, 2), KnockOutcome::Progress(2));
    assert_eq!(handle_packet(A, 9000, &c, &mut t, 10, 3), KnockOutcome::Complete);
    assert!(t.get(A).is_none());
}

#[test]
fn single_port_sequence_completes_at_once() {
    let c = cfg(vec![4242]);
    let mut t = KnockTable::new();
    assert_eq!(handle_packet(A, 4242, &c, &mut t, 10, 0), KnockOutcome::Complete);
    assert!(!t.contains(A));
}

#[test]
fn wrong_port_resets_progress() {
    let c = cfg(vec![7000, 8000, 9000]);
    let mut t = KnockTable::new();
    assert_eq!(handle_packet(A, 1234, &c, &mut t, 10, 0), KnockOutcome::Ignored);
    assert!(!t.contains(A));
    assert_eq!(handle_packet(A, 7000, &c, &mut t, 10, 0), KnockOutcome::Progress(1));
    assert_eq!(handle_packet(A, 9000, &c, &mut t, 10, 0), KnockOutcome::Reset);
    assert!(!t.contains(A));
    // A reset source has to start from the first port again.
    assert_eq!(handle_packet(A, 8000, &c, &mut t, 10, 0), KnockOutcome::Ignored);
}

#[test]
fn sources_are_tracked_separately() {
    let c = cfg(vec![1, 2, 3]);
    let mut t = KnockTable::new();
    handle_packet(A, 1, &c, &mut t, 10, 0);
    handle_packet(B, 1, &c, &mut t, 10, 0);
    handle_packet(B, 2, &c, &mut t, 10, 0);
    assert_eq!(t.get(A).unwrap().next_idx, 1);
    assert_eq!(t.get(B).unwrap().next_idx, 2);
    handle_packet(A, 9, &c, &mut t, 10, 0);
    assert!(!t.contains(A));
    assert_eq!(t.get(B).unwrap().next_idx, 2);
}

#[test]
fn expired_progress_starts_over() {
    let c = cfg(vec![1, 2, 3]);
    let mut t = KnockTable::new();
    handle_packet(A, 1, &c, &mut t, 10, 0);
    // Exactly the time to live later: still in time.
    assert_eq!(handle_packet(A, 2, &c, &mut t, 10, 10 * NANOS_PER_SEC), KnockOutcome::Progress(2));
    // More than the time to live later: the expected knock counts as a first one.
    let late = 10 * NANOS_PER_SEC + 10 * NANOS_PER_SEC + 1;
    assert_eq!(handle_packet(A, 3, &c, &mut t, 10, late), KnockOutcome::Progress(1));
    assert_eq!(t.get(A).unwrap().last_seen, late);
}

#[test]
fn knock_state_expiry() {
    let s = KnockState::new(5);
    assert_eq!(s.next_idx, 0);
    assert!(!s.is_expired(5 + NANOS_PER_SEC, 1));
    assert!(s.is_expired(5 + NANOS_PER_SEC + 1, 1));
    assert!(!s.is_expired(0, 0));
    assert!(s.is_live(6, 1));
    assert!(!s.is_live(7, 0));
}

#[test]
fn sweep_drops_only_expired() {
    let c = cfg(vec![1, 2, 3]);
    let mut t = KnockTable::new();
    handle_packet(A, 1, &c, &mut t, 10, 0);
    handle_packet(B, 1, &c, &mut t, 10, 5 * NANOS_PER_SEC);
    t.sweep_expired(12 * NANOS_PER_SEC, 10);
    assert!(!t.contains(A));
    assert_eq!(t.get(B).unwrap().next_idx, 1);
    t.sweep_expired(20 * NANOS_PER_SEC, 10);
    assert!(!t.contains(B));
}

#[test]
fn table_set_and_forget() {
    let mut t = KnockTable::new();
    t.set(A, KnockState { next_idx: 2, last_seen: 9 });
    assert_eq!(t.get(A).unwrap().next_idx, 2);
    t.forget(A);
    assert!(t.get(A).is_none());
}

fn iface(name: &str, up: bool, lo: bool, ips: bool) -> InterfaceInfo {
    InterfaceInfo { name: name.to_string(), is_up: up, is_loopback: lo, has_ips: ips }
}

#[test]
fn select_interface_by_name_or_first_suitable() {
    let list = vec![iface("lo", true, true, true), iface("eth0", false, false, true), iface("eth1", true, false, true)];
    assert_eq!(select_interface(&list, &Some("eth0".to_string())).unwrap(), 1);
    assert_eq!(select_interface(&list, &None).unwrap(), 2);
    match select_interface(&list, &Some("wlan0".to_string())) {
        Err(InterfaceError::NotFound(n)) => assert_eq!(n, "wlan0"),
        _ => panic!("expected NotFound"),
    }
    let bad = vec![iface("lo", true, true, true), iface("eth0", true, false, false)];
    assert!(matches!(select_interface(&bad, &None), Err(InterfaceError::NoneSuitable)));
}

#[test]
fn interleaved_sources_complete_only_after_their_own_full_run() {
    let c = cfg(vec![5, 6, 7]);
    let mut t = KnockTable::new();
    assert_eq!(handle_packet(A, 5, &c, &mut t, 10, 0), KnockOutcome::Progress(1));
    assert_eq!(handle_packet(B, 6, &c, &mut t, 10, 0), KnockOutcome::Ignored);
    assert_eq!(handle_packet(B, 5, &c, &mut t, 10, 0), KnockOutcome::Progress(1));
    assert_eq!(handle_packet(A, 6, &c, &mut t, 10, 0), KnockOutcome::Progress(2));
    assert_eq!(t.get(A).unwrap().next_idx, 2);
    assert_eq!(handle_packet(B, 7, &c, &mut t, 10, 0), KnockOutcome::Reset);
    assert_eq!(handle_packet(A, 7, &c, &mut t, 10, 0), KnockOutcome::Complete);
    assert!(!t.contains(A) && !t.contains(B));
}
