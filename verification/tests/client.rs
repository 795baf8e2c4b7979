use escutcheon::config::{Config, Defaults, HostConfig, HostTable};
use escutcheon::ssh_client::{
    extract_proxy_hosts, first_existing, hosts_to_knock, ssh_candidates, knock_host, knock_settings, parse_jump_list, strip_user,
};

fn args(list: &[&str]) -> Vec<String> {
    list.iter().map(|s| s.to_string()).collect()
}

#[test]
fn strip_user_takes_host_after_last_at() {
    assert_eq!(strip_user("alice@example.com"), "example.com");
    assert_eq!(strip_user("example.com"), "example.com");
    assert_eq!(strip_user("a@b@c"), "c");
    assert_eq!(strip_user("user@"), "");
    assert_eq!(strip_user(""), "");
    assert_eq!(strip_user("ü@höst"), "höst");
}

#[test]
fn strip_user_is_idempotent() {
    for d in ["a@b", "x", "a@b@c", "@", "@@"] {
        let once = strip_user(d);
        assert_eq!(strip_user(once), once);
        assert!(!once.contains('@'));
    }
}

#[test]
fn parse_jump_list_doc_example() {
    assert_eq!(parse_jump_list("user@host:port,host2"), vec!["host", "host2"]);
}

#[test]
fn parse_jump_list_edge_cases() {
    assert_eq!(parse_jump_list(""), vec![""]);
    assert_eq!(parse_jump_list("a,,b"), vec!["a", "", "b"]);
    assert_eq!(parse_jump_list("u@h1:22,v@h2:2222,h3"), vec!["h1", "h2", "h3"]);
    assert_eq!(parse_jump_list("h:1:2"), vec!["h"]);
    assert_eq!(parse_jump_list("a@b@c:9"), vec!["c"]);
    assert_eq!(parse_jump_list(","), vec!["", ""]);
}

#[test]
fn extract_proxy_hosts_from_dash_j() {
    let hosts = extract_proxy_hosts(&args(&["-J", "user@jump1:22,jump2", "-p", "2222"]));
    assert_eq!(hosts, vec!["jump1", "jump2"]);
}

#[test]
fn extract_proxy_hosts_from_joined_dash_j() {
    assert_eq!(extract_proxy_hosts(&args(&["-Jbastion"])), vec!["bastion"]);
}

#[test]
fn extract_proxy_hosts_from_proxyjump_option() {
    let hosts = extract_proxy_hosts(&args(&["-o", "ProxyJump=me@gw:2200", "-o", "User=bob"]));
    assert_eq!(hosts, vec!["gw"]);
}

#[test]
fn extract_proxy_hosts_in_order_and_ignoring_others() {
    let hosts = extract_proxy_hosts(&args(&["-v", "-J", "a", "-Jb,c", "-o", "ProxyJump=d", "ls"]));
    assert_eq!(hosts, vec!["a", "b", "c", "d"]);
}

#[test]
fn extract_proxy_hosts_dangling_option_ends_scan() {
    assert!(extract_proxy_hosts(&args(&["-J"])).is_empty());
    assert!(extract_proxy_hosts(&args(&["-o"])).is_empty());
    assert!(extract_proxy_hosts(&args(&[])).is_empty());
    // The argument after -J is taken as its list, whatever it looks like.
    assert_eq!(extract_proxy_hosts(&args(&["-J", "-o", "ProxyJump=x"])), vec!["-o"]);
}

fn sample_config() -> Config {
    let mut hosts = HostTable::new();
    hosts.insert(
        "web".to_string(),
        HostConfig { knock_ports: Some(vec![7000, 8000, 9000]), knock_proto: Some("udp".to_string()), ttl_secs: Some(60) },
    );
    hosts.insert("quiet".to_string(), HostConfig { knock_ports: Some(vec![]), knock_proto: None, ttl_secs: None });
    hosts.insert("partial".to_string(), HostConfig { knock_ports: None, knock_proto: None, ttl_secs: Some(5) });
    Config {
        defaults: Defaults { knock_ports: Some(vec![1, 2]), knock_proto: None, ttl_secs: Some(30) },
        hosts,
    }
}

#[test]
fn resolve_host_finds_configured_alias() {
    let cfg = sample_config();
    assert_eq!(cfg.resolve_host("web").unwrap().knock_ports, Some(vec![7000, 8000, 9000]));
    assert!(cfg.resolve_host("nowhere").is_none());
    assert!(Config::default().resolve_host("web").is_none());
}

#[test]
fn host_table_later_insert_wins() {
    let mut hosts = HostTable::new();
    hosts.insert("h".to_string(), HostConfig { knock_ports: None, knock_proto: None, ttl_secs: Some(1) });
    hosts.insert("h".to_string(), HostConfig { knock_ports: None, knock_proto: None, ttl_secs: Some(2) });
    assert_eq!(hosts.get("h").unwrap().ttl_secs, Some(2));
}

#[test]
fn knock_settings_fall_back_field_by_field() {
    let cfg = sample_config();
    let web = knock_settings("web", &cfg);
    assert_eq!((web.ports, web.ttl_secs, web.proto.as_str()), (vec![7000, 8000, 9000], 60, "udp"));
    let partial = knock_settings("partial", &cfg);
    assert_eq!((partial.ports, partial.ttl_secs, partial.proto.as_str()), (vec![1, 2], 5, "tcp"));
    let other = knock_settings("other", &cfg);
    assert_eq!((other.ports, other.ttl_secs, other.proto.as_str()), (vec![1, 2], 30, "tcp"));
    let none = knock_settings("x", &Config::default());
    assert_eq!((none.ports, none.ttl_secs, none.proto.as_str()), (vec![], 0, "tcp"));
}

#[test]
fn knock_host_skips_empty_ports_and_recent_knocks() {
    let cfg = sample_config();
    // Own empty port list: no knock, defaults are not used.
    assert!(knock_host("quiet", &cfg, None).is_none());
    assert!(knock_host("x", &Config::default(), None).is_none());
    // Within the time to live: skip; older: knock; never recorded: knock.
    assert!(knock_host("web", &cfg, Some(60)).is_none());
    assert!(knock_host("web", &cfg, Some(61)).is_some());
    assert!(knock_host("web", &cfg, None).is_some());
    let s = knock_host("other", &cfg, Some(31)).unwrap();
    assert_eq!(s.ports, vec![1, 2]);
}

#[test]
fn hosts_to_knock_puts_jump_hosts_first() {
    let hosts = hosts_to_knock("alice@target", &args(&["-J", "bob@gw1,gw2", "-o", "ProxyJump=gw3"]));
    assert_eq!(hosts, vec!["gw1", "gw2", "gw3", "target"]);
    assert_eq!(hosts_to_knock("target", &args(&[])), vec!["target"]);
}

#[test]
fn ssh_is_looked_for_in_order() {
    assert_eq!(ssh_candidates(), vec!["/usr/bin/ssh", "/usr/local/bin/ssh", "/opt/homebrew/bin/ssh"]);
    assert_eq!(first_existing(&[false, true, true]), Some(1));
    assert_eq!(first_existing(&[true, true, false]), Some(0));
    assert_eq!(first_existing(&[false, false, false]), None);
    assert_eq!(first_existing(&[]), None);
}
