use app_blocker::netconfig::{
    dns_server_candidates, is_loopback, network_services, resolv_conf_nameservers, set_dns_args,
    upstream_servers, DnsGuard,
};

#[test]
fn parses_resolv_conf_skipping_loopback() {
    let text = "\
# comment
nameserver 192.168.1.1
nameserver 8.8.8.8
nameserver 127.0.0.1
search lan
";
    let got = resolv_conf_nameservers(text);
    assert_eq!(got, vec!["192.168.1.1", "8.8.8.8", "127.0.0.1"]);
    // The daemon then drops the loopback address.
    assert!(!is_loopback(&[192, 168, 1, 1]));
    assert!(!is_loopback(&[8, 8, 8, 8]));
    assert!(is_loopback(&[127, 0, 0, 1]));
}

// ---- further cases ----

#[test]
fn loopback_covers_the_whole_v4_block_and_v6_one() {
    assert!(is_loopback(&[127, 255, 3, 4]));
    let mut v6 = [0u8; 16];
    v6[15] = 1;
    assert!(is_loopback(&v6));
    v6[0] = 0xfe;
    assert!(!is_loopback(&v6));
    assert!(!is_loopback(&[0u8; 16]));
}

#[test]
fn network_services_skip_header_blank_and_disabled() {
    let listing = "An asterisk (*) denotes that a network service is disabled.\nWi-Fi\n*Thunderbolt Bridge\n\n  USB LAN  \n";
    assert_eq!(network_services(listing), vec!["Wi-Fi", "USB LAN"]);
    assert!(network_services("").is_empty());
}

#[test]
fn dns_servers_none_when_reported_absent() {
    assert!(dns_server_candidates("There aren't any DNS Servers set on Wi-Fi.\n").is_empty());
    assert_eq!(dns_server_candidates("1.1.1.1\n 8.8.4.4 \n"), vec!["1.1.1.1", "8.8.4.4"]);
}

#[test]
fn set_dns_uses_empty_for_no_servers() {
    assert_eq!(set_dns_args("Wi-Fi", &[]), vec!["-setdnsservers", "Wi-Fi", "Empty"]);
    assert_eq!(
        set_dns_args("Wi-Fi", &["1.1.1.1".to_string(), "8.8.8.8".to_string()]),
        vec!["-setdnsservers", "Wi-Fi", "1.1.1.1", "8.8.8.8"]
    );
}

#[test]
fn guard_restores_what_it_redirected() {
    let mut guard = DnsGuard::new();
    assert!(guard.restore_commands().is_empty());
    let to = guard.redirect("Wi-Fi", vec!["192.168.1.1".to_string()]);
    assert_eq!(to, vec!["-setdnsservers", "Wi-Fi", "127.0.0.1"]);
    guard.redirect("Ethernet", vec![]);
    assert_eq!(
        guard.restore_commands(),
        vec![
            vec!["-setdnsservers", "Wi-Fi", "192.168.1.1"],
            vec!["-setdnsservers", "Ethernet", "Empty"],
        ]
    );
}

#[test]
fn upstream_keeps_non_loopback_or_falls_back() {
    let parsed = vec![vec![192, 168, 1, 1], vec![127, 0, 0, 1], vec![8, 8, 4, 4]];
    assert_eq!(upstream_servers(&parsed), vec![vec![192, 168, 1, 1], vec![8, 8, 4, 4]]);
    let only_loopback = vec![vec![127, 0, 0, 1]];
    assert_eq!(upstream_servers(&only_loopback), vec![vec![1, 1, 1, 1], vec![8, 8, 8, 8]]);
    assert_eq!(upstream_servers(&[]), vec![vec![1, 1, 1, 1], vec![8, 8, 8, 8]]);
}
