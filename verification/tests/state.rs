use app_blocker::domain::{name_matches, normalize_domain};
use app_blocker::state::{normalize_cidr, normalize_domains, MutationResult, Snapshot, StateError};
use app_blocker::cidr::{canonical_network, NetAddr};
use app_blocker::strset::StrSet;

#[test]
fn domain_canonicalization() {
    assert_eq!(normalize_domain("YouTube.com.").unwrap(), "youtube.com");
    assert_eq!(normalize_domain("  *.Reddit.COM ").unwrap(), "*.reddit.com");
}

#[test]
fn domain_rejections() {
    for bad in ["", "localhost", "no_dot_here", "a..b.com", "-bad.com", "bad-.com"] {
        assert!(normalize_domain(bad).is_err(), "should reject {bad:?}");
    }
}

#[test]
fn cidr_canonicalization() {
    assert_eq!(normalize_cidr("142.250.1.5/16").unwrap(), "142.250.0.0/16");
    assert_eq!(normalize_cidr("1.1.1.1/32").unwrap(), "1.1.1.1/32");
    assert_eq!(normalize_cidr("2001:db8::1/32").unwrap(), "2001:db8::/32");
}

#[test]
fn cidr_rejections() {
    for bad in ["", "not-an-ip", "1.2.3.4", "1.2.3.4/33", "999.0.0.0/8"] {
        assert!(normalize_cidr(bad).is_err(), "should reject {bad:?}");
    }
}

#[test]
fn empty_batch_rejected() {
    assert!(normalize_domains(&[]).is_err());
}

#[test]
fn name_matching_covers_apex_subdomains_and_wildcards() {
    let mut d = StrSet::new();
    d.insert("tauri.app".to_string());
    d.insert("*.reddit.com".to_string());
    assert!(name_matches(&d, "tauri.app"));
    assert!(name_matches(&d, "www.tauri.app"));
    assert!(name_matches(&d, "TAURI.APP."));
    assert!(name_matches(&d, "reddit.com"));
    assert!(name_matches(&d, "old.reddit.com"));
    assert!(!name_matches(&d, "nottauri.app"));
    assert!(!name_matches(&d, "tauri.apps"));
    assert!(!name_matches(&d, "example.com"));
    assert!(!name_matches(&d, ""));
}

/// The daemon's state transitions for the request sequence of the
/// end-to-end IPC round trip: counts, idempotence, atomic rejection.
#[test]
fn ipc_and_state_round_trip() {
    let mut s = Snapshot::new();
    assert_eq!(s.summary().domains.len(), 0);
    assert_eq!(s.summary().cidrs.len(), 0);
    assert!(s.summary().session.is_none());

    let r = s
        .add_domains(&["YouTube.com".to_string(), "*.reddit.com".to_string(), "youtube.com".to_string()])
        .unwrap();
    assert_eq!(r, MutationResult { changed: 2, total: 2 });

    let r = s.add_domains(&["youtube.com".to_string()]).unwrap();
    assert_eq!(r, MutationResult { changed: 0, total: 2 });

    let r = s.add_cidrs(&["142.250.1.5/16".to_string(), "142.250.0.0/16".to_string()]).unwrap();
    assert_eq!(r, MutationResult { changed: 1, total: 1 });

    assert!(s.add_domains(&["ok.com".to_string(), "not a domain".to_string()]).is_err());
    assert_eq!(s.summary().domains.len(), 2);

    let r = s.remove_domains(&["youtube.com".to_string()]).unwrap();
    assert_eq!(r, MutationResult { changed: 1, total: 1 });
}

// ---- further cases ----

#[test]
fn rejection_names_the_first_bad_entry() {
    let mut s = Snapshot::new();
    match s.add_domains(&["ok.com".to_string(), "bad_one.com".to_string(), "x".to_string()]) {
        Err(StateError::Invalid(m)) => assert_eq!(m, "invalid domain 'bad_one.com'"),
        other => panic!("expected a rejection, got {other:?}"),
    }
    assert!(s.summary().domains.is_empty());
}

#[test]
fn domain_error_messages() {
    let invalid = |m: &str| Err(StateError::Invalid(m.to_string()));
    assert_eq!(normalize_domain("localhost"), invalid("'localhost' is not a fully-qualified domain name"));
    assert_eq!(normalize_domain("  "), invalid("empty domain"));
    assert_eq!(normalize_domain("a..b.com"), invalid("invalid domain 'a..b.com'"));
    assert_eq!(normalize_cidr("1.2.3.4"), invalid("invalid CIDR '1.2.3.4'"));
}

#[test]
fn remove_of_absent_entries_changes_nothing() {
    let mut s = Snapshot::new();
    s.add_domains(&["a.com".to_string()]).unwrap();
    let r = s.remove_domains(&["b.com".to_string()]).unwrap();
    assert_eq!(r, MutationResult { changed: 0, total: 1 });
    assert!(s.is_blocked("a.com"));
    assert!(!s.is_blocked("b.com"));
}

#[test]
fn add_then_remove_restores_the_blocklist() {
    let mut s = Snapshot::new();
    s.add_domains(&["keep.org".to_string()]).unwrap();
    s.add_domains(&["*.ads.com".to_string()]).unwrap();
    assert!(s.is_blocked("x.ads.com"));
    s.remove_domains(&["*.ads.com".to_string()]).unwrap();
    assert!(!s.is_blocked("x.ads.com"));
    assert_eq!(s.summary().domains.to_vec(), vec!["keep.org".to_string()]);
}

#[test]
fn cidr_mutations_canonicalize() {
    let mut s = Snapshot::new();
    s.add_cidrs(&["10.1.2.3/8".to_string()]).unwrap();
    assert_eq!(s.summary().cidrs.to_vec(), vec!["10.0.0.0/8".to_string()]);
    let r = s.remove_cidrs(&["10.200.0.0/8".to_string()]).unwrap();
    assert_eq!(r, MutationResult { changed: 1, total: 0 });
}

#[test]
fn wildcard_and_apex_entries_cover_the_same_names() {
    let mut a = StrSet::new();
    a.insert("reddit.com".to_string());
    let mut w = StrSet::new();
    w.insert("*.reddit.com".to_string());
    for name in ["reddit.com", "old.reddit.com", "a.b.reddit.com", "xreddit.com", "reddit.co"] {
        assert_eq!(name_matches(&a, name), name_matches(&w, name), "{name}");
    }
}

/// What the daemon stores (the rows of each set) restores the same state.
#[test]
fn state_persists_across_restart() {
    let mut s = Snapshot::new();
    s.add_domains(&["persist.com".to_string(), "keep.org".to_string()]).unwrap();
    s.add_cidrs(&["10.0.0.0/8".to_string()]).unwrap();
    let rows = s.summary();
    let restored = Snapshot::restore(&rows.domains.to_vec(), &rows.cidrs.to_vec(), rows.session);
    assert_eq!(restored.summary().domains.len(), 2);
    assert_eq!(restored.summary().cidrs.len(), 1);
    assert!(restored.is_blocked("www.persist.com"));
    assert_eq!(restored.summary().domains.to_vec(), rows.domains.to_vec());
}

#[test]
fn restore_deduplicates_and_orders_rows() {
    let r = Snapshot::restore(
        &["b.com".to_string(), "a.com".to_string(), "b.com".to_string()],
        &[],
        None,
    );
    assert_eq!(r.summary().domains.to_vec(), vec!["a.com".to_string(), "b.com".to_string()]);
}

#[test]
fn exact_entries_match_only_their_own_name() {
    assert_eq!(normalize_domain(" =Example.COM. ").unwrap(), "=example.com");
    assert!(normalize_domain("=").is_err());
    assert!(normalize_domain("=*.example.com").is_err());
    let mut d = StrSet::new();
    d.insert("=example.com".to_string());
    assert!(name_matches(&d, "example.com"));
    assert!(name_matches(&d, "EXAMPLE.com."));
    assert!(!name_matches(&d, "www.example.com"));
    let mut s = Snapshot::new();
    let r = s.add_domains(&["=example.com".to_string(), "example.com".to_string()]).unwrap();
    assert_eq!(r, MutationResult { changed: 2, total: 2 });
}

#[test]
fn canonical_entries_canonicalize_to_themselves() {
    for raw in ["  *.Reddit.COM ", "YouTube.com.", "=A.b.c"] {
        let s = normalize_domain(raw).unwrap();
        assert_eq!(normalize_domain(&s).unwrap(), s);
    }
}

#[test]
fn ipv4_networks_render_in_dotted_decimal() {
    assert_eq!(normalize_cidr(" 10.20.30.40/12 ").unwrap(), "10.16.0.0/12");
    assert_eq!(normalize_cidr("0.0.0.0/0").unwrap(), "0.0.0.0/0");
    assert_eq!(normalize_cidr("255.255.255.255/31").unwrap(), "255.255.255.254/31");
}

#[test]
fn canonical_network_clears_host_bits() {
    let v4 = NetAddr::V4 { octets: [10, 1, 2, 3], prefix_len: 8 };
    assert_eq!(canonical_network(v4), "10.0.0.0/8");
    let mut o = [0u8; 16];
    o[0] = 0x20;
    o[1] = 0x01;
    o[2] = 0x0d;
    o[3] = 0xb8;
    o[15] = 1;
    assert_eq!(canonical_network(NetAddr::V6 { octets: o, prefix_len: 32 }), "2001:db8::/32");
}
