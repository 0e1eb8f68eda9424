use app_blocker::dns::{
    build_address_answer, build_nxdomain, decide, parse_question, BLOCK_TTL_SECS, QTYPE_A,
    QTYPE_AAAA,
};
use app_blocker::state::Snapshot;

/// A DNS query for `tauri.app` IN A, RD set.
fn tauri_query() -> Vec<u8> {
    let mut m = vec![0x12, 0x34, 0x01, 0x00, 0x00, 0x01, 0x00, 0x00, 0x00, 0x00, 0x00, 0x00];
    m.push(5);
    m.extend_from_slice(b"tauri");
    m.push(3);
    m.extend_from_slice(b"app");
    m.push(0);
    m.extend_from_slice(&[0x00, 0x01, 0x00, 0x01]);
    m
}

fn query_with_type(qtype: u16) -> Vec<u8> {
    let mut q = tauri_query();
    let n = q.len();
    q[n - 4] = (qtype >> 8) as u8;
    q[n - 3] = (qtype & 0xff) as u8;
    q
}

#[test]
fn parses_question_name_offset_and_type() {
    let q = tauri_query();
    let (name, qend, qtype) = parse_question(&q).unwrap();
    assert_eq!(name, "tauri.app");
    assert_eq!(qend, q.len());
    assert_eq!(qtype, QTYPE_A);
}

#[test]
fn parse_rejects_truncated() {
    assert!(parse_question(&[0u8; 5]).is_none());
}

#[test]
fn builds_nxdomain_flags_and_counts() {
    let q = tauri_query();
    let (_, qend, _) = parse_question(&q).unwrap();
    let r = build_nxdomain(&q, qend);
    assert_eq!(r[0..2], q[0..2]);
    assert_ne!(r[2] & 0x80, 0);
    assert_eq!(r[2] & 0x01, 0x01);
    assert_eq!(r[3] & 0x0F, 0x03);
    assert_eq!(u16::from_be_bytes([r[4], r[5]]), 1);
    assert_eq!(&r[6..12], &[0u8; 6]);
}

#[test]
fn builds_a_answer_pointing_at_loopback() {
    let q = tauri_query();
    let (_, qend, qtype) = parse_question(&q).unwrap();
    let r = build_address_answer(&q, qend, qtype);
    assert_eq!(r[0..2], q[0..2]);
    assert_ne!(r[2] & 0x80, 0);
    assert_eq!(r[3] & 0x0F, 0x00);
    assert_eq!(u16::from_be_bytes([r[4], r[5]]), 1);
    assert_eq!(u16::from_be_bytes([r[6], r[7]]), 1);
    assert_eq!(&r[r.len() - 4..], &[127, 0, 0, 1]);
    assert_eq!(&r[qend..qend + 2], &[0xC0, 0x0C]);
}

// ---- further cases ----

#[test]
fn answer_record_has_exact_layout() {
    let q = tauri_query();
    let (_, qend, qtype) = parse_question(&q).unwrap();
    let r = build_address_answer(&q, qend, qtype);
    // name pointer, type A, class IN, TTL, RDLENGTH 4, 127.0.0.1
    let ttl = BLOCK_TTL_SECS.to_be_bytes();
    let mut expected = vec![0xC0, 0x0C, 0x00, 0x01, 0x00, 0x01];
    expected.extend_from_slice(&ttl);
    expected.extend_from_slice(&[0x00, 0x04, 127, 0, 0, 1]);
    assert_eq!(&r[qend..], &expected[..]);
    assert_eq!(&r[12..qend], &q[12..qend]);
}

#[test]
fn aaaa_answer_points_at_ipv6_loopback() {
    let q = query_with_type(QTYPE_AAAA);
    let (_, qend, qtype) = parse_question(&q).unwrap();
    assert_eq!(qtype, QTYPE_AAAA);
    let r = build_address_answer(&q, qend, qtype);
    let mut lo6 = [0u8; 16];
    lo6[15] = 1;
    assert_eq!(&r[r.len() - 16..], &lo6);
    assert_eq!(&r[r.len() - 18..r.len() - 16], &[0x00, 0x10]);
}

#[test]
fn other_types_get_an_ipv4_record_of_their_type() {
    let q = query_with_type(16); // TXT
    let (_, qend, qtype) = parse_question(&q).unwrap();
    let r = build_address_answer(&q, qend, qtype);
    assert_eq!(&r[qend + 2..qend + 4], &[0x00, 0x10]);
    assert_eq!(&r[r.len() - 6..], &[0x00, 0x04, 127, 0, 0, 1]);
    assert_eq!(r.len(), qend + 16);
}

#[test]
fn name_is_lowercased_when_parsed() {
    let mut q = tauri_query();
    q[13] = b'T';
    let (name, _, _) = parse_question(&q).unwrap();
    assert_eq!(name, "tauri.app");
}

#[test]
fn parse_rejects_compression_pointer_and_missing_question() {
    let mut q = tauri_query();
    q[12] = 0xC0;
    assert!(parse_question(&q).is_none());
    let mut no_question = tauri_query();
    no_question[5] = 0;
    assert!(parse_question(&no_question).is_none());
}

#[test]
fn decide_sinkholes_blocked_names_only() {
    let mut state = Snapshot::new();
    state.add_domains(&["tauri.app".to_string()]).unwrap();
    let q = tauri_query();
    let nx = decide(&q, &state, false).unwrap();
    assert_eq!(nx[3] & 0x0F, 0x03);
    let page = decide(&q, &state, true).unwrap();
    assert_eq!(&page[page.len() - 4..], &[127, 0, 0, 1]);
    let empty = Snapshot::new();
    assert!(decide(&q, &empty, true).is_none());
    assert!(decide(&[0u8; 3], &state, true).is_none());
}
