use app_blocker::cli::{parse_args, Args, DEFAULT_SOCKET, DEFAULT_STATE};

fn args(v: &[&str]) -> Vec<String> {
    v.iter().map(|s| s.to_string()).collect()
}

#[test]
fn defaults_apply_without_flags_or_environment() {
    assert_eq!(
        parse_args(&[], None, None, None),
        Args::Run { socket: DEFAULT_SOCKET.to_string(), state: DEFAULT_STATE.to_string(), capture_dns: true }
    );
}

#[test]
fn flags_win_over_environment() {
    let r = parse_args(
        &args(&["--socket", "/tmp/d.sock", "--state", "/tmp/s.db"]),
        Some("/env.sock".to_string()),
        Some("/env.db".to_string()),
        None,
    );
    assert_eq!(r, Args::Run { socket: "/tmp/d.sock".to_string(), state: "/tmp/s.db".to_string(), capture_dns: true });
    let r = parse_args(&[], Some("/env.sock".to_string()), Some("/env.db".to_string()), None);
    assert_eq!(r, Args::Run { socket: "/env.sock".to_string(), state: "/env.db".to_string(), capture_dns: true });
}

#[test]
fn capture_is_off_by_flag_or_environment() {
    match parse_args(&args(&["--no-capture"]), None, None, None) {
        Args::Run { capture_dns, .. } => assert!(!capture_dns),
        other => panic!("{other:?}"),
    }
    match parse_args(&[], None, None, Some("off".to_string())) {
        Args::Run { capture_dns, .. } => assert!(!capture_dns),
        other => panic!("{other:?}"),
    }
    match parse_args(&[], None, None, Some("on".to_string())) {
        Args::Run { capture_dns, .. } => assert!(capture_dns),
        other => panic!("{other:?}"),
    }
}

#[test]
fn help_and_bad_usage() {
    assert_eq!(parse_args(&args(&["-h"]), None, None, None), Args::Help);
    assert_eq!(parse_args(&args(&["--no-capture", "--help"]), None, None, None), Args::Help);
    assert_eq!(
        parse_args(&args(&["--socket"]), None, None, None),
        Args::BadUsage("--socket requires a path argument".to_string())
    );
    assert_eq!(
        parse_args(&args(&["--state"]), None, None, None),
        Args::BadUsage("--state requires a path argument".to_string())
    );
    assert_eq!(
        parse_args(&args(&["--verbose"]), None, None, None),
        Args::BadUsage("unknown argument: --verbose".to_string())
    );
}
