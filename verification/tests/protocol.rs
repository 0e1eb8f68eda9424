use app_blocker::client::{
    after_connect_failure, next_backoff_ms, session_request, surface, undecodable_reply,
    undecodable_status, ConnectStep, IpcError, Reply, CONNECT_ATTEMPTS, INITIAL_BACKOFF_MS,
    MAX_BACKOFF_MS, NO_FAILURE_MESSAGE,
};
use app_blocker::daemon::{check_request_version, Command};
use app_blocker::protocol::{
    socket_path, Envelope, MutationOutcome, Request, VersionMismatch, DEFAULT_SOCKET_PATH,
    PROTOCOL_VERSION,
};

#[test]
fn maps_ok_false_to_daemon_error() {
    let reply: Reply<MutationOutcome> = Reply {
        ok: false,
        data: None,
        error: Some("command 'StartSession' is not implemented in this build".to_string()),
    };
    match reply.into_response() {
        Err(IpcError::Daemon(msg)) => assert!(msg.contains("not implemented")),
        other => panic!("expected Daemon error, got {other:?}"),
    }
}

#[test]
fn maps_garbage_to_protocol_error_with_raw_line() {
    match undecodable_reply("missing field `ok` at line 1 column 24", "{\"totally\":\"unexpected\"}\n") {
        IpcError::Protocol(msg) => assert!(msg.contains("totally")),
        other => panic!("expected Protocol error, got {other:?}"),
    }
}

#[test]
fn ok_reply_yields_data() {
    let reply = Reply { ok: true, data: Some(MutationOutcome { changed: 1, total: 5 }), error: None };
    let data = reply.into_result().unwrap();
    assert_eq!(data, Some(MutationOutcome { changed: 1, total: 5 }));
}

#[test]
fn error_reply_yields_message() {
    let reply: Reply<MutationOutcome> =
        Reply::error("command 'StartSession' is not implemented in this build".to_string());
    let err = reply.into_result().unwrap_err();
    assert!(err.contains("not implemented"));
}

#[test]
fn rejects_wrong_request_version() {
    let err = Envelope { v: 2, body: Request::GetStatus }.checked().unwrap_err();
    assert!(matches!(err, VersionMismatch { got: 2, .. }));
}

#[test]
fn rejects_wrong_version() {
    let err = check_request_version(Some(2)).unwrap_err();
    assert!(err.contains("unsupported protocol version"), "{err}");
}

#[test]
fn rejects_missing_version() {
    let err = check_request_version(None).unwrap_err();
    assert!(err.contains("'v'"), "{err}");
}

// ---- further cases ----

#[test]
fn version_messages_are_exact() {
    assert_eq!(check_request_version(Some(1)), Ok(()));
    assert_eq!(
        check_request_version(Some(7)),
        Err("unsupported protocol version 7; this daemon speaks v1".to_string())
    );
    assert_eq!(
        VersionMismatch { expected: 1, got: 2 }.message(),
        "protocol version mismatch: expected v1, got v2"
    );
}

#[test]
fn envelope_of_current_version_is_accepted() {
    let env = Envelope::new(Request::StopSession);
    assert_eq!(env.v, PROTOCOL_VERSION);
    assert_eq!(env.clone().checked(), Ok(env));
}

#[test]
fn command_names_are_stable() {
    assert_eq!(Command::GetStatus.name(), "GetStatus");
    assert_eq!(Command::AddAddrs { cidrs: vec![] }.name(), "AddAddrs");
    assert_eq!(Command::StartSession { until_unix: 0, committed: false }.name(), "StartSession");
}

#[test]
fn failed_reply_without_message_gets_a_default() {
    let reply: Reply<u64> = Reply { ok: false, data: None, error: None };
    assert_eq!(reply.into_result(), Err(NO_FAILURE_MESSAGE.to_string()));
    let ok_empty: Reply<u64> = Reply { ok: true, data: None, error: None };
    assert_eq!(ok_empty.into_response(), Ok(None));
}

#[test]
fn ipc_error_messages() {
    assert_eq!(
        surface(IpcError::Unreachable("No such file or directory".to_string())),
        "daemon unreachable \u{2014} is blockerd running? (No such file or directory)"
    );
    assert_eq!(IpcError::Io("broken pipe".to_string()).message(), "daemon I/O error: broken pipe");
    assert_eq!(IpcError::Protocol("bad".to_string()).message(), "protocol error: bad");
    assert_eq!(IpcError::Daemon("refused".to_string()).message(), "refused");
    assert_eq!(
        undecodable_reply("eof", "xyz \r\n"),
        IpcError::Protocol("could not decode daemon reply (eof): xyz".to_string())
    );
    assert_eq!(
        undecodable_status("missing field"),
        IpcError::Protocol("status payload did not decode: missing field".to_string())
    );
}

#[test]
fn backoff_doubles_up_to_the_cap() {
    assert_eq!(next_backoff_ms(INITIAL_BACKOFF_MS), 300);
    assert_eq!(next_backoff_ms(600), 1200);
    assert_eq!(next_backoff_ms(1200), MAX_BACKOFF_MS);
    assert_eq!(next_backoff_ms(MAX_BACKOFF_MS), MAX_BACKOFF_MS);
}

#[test]
fn connect_schedule_waits_150_300_600_then_gives_up() {
    let mut delay = INITIAL_BACKOFF_MS;
    let mut waited = 0;
    for attempt in 1..CONNECT_ATTEMPTS {
        match after_connect_failure(attempt, delay, "refused".to_string()) {
            ConnectStep::Retry { sleep_ms, next_delay_ms } => {
                waited += sleep_ms;
                delay = next_delay_ms;
            }
            other => panic!("expected a retry, got {other:?}"),
        }
    }
    assert_eq!(waited, 1050);
    assert_eq!(
        after_connect_failure(CONNECT_ATTEMPTS, delay, "refused".to_string()),
        ConnectStep::GiveUp(IpcError::Unreachable("refused".to_string()))
    );
}

#[test]
fn session_end_must_fit_the_signed_field() {
    assert_eq!(
        session_request(1_700_000_000, true),
        Ok(Request::StartSession { until_unix: 1_700_000_000, committed: true })
    );
    assert_eq!(session_request(u64::MAX, false), Err("session end time is out of range".to_string()));
}

#[test]
fn socket_path_prefers_the_environment() {
    assert_eq!(socket_path(None), DEFAULT_SOCKET_PATH);
    assert_eq!(socket_path(Some("/tmp/dev.sock".to_string())), "/tmp/dev.sock");
}
