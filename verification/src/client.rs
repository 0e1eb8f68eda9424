//! The GUI's side of the IPC conversation: its typed errors, the connect
//! backoff schedule, and how a reply line's outcome becomes a result. The
//! socket work itself is done by the caller, which asks this module what to
//! do after each failed connect.
use vstd::prelude::*;

use crate::protocol::Request;
use crate::text::{chars_of, concat, string_of, trim_end, trim_end_chars};

verus! {

/// Application state shared by the GUI's commands: where to find the daemon.
#[derive(Debug, Clone, PartialEq, Eq)]
pub struct AppState {
    /// Path to the daemon's Unix socket.
    pub socket_path: String,
}

/// Failure modes of a single daemon request.
#[derive(Debug, Clone, PartialEq, Eq)]
pub enum IpcError {
    /// Could not reach the daemon at all: treat as "daemon restarting".
    Unreachable(String),
    /// Reached the daemon but the socket conversation failed mid-flight.
    Io(String),
    /// The daemon replied with something that could not be decoded.
    Protocol(String),
    /// The daemon understood the request and deliberately rejected it.
    Daemon(String),
}

impl IpcError {
    /// The message shown to the user for this error.
    pub open spec fn text(&self) -> Seq<char> {
        match self {
            IpcError::Unreachable(e) => "daemon unreachable \u{2014} is blockerd running? ("@ + e@
                + ")"@,
            IpcError::Io(e) => "daemon I/O error: "@ + e@,
            IpcError::Protocol(e) => "protocol error: "@ + e@,
            IpcError::Daemon(e) => e@,
        }
    }

    /// Renders the error as the string the frontend shows.
    pub fn message(&self) -> (r: String)
        ensures
            r@ == self.text(),
    {
        match self {
            IpcError::Unreachable(e) => {
                let a = concat(
                    &chars_of("daemon unreachable \u{2014} is blockerd running? ("),
                    &chars_of(e.as_str()),
                );
                string_of(&concat(&a, &chars_of(")")))
            },
            IpcError::Io(e) => string_of(
                &concat(&chars_of("daemon I/O error: "), &chars_of(e.as_str())),
            ),
            IpcError::Protocol(e) => string_of(
                &concat(&chars_of("protocol error: "), &chars_of(e.as_str())),
            ),
            IpcError::Daemon(e) => e.clone(),
        }
    }
}

/// Reduces a typed IPC error to the string the frontend renders.
pub fn surface(e: IpcError) -> (r: String)
    ensures
        r@ == e.text(),
{
    e.message()
}

/// How many times a connect is tried before the daemon counts as unreachable.
pub const CONNECT_ATTEMPTS: u32 = 4;

/// The wait after the first failed connect, in milliseconds.
pub const INITIAL_BACKOFF_MS: u64 = 150;

/// The longest wait between two connects, in milliseconds.
pub const MAX_BACKOFF_MS: u64 = 2000;

/// The wait that follows a wait of `delay` ms: twice as long, capped.
pub open spec fn next_backoff(delay: int) -> int {
    if 2 * delay < MAX_BACKOFF_MS {
        2 * delay
    } else {
        MAX_BACKOFF_MS as int
    }
}

/// The wait after the `k`-th failed connect (counting from 0).
pub open spec fn backoff_delay(k: nat) -> int
    decreases k,
{
    if k == 0 {
        INITIAL_BACKOFF_MS as int
    } else {
        next_backoff(backoff_delay((k - 1) as nat))
    }
}

/// The total time spent waiting over the first `k` failed connects.
pub open spec fn total_wait(k: nat) -> int
    decreases k,
{
    if k == 0 {
        0
    } else {
        total_wait((k - 1) as nat) + backoff_delay((k - 1) as nat)
    }
}

/// When every connect fails, the client waits after each attempt but the
/// last: 150 + 300 + 600 ms, 1.05 s in all.
pub proof fn lemma_worst_case_wait()
    ensures
        total_wait((CONNECT_ATTEMPTS - 1) as nat) == 1050,
        backoff_delay(0) == 150,
        backoff_delay(1) == 300,
        backoff_delay(2) == 600,
{
    reveal_with_fuel(backoff_delay, 4);
    reveal_with_fuel(total_wait, 4);
}

/// The wait after a wait of `delay_ms`: doubled, but never above
/// [`MAX_BACKOFF_MS`].
pub fn next_backoff_ms(delay_ms: u64) -> (r: u64)
    requires
        delay_ms <= MAX_BACKOFF_MS,
    ensures
        r == next_backoff(delay_ms as int),
{
    if 2 * delay_ms < MAX_BACKOFF_MS {
        2 * delay_ms
    } else {
        MAX_BACKOFF_MS
    }
}

/// What to do after a connect attempt failed.
#[derive(Debug, Clone, PartialEq, Eq)]
pub enum ConnectStep {
    /// Sleep `sleep_ms`, then try again; the wait after that one is
    /// `next_delay_ms`.
    Retry { sleep_ms: u64, next_delay_ms: u64 },
    /// Stop trying and report this error.
    GiveUp(IpcError),
}

/// Decides the step after connect attempt `attempt` (counted from 1) failed
/// with `error`, `delay_ms` being the current wait. The last attempt gives
/// up with [`IpcError::Unreachable`] carrying the last error.
pub fn after_connect_failure(attempt: u32, delay_ms: u64, error: String) -> (r: ConnectStep)
    requires
        1 <= attempt <= CONNECT_ATTEMPTS,
        delay_ms <= MAX_BACKOFF_MS,
    ensures
        attempt < CONNECT_ATTEMPTS ==> r == (ConnectStep::Retry {
            sleep_ms: delay_ms,
            next_delay_ms: next_backoff(delay_ms as int) as u64,
        }),
        attempt == CONNECT_ATTEMPTS ==> r == ConnectStep::GiveUp(IpcError::Unreachable(error)),
{
    if attempt < CONNECT_ATTEMPTS {
        ConnectStep::Retry { sleep_ms: delay_ms, next_delay_ms: next_backoff_ms(delay_ms) }
    } else {
        ConnectStep::GiveUp(IpcError::Unreachable(error))
    }
}

/// Reported when the daemon hangs up without answering.
pub const CLOSED_WITHOUT_REPLY: &'static str = "daemon closed the connection without responding";

/// Reported when a failed reply carries no message.
pub const NO_FAILURE_MESSAGE: &'static str = "daemon reported failure without a message";

/// A daemon reply: `{"ok":true,"data":...}` or `{"ok":false,"error":...}`.
/// `data` is decoded by the caller according to the request.
#[derive(Debug, Clone, PartialEq, Eq)]
pub struct Reply<D> {
    pub ok: bool,
    pub data: Option<D>,
    pub error: Option<String>,
}

/// The outcome a reply stands for: its data on success, else its message or
/// [`NO_FAILURE_MESSAGE`].
pub open spec fn reply_outcome<D>(reply: Reply<D>) -> Result<Option<D>, Seq<char>> {
    if reply.ok {
        Ok(reply.data)
    } else {
        match reply.error {
            Some(m) => Err(m@),
            None => Err(NO_FAILURE_MESSAGE@),
        }
    }
}

impl<D> Reply<D> {
    /// A successful reply carrying `data`.
    pub fn ok(data: D) -> (r: Self)
        ensures
            r.ok,
            r.data == Some(data),
            r.error is None,
    {
        Reply { ok: true, data: Some(data), error: None }
    }

    /// A failed reply carrying the message `msg`.
    pub fn error(msg: String) -> (r: Self)
        ensures
            !r.ok,
            r.data is None,
            r.error == Some(msg),
    {
        Reply { ok: false, data: None, error: Some(msg) }
    }

    /// Collapses the reply to its data on success or its message on failure.
    pub fn into_result(self) -> (r: Result<Option<D>, String>)
        ensures
            match (r, reply_outcome(self)) {
                (Ok(d), Ok(e)) => d == e,
                (Err(m), Err(e)) => m@ == e,
                _ => false,
            },
    {
        if self.ok {
            Ok(self.data)
        } else {
            match self.error {
                Some(m) => Err(m),
                None => Err(NO_FAILURE_MESSAGE.to_owned()),
            }
        }
    }

    /// The reply as a request's result: a rejection is never taken for a
    /// success, it becomes [`IpcError::Daemon`].
    pub fn into_response(self) -> (r: Result<Option<D>, IpcError>)
        ensures
            match (r, reply_outcome(self)) {
                (Ok(d), Ok(e)) => d == e,
                (Err(IpcError::Daemon(m)), Err(e)) => m@ == e,
                _ => false,
            },
    {
        match self.into_result() {
            Ok(d) => Ok(d),
            Err(m) => Err(IpcError::Daemon(m)),
        }
    }
}

/// The error for a reply line that did not decode: the decoder's message
/// and the line itself, without its trailing whitespace.
pub fn undecodable_reply(error: &str, line: &str) -> (r: IpcError)
    ensures
        r matches IpcError::Protocol(m) && m@ == "could not decode daemon reply ("@ + error@
            + "): "@ + trim_end(line@),
{
    let a = concat(&chars_of("could not decode daemon reply ("), &chars_of(error));
    let b = concat(&a, &chars_of("): "));
    let c = concat(&b, &trim_end_chars(&chars_of(line)));
    IpcError::Protocol(string_of(&c))
}

/// The error for a status payload that did not decode.
pub fn undecodable_status(error: &str) -> (r: IpcError)
    ensures
        r matches IpcError::Protocol(m) && m@ == "status payload did not decode: "@ + error@,
{
    IpcError::Protocol(
        string_of(&concat(&chars_of("status payload did not decode: "), &chars_of(error))),
    )
}

/// Reported when a session's end time does not fit the protocol's signed
/// field.
pub const SESSION_END_OUT_OF_RANGE: &'static str = "session end time is out of range";

/// The request that starts a session ending at `until_unix` (seconds since
/// the epoch), refused when the time does not fit in an `i64`.
pub fn session_request(until_unix: u64, committed: bool) -> (r: Result<Request, String>)
    ensures
        until_unix <= i64::MAX ==> r == Ok::<Request, String>(
            Request::StartSession { until_unix: until_unix as i64, committed },
        ),
        until_unix > i64::MAX ==> (r matches Err(m) && m@ == SESSION_END_OUT_OF_RANGE@),
{
    if until_unix <= i64::MAX as u64 {
        Ok(Request::StartSession { until_unix: until_unix as i64, committed })
    } else {
        Err(SESSION_END_OUT_OF_RANGE.to_owned())
    }
}

} // verus!
