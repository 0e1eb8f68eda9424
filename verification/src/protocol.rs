//! The wire protocol shared by the GUI and the daemon: line-delimited JSON
//! requests `{"v":1,"cmd":...}` and replies `{"ok":...}`. JSON encoding is
//! done at the edges; this module holds the messages and the version rule.
use vstd::prelude::*;

use crate::text::{chars_of, concat, decimal, decimal_of, string_of};

verus! {

/// IPC protocol version. The daemon rejects requests with any other `v`.
pub const PROTOCOL_VERSION: u32 = 1;

/// Default daemon socket path; overridden by [`SOCKET_ENV`] for development.
pub const DEFAULT_SOCKET_PATH: &'static str = "/var/run/com.aslonkhamidov.blockerd.sock";

/// Environment variable that overrides [`DEFAULT_SOCKET_PATH`] on both sides.
pub const SOCKET_ENV: &'static str = "BLOCKERD_SOCKET";

/// The daemon's socket path given the value of [`SOCKET_ENV`] (`None` when
/// it is unset): that value, else [`DEFAULT_SOCKET_PATH`].
pub fn socket_path(env_value: Option<String>) -> (r: String)
    ensures
        match env_value {
            Some(v) => r@ == v@,
            None => r@ == DEFAULT_SOCKET_PATH@,
        },
{
    match env_value {
        Some(v) => v,
        None => DEFAULT_SOCKET_PATH.to_owned(),
    }
}

/// A request from the GUI to the daemon, tagged by `cmd` on the wire.
#[derive(Debug, Clone, PartialEq, Eq)]
pub enum Request {
    GetStatus,
    /// Blocking statistics (see [`Stats`]).
    GetStats,
    AddDomains { domains: Vec<String> },
    RemoveDomains { domains: Vec<String> },
    AddAddrs { cidrs: Vec<String> },
    RemoveAddrs { cidrs: Vec<String> },
    /// `until_unix` is signed to match the daemon.
    StartSession { until_unix: i64, committed: bool },
    StopSession,
}

/// Versioned envelope of a request: `{"v":1, ...}` on the wire.
#[derive(Debug, Clone, PartialEq, Eq)]
pub struct Envelope<T> {
    pub v: u32,
    pub body: T,
}

/// A request frame carried a protocol version other than this one.
#[derive(Debug, Clone, Copy, PartialEq, Eq, Structural)]
pub struct VersionMismatch {
    pub expected: u32,
    pub got: u32,
}

impl<T> Envelope<T> {
    /// Wraps `body` in an envelope of the current protocol version.
    pub fn new(body: T) -> (r: Self)
        ensures
            r.v == PROTOCOL_VERSION,
            r.body == body,
    {
        Envelope { v: PROTOCOL_VERSION, body }
    }

    /// Accepts a decoded request frame only if it speaks this protocol
    /// version.
    pub fn checked(self) -> (r: Result<Self, VersionMismatch>)
        ensures
            self.v == PROTOCOL_VERSION ==> r == Ok::<Self, VersionMismatch>(self),
            self.v != PROTOCOL_VERSION ==> r == Err::<Self, VersionMismatch>(
                VersionMismatch { expected: PROTOCOL_VERSION, got: self.v },
            ),
    {
        if self.v != PROTOCOL_VERSION {
            return Err(VersionMismatch { expected: PROTOCOL_VERSION, got: self.v });
        }
        Ok(self)
    }
}

impl VersionMismatch {
    /// `protocol version mismatch: expected v<expected>, got v<got>`.
    pub open spec fn text(self) -> Seq<char> {
        "protocol version mismatch: expected v"@ + decimal(self.expected as nat) + ", got v"@
            + decimal(self.got as nat)
    }

    /// The human-readable description of the mismatch.
    pub fn message(&self) -> (r: String)
        ensures
            r@ == self.text(),
    {
        let a = concat(&chars_of("protocol version mismatch: expected v"), &decimal_of(self.expected as u128));
        let b = concat(&a, &chars_of(", got v"));
        let c = concat(&b, &decimal_of(self.got as u128));
        string_of(&c)
    }
}

/// `GetStats` payload: blocking activity since the daemon started.
#[derive(Debug, Clone, PartialEq, Eq)]
pub struct Stats {
    /// When collection started, seconds since the epoch.
    pub since_unix: i64,
    /// Total blocked DNS queries since `since_unix`.
    pub total_blocked: u64,
    /// Distinct blocklist entries hit at least once.
    pub unique_domains: u64,
    /// Most-hit entries, descending.
    pub top: Vec<DomainStat>,
    /// Most recent blocked queries, newest first.
    pub recent: Vec<RecentBlock>,
}

/// One row of the "top blocked" table.
#[derive(Debug, Clone, PartialEq, Eq)]
pub struct DomainStat {
    /// The blocklist entry that matched, in stored form.
    pub entry: String,
    pub count: u64,
}

/// One entry of the "recent activity" feed.
#[derive(Debug, Clone, PartialEq, Eq)]
pub struct RecentBlock {
    /// The queried name that was blocked.
    pub name: String,
    /// When it was blocked, seconds since the epoch.
    pub unix: i64,
}

/// Payload of a successful add/remove mutation.
#[derive(Debug, Clone, Copy, PartialEq, Eq, Structural)]
pub struct MutationOutcome {
    /// How many entries actually changed.
    pub changed: u64,
    /// Total entries of that kind after the mutation.
    pub total: u64,
}

} // verus!
