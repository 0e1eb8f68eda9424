//! The daemon's side of the IPC protocol: the commands it understands, the
//! request version rule, and the dispatch decisions. Every mutation is
//! planned here, persisted by the daemon, and then committed here.
use vstd::prelude::*;

use crate::protocol::PROTOCOL_VERSION;
use crate::state::{
    batch, cidr_rule, domain_rule, rejection, texts, MutationResult, Session, Snapshot, StateError,
};
use crate::strset::sorted;
use crate::text::{chars_of, concat, decimal, decimal_of, string_of};

verus! {

/// A command parsed from a client request line, tagged by `cmd`.
#[derive(Debug, Clone, PartialEq, Eq)]
pub enum Command {
    AddDomains { domains: Vec<String> },
    RemoveDomains { domains: Vec<String> },
    AddAddrs { cidrs: Vec<String> },
    RemoveAddrs { cidrs: Vec<String> },
    StartSession { until_unix: i64, committed: bool },
    StopSession,
    GetStatus,
    GetStats,
}

/// The stable name of a command, for logs and error messages.
pub open spec fn command_name(c: Command) -> Seq<char> {
    match c {
        Command::AddDomains { .. } => "AddDomains"@,
        Command::RemoveDomains { .. } => "RemoveDomains"@,
        Command::AddAddrs { .. } => "AddAddrs"@,
        Command::RemoveAddrs { .. } => "RemoveAddrs"@,
        Command::StartSession { .. } => "StartSession"@,
        Command::StopSession => "StopSession"@,
        Command::GetStatus => "GetStatus"@,
        Command::GetStats => "GetStats"@,
    }
}

impl Command {
    /// Stable, human-readable name for logs and error messages.
    pub fn name(&self) -> (r: &'static str)
        ensures
            r@ == command_name(*self),
    {
        match self {
            Command::AddDomains { .. } => "AddDomains",
            Command::RemoveDomains { .. } => "RemoveDomains",
            Command::AddAddrs { .. } => "AddAddrs",
            Command::RemoveAddrs { .. } => "RemoveAddrs",
            Command::StartSession { .. } => "StartSession",
            Command::StopSession => "StopSession",
            Command::GetStatus => "GetStatus",
            Command::GetStats => "GetStats",
        }
    }
}

pub const MISSING_VERSION: &'static str = "missing or non-integer protocol version field 'v'";

pub const NOT_AN_OBJECT: &'static str = "request must be a JSON object";

/// Reported to a client whose mutation could not be stored; the details
/// are logged, not returned.
pub const STORAGE_FAILURE: &'static str = "internal storage error";

/// The rejection of a request frame by its version field `v` (`None` when
/// the field is missing or not an unsigned integer).
pub open spec fn version_rejection(v: Option<u64>) -> Option<Seq<char>> {
    match v {
        None => Some(MISSING_VERSION@),
        Some(n) => if n == PROTOCOL_VERSION {
            None
        } else {
            Some(
                "unsupported protocol version "@ + decimal(n as nat) + "; this daemon speaks v"@
                    + decimal(PROTOCOL_VERSION as nat),
            )
        },
    }
}

/// Accepts a request frame's version field only when it is this protocol's
/// version. The check comes before the command is decoded, so a client on
/// another version gets a precise error.
pub fn check_request_version(v: Option<u64>) -> (r: Result<(), String>)
    ensures
        match r {
            Ok(()) => version_rejection(v) is None,
            Err(m) => version_rejection(v) == Some(m@),
        },
{
    match v {
        None => Err(MISSING_VERSION.to_owned()),
        Some(n) => {
            if n == PROTOCOL_VERSION as u64 {
                Ok(())
            } else {
                let a = concat(&chars_of("unsupported protocol version "), &decimal_of(n as u128));
                let b = concat(&a, &chars_of("; this daemon speaks v"));
                let c = concat(&b, &decimal_of(PROTOCOL_VERSION as u128));
                Err(string_of(&c))
            }
        },
    }
}

/// `command '<name>' is not implemented in this build`.
pub open spec fn not_implemented_text(c: Command) -> Seq<char> {
    "command '"@ + command_name(c) + "' is not implemented in this build"@
}

/// Which set a mutation touches.
#[derive(Debug, Clone, Copy, PartialEq, Eq, Structural)]
pub enum Target {
    Domains,
    Cidrs,
}

/// Whether a mutation adds or removes.
#[derive(Debug, Clone, Copy, PartialEq, Eq, Structural)]
pub enum Operation {
    Add,
    Remove,
}

/// What the daemon does for a command.
#[derive(Debug, Clone, PartialEq, Eq)]
pub enum Step {
    /// Reply with the status snapshot.
    Status,
    /// Reply with the blocking statistics.
    Stats,
    /// Store the change of `entries`, then commit it with [`commit_step`].
    Persist { target: Target, op: Operation, entries: Vec<String> },
    /// Reply with this error.
    Reject(String),
}

/// The plan of a mutation of `set` by the batch `raw` under `check`.
pub open spec fn mutation_plan(
    set: Set<Seq<char>>,
    raw: Seq<Seq<char>>,
    check: spec_fn(Seq<char>) -> Result<Seq<char>, Seq<char>>,
    target: Target,
    op: Operation,
    step: Step,
) -> bool {
    match batch(raw, check) {
        Ok(n) => step matches Step::Persist { target: t, op: o, entries } && t == target && o == op
            && sorted(texts(entries@)) && texts(entries@).to_set() == if op == Operation::Add {
            n.difference(set)
        } else {
            n.intersect(set)
        },
        Err(e) => step matches Step::Reject(m) && m@ == e,
    }
}

/// The step for `cmd` in `state`.
pub open spec fn planned(state: &Snapshot, cmd: Command, step: Step) -> bool {
    match cmd {
        Command::GetStatus => step == Step::Status,
        Command::GetStats => step == Step::Stats,
        Command::AddDomains { domains } => mutation_plan(
            state.domains@,
            texts(domains@),
            domain_rule(),
            Target::Domains,
            Operation::Add,
            step,
        ),
        Command::RemoveDomains { domains } => mutation_plan(
            state.domains@,
            texts(domains@),
            domain_rule(),
            Target::Domains,
            Operation::Remove,
            step,
        ),
        Command::AddAddrs { cidrs } => mutation_plan(
            state.cidrs@,
            texts(cidrs@),
            cidr_rule(),
            Target::Cidrs,
            Operation::Add,
            step,
        ),
        Command::RemoveAddrs { cidrs } => mutation_plan(
            state.cidrs@,
            texts(cidrs@),
            cidr_rule(),
            Target::Cidrs,
            Operation::Remove,
            step,
        ),
        Command::StartSession { .. } | Command::StopSession => step matches Step::Reject(m)
            && m@ == not_implemented_text(cmd),
    }
}

fn persist_or_reject(
    planned: Result<Vec<String>, StateError>,
    target: Target,
    op: Operation,
) -> (r: Step)
    ensures
        match planned {
            Ok(entries) => r == Step::Persist { target, op, entries },
            Err(_) => r matches Step::Reject(m) && m@ == rejection(planned),
        },
{
    match planned {
        Ok(entries) => Step::Persist { target, op, entries },
        Err(StateError::Invalid(m)) => Step::Reject(m),
    }
}

/// Decides what to do with a command. Sessions (scheduling and the committed
/// lock) are not implemented in this build and are rejected.
pub fn plan_command(state: &Snapshot, cmd: &Command) -> (r: Step)
    requires
        state.wf(),
    ensures
        planned(state, *cmd, r),
{
    match cmd {
        Command::GetStatus => Step::Status,
        Command::GetStats => Step::Stats,
        Command::AddDomains { domains } => persist_or_reject(
            state.plan_add_domains(domains.as_slice()),
            Target::Domains,
            Operation::Add,
        ),
        Command::RemoveDomains { domains } => persist_or_reject(
            state.plan_remove_domains(domains.as_slice()),
            Target::Domains,
            Operation::Remove,
        ),
        Command::AddAddrs { cidrs } => persist_or_reject(
            state.plan_add_cidrs(cidrs.as_slice()),
            Target::Cidrs,
            Operation::Add,
        ),
        Command::RemoveAddrs { cidrs } => persist_or_reject(
            state.plan_remove_cidrs(cidrs.as_slice()),
            Target::Cidrs,
            Operation::Remove,
        ),
        Command::StartSession { .. } | Command::StopSession => {
            let a = concat(&chars_of("command '"), &chars_of(cmd.name()));
            let b = concat(&a, &chars_of("' is not implemented in this build"));
            Step::Reject(string_of(&b))
        },
    }
}

/// Commits a persisted mutation to memory and reports `{ changed, total }`.
pub fn commit_step(state: &mut Snapshot, target: Target, op: Operation, entries: &[String]) -> (r:
    MutationResult)
    requires
        old(state).wf(),
    ensures
        final(state).wf(),
        final(state).session == old(state).session,
        r.changed == entries@.len(),
        target == Target::Domains ==> final(state).cidrs@ == old(state).cidrs@
            && final(state).domains@ == if op == Operation::Add {
            old(state).domains@.union(texts(entries@).to_set())
        } else {
            old(state).domains@.difference(texts(entries@).to_set())
        } && r.total == final(state).domains@.len(),
        target == Target::Cidrs ==> final(state).domains@ == old(state).domains@
            && final(state).cidrs@ == if op == Operation::Add {
            old(state).cidrs@.union(texts(entries@).to_set())
        } else {
            old(state).cidrs@.difference(texts(entries@).to_set())
        } && r.total == final(state).cidrs@.len(),
{
    match (target, op) {
        (Target::Domains, Operation::Add) => state.commit_add_domains(entries),
        (Target::Domains, Operation::Remove) => state.commit_remove_domains(entries),
        (Target::Cidrs, Operation::Add) => state.commit_add_cidrs(entries),
        (Target::Cidrs, Operation::Remove) => state.commit_remove_cidrs(entries),
    }
}


/// The `GetStatus` reply: daemon metadata and the blocklist's sizes (not
/// its entries).
#[derive(Debug, Clone, PartialEq, Eq)]
pub struct Status {
    pub daemon_version: String,
    pub protocol_version: u32,
    pub pid: u32,
    /// Whether the daemon holds root.
    pub privileged: bool,
    pub blocked_domains: usize,
    pub blocked_cidrs: usize,
    /// Whether blocked names resolve to the loopback block page (else
    /// NXDOMAIN).
    pub block_page: bool,
    pub session: Option<Session>,
}

/// The status of a daemon in `state`, with the given process facts.
pub fn status_of(
    state: &Snapshot,
    daemon_version: &str,
    pid: u32,
    privileged: bool,
    block_page: bool,
) -> (r: Status)
    requires
        state.wf(),
    ensures
        r.daemon_version@ == daemon_version@,
        r.protocol_version == PROTOCOL_VERSION,
        r.pid == pid,
        r.privileged == privileged,
        r.blocked_domains == state.domains@.len(),
        r.blocked_cidrs == state.cidrs@.len(),
        r.block_page == block_page,
        r.session == state.session,
{
    Status {
        daemon_version: daemon_version.to_owned(),
        protocol_version: PROTOCOL_VERSION,
        pid,
        privileged,
        blocked_domains: state.domains.len(),
        blocked_cidrs: state.cidrs.len(),
        block_page,
        session: state.session,
    }
}

/// Which enforcement runs once the daemon has tried its listeners.
#[derive(Debug, Clone, Copy, PartialEq, Eq, Structural)]
pub struct Enforcement {
    /// Blocked `A`/`AAAA` names resolve to the loopback block page.
    pub block_page: bool,
    /// The DNS sinkhole serves on port 53.
    pub sinkhole: bool,
    /// The system's DNS is pointed at the sinkhole (and restored on exit).
    pub capture: bool,
}

/// Decides the enforcement from whether the daemon is root, whether DNS
/// capture was asked for, and whether the block-page (port 80) and sinkhole
/// (port 53) listeners bound. Without root nothing is enforced; the system's
/// DNS is repointed only at a sinkhole that is already bound.
pub fn plan_enforcement(is_root: bool, capture_dns: bool, page_bound: bool, dns_bound: bool) -> (r:
    Enforcement)
    ensures
        r.block_page == (is_root && page_bound),
        r.sinkhole == (is_root && dns_bound),
        r.capture == (r.sinkhole && capture_dns),
{
    let sinkhole = is_root && dns_bound;
    Enforcement { block_page: is_root && page_bound, sinkhole, capture: sinkhole && capture_dns }
}

} // verus!
