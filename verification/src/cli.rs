//! The daemon's command line: `--socket` and `--state` win, then the
//! `BLOCKERD_SOCKET` / `BLOCKERD_STATE` environment variables, then the
//! defaults under `/var`.
use vstd::prelude::*;

use crate::state::texts;
use crate::text::{chars_of, concat, string_of};

verus! {

/// Default production socket path (creating it requires root).
pub const DEFAULT_SOCKET: &'static str = "/var/run/com.aslonkhamidov.blockerd.sock";

/// Default production state database (under /var/db, so it requires root).
pub const DEFAULT_STATE: &'static str = "/var/db/com.aslonkhamidov.blockerd/state.db";

/// The parsed command line.
#[derive(Debug, Clone, PartialEq, Eq)]
pub enum Args {
    Run { socket: String, state: String, capture_dns: bool },
    Help,
    BadUsage(String),
}

/// The outcome of reading the arguments from index `i` on, given what was
/// read before: `(0, socket, state, no_capture, _)` when they are all
/// options, `(1, ..)` for a help request, `(2, .., message)` for bad usage.
pub open spec fn scan(
    args: Seq<Seq<char>>,
    i: int,
    socket: Option<Seq<char>>,
    state: Option<Seq<char>>,
    no_capture: bool,
) -> (int, Option<Seq<char>>, Option<Seq<char>>, bool, Seq<char>)
    decreases args.len() - i,
{
    if i < 0 || i >= args.len() {
        (0, socket, state, no_capture, Seq::empty())
    } else {
        let a = args[i];
        if a == "--socket"@ {
            if i + 1 < args.len() {
                scan(args, i + 2, Some(args[i + 1]), state, no_capture)
            } else {
                (2, socket, state, no_capture, "--socket requires a path argument"@)
            }
        } else if a == "--state"@ {
            if i + 1 < args.len() {
                scan(args, i + 2, socket, Some(args[i + 1]), no_capture)
            } else {
                (2, socket, state, no_capture, "--state requires a path argument"@)
            }
        } else if a == "--no-capture"@ {
            scan(args, i + 1, socket, state, true)
        } else if a == "-h"@ || a == "--help"@ {
            (1, socket, state, no_capture, Seq::empty())
        } else {
            (2, socket, state, no_capture, "unknown argument: "@ + a)
        }
    }
}

/// The first of `a`, `b`, or else `default`.
pub open spec fn first_of(a: Option<Seq<char>>, b: Option<Seq<char>>, default: Seq<char>) -> Seq<
    char,
> {
    match a {
        Some(x) => x,
        None => match b {
            Some(y) => y,
            None => default,
        },
    }
}

/// The meaning of a command line `args` (program name excluded), given the
/// environment's socket path, state path and DNS-capture setting.
pub open spec fn args_meaning(
    args: Seq<Seq<char>>,
    env_socket: Option<Seq<char>>,
    env_state: Option<Seq<char>>,
    env_capture: Option<Seq<char>>,
    r: Args,
) -> bool {
    let (kind, socket, state, no_capture, message) = scan(args, 0, None, None, false);
    if kind == 1 {
        r == Args::Help
    } else if kind == 2 {
        r matches Args::BadUsage(m) && m@ == message
    } else {
        r matches Args::Run { socket: s, state: d, capture_dns } && s@ == first_of(
            socket,
            env_socket,
            DEFAULT_SOCKET@,
        ) && d@ == first_of(state, env_state, DEFAULT_STATE@) && capture_dns == (!no_capture
            && env_capture != Some("off"@))
    }
}

fn is_text(s: &String, lit: &str) -> (r: bool)
    ensures
        r == (s@ == lit@),
{
    crate::text::chars_eq(&chars_of(s.as_str()), &chars_of(lit))
}

/// Parses the command line. `env_socket`, `env_state` and `env_capture` are
/// the values of `BLOCKERD_SOCKET`, `BLOCKERD_STATE` and
/// `BLOCKERD_DNS_CAPTURE` (`off` disables DNS capture, like `--no-capture`).
pub fn parse_args(
    args: &[String],
    env_socket: Option<String>,
    env_state: Option<String>,
    env_capture: Option<String>,
) -> (r: Args)
    ensures
        args_meaning(
            texts(args@),
            match env_socket {
                Some(s) => Some(s@),
                None => None,
            },
            match env_state {
                Some(s) => Some(s@),
                None => None,
            },
            match env_capture {
                Some(s) => Some(s@),
                None => None,
            },
            r,
        ),
{
    let ghost all = texts(args@);
    let mut socket: Option<String> = None;
    let mut state: Option<String> = None;
    let mut no_capture = false;
    let mut i: usize = 0;
    while i < args.len()
        invariant
            i <= args.len(),
            all == texts(args@),
            scan(all, 0, None, None, false) == scan(
                all,
                i as int,
                match socket {
                    Some(s) => Some(s@),
                    None => None,
                },
                match state {
                    Some(s) => Some(s@),
                    None => None,
                },
                no_capture,
            ),
        decreases args.len() - i,
    {
        let a = &args[i];
        assert(a@ == all[i as int]);
        if is_text(a, "--socket") {
            if i + 1 < args.len() {
                socket = Some(args[i + 1].clone());
                proof {
                    assert(all[i + 1] == args@[i + 1]@);
                }
                i += 2;
            } else {
                return Args::BadUsage("--socket requires a path argument".to_owned());
            }
        } else if is_text(a, "--state") {
            if i + 1 < args.len() {
                state = Some(args[i + 1].clone());
                proof {
                    assert(all[i + 1] == args@[i + 1]@);
                }
                i += 2;
            } else {
                return Args::BadUsage("--state requires a path argument".to_owned());
            }
        } else if is_text(a, "--no-capture") {
            no_capture = true;
            i += 1;
        } else if is_text(a, "-h") || is_text(a, "--help") {
            return Args::Help;
        } else {
            let m = concat(&chars_of("unknown argument: "), &chars_of(a.as_str()));
            return Args::BadUsage(string_of(&m));
        }
    }
    let socket = match socket {
        Some(s) => s,
        None => match env_socket {
            Some(s) => s,
            None => DEFAULT_SOCKET.to_owned(),
        },
    };
    let state = match state {
        Some(s) => s,
        None => match env_state {
            Some(s) => s,
            None => DEFAULT_STATE.to_owned(),
        },
    };
    let env_off = match &env_capture {
        Some(v) => is_text(v, "off"),
        None => false,
    };
    Args::Run { socket, state, capture_dns: !no_capture && !env_off }
}

} // verus!
