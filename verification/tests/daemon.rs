use app_blocker::daemon::{commit_step, plan_command, Command, Operation, Step, Target};
use app_blocker::state::{MutationResult, Snapshot};

fn strings(v: &[&str]) -> Vec<String> {
    v.iter().map(|s| s.to_string()).collect()
}

/// Plans a command and, when it persists, commits it as the daemon does
/// after storing the change.
fn run(state: &mut Snapshot, cmd: Command) -> Result<MutationResult, String> {
    match plan_command(state, &cmd) {
        Step::Persist { target, op, entries } => Ok(commit_step(state, target, op, &entries)),
        Step::Reject(m) => Err(m),
        other => panic!("unexpected step {other:?}"),
    }
}

#[test]
fn reads_are_answered_directly() {
    let s = Snapshot::new();
    assert_eq!(plan_command(&s, &Command::GetStatus), Step::Status);
    assert_eq!(plan_command(&s, &Command::GetStats), Step::Stats);
}

#[test]
fn add_plans_only_new_entries_in_order() {
    let mut s = Snapshot::new();
    run(&mut s, Command::AddDomains { domains: strings(&["b.com"]) }).unwrap();
    assert_eq!(
        plan_command(&s, &Command::AddDomains { domains: strings(&["C.com", "b.com", "a.com"]) }),
        Step::Persist { target: Target::Domains, op: Operation::Add, entries: strings(&["a.com", "c.com"]) }
    );
}

#[test]
fn remove_plans_only_present_entries() {
    let mut s = Snapshot::new();
    run(&mut s, Command::AddAddrs { cidrs: strings(&["10.0.0.0/8"]) }).unwrap();
    assert_eq!(
        plan_command(&s, &Command::RemoveAddrs { cidrs: strings(&["10.9.9.9/8", "192.168.0.0/16"]) }),
        Step::Persist { target: Target::Cidrs, op: Operation::Remove, entries: strings(&["10.0.0.0/8"]) }
    );
}

#[test]
fn sessions_are_rejected_as_not_implemented() {
    let s = Snapshot::new();
    assert_eq!(
        plan_command(&s, &Command::StartSession { until_unix: 9_999_999_999, committed: true }),
        Step::Reject("command 'StartSession' is not implemented in this build".to_string())
    );
    assert_eq!(
        plan_command(&s, &Command::StopSession),
        Step::Reject("command 'StopSession' is not implemented in this build".to_string())
    );
}

#[test]
fn planned_then_committed_mutations_report_counts() {
    let mut s = Snapshot::new();
    assert_eq!(
        run(&mut s, Command::AddDomains { domains: strings(&["persist.com", "keep.org"]) }),
        Ok(MutationResult { changed: 2, total: 2 })
    );
    assert_eq!(
        run(&mut s, Command::AddAddrs { cidrs: strings(&["10.0.0.0/8"]) }),
        Ok(MutationResult { changed: 1, total: 1 })
    );
    assert_eq!(
        run(&mut s, Command::AddDomains { domains: strings(&["ok.com", "not a domain"]) }),
        Err("'not a domain' is not a fully-qualified domain name".to_string())
    );
    assert_eq!(s.summary().domains.len(), 2);
    assert_eq!(
        run(&mut s, Command::RemoveDomains { domains: strings(&["keep.org"]) }),
        Ok(MutationResult { changed: 1, total: 1 })
    );
}
