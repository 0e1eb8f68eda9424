use app_blocker::config::{Recurrence, ScheduleRule, Session, TimeWindow, WebsiteItem};
use app_blocker::protocol::Request;
use app_blocker::schedule::LocalMoment;
use app_blocker::config::CivilDate;
use app_blocker::scheduler::{
    compute_desired, diff, next_reconcile_action, plan_reconcile, schedule_state,
    sessions_computable_at, ManagedSet, ReconcileAction,
};

fn item(id: &str, domains: &[&str]) -> WebsiteItem {
    WebsiteItem {
        id: id.to_string(),
        label: id.to_string(),
        domains: domains.iter().map(|s| s.to_string()).collect(),
        cidrs: vec![],
    }
}

fn always_on(id: &str, item_ids: &[&str], enabled: bool) -> Session {
    Session {
        id: id.to_string(),
        name: id.to_string(),
        item_ids: item_ids.iter().map(|s| s.to_string()).collect(),
        enabled,
        rules: vec![ScheduleRule { recurrence: Recurrence::Everyday, windows: vec![] }],
    }
}

fn now() -> LocalMoment {
    LocalMoment { year: 2024, month: 6, day: 14, hour: 10, minute: 0 }
}

#[test]
fn desired_unions_active_sessions_only() {
    let lib = vec![item("i1", &["a.com"]), item("i2", &["b.com"])];
    let sessions = vec![always_on("s1", &["i1"], true), always_on("s2", &["i2"], false)];
    let d = compute_desired(&lib, &sessions, &now());
    assert_eq!(d.domains.to_vec(), vec!["a.com".to_string()]);
    assert_eq!(d.active_session_ids, vec!["s1".to_string()]);
}

#[test]
fn diff_computes_add_and_remove_sets() {
    let lib = vec![item("i1", &["a.com"]), item("i2", &["b.com"])];
    let sessions = vec![always_on("s1", &["i2"], true)];
    let desired = compute_desired(&lib, &sessions, &now());
    let managed = ManagedSet { domains: vec!["a.com".to_string()], cidrs: vec![] };
    let delta = diff(&desired, &managed);
    assert_eq!(delta.domains_add, vec!["b.com".to_string()]);
    assert_eq!(delta.domains_remove, vec!["a.com".to_string()]);
}

#[test]
fn diff_empty_when_in_sync() {
    let lib = vec![item("i1", &["a.com"])];
    let sessions = vec![always_on("s1", &["i1"], true)];
    let desired = compute_desired(&lib, &sessions, &now());
    let managed = ManagedSet { domains: vec!["a.com".to_string()], cidrs: vec![] };
    assert!(diff(&desired, &managed).is_empty());
}

// ---- further cases ----

#[test]
fn desired_is_sorted_and_deduplicated() {
    let lib = vec![item("i1", &["z.com", "a.com"]), item("i2", &["a.com", "m.com"])];
    let sessions = vec![always_on("s1", &["i1", "i2"], true)];
    let d = compute_desired(&lib, &sessions, &now());
    assert_eq!(
        d.domains.to_vec(),
        vec!["a.com".to_string(), "m.com".to_string(), "z.com".to_string()]
    );
}

#[test]
fn unknown_item_ids_are_ignored() {
    let lib = vec![item("i1", &["a.com"])];
    let sessions = vec![always_on("s1", &["missing", "i1"], true)];
    let d = compute_desired(&lib, &sessions, &now());
    assert_eq!(d.domains.to_vec(), vec!["a.com".to_string()]);
}

#[test]
fn session_outside_its_window_contributes_nothing() {
    let lib = vec![item("i1", &["a.com"])];
    let s = Session {
        id: "s1".to_string(),
        name: "Morning".to_string(),
        item_ids: vec!["i1".to_string()],
        enabled: true,
        rules: vec![ScheduleRule {
            recurrence: Recurrence::Everyday,
            windows: vec![TimeWindow { start_min: 6 * 60, end_min: 9 * 60 }],
        }],
    };
    let d = compute_desired(&lib, &[s], &now());
    assert!(d.domains.is_empty());
    assert!(d.active_session_ids.is_empty());
}

#[test]
fn reconcile_plan_removes_then_adds_and_records_managed() {
    let mut lib = vec![item("i1", &["b.com"])];
    lib[0].cidrs = vec!["10.0.0.0/8".to_string()];
    let sessions = vec![always_on("s1", &["i1"], true)];
    let managed = ManagedSet { domains: vec!["a.com".to_string()], cidrs: vec![] };
    let plan = plan_reconcile(&lib, &sessions, &managed, &now());
    assert_eq!(
        plan.requests,
        vec![
            Request::RemoveDomains { domains: vec!["a.com".to_string()] },
            Request::AddDomains { domains: vec!["b.com".to_string()] },
            Request::AddAddrs { cidrs: vec!["10.0.0.0/8".to_string()] },
        ]
    );
    assert_eq!(plan.managed.domains, vec!["b.com".to_string()]);
    assert_eq!(plan.managed.cidrs, vec!["10.0.0.0/8".to_string()]);
    assert_eq!(plan.state.active_session_ids, vec!["s1".to_string()]);
    assert_eq!(plan.state.managed_domains, vec!["b.com".to_string()]);
}

#[test]
fn reconcile_in_sync_sends_nothing() {
    let lib = vec![item("i1", &["a.com"])];
    let sessions = vec![always_on("s1", &["i1"], true)];
    let managed = ManagedSet { domains: vec!["a.com".to_string()], cidrs: vec![] };
    let plan = plan_reconcile(&lib, &sessions, &managed, &now());
    assert!(plan.requests.is_empty());
    assert_eq!(plan.managed, managed);
}

#[test]
fn reconcile_disabled_session_removes_managed() {
    let lib = vec![item("i1", &["a.com"])];
    let sessions = vec![always_on("s1", &["i1"], false)];
    let managed = ManagedSet { domains: vec!["a.com".to_string()], cidrs: vec![] };
    let plan = plan_reconcile(&lib, &sessions, &managed, &now());
    assert_eq!(plan.requests, vec![Request::RemoveDomains { domains: vec!["a.com".to_string()] }]);
    assert!(plan.managed.domains.is_empty());
    assert!(plan.state.active_session_ids.is_empty());
}

#[test]
fn schedule_state_reports_without_changing() {
    let lib = vec![item("i1", &["a.com"])];
    let sessions = vec![always_on("s1", &["i1"], true)];
    let managed = ManagedSet { domains: vec!["x.com".to_string()], cidrs: vec![] };
    let st = schedule_state(&lib, &sessions, &managed, &now());
    assert_eq!(st.active_session_ids, vec!["s1".to_string()]);
    assert_eq!(st.managed_domains, vec!["x.com".to_string()]);
    assert!(st.managed_cidrs.is_empty());
}

#[test]
fn only_enabled_sessions_need_dates_in_range() {
    let mut s = always_on("s1", &["i1"], true);
    s.rules = vec![ScheduleRule {
        recurrence: Recurrence::DateRange {
            start: CivilDate { year: i32::MIN, month: 1, day: 1 },
            end: CivilDate { year: 2024, month: 1, day: 1 },
        },
        windows: vec![],
    }];
    assert!(!sessions_computable_at(&[s.clone()], &now()));
    s.enabled = false;
    assert!(sessions_computable_at(&[s], &now()));
    assert!(sessions_computable_at(&[always_on("s2", &["i1"], true)], &now()));
}

/// Carries out a plan against a daemon that acknowledges every request,
/// returning the requests sent and the managed set stored.
fn carry_out(plan: &app_blocker::scheduler::ReconcilePlan) -> (Vec<Request>, Option<ManagedSet>) {
    let mut sent_requests = Vec::new();
    let mut sent = 0;
    loop {
        match next_reconcile_action(plan, sent, None) {
            ReconcileAction::Send(i) => {
                sent_requests.push(plan.requests[i].clone());
                sent += 1;
            }
            ReconcileAction::SaveManaged => return (sent_requests, Some(plan.managed.clone())),
            ReconcileAction::Fail(_) => return (sent_requests, None),
        }
    }
}

#[test]
fn reconcile_pushes_active_session_then_removes_when_inactive() {
    let lib = vec![item("i1", &["a.com"])];
    let plan = plan_reconcile(&lib, &[always_on("s1", &["i1"], true)], &ManagedSet::default(), &now());
    let (sent, stored) = carry_out(&plan);
    let managed = stored.unwrap();
    assert_eq!(plan.state.managed_domains, vec!["a.com".to_string()]);
    assert!(sent.iter().any(|r| *r == Request::AddDomains { domains: vec!["a.com".to_string()] }));

    let plan = plan_reconcile(&lib, &[always_on("s1", &["i1"], false)], &managed, &now());
    let (sent, stored) = carry_out(&plan);
    assert!(stored.unwrap().domains.is_empty());
    assert!(plan.state.managed_domains.is_empty());
    assert!(sent.iter().any(|r| *r == Request::RemoveDomains { domains: vec!["a.com".to_string()] }));
}

#[test]
fn failed_request_stops_the_reconcile_without_saving() {
    let mut lib = vec![item("i1", &["b.com"])];
    lib[0].cidrs = vec!["10.0.0.0/8".to_string()];
    let managed = ManagedSet { domains: vec!["a.com".to_string()], cidrs: vec![] };
    let plan = plan_reconcile(&lib, &[always_on("s1", &["i1"], true)], &managed, &now());
    assert_eq!(plan.requests.len(), 3);
    assert_eq!(next_reconcile_action(&plan, 0, None), ReconcileAction::Send(0));
    assert_eq!(next_reconcile_action(&plan, 1, None), ReconcileAction::Send(1));
    assert_eq!(
        next_reconcile_action(&plan, 1, Some("daemon unreachable".to_string())),
        ReconcileAction::Fail("daemon unreachable".to_string())
    );
    assert_eq!(next_reconcile_action(&plan, 3, None), ReconcileAction::SaveManaged);
}
