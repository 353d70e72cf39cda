use capable_broker::policy::{ConsentLedger, ConsentOutcome, Decision, PolicyEngine};

#[test]
fn consent_flow_approve_consume_once() {
    let mut l = ConsentLedger::new();
    let id = match l.request_or_check("exec:capA", "sessG", "exec CommandCap capA") {
        ConsentOutcome::Pending(id) => id,
        _ => panic!("首次应 Pending"),
    };
    match l.request_or_check("exec:capA", "sessG", "exec CommandCap capA") {
        ConsentOutcome::Pending(id2) => assert_eq!(id, id2),
        _ => panic!("应仍 Pending 同 id"),
    }
    assert_eq!(l.pending_count(), 1);
    assert!(l.approve(&id).is_ok());
    assert!(matches!(l.request_or_check("exec:capA", "sessG", "x"), ConsentOutcome::Approved));
    assert!(matches!(l.request_or_check("exec:capA", "sessG", "x"), ConsentOutcome::Pending(_)));
}

#[test]
fn consent_denied_and_session_scoped() {
    let mut l = ConsentLedger::new();
    let id = match l.request_or_check("http_get:capH", "sessG", "s") {
        ConsentOutcome::Pending(id) => id,
        _ => panic!(),
    };
    l.deny(&id).unwrap();
    assert!(matches!(l.request_or_check("http_get:capH", "sessG", "s"), ConsentOutcome::Denied));
    assert!(matches!(l.request_or_check("http_get:capH", "sessOther", "s"), ConsentOutcome::Pending(_)));
}

#[test]
fn policy_decisions() {
    let e = PolicyEngine { deny_exec: false, prompt_exec: true, prompt_http: true, prompt_post: false };
    assert_eq!(e.decide("exec"), Decision::Prompt);
    assert_eq!(e.decide("http_get"), Decision::Prompt);
    assert_eq!(e.decide("read"), Decision::Allow);
    assert_eq!(e.decide("post"), Decision::Allow);
    let deny = PolicyEngine { deny_exec: true, ..PolicyEngine::allow_all() };
    assert_eq!(deny.decide("exec"), Decision::Deny);
    assert_eq!(PolicyEngine::allow_all().decide("exec"), Decision::Allow);
}

#[test]
fn refusal_goes_before_prompt() {
    let e = PolicyEngine { deny_exec: true, prompt_exec: true, prompt_http: false, prompt_post: true };
    assert_eq!(e.decide("exec"), Decision::Deny);
    assert_eq!(e.decide("post"), Decision::Prompt);
    assert_eq!(e.decide("post_from"), Decision::Prompt);
    assert_eq!(e.decide("http_get"), Decision::Allow);
    assert_eq!(PolicyEngine::default().decide("post"), Decision::Allow);
}

#[test]
fn ids_are_numbered_and_never_used_twice() {
    let mut l = ConsentLedger::new();
    let mut ids: Vec<String> = Vec::new();
    for sig in ["a", "b", "c"] {
        match l.request_or_check(sig, "s", "x") {
            ConsentOutcome::Pending(id) => ids.push(id),
            _ => panic!("should wait"),
        }
    }
    assert_eq!(ids, vec!["consent_1", "consent_2", "consent_3"]);
    l.approve("consent_2").unwrap();
    assert!(matches!(l.request_or_check("b", "s", "x"), ConsentOutcome::Approved));
    match l.request_or_check("b", "s", "x") {
        ConsentOutcome::Pending(id) => assert_eq!(id, "consent_4"),
        _ => panic!("should wait"),
    }
}

#[test]
fn settling_what_does_not_wait_is_an_error() {
    let mut l = ConsentLedger::new();
    assert_eq!(l.approve("consent_9").unwrap_err(), "consent consent_9 不存在");
    assert_eq!(l.deny("nothing").unwrap_err(), "consent nothing 不存在");
    let _ = l.request_or_check("a", "s", "what it does");
    assert_eq!(l.approve("consent_1").unwrap(), "what it does");
    assert_eq!(l.approve("consent_1").unwrap_err(), "consent consent_1 非待决状态");
    assert_eq!(l.deny("consent_1").unwrap_err(), "consent consent_1 非待决状态");
}

#[test]
fn waiting_requests_are_listed_by_id() {
    let mut l = ConsentLedger::default();
    let _ = l.request_or_check("a", "s1", "one");
    let _ = l.request_or_check("b", "s2", "two");
    let _ = l.request_or_check("c", "s1", "three");
    l.deny("consent_2").unwrap();
    assert_eq!(l.pending_count(), 2);
    assert_eq!(
        l.list_pending(),
        vec![
            ("consent_1".to_string(), "s1".to_string(), "one".to_string()),
            ("consent_3".to_string(), "s1".to_string(), "three".to_string()),
        ]
    );
    assert_eq!(l.describe("consent_2"), Some("two".to_string()));
    assert_eq!(l.describe("consent_7"), None);
    assert!(l.has_room());
}

#[test]
fn a_decision_is_for_one_action_of_one_session() {
    let mut l = ConsentLedger::new();
    let _ = l.request_or_check("a", "s1", "x");
    let _ = l.request_or_check("b", "s1", "x");
    let _ = l.request_or_check("a", "s2", "x");
    l.approve("consent_1").unwrap();
    assert!(matches!(l.request_or_check("b", "s1", "x"), ConsentOutcome::Pending(_)));
    assert!(matches!(l.request_or_check("a", "s2", "x"), ConsentOutcome::Pending(_)));
    assert!(matches!(l.request_or_check("a", "s1", "x"), ConsentOutcome::Approved));
}
