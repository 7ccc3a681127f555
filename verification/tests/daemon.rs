//! Config acceptance, error texts, control responses, apply bookkeeping.

use portcullis::config::{accept_config, format_issues, ConfigError, FileConfig};
use portcullis::control::{
    after_apply, after_load, applied_response, control_step, poll_interval_secs, status_response,
    validated_response, watch_step, ControlStep, Request, Response,
};
use portcullis::privd::PortcullisCommandKind;
use portcullis::state::{apply_outcome, AppliedState, ApplyOutcome, BridgeError};
use portcullis::{
    verify, Action, Chain, Matcher, Policy, PortMatcher, PortRange, Protocol, Rule, RuleId,
    Ruleset,
};

fn rule(id: u64, priority: u32, matcher: Matcher, action: Action) -> Rule {
    Rule {
        id: RuleId(id),
        priority,
        matcher,
        action,
        description: None,
    }
}

fn valid() -> Ruleset {
    Ruleset::new(vec![Chain::new(
        "input",
        vec![
            rule(
                1,
                10,
                Matcher { protocol: Protocol::Tcp, dst_port: PortMatcher::Single(22), ..Matcher::any() },
                Action::Accept,
            ),
            rule(2, 20, Matcher::any(), Action::Drop),
        ],
        Policy::Drop,
    )])
}

fn lint_failing() -> Ruleset {
    Ruleset::new(vec![Chain::new(
        "input",
        vec![
            rule(
                1,
                10,
                Matcher {
                    protocol: Protocol::Tcp,
                    dst_port: PortMatcher::Range(PortRange::new(0, 65535).unwrap()),
                    ..Matcher::any()
                },
                Action::Accept,
            ),
            rule(
                2,
                20,
                Matcher { protocol: Protocol::Tcp, dst_port: PortMatcher::Single(22), ..Matcher::any() },
                Action::Drop,
            ),
        ],
        Policy::Drop,
    )])
}

#[test]
fn accepted_config_keeps_its_ruleset() {
    let rs = accept_config(FileConfig { ruleset: valid() }).expect("valid config verifies");
    assert_eq!(rs, valid());
    assert_eq!(rs.iter_rules().len(), 2);
}

#[test]
fn refused_config_carries_every_issue() {
    let err = accept_config(FileConfig { ruleset: lint_failing() }).expect_err("must be refused");
    let issues = verify(&lint_failing()).unwrap_err();
    assert_eq!(err, ConfigError::Verify(issues.clone()));
    let text = err.to_string();
    assert!(text.contains("verification"));
    assert!(text.contains("unreachable"));
    assert_eq!(
        text,
        format!("ruleset failed verification (1 issue(s)):\n  - {}", issues[0].to_string())
    );
}

#[test]
fn config_error_texts() {
    let io = ConfigError::Io { path: "/x.toml".into(), source: "not found".into() };
    assert_eq!(io.to_string(), "failed to read config /x.toml: not found");
    let parse = ConfigError::Parse { path: "/y.toml".into(), source: "bad key".into() };
    assert_eq!(parse.to_string(), "failed to parse config /y.toml: bad key");
}

#[test]
fn issue_list_is_one_line_per_issue() {
    assert_eq!(format_issues(&[]), "");
    let rs = Ruleset::new(vec![
        Chain::new("a", vec![], Policy::Drop),
        Chain::new("a", vec![], Policy::Drop),
        Chain::new("a", vec![], Policy::Drop),
    ]);
    let issues = verify(&rs).unwrap_err();
    assert_eq!(
        format_issues(&issues),
        "  - [duplicate chain name] chain `a` chain name `a` appears more than once\n  - [duplicate chain name] chain `a` chain name `a` appears more than once"
    );
}

#[test]
fn responses() {
    let ok = Response::ok_empty();
    assert!(ok.ok && ok.error.is_none() && ok.message.is_none());
    let err = Response::err("boom".into());
    assert!(!err.ok);
    assert_eq!(err.error.as_deref(), Some("boom"));
    let v = validated_response(&valid());
    assert!(v.ok);
    assert_eq!(v.message.as_deref(), Some("ok: version 1, 1 chain(s), 2 rule(s)"));
    let outcome = ApplyOutcome { version: 1, chains: 1, rules: 2, planned_changes: 2 };
    let a = applied_response(outcome);
    assert_eq!(a.applied, Some(outcome));
    let rs = valid();
    let s = status_response("/etc/p.toml".into(), Some(&rs), Some(outcome));
    let st = s.status.unwrap();
    assert_eq!(st.config_path, "/etc/p.toml");
    assert!(st.loaded);
    assert_eq!((st.version, st.chains, st.rules), (Some(1), Some(1), Some(2)));
    assert_eq!(st.last_apply, Some(outcome));
    let empty = status_response("c".into(), None, None).status.unwrap();
    assert!(!empty.loaded);
    assert_eq!((empty.version, empty.chains, empty.rules), (None, None, None));
    assert_eq!(Request::Status, Request::Status);
}

#[test]
fn apply_bookkeeping() {
    let rs = valid();
    let outcome = apply_outcome(&rs, 5);
    assert_eq!(outcome, ApplyOutcome { version: 1, chains: 1, rules: 2, planned_changes: 5 });
    let mut state = AppliedState::new();
    assert!(state.current_ruleset().is_none());
    assert!(state.last_apply().is_none());
    state.record(&rs, outcome);
    assert_eq!(state.current_ruleset(), Some(valid()));
    assert_eq!(state.last_apply().map(|a| a.rules), Some(2));
}

#[test]
fn bridge_error_texts() {
    assert_eq!(BridgeError::Validate("x".into()).to_string(), "netctl validate failed: x");
    assert_eq!(BridgeError::Apply("y".into()).to_string(), "netctl apply failed: y");
    assert_eq!(
        BridgeError::Connect("z".into()).to_string(),
        "failed to connect dataplane backend: z"
    );
}

#[test]
fn reserved_command_kinds() {
    assert_eq!(PortcullisCommandKind::BASE, 0x8000_0000);
    assert_eq!(PortcullisCommandKind::APPLY_RULESET, 0x8000_0000);
    assert_eq!(PortcullisCommandKind::READ_STATE, 0x8000_0001);
}

#[test]
fn each_request_leads_to_its_step() {
    let cfg = String::from("/etc/portcullis.toml");
    assert_eq!(
        control_step(&Request::Validate { path: "a.toml".into() }, &cfg),
        ControlStep::Load { path: "a.toml".into(), then_apply: false }
    );
    assert_eq!(
        control_step(&Request::Apply { path: "b.toml".into() }, &cfg),
        ControlStep::Load { path: "b.toml".into(), then_apply: true }
    );
    assert_eq!(
        control_step(&Request::Reload, &cfg),
        ControlStep::Load { path: "/etc/portcullis.toml".into(), then_apply: true }
    );
    assert_eq!(control_step(&Request::Status, &cfg), ControlStep::Status);
}

#[test]
fn validate_never_applies_and_errors_become_replies() {
    let validated = after_load(false, Ok(valid())).unwrap_err();
    assert!(validated.ok);
    assert_eq!(validated.message.as_deref(), Some("ok: version 1, 1 chain(s), 2 rule(s)"));
    assert_eq!(after_load(true, Ok(valid())), Ok(valid()));
    for then_apply in [false, true] {
        let e = ConfigError::Io { path: "x.toml".into(), source: "gone".into() };
        let text = e.to_string();
        let reply = after_load(then_apply, Err(e)).unwrap_err();
        assert!(!reply.ok);
        assert_eq!(reply.error, Some(text));
        assert!(reply.message.is_none() && reply.applied.is_none());
    }
}

#[test]
fn apply_results_become_replies() {
    let outcome = ApplyOutcome { version: 1, chains: 1, rules: 2, planned_changes: 3 };
    let ok = after_apply(Ok(outcome));
    assert!(ok.ok);
    assert_eq!(ok.applied, Some(outcome));
    let bad = after_apply(Err(BridgeError::Apply("no route".into())));
    assert!(!bad.ok);
    assert_eq!(bad.error.as_deref(), Some("netctl apply failed: no route"));
    assert!(bad.applied.is_none());
}

#[test]
fn config_watch_steps() {
    assert_eq!(poll_interval_secs(0), 1);
    assert_eq!(poll_interval_secs(1), 1);
    assert_eq!(poll_interval_secs(30), 30);
    // An unreadable time changes nothing.
    assert_eq!(watch_step(Some(5), None), (Some(5), false));
    assert_eq!(watch_step(None, None), (None, false));
    // A first or changed time is recorded and asks for a reload.
    assert_eq!(watch_step(None, Some(7)), (Some(7), true));
    assert_eq!(watch_step(Some(5), Some(7)), (Some(7), true));
    assert_eq!(watch_step(Some(9), Some(7)), (Some(7), true));
    // An unchanged time does nothing.
    assert_eq!(watch_step(Some(7), Some(7)), (Some(7), false));
}

#[test]
fn settle_records_only_a_successful_apply() {
    let rs = valid();
    let mut state = AppliedState::new();
    let failed = state.settle(&rs, Err(BridgeError::Connect("down".into())));
    assert_eq!(failed, Err(BridgeError::Connect("down".into())));
    assert!(state.current_ruleset().is_none());
    assert!(state.last_apply().is_none());
    let done = state.settle(&rs, Ok(4)).unwrap();
    assert_eq!(done, ApplyOutcome { version: 1, chains: 1, rules: 2, planned_changes: 4 });
    assert_eq!(state.current_ruleset(), Some(valid()));
    assert_eq!(state.last_apply(), Some(done));
    // A later failure keeps what was applied before.
    let other = lint_failing();
    assert!(state.settle(&other, Err(BridgeError::Apply("x".into()))).is_err());
    assert_eq!(state.current_ruleset(), Some(valid()));
    assert_eq!(state.last_apply(), Some(done));
}
