//! What the CLI prints and exits with.

use portcullis::cli::{apply_report, reload_report, status_report, validate_report, CliReport};
use portcullis::config::ConfigError;
use portcullis::control::{status_response, Response};
use portcullis::state::ApplyOutcome;
use portcullis::text::decimal_string;
use portcullis::{Chain, Policy, Ruleset};

fn out(r: &CliReport) -> Vec<&str> {
    r.stdout.iter().map(|s| s.as_str()).collect()
}

fn errs(r: &CliReport) -> Vec<&str> {
    r.stderr.iter().map(|s| s.as_str()).collect()
}

#[test]
fn validate_reports() {
    let rs = Ruleset::new(vec![Chain::new("input", vec![], Policy::Drop)]);
    let r = validate_report("rules.toml", &Ok(rs));
    assert_eq!(out(&r), vec!["ok: rules.toml (version 1, 1 chain(s), 0 rule(s))"]);
    assert_eq!(r.code, 0);
    let e = ConfigError::Io { path: "rules.toml".into(), source: "gone".into() };
    let r = validate_report("rules.toml", &Err(e));
    assert_eq!(errs(&r), vec!["error: failed to read config rules.toml: gone"]);
    assert!(r.stdout.is_empty());
    assert_eq!(r.code, 1);
}

#[test]
fn apply_and_reload_reports() {
    let outcome = ApplyOutcome { version: 1, chains: 2, rules: 3, planned_changes: 4 };
    let resp = Response { applied: Some(outcome), ..Response::ok_empty() };
    let r = apply_report(&Ok(resp));
    assert_eq!(out(&r), vec!["applied: version 1, 2 chain(s), 3 rule(s), 4 planned change(s)"]);
    assert_eq!(r.code, 0);
    let r = apply_report(&Ok(Response::ok_empty()));
    assert_eq!(out(&r), vec!["applied"]);
    let r = apply_report(&Ok(Response::err("nope".into())));
    assert_eq!(errs(&r), vec!["error: nope"]);
    assert_eq!(r.code, 1);
    let r = apply_report(&Ok(Response { ok: false, ..Response::ok_empty() }));
    assert_eq!(errs(&r), vec!["error: unknown"]);
    let r = apply_report(&Err("connect 127.0.0.1:9753: refused".into()));
    assert_eq!(errs(&r), vec!["error: connect 127.0.0.1:9753: refused"]);

    let resp = Response { applied: Some(outcome), ..Response::ok_empty() };
    let r = reload_report(&Ok(resp));
    assert_eq!(out(&r), vec!["reloaded: version 1, 3 rule(s), 4 planned change(s)"]);
    assert_eq!(out(&reload_report(&Ok(Response::ok_empty()))), vec!["reloaded"]);
    assert_eq!(reload_report(&Err("x".into())).code, 1);
}

#[test]
fn status_reports() {
    let rs = Ruleset::new(vec![Chain::new("input", vec![], Policy::Drop)]);
    let outcome = ApplyOutcome { version: 1, chains: 1, rules: 0, planned_changes: 2 };
    let resp = status_response("/etc/p.toml".into(), Some(&rs), Some(outcome));
    let r = status_report(&Ok(resp));
    assert_eq!(
        out(&r),
        vec![
            "config:  /etc/p.toml",
            "loaded:  true",
            "version: 1",
            "chains:  1",
            "rules:   0",
            "last apply: version 1, 0 rule(s), 2 change(s)",
        ]
    );
    assert_eq!(r.code, 0);
    let r = status_report(&Ok(status_response("c".into(), None, None)));
    assert_eq!(out(&r), vec!["config:  c", "loaded:  false"]);
    assert_eq!(status_report(&Ok(Response::ok_empty())).stdout.len(), 0);
    assert_eq!(status_report(&Err("e".into())).code, 1);
}

#[test]
fn decimal_rendering() {
    assert_eq!(decimal_string(0), "0");
    assert_eq!(decimal_string(7), "7");
    assert_eq!(decimal_string(10), "10");
    assert_eq!(decimal_string(65535), "65535");
    assert_eq!(decimal_string(u64::MAX), "18446744073709551615");
}
