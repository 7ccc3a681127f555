//! What the admin CLI prints and exits with for each subcommand.
//!
//! The CLI reads files or talks to the daemon, then reports. The reports
//! are computed here from what came back: lines for standard output, lines
//! for standard error, and the exit code (0 on success, 1 otherwise).

use vstd::prelude::*;

use crate::config::ConfigError;
use crate::control::Response;
use crate::ruleset::{chain_rule_pairs, Ruleset};
use crate::state::ApplyOutcome;
use crate::text::{decimal, decimal_string};

verus! {

/// Output of one CLI invocation.
#[derive(Debug, PartialEq, Eq)]
pub struct CliReport {
    /// Lines for standard output.
    pub stdout: Vec<String>,
    /// Lines for standard error.
    pub stderr: Vec<String>,
    /// Process exit code.
    pub code: u8,
}

/// The characters of each line.
pub open spec fn lines(v: Seq<String>) -> Seq<Seq<char>> {
    v.map_values(|s: String| s@)
}

/// `error: <text>` on standard error, exit code 1.
pub open spec fn is_error_report(r: CliReport, text: Seq<char>) -> bool {
    &&& lines(r.stdout@) == Seq::<Seq<char>>::empty()
    &&& lines(r.stderr@) == seq!["error: "@ + text]
    &&& r.code == 1
}

/// A single line on standard output, exit code 0.
pub open spec fn is_ok_report(r: CliReport, line: Seq<char>) -> bool {
    &&& lines(r.stdout@) == seq![line]
    &&& lines(r.stderr@) == Seq::<Seq<char>>::empty()
    &&& r.code == 0
}

/// Text of an error reply from the daemon (`unknown` when it gave none).
pub open spec fn reply_error_text(resp: Response) -> Seq<char> {
    match resp.error {
        Some(e) => e@,
        None => "unknown"@,
    }
}

fn error_report(text: &str) -> (r: CliReport)
    ensures
        is_error_report(r, text@),
{
    let mut line = String::from_str("error: ");
    line.append(text);
    let mut stderr: Vec<String> = Vec::new();
    stderr.push(line);
    let r = CliReport { stdout: Vec::new(), stderr, code: 1 };
    assert(lines(r.stdout@) =~= Seq::<Seq<char>>::empty());
    assert(lines(r.stderr@) =~= seq!["error: "@ + text@]);
    r
}

fn ok_report(line: String) -> (r: CliReport)
    ensures
        is_ok_report(r, line@),
{
    let mut stdout: Vec<String> = Vec::new();
    stdout.push(line);
    let r = CliReport { stdout, stderr: Vec::new(), code: 0 };
    assert(lines(r.stdout@) =~= seq![line@]);
    assert(lines(r.stderr@) =~= Seq::<Seq<char>>::empty());
    r
}

fn reply_error(resp: &Response) -> (r: CliReport)
    ensures
        is_error_report(r, reply_error_text(*resp)),
{
    match &resp.error {
        Some(e) => error_report(e.as_str()),
        None => error_report("unknown"),
    }
}

/// Line for a file that loaded and verified.
pub open spec fn validated_line(file: Seq<char>, rs: Ruleset) -> Seq<char> {
    "ok: "@ + file + " (version "@ + decimal(rs.version as nat) + ", "@ + decimal(rs.chains@.len())
        + " chain(s), "@ + decimal(chain_rule_pairs(rs.chains@).len()) + " rule(s))"@
}

/// `validate`: the summary line when the file loaded and verified, else the
/// error.
pub fn validate_report(file: &str, result: &Result<Ruleset, ConfigError>) -> (r: CliReport)
    ensures
        match result {
            Ok(rs) => is_ok_report(r, validated_line(file@, *rs)),
            Err(e) => is_error_report(r, e.text()),
        },
{
    match result {
        Ok(rs) => {
            let rules = rs.iter_rules().len();
            let mut line = String::from_str("ok: ");
            line.append(file);
            line.append(" (version ");
            line.append(decimal_string(rs.version).as_str());
            line.append(", ");
            line.append(decimal_string(rs.chains.len() as u64).as_str());
            line.append(" chain(s), ");
            line.append(decimal_string(rules as u64).as_str());
            line.append(" rule(s))");
            ok_report(line)
        },
        Err(e) => error_report(e.to_string().as_str()),
    }
}

/// Line for a successful apply.
pub open spec fn applied_line(a: ApplyOutcome) -> Seq<char> {
    "applied: version "@ + decimal(a.version as nat) + ", "@ + decimal(a.chains as nat) + " chain(s), "@
        + decimal(a.rules as nat) + " rule(s), "@ + decimal(a.planned_changes as nat)
        + " planned change(s)"@
}

/// `apply`: the applied summary on success, else the daemon's error or the
/// transport error.
pub fn apply_report(result: &Result<Response, String>) -> (r: CliReport)
    ensures
        match result {
            Ok(resp) => if resp.ok {
                match resp.applied {
                    Some(a) => is_ok_report(r, applied_line(a)),
                    None => is_ok_report(r, "applied"@),
                }
            } else {
                is_error_report(r, reply_error_text(*resp))
            },
            Err(e) => is_error_report(r, e@),
        },
{
    match result {
        Ok(resp) => if resp.ok {
            match resp.applied {
                Some(a) => {
                    let mut line = String::from_str("applied: version ");
                    line.append(decimal_string(a.version).as_str());
                    line.append(", ");
                    line.append(decimal_string(a.chains as u64).as_str());
                    line.append(" chain(s), ");
                    line.append(decimal_string(a.rules as u64).as_str());
                    line.append(" rule(s), ");
                    line.append(decimal_string(a.planned_changes as u64).as_str());
                    line.append(" planned change(s)");
                    ok_report(line)
                },
                None => ok_report(String::from_str("applied")),
            }
        } else {
            reply_error(resp)
        },
        Err(e) => error_report(e.as_str()),
    }
}

/// Line for a successful reload.
pub open spec fn reloaded_line(a: ApplyOutcome) -> Seq<char> {
    "reloaded: version "@ + decimal(a.version as nat) + ", "@ + decimal(a.rules as nat) + " rule(s), "@
        + decimal(a.planned_changes as nat) + " planned change(s)"@
}

/// `reload`: the reloaded summary on success, else the error.
pub fn reload_report(result: &Result<Response, String>) -> (r: CliReport)
    ensures
        match result {
            Ok(resp) => if resp.ok {
                match resp.applied {
                    Some(a) => is_ok_report(r, reloaded_line(a)),
                    None => is_ok_report(r, "reloaded"@),
                }
            } else {
                is_error_report(r, reply_error_text(*resp))
            },
            Err(e) => is_error_report(r, e@),
        },
{
    match result {
        Ok(resp) => if resp.ok {
            match resp.applied {
                Some(a) => {
                    let mut line = String::from_str("reloaded: version ");
                    line.append(decimal_string(a.version).as_str());
                    line.append(", ");
                    line.append(decimal_string(a.rules as u64).as_str());
                    line.append(" rule(s), ");
                    line.append(decimal_string(a.planned_changes as u64).as_str());
                    line.append(" planned change(s)");
                    ok_report(line)
                },
                None => ok_report(String::from_str("reloaded")),
            }
        } else {
            reply_error(resp)
        },
        Err(e) => error_report(e.as_str()),
    }
}

/// Text of a boolean.
pub open spec fn bool_text(b: bool) -> Seq<char> {
    if b { "true"@ } else { "false"@ }
}

/// The status lines of a status payload: config path and loaded flag; the
/// version if known; chain and rule counts if both are known; the last
/// apply if any.
pub open spec fn status_lines(s: crate::control::StatusPayload) -> Seq<Seq<char>> {
    seq!["config:  "@ + s.config_path@, "loaded:  "@ + bool_text(s.loaded)] + match s.version {
        Some(v) => seq!["version: "@ + decimal(v as nat)],
        None => Seq::empty(),
    } + match (s.chains, s.rules) {
        (Some(c), Some(r)) => seq!["chains:  "@ + decimal(c as nat), "rules:   "@ + decimal(r as nat)],
        _ => Seq::empty(),
    } + match s.last_apply {
        Some(a) => seq![
            "last apply: version "@ + decimal(a.version as nat) + ", "@ + decimal(a.rules as nat)
                + " rule(s), "@ + decimal(a.planned_changes as nat) + " change(s)"@,
        ],
        None => Seq::empty(),
    }
}

/// `status`: the status lines on success (none when the reply carries no
/// status), else the error.
pub fn status_report(result: &Result<Response, String>) -> (r: CliReport)
    ensures
        match result {
            Ok(resp) => if resp.ok {
                &&& lines(r.stdout@) == match resp.status {
                    Some(s) => status_lines(s),
                    None => Seq::empty(),
                }
                &&& lines(r.stderr@) == Seq::<Seq<char>>::empty()
                &&& r.code == 0
            } else {
                is_error_report(r, reply_error_text(*resp))
            },
            Err(e) => is_error_report(r, e@),
        },
{
    match result {
        Ok(resp) => if resp.ok {
            let mut out: Vec<String> = Vec::new();
            match &resp.status {
                Some(s) => {
                    let mut l1 = String::from_str("config:  ");
                    l1.append(s.config_path.as_str());
                    out.push(l1);
                    let mut l2 = String::from_str("loaded:  ");
                    l2.append(if s.loaded { "true" } else { "false" });
                    out.push(l2);
                    let ghost head = lines(out@);
                    match s.version {
                        Some(v) => {
                            let mut l = String::from_str("version: ");
                            l.append(decimal_string(v).as_str());
                            out.push(l);
                        },
                        None => {},
                    }
                    let ghost with_version = lines(out@);
                    match (s.chains, s.rules) {
                        (Some(c), Some(rc)) => {
                            let mut l = String::from_str("chains:  ");
                            l.append(decimal_string(c as u64).as_str());
                            out.push(l);
                            let mut l = String::from_str("rules:   ");
                            l.append(decimal_string(rc as u64).as_str());
                            out.push(l);
                        },
                        _ => {},
                    }
                    let ghost with_counts = lines(out@);
                    match s.last_apply {
                        Some(a) => {
                            let mut l = String::from_str("last apply: version ");
                            l.append(decimal_string(a.version).as_str());
                            l.append(", ");
                            l.append(decimal_string(a.rules as u64).as_str());
                            l.append(" rule(s), ");
                            l.append(decimal_string(a.planned_changes as u64).as_str());
                            l.append(" change(s)");
                            out.push(l);
                        },
                        None => {},
                    }
                    proof {
                        assert(head =~= seq!["config:  "@ + s.config_path@, "loaded:  "@ + bool_text(s.loaded)]);
                        let pv = match s.version {
                            Some(v) => seq!["version: "@ + decimal(v as nat)],
                            None => Seq::<Seq<char>>::empty(),
                        };
                        assert(with_version =~= head + pv);
                        let pc = match (s.chains, s.rules) {
                            (Some(c), Some(r)) => seq!["chains:  "@ + decimal(c as nat), "rules:   "@ + decimal(r as nat)],
                            _ => Seq::<Seq<char>>::empty(),
                        };
                        assert(with_counts =~= head + pv + pc);
                        assert(lines(out@) =~= status_lines(*s));
                    }
                },
                None => {},
            }
            let r = CliReport { stdout: out, stderr: Vec::new(), code: 0 };
            assert(lines(r.stderr@) =~= Seq::<Seq<char>>::empty());
            assert(resp.status is None ==> lines(r.stdout@) =~= Seq::<Seq<char>>::empty());
            r
        } else {
            reply_error(resp)
        },
        Err(e) => error_report(e.as_str()),
    }
}

} // verus!
