//! Control-plane messages and the responses the daemon gives.
//!
//! One request per connection: `validate` (parse + lint a file), `apply`
//! (load, verify, apply a file), `reload` (re-read the daemon's own file
//! and apply it) and `status`. Transport and encoding live outside the
//! library; the responses are built here from what the daemon found.

use vstd::prelude::*;

use crate::config::ConfigError;
use crate::ruleset::{chain_rule_pairs, Ruleset, RulesetModel};
use crate::state::{ApplyOutcome, BridgeError};
use crate::text::{decimal, decimal_string};

verus! {

/// Control-plane request.
#[derive(Debug, PartialEq, Eq)]
pub enum Request {
    /// Parse + lint a file without applying.
    Validate {
        /// Config file path (as visible to the daemon process).
        path: String,
    },
    /// Load, verify, and apply a file.
    Apply {
        /// Config file path.
        path: String,
    },
    /// Re-read the daemon's configured file and apply it.
    Reload,
    /// Query status.
    Status,
}

/// Status payload of a `status` request.
#[derive(Debug, PartialEq, Eq)]
pub struct StatusPayload {
    /// Config path the daemon was started with.
    pub config_path: String,
    /// Whether a ruleset is currently loaded.
    pub loaded: bool,
    /// Schema version of the loaded ruleset, if any.
    pub version: Option<u64>,
    /// Number of chains loaded, if any.
    pub chains: Option<usize>,
    /// Number of rules loaded, if any.
    pub rules: Option<usize>,
    /// Last successful apply, if any.
    pub last_apply: Option<ApplyOutcome>,
}

/// Control-plane response.
#[derive(Debug, PartialEq, Eq)]
pub struct Response {
    /// Whether the request succeeded.
    pub ok: bool,
    /// Human-readable error when `ok` is false.
    pub error: Option<String>,
    /// Apply outcome when an apply/reload succeeded.
    pub applied: Option<ApplyOutcome>,
    /// Status payload.
    pub status: Option<StatusPayload>,
    /// Validate message when relevant.
    pub message: Option<String>,
}

/// The text of a successful validation of `rs`.
pub open spec fn validated_text(rs: RulesetModel, rules: nat) -> Seq<char> {
    "ok: version "@ + decimal(rs.version as nat) + ", "@ + decimal(rs.chains.len()) + " chain(s), "@
        + decimal(rules) + " rule(s)"@
}

impl Response {
    /// Success with nothing attached.
    pub fn ok_empty() -> (r: Self)
        ensures
            r.ok,
            r.error is None,
            r.applied is None,
            r.status is None,
            r.message is None,
    {
        Response { ok: true, error: None, applied: None, status: None, message: None }
    }

    /// Failure with the given error text.
    pub fn err(msg: String) -> (r: Self)
        ensures
            !r.ok,
            r.error == Some(msg),
            r.applied is None,
            r.status is None,
            r.message is None,
    {
        Response { ok: false, error: Some(msg), applied: None, status: None, message: None }
    }
}

/// Response to a `validate` whose file loaded and verified as `rs`:
/// success with a summary message.
pub fn validated_response(rs: &Ruleset) -> (r: Response)
    ensures
        r.ok,
        r.error is None,
        r.applied is None,
        r.status is None,
        r.message matches Some(m) && m@ == validated_text(rs@, chain_rule_pairs(rs.chains@).len()),
{
    let rules = rs.iter_rules().len();
    let mut m = String::from_str("ok: version ");
    m.append(decimal_string(rs.version).as_str());
    m.append(", ");
    m.append(decimal_string(rs.chains.len() as u64).as_str());
    m.append(" chain(s), ");
    m.append(decimal_string(rules as u64).as_str());
    m.append(" rule(s)");
    Response { message: Some(m), ..Response::ok_empty() }
}

/// Response to an `apply` or `reload` that applied with `outcome`.
pub fn applied_response(outcome: ApplyOutcome) -> (r: Response)
    ensures
        r.ok,
        r.error is None,
        r.applied == Some(outcome),
        r.status is None,
        r.message is None,
{
    Response { applied: Some(outcome), ..Response::ok_empty() }
}

/// Response to `status`: the daemon's config path, whether a ruleset is
/// loaded and, if so, its version and counts, and the last apply.
pub fn status_response(
    config_path: String,
    current: Option<&Ruleset>,
    last_apply: Option<ApplyOutcome>,
) -> (r: Response)
    ensures
        r.ok,
        r.error is None,
        r.applied is None,
        r.message is None,
        r.status matches Some(s) && {
            &&& s.config_path == config_path
            &&& s.loaded == current is Some
            &&& s.last_apply == last_apply
            &&& match current {
                Some(rs) => s.version == Some(rs.version) && s.chains == Some(rs.chains@.len() as usize)
                    && s.rules == Some(chain_rule_pairs(rs.chains@).len() as usize),
                None => s.version is None && s.chains is None && s.rules is None,
            }
        },
{
    let (version, chains, rules) = match current {
        Some(rs) => (Some(rs.version), Some(rs.chains.len()), Some(rs.iter_rules().len())),
        None => (None, None, None),
    };
    let loaded = current.is_some();
    Response {
        status: Some(StatusPayload { config_path, loaded, version, chains, rules, last_apply }),
        ..Response::ok_empty()
    }
}

/// What the daemon does first for a request.
#[derive(Debug, PartialEq, Eq)]
pub enum ControlStep {
    /// Load and verify the config at `path`; apply it if `then_apply`.
    Load {
        /// Config file to load.
        path: String,
        /// Whether a loaded ruleset is then applied.
        then_apply: bool,
    },
    /// Report status.
    Status,
}

/// The first step for a request: `validate` loads its file and never
/// applies; `apply` loads its file then applies; `reload` loads the
/// daemon's own config file then applies; `status` reports.
pub fn control_step(req: &Request, config_path: &String) -> (s: ControlStep)
    ensures
        match *req {
            Request::Validate { path } => s == ControlStep::Load { path, then_apply: false },
            Request::Apply { path } => s == ControlStep::Load { path, then_apply: true },
            Request::Reload => s == ControlStep::Load { path: *config_path, then_apply: true },
            Request::Status => s == ControlStep::Status,
        },
{
    match req {
        Request::Validate { path } => ControlStep::Load { path: path.clone(), then_apply: false },
        Request::Apply { path } => ControlStep::Load { path: path.clone(), then_apply: true },
        Request::Reload => ControlStep::Load { path: config_path.clone(), then_apply: true },
        Request::Status => ControlStep::Status,
    }
}

/// After loading: a load error is answered with an error reply carrying
/// the error's text; a loaded ruleset is answered with the validation
/// summary when no apply follows, and is handed on (`Ok`) to be applied
/// otherwise.
pub fn after_load(then_apply: bool, loaded: Result<Ruleset, ConfigError>) -> (r: Result<Ruleset, Response>)
    ensures
        match loaded {
            Err(e) => r matches Err(resp) && !resp.ok && (resp.error matches Some(m) && m@ == e.text())
                && resp.applied is None && resp.status is None && resp.message is None,
            Ok(rs) => if then_apply {
                r == Ok::<Ruleset, Response>(rs)
            } else {
                r matches Err(resp) && resp.ok && resp.error is None && resp.applied is None
                    && resp.status is None && (resp.message matches Some(m) && m@ == validated_text(
                    rs@,
                    chain_rule_pairs(rs.chains@).len(),
                ))
            },
        },
{
    match loaded {
        Err(e) => Err(Response::err(e.to_string())),
        Ok(rs) => if then_apply {
            Ok(rs)
        } else {
            Err(validated_response(&rs))
        },
    }
}

/// After applying: the apply outcome on success, the error's text otherwise.
pub fn after_apply(applied: Result<ApplyOutcome, BridgeError>) -> (r: Response)
    ensures
        match applied {
            Ok(o) => r.ok && r.error is None && r.applied == Some(o) && r.status is None && r.message is None,
            Err(e) => !r.ok && (r.error matches Some(m) && m@ == e.text()) && r.applied is None
                && r.status is None && r.message is None,
        },
{
    match applied {
        Ok(o) => applied_response(o),
        Err(e) => Response::err(e.to_string()),
    }
}

/// Seconds between two looks at the config file's modification time:
/// the configured interval, at least one second.
pub fn poll_interval_secs(poll_secs: u64) -> (s: u64)
    ensures
        s == if poll_secs == 0 { 1 } else { poll_secs },
{
    if poll_secs == 0 {
        1
    } else {
        poll_secs
    }
}

/// One look at the config file: `last` is the modification time last
/// acted on, `now` the current one (`None` when it cannot be read). An
/// unreadable time changes nothing; a changed time is recorded and asks
/// for a reload (recorded first, so a broken file is not retried until it
/// changes again); an unchanged time does nothing.
pub fn watch_step(last: Option<u64>, now: Option<u64>) -> (r: (Option<u64>, bool))
    ensures
        now is None ==> r == (last, false),
        now is Some && now != last ==> r == (now, true),
        now is Some && now == last ==> r == (last, false),
{
    match now {
        None => (last, false),
        Some(t) => {
            let changed = match last {
                Some(l) => l != t,
                None => true,
            };
            if changed {
                (now, true)
            } else {
                (last, false)
            }
        },
    }
}

} // verus!
