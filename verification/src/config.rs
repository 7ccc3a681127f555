//! Plain-file config: the file-level wrapper, config errors, and the
//! verify step that decides whether a parsed ruleset is accepted.
//!
//! Reading the file and parsing its TOML happen outside the library; what
//! they produce is handed to [`accept_config`], and their failures are
//! carried as text in [`ConfigError`].

use vstd::prelude::*;

use crate::lint::{issue_text, issues_view, verify, verify_issues, IssueView, LintIssue};
use crate::ruleset::Ruleset;
use crate::text::{decimal, decimal_string};

verus! {

/// File-level config: the ruleset lives under a `ruleset` key so other
/// top-level settings can sit beside it.
#[derive(Debug, PartialEq, Eq)]
pub struct FileConfig {
    /// The rule document.
    pub ruleset: Ruleset,
}

/// Errors from loading and verifying a config file.
#[derive(Debug, PartialEq, Eq)]
pub enum ConfigError {
    /// The file could not be read.
    Io {
        /// Path that failed.
        path: String,
        /// Text of the underlying I/O error.
        source: String,
    },
    /// The file is not valid TOML matching the config schema.
    Parse {
        /// Path that failed.
        path: String,
        /// Text of the underlying parse error.
        source: String,
    },
    /// `verify` found one or more lint issues; the ruleset is refused.
    Verify(Vec<LintIssue>),
}

/// The issue list as text: one `  - <issue>` line per issue, joined by
/// newlines.
pub open spec fn issues_list_text(v: Seq<IssueView>) -> Seq<char>
    decreases v.len(),
{
    if v.len() == 0 {
        Seq::empty()
    } else if v.len() == 1 {
        "  - "@ + issue_text(v[0])
    } else {
        issues_list_text(v.drop_last()) + "\n"@ + "  - "@ + issue_text(v.last())
    }
}

/// The issue list as text: one `  - <issue>` line per issue.
pub fn format_issues(issues: &[LintIssue]) -> (s: String)
    ensures
        s@ == issues_list_text(issues_view(issues@)),
{
    let mut s = String::new();
    let mut i: usize = 0;
    while i < issues.len()
        invariant
            i <= issues@.len(),
            s@ == issues_list_text(issues_view(issues@.take(i as int))),
        decreases issues@.len() - i,
    {
        if i > 0 {
            s.append("\n");
        }
        s.append("  - ");
        s.append(issues[i].to_string().as_str());
        proof {
            let v = issues_view(issues@.take(i + 1));
            assert(v.drop_last() =~= issues_view(issues@.take(i as int)));
            assert(v.last() == issues@[i as int]@);
        }
        i = i + 1;
    }
    assert(issues@.take(i as int) =~= issues@);
    s
}

impl ConfigError {
    /// The error's text.
    pub open spec fn text(self) -> Seq<char> {
        match self {
            ConfigError::Io { path, source } => "failed to read config "@ + path@ + ": "@ + source@,
            ConfigError::Parse { path, source } => "failed to parse config "@ + path@ + ": "@ + source@,
            ConfigError::Verify(issues) => "ruleset failed verification ("@ + decimal(issues@.len())
                + " issue(s)):\n"@ + issues_list_text(issues_view(issues@)),
        }
    }

    /// The error's text.
    pub fn to_string(&self) -> (s: String)
        ensures
            s@ == self.text(),
    {
        match self {
            ConfigError::Io { path, source } => {
                let mut s = String::from_str("failed to read config ");
                s.append(path.as_str());
                s.append(": ");
                s.append(source.as_str());
                s
            },
            ConfigError::Parse { path, source } => {
                let mut s = String::from_str("failed to parse config ");
                s.append(path.as_str());
                s.append(": ");
                s.append(source.as_str());
                s
            },
            ConfigError::Verify(issues) => {
                let mut s = String::from_str("ruleset failed verification (");
                s.append(decimal_string(issues.len() as u64).as_str());
                s.append(" issue(s)):\n");
                s.append(format_issues(issues.as_slice()).as_str());
                s
            },
        }
    }
}

/// The verify step of loading a config: a parsed config is accepted only
/// when `verify` finds nothing; otherwise every issue is returned.
pub fn accept_config(file: FileConfig) -> (r: Result<Ruleset, ConfigError>)
    ensures
        verify_issues(file.ruleset@).len() == 0 <==> r is Ok,
        r matches Ok(rs) ==> rs == file.ruleset,
        r matches Err(e) ==> e matches ConfigError::Verify(issues) && issues_view(issues@)
            == verify_issues(file.ruleset@),
{
    match verify(&file.ruleset) {
        Ok(()) => Ok(file.ruleset),
        Err(issues) => Err(ConfigError::Verify(issues)),
    }
}

} // verus!
