//! Lint / verify pass over a ruleset.
//!
//! Reports, in this order: an unsupported schema version; chain names used
//! more than once; rule ids used more than once (across the ruleset); then,
//! chain by chain, priority collisions and dead rules.
//!
//! Within a chain the rules are walked in evaluation order (see
//! [`crate::order`]):
//! - **Priority collision** — every pair of rules of the same priority with
//!   different ids and overlapping matchers (the order between them is
//!   undefined); the earlier rule is named first.
//! - **Unreachable / Shadowed** — a rule whose matcher is covered by an
//!   earlier terminal rule's matcher, so it can never fire (the first such
//!   rule is named). `Shadowed` when the two matchers are the same and the
//!   actions differ (a rule that was meant to act otherwise on the same
//!   traffic); `Unreachable` otherwise.

use vstd::prelude::*;

use crate::action::Action;
use crate::order::{evaluation_order, evaluation_order_of, priorities};
use crate::rule::{Rule, RuleId};
use crate::ruleset::{ChainModel, Chain, Ruleset, RulesetModel, SCHEMA_VERSION};
use crate::text::{decimal, decimal_string};
use std::collections::HashSet;

verus! {

broadcast use vstd::std_specs::hash::group_hash_axioms;

/// Kind of lint problem detected by [`verify`].
#[derive(Debug, Clone, Copy, PartialEq, Eq, Hash, Structural)]
pub enum LintKind {
    /// Ruleset schema version is newer than this crate understands.
    UnsupportedVersion,
    /// Duplicate chain name in the ruleset.
    DuplicateChain,
    /// Duplicate rule id anywhere in the ruleset.
    DuplicateRuleId,
    /// Two rules share a priority in the same chain and overlap.
    PriorityCollision,
    /// A terminal rule covers a later rule's matcher.
    Unreachable,
    /// A later rule has the same matcher as an earlier terminal rule with
    /// a different action.
    Shadowed,
}

impl LintKind {
    /// Human-readable name of the kind.
    pub open spec fn spec_label(self) -> Seq<char> {
        match self {
            LintKind::UnsupportedVersion => "unsupported schema version"@,
            LintKind::DuplicateChain => "duplicate chain name"@,
            LintKind::DuplicateRuleId => "duplicate rule id"@,
            LintKind::PriorityCollision => "priority collision"@,
            LintKind::Unreachable => "unreachable rule"@,
            LintKind::Shadowed => "shadowed rule"@,
        }
    }

    /// Human-readable name of the kind.
    pub fn label(&self) -> (s: &'static str)
        ensures
            s@ == self.spec_label(),
    {
        match self {
            LintKind::UnsupportedVersion => "unsupported schema version",
            LintKind::DuplicateChain => "duplicate chain name",
            LintKind::DuplicateRuleId => "duplicate rule id",
            LintKind::PriorityCollision => "priority collision",
            LintKind::Unreachable => "unreachable rule",
            LintKind::Shadowed => "shadowed rule",
        }
    }

    /// Human-readable name of the kind, as an owned string.
    pub fn to_string(&self) -> (s: String)
        ensures
            s@ == self.spec_label(),
    {
        String::from_str(self.label())
    }
}

/// A single lint finding, detailed enough to point at the offending rule(s).
#[derive(Debug, PartialEq, Eq)]
pub struct LintIssue {
    /// What kind of problem this is.
    pub kind: LintKind,
    /// Chain the issue lives in (`None` for ruleset-level issues).
    pub chain: Option<String>,
    /// Primary offending rule, when applicable.
    pub rule: Option<RuleId>,
    /// Secondary rule (e.g. the shadower), when applicable.
    pub other_rule: Option<RuleId>,
    /// Human-readable explanation.
    pub message: String,
}

/// The content of a lint issue, strings taken by their characters.
pub struct IssueView {
    /// What kind of problem this is.
    pub kind: LintKind,
    /// Chain name, if any.
    pub chain: Option<Seq<char>>,
    /// Primary offending rule.
    pub rule: Option<RuleId>,
    /// Secondary rule.
    pub other_rule: Option<RuleId>,
    /// Explanation.
    pub message: Seq<char>,
}

impl View for LintIssue {
    type V = IssueView;

    open spec fn view(&self) -> IssueView {
        IssueView {
            kind: self.kind,
            chain: match self.chain {
                Some(c) => Some(c@),
                None => None,
            },
            rule: self.rule,
            other_rule: self.other_rule,
            message: self.message@,
        }
    }
}

impl Clone for LintIssue {
    fn clone(&self) -> (r: Self)
        ensures
            r == *self,
    {
        let chain = match &self.chain {
            Some(c) => Some(c.clone()),
            None => None,
        };
        LintIssue {
            kind: self.kind,
            chain,
            rule: self.rule,
            other_rule: self.other_rule,
            message: self.message.clone(),
        }
    }
}

/// The issue with the given content.
pub open spec fn issue(
    kind: LintKind,
    chain: Option<Seq<char>>,
    rule: Option<RuleId>,
    other_rule: Option<RuleId>,
    message: Seq<char>,
) -> IssueView {
    IssueView { kind, chain, rule, other_rule, message }
}

/// The contents of a list of issues.
pub open spec fn issues_view(v: Seq<LintIssue>) -> Seq<IssueView> {
    v.map_values(|i: LintIssue| i@)
}

/// The text of an issue: `[kind] chain `c` rules a / b: message`, where the
/// chain part appears when there is a chain, and the rule part is
/// `rules a / b: ` with both rules, `rule a: ` with the primary only, and
/// empty otherwise.
pub open spec fn issue_text(i: IssueView) -> Seq<char> {
    let head = "["@ + i.kind.spec_label() + "] "@;
    let chain = match i.chain {
        Some(c) => "chain `"@ + c + "` "@,
        None => Seq::empty(),
    };
    let rules = match (i.rule, i.other_rule) {
        (Some(a), Some(b)) => "rules "@ + decimal(a.0 as nat) + " / "@ + decimal(b.0 as nat) + ": "@,
        (Some(a), None) => "rule "@ + decimal(a.0 as nat) + ": "@,
        _ => Seq::empty(),
    };
    head + chain + rules + i.message
}

impl LintIssue {
    fn new(kind: LintKind, message: String) -> (r: Self)
        ensures
            r@ == issue(kind, None, None, None, message@),
    {
        LintIssue { kind, chain: None, rule: None, other_rule: None, message }
    }

    fn in_chain(self, chain: String) -> (r: Self)
        ensures
            r@ == (IssueView { chain: Some(chain@), ..self@ }),
    {
        let mut s = self;
        s.chain = Some(chain);
        s
    }

    fn primary(self, id: RuleId) -> (r: Self)
        ensures
            r@ == (IssueView { rule: Some(id), ..self@ }),
    {
        let mut s = self;
        s.rule = Some(id);
        s
    }

    fn secondary(self, id: RuleId) -> (r: Self)
        ensures
            r@ == (IssueView { other_rule: Some(id), ..self@ }),
    {
        let mut s = self;
        s.other_rule = Some(id);
        s
    }

    /// The issue as one line of text (see [`issue_text`]).
    pub fn to_string(&self) -> (s: String)
        ensures
            s@ == issue_text(self@),
    {
        let mut s = String::from_str("[");
        s.append(self.kind.label());
        s.append("] ");
        let ghost head = s@;
        match &self.chain {
            Some(c) => {
                s.append("chain `");
                s.append(c.as_str());
                s.append("` ");
            },
            None => {},
        }
        let ghost with_chain = s@;
        match (self.rule, self.other_rule) {
            (Some(a), Some(b)) => {
                s.append("rules ");
                s.append(decimal_string(a.0).as_str());
                s.append(" / ");
                s.append(decimal_string(b.0).as_str());
                s.append(": ");
            },
            (Some(a), None) => {
                s.append("rule ");
                s.append(decimal_string(a.0).as_str());
                s.append(": ");
            },
            _ => {},
        }
        s.append(self.message.as_str());
        proof {
            let i = self@;
            let chain = match i.chain {
                Some(c) => "chain `"@ + c + "` "@,
                None => Seq::<char>::empty(),
            };
            let rules = match (i.rule, i.other_rule) {
                (Some(a), Some(b)) => "rules "@ + decimal(a.0 as nat) + " / "@ + decimal(b.0 as nat) + ": "@,
                (Some(a), None) => "rule "@ + decimal(a.0 as nat) + ": "@,
                _ => Seq::<char>::empty(),
            };
            assert(head =~= "["@ + i.kind.spec_label() + "] "@);
            assert(with_chain =~= head + chain);
            assert(s@ =~= head + chain + rules + i.message);
        }
        s
    }
}

// ---------------------------------------------------------------------
// Messages
// ---------------------------------------------------------------------

/// Message of an unsupported-version issue.
pub open spec fn version_message(version: u64) -> Seq<char> {
    "ruleset version "@ + decimal(version as nat) + " is newer than supported version "@ + decimal(
        SCHEMA_VERSION as nat,
    )
}

/// Message of a duplicate-chain issue.
pub open spec fn duplicate_chain_message(name: Seq<char>) -> Seq<char> {
    "chain name `"@ + name + "` appears more than once"@
}

/// Message of a duplicate-id issue.
pub open spec fn duplicate_id_message(id: RuleId) -> Seq<char> {
    "rule id "@ + decimal(id.0 as nat) + " is used more than once"@
}

/// Message of a priority-collision issue.
pub open spec fn collision_message(priority: u32) -> Seq<char> {
    "rules share priority "@ + decimal(priority as nat)
        + " and overlapping matchers; evaluation order between them is undefined"@
}

/// Short name of an action, used in dead-rule messages.
pub open spec fn spec_action_label(a: Action) -> Seq<char> {
    match a {
        Action::Accept => "accept"@,
        Action::Drop => "drop"@,
        Action::Reject => "reject"@,
        Action::Nat(_) => "nat"@,
        Action::RateLimit(_) => "rate-limit"@,
        Action::Jump(_) => "jump"@,
        Action::Continue => "continue"@,
    }
}

/// Message of a shadowed-rule issue naming the earlier terminal rule.
pub open spec fn shadowed_message(earlier: Rule) -> Seq<char> {
    "same matcher as rule "@ + decimal(earlier.id.0 as nat) + " (priority "@ + decimal(
        earlier.priority as nat,
    ) + "), which is terminal ("@ + spec_action_label(earlier.action)
        + "); this rule can never fire"@
}

/// Message of an unreachable-rule issue naming the earlier terminal rule.
pub open spec fn unreachable_message(earlier: Rule) -> Seq<char> {
    "matcher is a subset of rule "@ + decimal(earlier.id.0 as nat) + " (priority "@ + decimal(
        earlier.priority as nat,
    ) + ", terminal "@ + spec_action_label(earlier.action)
        + "); every packet this rule would match is already consumed"@
}

fn action_label(rule: &Rule) -> (s: &'static str)
    ensures
        s@ == spec_action_label(rule.action),
{
    match &rule.action {
        Action::Accept => "accept",
        Action::Drop => "drop",
        Action::Reject => "reject",
        Action::Nat(_) => "nat",
        Action::RateLimit(_) => "rate-limit",
        Action::Jump(_) => "jump",
        Action::Continue => "continue",
    }
}

fn same_terminal_action_exec(a: &Action, b: &Action) -> (r: bool)
    ensures
        r == same_terminal_action(*a, *b),
{
    match (a, b) {
        (Action::Accept, Action::Accept) => true,
        (Action::Drop, Action::Drop) => true,
        (Action::Reject, Action::Reject) => true,
        _ => false,
    }
}

fn version_message_string(version: u64) -> (s: String)
    ensures
        s@ == version_message(version),
{
    let mut s = String::from_str("ruleset version ");
    s.append(decimal_string(version).as_str());
    s.append(" is newer than supported version ");
    s.append(decimal_string(SCHEMA_VERSION).as_str());
    s
}

fn duplicate_chain_message_string(name: &String) -> (s: String)
    ensures
        s@ == duplicate_chain_message(name@),
{
    let mut s = String::from_str("chain name `");
    s.append(name.as_str());
    s.append("` appears more than once");
    s
}

fn duplicate_id_message_string(id: RuleId) -> (s: String)
    ensures
        s@ == duplicate_id_message(id),
{
    let mut s = String::from_str("rule id ");
    s.append(decimal_string(id.0).as_str());
    s.append(" is used more than once");
    s
}

fn collision_message_string(priority: u32) -> (s: String)
    ensures
        s@ == collision_message(priority),
{
    let mut s = String::from_str("rules share priority ");
    s.append(decimal_string(priority as u64).as_str());
    s.append(" and overlapping matchers; evaluation order between them is undefined");
    s
}

fn dead_message_string(earlier: &Rule, same: bool) -> (s: String)
    ensures
        s@ == (if same { shadowed_message(*earlier) } else { unreachable_message(*earlier) }),
{
    let mut s = String::new();
    if same {
        s.append("same matcher as rule ");
        s.append(decimal_string(earlier.id.0).as_str());
        s.append(" (priority ");
        s.append(decimal_string(earlier.priority as u64).as_str());
        s.append("), which is terminal (");
        s.append(action_label(earlier));
        s.append("); this rule can never fire");
    } else {
        s.append("matcher is a subset of rule ");
        s.append(decimal_string(earlier.id.0).as_str());
        s.append(" (priority ");
        s.append(decimal_string(earlier.priority as u64).as_str());
        s.append(", terminal ");
        s.append(action_label(earlier));
        s.append("); every packet this rule would match is already consumed");
    }
    s
}

// ---------------------------------------------------------------------
// What `verify` reports
// ---------------------------------------------------------------------

/// The unsupported-version issue, if the version is too new.
pub open spec fn version_issues(rs: RulesetModel) -> Seq<IssueView> {
    if rs.version > SCHEMA_VERSION {
        seq![issue(LintKind::UnsupportedVersion, None, None, None, version_message(rs.version))]
    } else {
        Seq::empty()
    }
}

/// Chain `i`'s name was already used by an earlier chain.
pub open spec fn name_repeats(chains: Seq<ChainModel>, i: int) -> bool {
    exists|j: int| 0 <= j < i && (#[trigger] chains[j]).name@ == chains[i].name@
}

/// One issue per chain among the first `n` whose name repeats an earlier one.
pub open spec fn duplicate_chain_issues(chains: Seq<ChainModel>, n: nat) -> Seq<IssueView>
    decreases n,
{
    if n == 0 {
        Seq::empty()
    } else {
        let i = n - 1;
        duplicate_chain_issues(chains, (n - 1) as nat) + if name_repeats(chains, i) {
            seq![
                issue(
                    LintKind::DuplicateChain,
                    Some(chains[i].name@),
                    None,
                    None,
                    duplicate_chain_message(chains[i].name@),
                ),
            ]
        } else {
            Seq::empty()
        }
    }
}

/// Every rule id of the ruleset, chain by chain in declaration order.
pub open spec fn all_rule_ids(chains: Seq<ChainModel>) -> Seq<RuleId>
    decreases chains.len(),
{
    if chains.len() == 0 {
        Seq::empty()
    } else {
        all_rule_ids(chains.drop_last()) + chains.last().rules.map_values(|r: Rule| r.id)
    }
}

/// Id `i` was already used at an earlier position.
pub open spec fn id_repeats(ids: Seq<RuleId>, i: int) -> bool {
    exists|j: int| 0 <= j < i && #[trigger] ids[j] == ids[i]
}

/// One issue per id among the first `n` that repeats an earlier one.
pub open spec fn duplicate_id_issues(ids: Seq<RuleId>, n: nat) -> Seq<IssueView>
    decreases n,
{
    if n == 0 {
        Seq::empty()
    } else {
        let i = n - 1;
        duplicate_id_issues(ids, (n - 1) as nat) + if id_repeats(ids, i) {
            seq![
                issue(
                    LintKind::DuplicateRuleId,
                    None,
                    Some(ids[i]),
                    None,
                    duplicate_id_message(ids[i]),
                ),
            ]
        } else {
            Seq::empty()
        }
    }
}

/// A chain's rules in evaluation order.
pub open spec fn evaluation_sequence(c: ChainModel) -> Seq<Rule> {
    evaluation_order(priorities(c.rules)).map_values(|k: usize| c.rules[k as int])
}

/// Position of the first rule of the run of equal priorities that holds
/// position `j` (of a sequence in evaluation order).
pub open spec fn group_start(s: Seq<Rule>, j: int) -> int
    decreases j,
{
    if j > 0 && s[j - 1].priority == s[j].priority {
        group_start(s, j - 1)
    } else {
        j
    }
}

/// Positions `i` and `j` hold rules with different ids and overlapping
/// matchers.
#[verifier::opaque]
pub open spec fn collides(s: Seq<Rule>, i: int, j: int) -> bool {
    s[i].id != s[j].id && s[i].matcher.spec_overlaps(s[j].matcher)
}

/// The collision issue of positions `i` and `j`, if they collide.
pub open spec fn collision_pair(name: Seq<char>, s: Seq<Rule>, i: int, j: int) -> Seq<IssueView> {
    if collides(s, i, j) {
        seq![
            issue(
                LintKind::PriorityCollision,
                Some(name),
                Some(s[i].id),
                Some(s[j].id),
                collision_message(s[i].priority),
            ),
        ]
    } else {
        Seq::empty()
    }
}

/// Collision issues of position `j` with the positions of its priority run
/// before `k`, in order.
pub open spec fn collisions_before(name: Seq<char>, s: Seq<Rule>, j: int, k: int) -> Seq<IssueView>
    decreases k - group_start(s, j),
{
    if k <= group_start(s, j) {
        Seq::empty()
    } else {
        collisions_before(name, s, j, k - 1) + collision_pair(name, s, k - 1, j)
    }
}

/// The collision issues at position `j`: one for each earlier rule of its
/// priority run with another id and an overlapping matcher.
pub open spec fn collision_at(name: Seq<char>, s: Seq<Rule>, j: int) -> Seq<IssueView> {
    collisions_before(name, s, j, j)
}

/// Collision issues for the first `n` positions.
pub open spec fn collision_issues(name: Seq<char>, s: Seq<Rule>, n: nat) -> Seq<IssueView>
    decreases n,
{
    if n == 0 {
        Seq::empty()
    } else {
        collision_issues(name, s, (n - 1) as nat) + collision_at(name, s, n - 1)
    }
}

/// Rule at position `i` is terminal and covers the matcher at position `j`.
#[verifier::opaque]
pub open spec fn shadows(s: Seq<Rule>, i: int, j: int) -> bool {
    s[i].action.spec_is_terminal() && s[i].matcher.spec_is_superset_of(s[j].matcher)
}

/// First position in `[i, j)` that shadows position `j`.
pub open spec fn first_shadower(s: Seq<Rule>, j: int, i: int) -> Option<int>
    decreases j - i,
{
    if i >= j {
        None
    } else if shadows(s, i, j) {
        Some(i)
    } else {
        first_shadower(s, j, i + 1)
    }
}

/// The two actions are the same terminal action.
pub open spec fn same_terminal_action(a: Action, b: Action) -> bool {
    (a is Accept && b is Accept) || (a is Drop && b is Drop) || (a is Reject && b is Reject)
}

/// Kind of a dead rule at `j` covered by `i`: `Shadowed` for the same
/// matcher with a different action, `Unreachable` otherwise.
pub open spec fn dead_kind(earlier: Rule, later: Rule) -> LintKind {
    if earlier.matcher.same_as(later.matcher) && !same_terminal_action(earlier.action, later.action) {
        LintKind::Shadowed
    } else {
        LintKind::Unreachable
    }
}

/// The dead-rule issue at position `j`, if an earlier terminal rule covers it.
#[verifier::opaque]
pub open spec fn dead_at(name: Seq<char>, s: Seq<Rule>, j: int) -> Seq<IssueView> {
    match first_shadower(s, j, 0) {
        Some(i) => {
            let same = s[i].matcher.same_as(s[j].matcher);
            seq![
                issue(
                    dead_kind(s[i], s[j]),
                    Some(name),
                    Some(s[j].id),
                    Some(s[i].id),
                    if same { shadowed_message(s[i]) } else { unreachable_message(s[i]) },
                ),
            ]
        },
        None => Seq::empty(),
    }
}

/// Dead-rule issues for the first `n` positions.
pub open spec fn dead_issues(name: Seq<char>, s: Seq<Rule>, n: nat) -> Seq<IssueView>
    decreases n,
{
    if n == 0 {
        Seq::empty()
    } else {
        dead_issues(name, s, (n - 1) as nat) + dead_at(name, s, n - 1)
    }
}

/// Issues of one chain: its collisions, then its dead rules.
pub open spec fn chain_issues(c: ChainModel) -> Seq<IssueView> {
    let s = evaluation_sequence(c);
    collision_issues(c.name@, s, s.len()) + dead_issues(c.name@, s, s.len())
}

/// Issues of the first `n` chains, chain by chain.
pub open spec fn all_chain_issues(chains: Seq<ChainModel>, n: nat) -> Seq<IssueView>
    decreases n,
{
    if n == 0 {
        Seq::empty()
    } else {
        all_chain_issues(chains, (n - 1) as nat) + chain_issues(chains[n - 1])
    }
}

/// Everything `verify` reports about a ruleset, in order.
pub open spec fn verify_issues(rs: RulesetModel) -> Seq<IssueView> {
    let ids = all_rule_ids(rs.chains);
    version_issues(rs) + duplicate_chain_issues(rs.chains, rs.chains.len()) + duplicate_id_issues(
        ids,
        ids.len(),
    ) + all_chain_issues(rs.chains, rs.chains.len())
}

/// `s` lists `rules` in the order of the indices `ord`.
pub open spec fn lists_in_order(s: Seq<Rule>, ord: Seq<usize>, rules: Seq<Rule>) -> bool {
    &&& s.len() == ord.len()
    &&& forall|k: int| 0 <= k < ord.len() ==> ord[k] < rules.len() && #[trigger] s[k] == rules[ord[k] as int]
}

proof fn lemma_push_view(v: Seq<LintIssue>, x: LintIssue)
    ensures
        issues_view(v.push(x)) == issues_view(v).push(x@),
{
    assert(issues_view(v.push(x)) =~= issues_view(v).push(x@));
}

/// Lint one chain: collisions in evaluation order, then dead rules. The
/// chain's issues are appended to `issues`; what was there stays, in place.
pub fn lint_chain(chain: &Chain, issues: &mut Vec<LintIssue>)
    ensures
        issues_view(final(issues)@) == issues_view(old(issues)@) + chain_issues(chain@),
        final(issues)@.len() >= old(issues)@.len(),
        final(issues)@.take(old(issues)@.len() as int) == old(issues)@,
{
    let ghost orig = issues@;
    assert(issues@.take(orig.len() as int) =~= orig);
    let ord = evaluation_order_of(&chain.rules);
    let ghost s = evaluation_sequence(chain@);
    let ghost name = chain.name@;
    let ghost start = issues_view(issues@);
    let n = ord.len();
    assert(s.len() == n);
    assert(lists_in_order(s, ord@, chain.rules@));

    // Priority collisions.
    let mut j: usize = 0;
    let mut g: usize = 0;
    while j < n
        invariant
            j <= n == ord@.len() == s.len(),
            lists_in_order(s, ord@, chain.rules@),
            name == chain.name@,
            j > 0 ==> g < j && g == group_start(s, j - 1),
            issues@.len() >= orig.len(),
            issues@.take(orig.len() as int) == orig,
            issues_view(issues@) == start + collision_issues(name, s, j as nat),
        decreases n - j,
    {
        let rj = &chain.rules[ord[j]];
        if j > 0 && rj.priority == chain.rules[ord[j - 1]].priority {
        } else {
            g = j;
        }
        assert(s[j as int] == *rj);
        assert(g == group_start(s, j as int));
        let mut i: usize = g;
        while i < j
            invariant
                g <= i <= j < n == ord@.len() == s.len(),
                g == group_start(s, j as int),
                lists_in_order(s, ord@, chain.rules@),
                s[j as int] == *rj,
                name == chain.name@,
                issues@.len() >= orig.len(),
                issues@.take(orig.len() as int) == orig,
                issues_view(issues@) == start + collision_issues(name, s, j as nat) + collisions_before(
                    name,
                    s,
                    j as int,
                    i as int,
                ),
            decreases j - i,
        {
            let ri = &chain.rules[ord[i]];
            assert(s[i as int] == *ri);
            let ghost before = issues@;
            proof {
                reveal(collides);
            }
            if ri.id != rj.id && ri.matcher.overlaps(&rj.matcher) {
                let issue = LintIssue::new(LintKind::PriorityCollision, collision_message_string(ri.priority))
                    .in_chain(chain.name.clone()).primary(ri.id).secondary(rj.id);
                issues.push(issue);
                proof {
                    lemma_push_view(before, issue);
                    assert(issues@.take(orig.len() as int) =~= orig);
                }
            }
            assert(issues_view(issues@) =~= start + collision_issues(name, s, j as nat) + collisions_before(
                name,
                s,
                j as int,
                (i + 1) as int,
            ));
            i = i + 1;
        }
        assert(issues_view(issues@) =~= start + collision_issues(name, s, (j + 1) as nat));
        j = j + 1;
    }

    // Unreachable / shadowed rules.
    let ghost mid = issues_view(issues@);
    let mut j: usize = 0;
    while j < n
        invariant
            j <= n == ord@.len() == s.len(),
            lists_in_order(s, ord@, chain.rules@),
            name == chain.name@,
            issues@.len() >= orig.len(),
            issues@.take(orig.len() as int) == orig,
            issues_view(issues@) == mid + dead_issues(name, s, j as nat),
        decreases n - j,
    {
        let rj = &chain.rules[ord[j]];
        assert(s[j as int] == *rj);
        let mut i: usize = 0;
        let mut found: Option<usize> = None;
        while i < j && found.is_none()
            invariant
                i <= j < n == ord@.len() == s.len(),
                lists_in_order(s, ord@, chain.rules@),
                s[j as int] == *rj,
                found is None ==> first_shadower(s, j as int, 0) == first_shadower(s, j as int, i as int),
                found matches Some(x) ==> first_shadower(s, j as int, 0) == Some(x as int) && x < j,
            decreases j - i,
        {
            let earlier = &chain.rules[ord[i]];
            assert(s[i as int] == *earlier);
            proof {
                reveal(shadows);
            }
            if earlier.action.is_terminal() && earlier.matcher.is_superset_of(&rj.matcher) {
                found = Some(i);
            }
            i = i + 1;
        }
        let ghost before = issues@;
        proof {
            reveal(dead_at);
        }
        match found {
            Some(x) => {
                let earlier = &chain.rules[ord[x]];
                assert(s[x as int] == *earlier);
                let same = earlier.matcher.same(&rj.matcher);
                let kind = if same && !same_terminal_action_exec(&earlier.action, &rj.action) {
                    LintKind::Shadowed
                } else {
                    LintKind::Unreachable
                };
                let issue = LintIssue::new(kind, dead_message_string(earlier, same)).in_chain(
                    chain.name.clone(),
                ).primary(rj.id).secondary(earlier.id);
                issues.push(issue);
                proof {
                    lemma_push_view(before, issue);
                    assert(issues@.take(orig.len() as int) =~= orig);
                }
            },
            None => {
                assert(first_shadower(s, j as int, j as int) is None);
            },
        }
        assert(issues_view(issues@) =~= mid + dead_issues(name, s, (j + 1) as nat));
        j = j + 1;
    }
    assert(issues_view(issues@) =~= issues_view(old(issues)@) + chain_issues(chain@));
}

/// Verify a ruleset. `Ok(())` when nothing is found; otherwise every issue
/// found (not just the first), in the order described by [`verify_issues`].
///
/// Callers that hand rulesets to a dataplane must refuse to do so when
/// this returns `Err`.
pub fn verify(ruleset: &Ruleset) -> (r: Result<(), Vec<LintIssue>>)
    ensures
        match r {
            Ok(()) => verify_issues(ruleset@).len() == 0,
            Err(issues) => issues@.len() > 0 && issues_view(issues@) == verify_issues(ruleset@),
        },
{
    let ghost rs = ruleset@;
    let ghost chains = rs.chains;
    let mut issues: Vec<LintIssue> = Vec::new();
    assert(issues_view(issues@) =~= Seq::<IssueView>::empty());

    if ruleset.version > SCHEMA_VERSION {
        let issue = LintIssue::new(LintKind::UnsupportedVersion, version_message_string(ruleset.version));
        issues.push(issue);
        proof {
            lemma_push_view(Seq::empty(), issue);
        }
    }
    assert(issues_view(issues@) =~= version_issues(rs));

    // Duplicate chain names.
    let nc = ruleset.chains.len();
    let mut i: usize = 0;
    while i < nc
        invariant
            nc == ruleset.chains@.len() == chains.len(),
            chains == ruleset@.chains,
            i <= nc,
            issues_view(issues@) == version_issues(rs) + duplicate_chain_issues(chains, i as nat),
        decreases nc - i,
    {
        let mut j: usize = 0;
        let mut repeats = false;
        while j < i && !repeats
            invariant
                nc == ruleset.chains@.len() == chains.len(),
                chains == ruleset@.chains,
                j <= i < nc,
                !repeats ==> forall|k: int| 0 <= k < j ==> (#[trigger] chains[k]).name@ != chains[i as int].name@,
                repeats ==> name_repeats(chains, i as int),
            decreases i - j,
        {
            assert(chains[j as int] == ruleset.chains@[j as int]@);
            if ruleset.chains[j].name == ruleset.chains[i].name {
                repeats = true;
            }
            j = j + 1;
        }
        assert(repeats == name_repeats(chains, i as int));
        let ghost before = issues@;
        if repeats {
            let issue = LintIssue::new(
                LintKind::DuplicateChain,
                duplicate_chain_message_string(&ruleset.chains[i].name),
            ).in_chain(ruleset.chains[i].name.clone());
            issues.push(issue);
            proof {
                lemma_push_view(before, issue);
            }
        }
        assert(issues_view(issues@) =~= version_issues(rs) + duplicate_chain_issues(chains, (i + 1) as nat));
        i = i + 1;
    }
    let ghost after_chains = issues_view(issues@);

    // Every rule id, in declaration order.
    let mut ids: Vec<RuleId> = Vec::new();
    let mut ci: usize = 0;
    while ci < nc
        invariant
            nc == ruleset.chains@.len() == chains.len(),
            chains == ruleset@.chains,
            ci <= nc,
            ids@ == all_rule_ids(chains.take(ci as int)),
        decreases nc - ci,
    {
        let chain = &ruleset.chains[ci];
        let ghost before = ids@;
        let mut ri: usize = 0;
        while ri < chain.rules.len()
            invariant
                ri <= chain.rules@.len(),
                ids@ == before + chain.rules@.take(ri as int).map_values(|r: Rule| r.id),
            decreases chain.rules@.len() - ri,
        {
            ids.push(chain.rules[ri].id);
            assert(chain.rules@.take(ri + 1).map_values(|r: Rule| r.id) =~= chain.rules@.take(
                ri as int,
            ).map_values(|r: Rule| r.id).push(chain.rules@[ri as int].id));
            ri = ri + 1;
        }
        proof {
            assert(chain.rules@.take(ri as int) =~= chain.rules@);
            assert(chains.take(ci + 1).drop_last() =~= chains.take(ci as int));
            assert(chains.take(ci + 1).last() == chain@);
        }
        ci = ci + 1;
    }
    assert(chains.take(nc as int) =~= chains);
    let ghost all_ids = ids@;

    // Duplicate rule ids: every id already seen earlier is reported again.
    let mut seen: HashSet<u64> = HashSet::new();
    let mut i: usize = 0;
    while i < ids.len()
        invariant
            ids@ == all_ids,
            i <= ids@.len(),
            forall|x: u64| #[trigger] seen@.contains(x) <==> exists|k: int| 0 <= k < i && #[trigger] all_ids[k].0 == x,
            issues_view(issues@) == after_chains + duplicate_id_issues(all_ids, i as nat),
        decreases ids@.len() - i,
    {
        let id = ids[i];
        let ghost seen_before = seen@;
        let fresh = seen.insert(id.0);
        proof {
            if id_repeats(all_ids, i as int) {
                let k = choose|k: int| 0 <= k < i && #[trigger] all_ids[k] == all_ids[i as int];
                assert(seen_before.contains(all_ids[k].0));
            }
            if seen_before.contains(id.0) {
                let k = choose|k: int| 0 <= k < i && #[trigger] all_ids[k].0 == id.0;
                assert(all_ids[k] == all_ids[i as int]);
            }
            assert forall|x: u64| #[trigger] seen@.contains(x) <==> exists|k: int|
                0 <= k < i + 1 && #[trigger] all_ids[k].0 == x by {
                if x == id.0 {
                    assert(all_ids[i as int].0 == x);
                }
                if exists|k: int| 0 <= k < i + 1 && #[trigger] all_ids[k].0 == x {
                    let k = choose|k: int| 0 <= k < i + 1 && #[trigger] all_ids[k].0 == x;
                    if k < i {
                        assert(seen_before.contains(x));
                    }
                }
            }
        }
        let ghost before = issues@;
        if !fresh {
            let issue = LintIssue::new(LintKind::DuplicateRuleId, duplicate_id_message_string(id)).primary(id);
            issues.push(issue);
            proof {
                lemma_push_view(before, issue);
            }
        }
        assert(issues_view(issues@) =~= after_chains + duplicate_id_issues(all_ids, (i + 1) as nat));
        i = i + 1;
    }
    let ghost after_ids = issues_view(issues@);

    // Per-chain lint.
    let mut ci: usize = 0;
    while ci < nc
        invariant
            nc == ruleset.chains@.len() == chains.len(),
            chains == ruleset@.chains,
            ci <= nc,
            issues_view(issues@) == after_ids + all_chain_issues(chains, ci as nat),
        decreases nc - ci,
    {
        lint_chain(&ruleset.chains[ci], &mut issues);
        assert(chains[ci as int] == ruleset.chains@[ci as int]@);
        assert(issues_view(issues@) =~= after_ids + all_chain_issues(chains, (ci + 1) as nat));
        ci = ci + 1;
    }
    assert(issues_view(issues@) =~= verify_issues(rs));

    if issues.len() == 0 {
        Ok(())
    } else {
        Err(issues)
    }
}

} // verus!
