//! The policy engine: the decision for one changed path, the
//! evaluation of a whole push, and the self-protection check on the
//! rule file itself.

use crate::acl::{
    create_acl_map, spec_default_rule, spec_parse, spec_rule_for, Access, ConfigError, RuleSet,
    SpecConfigError, SpecRuleSet,
};
use crate::text::contains_str;
use vstd::prelude::*;

verus! {

/// Why a path was denied.
#[derive(Clone, Copy, Debug, PartialEq, Eq, Structural)]
pub enum DenialReason {
    /// No rule covers the path.
    NoRule,
    /// The governing rule marks the path read-only.
    ReadOnlyPath,
    /// The governing rule grants writes, but not to this user.
    UserNotAuthorized,
}

/// One denied path with its reason.
#[derive(Debug, Clone, PartialEq, Eq)]
pub struct Denial {
    pub path: String,
    pub reason: DenialReason,
}

/// Mathematical model of one denial.
#[verifier::ext_equal]
pub ghost struct SpecDenial {
    pub path: Seq<char>,
    pub reason: DenialReason,
}

impl View for Denial {
    type V = SpecDenial;

    open spec fn view(&self) -> SpecDenial {
        SpecDenial { path: self.path@, reason: self.reason }
    }
}

impl DeepView for Denial {
    type V = SpecDenial;

    open spec fn deep_view(&self) -> SpecDenial {
        self.view()
    }
}

/// The outcome for one path.
#[derive(Debug, Clone, PartialEq, Eq)]
pub enum PolicyDecision {
    Allowed,
    Denied(Denial),
}

/// Mathematical model of one outcome.
#[verifier::ext_equal]
pub ghost enum SpecDecision {
    Allowed,
    Denied(SpecDenial),
}

impl View for PolicyDecision {
    type V = SpecDecision;

    open spec fn view(&self) -> SpecDecision {
        match self {
            PolicyDecision::Allowed => SpecDecision::Allowed,
            PolicyDecision::Denied(d) => SpecDecision::Denied(d@),
        }
    }
}

/// The identity wildcard: a rule listing `*` admits every principal.
pub open spec fn star() -> Seq<char> {
    "*"@
}

/// Whether a rule's principal list admits `user`.
pub open spec fn spec_authorized(users: Seq<Seq<char>>, user: Seq<char>) -> bool {
    users.contains(star()) || users.contains(user)
}

/// The decision for one path: denied when no rule covers it, denied
/// when the governing rule is read-only, and otherwise decided by
/// whether the rule's principals admit the user.
pub open spec fn spec_decide(rs: SpecRuleSet, path: Seq<char>, user: Seq<char>) -> SpecDecision {
    match spec_rule_for(rs, path) {
        None => SpecDecision::Denied(SpecDenial { path, reason: DenialReason::NoRule }),
        Some(r) => match r.access {
            Access::ReadOnly => SpecDecision::Denied(
                SpecDenial { path, reason: DenialReason::ReadOnlyPath },
            ),
            Access::ReadWrite => if spec_authorized(r.users, user) {
                SpecDecision::Allowed
            } else {
                SpecDecision::Denied(SpecDenial { path, reason: DenialReason::UserNotAuthorized })
            },
        },
    }
}

/// Decide one changed path for one user.
pub fn decide_path(rs: &RuleSet, path: &str, user: &str) -> (r: PolicyDecision)
    requires
        rs.wf(),
    ensures
        r@ == spec_decide(rs@, path@, user@),
{
    match rs.rule_for(path) {
        None => PolicyDecision::Denied(
            Denial { path: path.to_owned(), reason: DenialReason::NoRule },
        ),
        Some(rule) => match rule.access {
            Access::ReadOnly => PolicyDecision::Denied(
                Denial { path: path.to_owned(), reason: DenialReason::ReadOnlyPath },
            ),
            Access::ReadWrite => {
                if contains_str(&rule.users, "*") || contains_str(&rule.users, user) {
                    PolicyDecision::Allowed
                } else {
                    PolicyDecision::Denied(
                        Denial { path: path.to_owned(), reason: DenialReason::UserNotAuthorized },
                    )
                }
            },
        },
    }
}

/// The denials a sequence of changed paths accumulates, in input
/// order; empty entries are enumeration artifacts and are skipped.
pub open spec fn spec_denials(rs: SpecRuleSet, paths: Seq<Seq<char>>, user: Seq<char>) -> Seq<
    SpecDenial,
>
    decreases paths.len(),
{
    if paths.len() == 0 {
        Seq::empty()
    } else {
        let rest = spec_denials(rs, paths.drop_first(), user);
        if paths[0].len() == 0 {
            rest
        } else {
            match spec_decide(rs, paths[0], user) {
                SpecDecision::Allowed => rest,
                SpecDecision::Denied(d) => seq![d] + rest,
            }
        }
    }
}

/// Whether the rule file itself is left effectively unprotected: no
/// rule governs it, or its governing rule grants writes to everyone.
pub open spec fn spec_acl_file_exposed(rs: SpecRuleSet, acl_path: Seq<char>) -> bool {
    match spec_rule_for(rs, acl_path) {
        None => true,
        Some(r) => r.access == Access::ReadWrite && r.users.contains(star()),
    }
}

/// The whole outcome of one push evaluation.
#[derive(Debug, Clone, PartialEq, Eq)]
pub struct EvaluationResult {
    /// Every denied changed path with its reason, in input order.
    pub denials: Vec<Denial>,
    /// Non-fatal: the rule file itself is unprotected or writable by
    /// anyone.
    pub acl_file_warning: bool,
}

/// Mathematical model of a push evaluation.
#[verifier::ext_equal]
pub ghost struct SpecEvaluation {
    pub denials: Seq<SpecDenial>,
    pub acl_file_warning: bool,
}

impl View for EvaluationResult {
    type V = SpecEvaluation;

    open spec fn view(&self) -> SpecEvaluation {
        SpecEvaluation {
            denials: self.denials.deep_view(),
            acl_file_warning: self.acl_file_warning,
        }
    }
}

/// What evaluating a push means: the denials of the changed paths,
/// plus the self-protection check on the rule-file path.
pub open spec fn spec_evaluate(
    rs: SpecRuleSet,
    paths: Seq<Seq<char>>,
    user: Seq<char>,
    acl_path: Seq<char>,
) -> SpecEvaluation {
    SpecEvaluation {
        denials: spec_denials(rs, paths, user),
        acl_file_warning: spec_acl_file_exposed(rs, acl_path),
    }
}

impl EvaluationResult {
    /// The push is accepted exactly when no changed path was denied.
    pub fn accepted(&self) -> (r: bool)
        ensures
            r == (self@.denials.len() == 0),
    {
        self.denials.len() == 0
    }
}

/// Evaluate every changed path for `user` under `rs`, and check the
/// rule file's own protection. The denials decide the push; the
/// warning never does.
pub fn evaluate(
    rs: &RuleSet,
    changed_paths: &Vec<String>,
    user: &str,
    acl_file_path: &str,
) -> (r: EvaluationResult)
    requires
        rs.wf(),
    ensures
        r@ == spec_evaluate(rs@, changed_paths.deep_view(), user@, acl_file_path@),
{
    let ghost pv = changed_paths.deep_view();
    let mut denials: Vec<Denial> = Vec::new();
    let mut i: usize = 0;
    proof {
        assert(pv.skip(0) =~= pv);
    }
    while i < changed_paths.len()
        invariant
            0 <= i <= changed_paths@.len(),
            pv == changed_paths.deep_view(),
            rs.wf(),
            denials.deep_view() + spec_denials(rs@, pv.skip(i as int), user@) == spec_denials(
                rs@,
                pv,
                user@,
            ),
        decreases changed_paths@.len() - i,
    {
        let p: &String = &changed_paths[i];
        proof {
            assert(p@ == pv[i as int]);
            assert(pv.skip(i as int)[0] == pv[i as int]);
            assert(pv.skip(i as int).drop_first() =~= pv.skip(i as int + 1));
        }
        if p.as_str().unicode_len() > 0 {
            let d = decide_path(rs, p.as_str(), user);
            match d {
                PolicyDecision::Allowed => {},
                PolicyDecision::Denied(den) => {
                    let ghost old_d = denials.deep_view();
                    let ghost den_v = den@;
                    denials.push(den);
                    proof {
                        assert(denials.deep_view() =~= old_d.push(den_v));
                        assert(denials.deep_view() + spec_denials(rs@, pv.skip(i as int + 1), user@)
                            =~~= old_d + spec_denials(rs@, pv.skip(i as int), user@));
                    }
                },
            }
        }
        i = i + 1;
    }
    proof {
        assert(pv.skip(i as int) =~= Seq::<Seq<char>>::empty());
        assert(denials.deep_view() =~~= spec_denials(rs@, pv, user@));
    }
    let warning: bool = match rs.rule_for(acl_file_path) {
        None => true,
        Some(rule) => {
            let is_rw: bool = match rule.access {
                Access::ReadWrite => true,
                Access::ReadOnly => false,
            };
            if is_rw {
                contains_str(&rule.users, "*")
            } else {
                false
            }
        },
    };
    EvaluationResult { denials, acl_file_warning: warning }
}

/// Parse a configuration text and evaluate a push of `changed_paths`
/// by `user` under it: what the hook does, configuration to verdict.
pub fn check_push(
    config_text: &str,
    changed_paths: &Vec<String>,
    user: &str,
    acl_file_path: &str,
) -> (r: Result<EvaluationResult, ConfigError>)
    ensures
        match r {
            Ok(ev) => spec_parse(config_text@) matches Ok(srs) && ev@ == spec_evaluate(
                srs,
                changed_paths.deep_view(),
                user@,
                acl_file_path@,
            ),
            Err(e) => spec_parse(config_text@) == Err::<SpecRuleSet, SpecConfigError>(e@),
        },
{
    match create_acl_map(config_text) {
        Err(e) => Err(e),
        Ok(rs) => Ok(evaluate(&rs, changed_paths, user, acl_file_path)),
    }
}

/// Default-policy synthesis: under a configuration with no explicit
/// rules, `default = read-write` (the synthetic catch-all) allows
/// every path for every user, while an absent default denies every
/// path as uncovered.
pub proof fn lemma_default_policy(rs: SpecRuleSet, path: Seq<char>, user: Seq<char>)
    requires
        rs.rules.len() == 0,
    ensures
        rs.default_rule == Some(spec_default_rule()) ==> spec_decide(rs, path, user)
            == SpecDecision::Allowed,
        rs.default_rule is None ==> spec_decide(rs, path, user) == SpecDecision::Denied(
            SpecDenial { path, reason: DenialReason::NoRule },
        ),
{
    if rs.default_rule == Some(spec_default_rule()) {
        assert(spec_default_rule().users[0] == star());
        assert(spec_default_rule().users.contains(star()));
    }
}

/// Self-match is non-fatal: when the rule file's own path is governed
/// by a rule granting `read-write` to `*` — or by no rule at all — the
/// evaluation raises the warning, yet its denials, and with them the
/// push verdict, are exactly those of the changed paths alone.
pub proof fn lemma_self_protection_warning_nonfatal(
    rs: SpecRuleSet,
    paths: Seq<Seq<char>>,
    user: Seq<char>,
    acl_path: Seq<char>,
)
    requires
        match spec_rule_for(rs, acl_path) {
            None => true,
            Some(r) => r.access == Access::ReadWrite && r.users.contains(star()),
        },
    ensures
        spec_evaluate(rs, paths, user, acl_path).acl_file_warning,
        spec_evaluate(rs, paths, user, acl_path).denials == spec_denials(rs, paths, user),
{
}

/// Re-parsing is stable: two parses of the same configuration text
/// yield rule sets that decide every (path, user) pair identically.
pub proof fn lemma_reparse_identical_decisions(
    text: Seq<char>,
    rs1: SpecRuleSet,
    rs2: SpecRuleSet,
    path: Seq<char>,
    user: Seq<char>,
)
    requires
        spec_parse(text) == Ok::<SpecRuleSet, SpecConfigError>(rs1),
        spec_parse(text) == Ok::<SpecRuleSet, SpecConfigError>(rs2),
    ensures
        spec_decide(rs1, path, user) == spec_decide(rs2, path, user),
{
}

} // verus!

