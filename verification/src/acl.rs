//! The rule-file model and its parser.
//!
//! A configuration is line-oriented: blank lines and `#` comments are
//! skipped; `[<pattern>]` opens a rule section whose pattern is a
//! regular expression; `key = value` lines set `access` or `users` on
//! the open section; before any section only `default` may be set. A
//! `default = read-write` appends a synthetic catch-all rule that
//! grants every principal write access to otherwise unmatched paths.

use crate::rex::{regex_compiles, regex_is_match, regex_match, regex_valid};
use crate::text::{
    find_char, lemma_find_props, spec_find, spec_lines, spec_tokens, spec_trim, split_lines,
    split_tokens, str_eq, trim_str,
};
use vstd::prelude::*;

verus! {

/// Access level a rule grants.
#[derive(Clone, Copy, Debug, PartialEq, Eq, Structural)]
pub enum Access {
    ReadWrite,
    ReadOnly,
}

/// One parsed rule: a path pattern, the level it grants, and the
/// principals it grants it to (`"*"` standing for any identity).
#[derive(Debug, Clone)]
pub struct AccessControl {
    pub pattern: String,
    pub access: Access,
    pub users: Vec<String>,
}

/// Mathematical model of one rule.
#[verifier::ext_equal]
pub ghost struct SpecRule {
    pub pattern: Seq<char>,
    pub access: Access,
    pub users: Seq<Seq<char>>,
}

impl View for AccessControl {
    type V = SpecRule;

    open spec fn view(&self) -> SpecRule {
        SpecRule {
            pattern: self.pattern@,
            access: self.access,
            users: self.users.deep_view(),
        }
    }
}

impl DeepView for AccessControl {
    type V = SpecRule;

    open spec fn deep_view(&self) -> SpecRule {
        self.view()
    }
}

/// Why a configuration text was rejected.
#[derive(Debug, Clone, PartialEq, Eq)]
pub enum ConfigError {
    /// A `key = value` line with no `=`.
    MissingSeparator { line: String },
    /// A key the grammar does not recognize at its position.
    UnknownKey { key: String },
    /// An `access` or `default` value other than `read-write` or `read-only`.
    BadAccessValue { value: String },
    /// A section line opened with `[` that does not close with `]`.
    BadSectionHeader { line: String },
    /// A section pattern that does not compile as a regular expression.
    BadPattern { pattern: String },
}

/// Mathematical model of a configuration error.
#[verifier::ext_equal]
pub ghost enum SpecConfigError {
    MissingSeparator { line: Seq<char> },
    UnknownKey { key: Seq<char> },
    BadAccessValue { value: Seq<char> },
    BadSectionHeader { line: Seq<char> },
    BadPattern { pattern: Seq<char> },
}

impl View for ConfigError {
    type V = SpecConfigError;

    open spec fn view(&self) -> SpecConfigError {
        match self {
            ConfigError::MissingSeparator { line } => SpecConfigError::MissingSeparator {
                line: line@,
            },
            ConfigError::UnknownKey { key } => SpecConfigError::UnknownKey { key: key@ },
            ConfigError::BadAccessValue { value } => SpecConfigError::BadAccessValue {
                value: value@,
            },
            ConfigError::BadSectionHeader { line } => SpecConfigError::BadSectionHeader {
                line: line@,
            },
            ConfigError::BadPattern { pattern } => SpecConfigError::BadPattern {
                pattern: pattern@,
            },
        }
    }
}

/// The ordered rules of a configuration, plus the synthetic catch-all
/// rule appended when it declares `default = read-write`.
#[derive(Debug)]
pub struct RuleSet {
    pub rules: Vec<AccessControl>,
    pub default_rule: Option<AccessControl>,
}

/// Mathematical model of a rule set.
#[verifier::ext_equal]
pub ghost struct SpecRuleSet {
    pub rules: Seq<SpecRule>,
    pub default_rule: Option<SpecRule>,
}

impl View for RuleSet {
    type V = SpecRuleSet;

    open spec fn view(&self) -> SpecRuleSet {
        SpecRuleSet {
            rules: self.rules.deep_view(),
            default_rule: self.default_rule.deep_view(),
        }
    }
}

impl RuleSet {
    /// Every explicit rule's pattern compiled when the set was built.
    pub open spec fn wf(&self) -> bool {
        forall|i: int|
            0 <= i < self@.rules.len() ==> regex_valid(#[trigger] self@.rules[i].pattern)
    }
}

/// `key = value` decomposition of a line: the text before the first
/// `=` and the text after it, both trimmed, with everything from the
/// first `#` on cut out of the value.
pub open spec fn spec_key_value(line: Seq<char>) -> Option<(Seq<char>, Seq<char>)> {
    match spec_find(line, '=') {
        None => None,
        Some(i) => {
            let key = spec_trim(line.take(i));
            let v1 = spec_trim(line.skip(i + 1));
            let v2 = match spec_find(v1, '#') {
                None => v1,
                Some(j) => v1.take(j),
            };
            Some((key, spec_trim(v2)))
        },
    }
}

/// The access level a configuration value denotes, if any.
pub open spec fn spec_access_value(v: Seq<char>) -> Option<Access> {
    if v == "read-write"@ {
        Some(Access::ReadWrite)
    } else if v == "read-only"@ {
        Some(Access::ReadOnly)
    } else {
        None
    }
}

/// What a `key = value` line seen before any section does: only the
/// key `default` is lawful there, with an access-level value.
pub open spec fn spec_default_var(line: Seq<char>) -> Result<Access, SpecConfigError> {
    match spec_key_value(line) {
        None => Err(SpecConfigError::MissingSeparator { line }),
        Some((key, value)) => if key == "default"@ {
            match spec_access_value(value) {
                Some(a) => Ok(a),
                None => Err(SpecConfigError::BadAccessValue { value }),
            }
        } else {
            Err(SpecConfigError::UnknownKey { key })
        },
    }
}

/// What a `key = value` line inside a section does to the open rule:
/// `access` sets the level, `users` replaces the principal list.
pub open spec fn spec_acl_var(cur: SpecRule, line: Seq<char>) -> Result<SpecRule, SpecConfigError> {
    match spec_key_value(line) {
        None => Err(SpecConfigError::MissingSeparator { line }),
        Some((key, value)) => if key == "access"@ {
            match spec_access_value(value) {
                Some(a) => Ok(SpecRule { pattern: cur.pattern, access: a, users: cur.users }),
                None => Err(SpecConfigError::BadAccessValue { value }),
            }
        } else if key == "users"@ {
            Ok(SpecRule { pattern: cur.pattern, access: cur.access, users: spec_tokens(value) })
        } else {
            Err(SpecConfigError::UnknownKey { key })
        },
    }
}

/// A freshly opened section: read-only for nobody until overridden.
pub open spec fn fresh_rule(pattern: Seq<char>) -> SpecRule {
    SpecRule { pattern, access: Access::ReadOnly, users: Seq::empty() }
}

/// Parser state after some prefix of the configuration lines.
#[verifier::ext_equal]
pub ghost struct ParserState {
    /// The section opened by the last `[pattern]` line, if any.
    pub opened: Option<SpecRule>,
    /// The sections finalized so far, in declaration order.
    pub done: Seq<SpecRule>,
    /// Whether the fallback policy is currently `read-write`.
    pub default_rw: bool,
}

/// Before any line: no section, no rules, fallback deny.
pub open spec fn initial_state() -> ParserState {
    ParserState { opened: None, done: Seq::empty(), default_rw: false }
}

/// One raw configuration line applied to the parser state.
pub open spec fn spec_step(st: ParserState, raw: Seq<char>) -> Result<
    ParserState,
    SpecConfigError,
> {
    let line = spec_trim(raw);
    if line.len() == 0 || line[0] == '#' {
        Ok(st)
    } else if line[0] == '[' {
        if line.last() != ']' {
            Err(SpecConfigError::BadSectionHeader { line })
        } else {
            let pat = line.subrange(1, line.len() - 1);
            if !regex_valid(pat) {
                Err(SpecConfigError::BadPattern { pattern: pat })
            } else {
                Ok(
                    ParserState {
                        opened: Some(fresh_rule(pat)),
                        done: match st.opened {
                            None => st.done,
                            Some(r) => st.done.push(r),
                        },
                        default_rw: st.default_rw,
                    },
                )
            }
        }
    } else {
        match st.opened {
            None => match spec_default_var(line) {
                Ok(a) => Ok(
                    ParserState {
                        opened: None,
                        done: st.done,
                        default_rw: a == Access::ReadWrite,
                    },
                ),
                Err(e) => Err(e),
            },
            Some(cur) => match spec_acl_var(cur, line) {
                Ok(r) => Ok(
                    ParserState { opened: Some(r), done: st.done, default_rw: st.default_rw },
                ),
                Err(e) => Err(e),
            },
        }
    }
}

/// The configuration lines applied in order.
pub open spec fn spec_fold(lines: Seq<Seq<char>>, st: ParserState) -> Result<
    ParserState,
    SpecConfigError,
>
    decreases lines.len(),
{
    if lines.len() == 0 {
        Ok(st)
    } else {
        match spec_step(st, lines[0]) {
            Err(e) => Err(e),
            Ok(st2) => spec_fold(lines.drop_first(), st2),
        }
    }
}

/// The synthetic catch-all rule that `default = read-write` appends:
/// it matches every path and admits every principal.
pub open spec fn spec_default_rule() -> SpecRule {
    SpecRule { pattern: ".*"@, access: Access::ReadWrite, users: seq!["*"@] }
}

/// End of input: the open section is finalized, and the catch-all rule
/// is appended exactly when the fallback policy is `read-write`.
pub open spec fn spec_finalize(st: ParserState) -> SpecRuleSet {
    SpecRuleSet {
        rules: match st.opened {
            None => st.done,
            Some(r) => st.done.push(r),
        },
        default_rule: if st.default_rw {
            Some(spec_default_rule())
        } else {
            None
        },
    }
}

/// The rule set a configuration text denotes, or the error rejecting it.
pub open spec fn spec_parse(text: Seq<char>) -> Result<SpecRuleSet, SpecConfigError> {
    match spec_fold(spec_lines(text), initial_state()) {
        Err(e) => Err(e),
        Ok(st) => Ok(spec_finalize(st)),
    }
}

/// Folding one more line steps the state once.
pub proof fn lemma_fold_push(lines: Seq<Seq<char>>, st: ParserState, l: Seq<char>)
    ensures
        spec_fold(lines.push(l), st) == (match spec_fold(lines, st) {
            Ok(s) => spec_step(s, l),
            Err(e) => Err(e),
        }),
    decreases lines.len(),
{
    if lines.len() == 0 {
        assert(lines.push(l)[0] == l);
        assert(lines.push(l).drop_first() =~= Seq::<Seq<char>>::empty());
        match spec_step(st, l) {
            Err(_) => {},
            Ok(st2) => {
                assert(spec_fold(lines.push(l).drop_first(), st2) == Ok::<
                    ParserState,
                    SpecConfigError,
                >(st2));
            },
        }
    } else {
        assert(lines.push(l)[0] == lines[0]);
        assert(lines.push(l).drop_first() =~= lines.drop_first().push(l));
        match spec_step(st, lines[0]) {
            Err(_) => {},
            Ok(st2) => {
                lemma_fold_push(lines.drop_first(), st2, l);
            },
        }
    }
}

/// Split a `key = value` line at its first `=`; key and value are
/// trimmed and the value loses everything from its first `#` on.
/// A line with no `=` is a fatal error.
pub fn parse_line(line: &str) -> (r: Result<(String, String), ConfigError>)
    ensures
        match r {
            Ok(kv) => spec_key_value(line@) == Some((kv.0@, kv.1@)),
            Err(e) => spec_key_value(line@) == None::<(Seq<char>, Seq<char>)> && e@ == (
            SpecConfigError::MissingSeparator { line: line@ }),
        },
{
    let eq_pos = find_char(line, '=');
    match eq_pos {
        None => Err(ConfigError::MissingSeparator { line: line.to_owned() }),
        Some(i) => {
            proof {
                lemma_find_props(line@, '=');
            }
            let n: usize = line.unicode_len();
            let key: &str = trim_str(line.substring_char(0, i));
            let v1: &str = trim_str(line.substring_char(i + 1, n));
            proof {
                assert(line@.subrange(0, i as int) =~= line@.take(i as int));
                assert(line@.subrange(i as int + 1, n as int) =~= line@.skip(i as int + 1));
            }
            let hash_pos = find_char(v1, '#');
            let v2: &str = match hash_pos {
                None => v1,
                Some(j) => {
                    proof {
                        lemma_find_props(v1@, '#');
                    }
                    let cut: &str = v1.substring_char(0, j);
                    proof {
                        assert(cut@ =~= v1@.take(j as int));
                    }
                    cut
                },
            };
            let value: &str = trim_str(v2);
            Ok((key.to_owned(), value.to_owned()))
        },
    }
}

/// The access level a configuration value denotes, if any.
fn parse_access_value(value: &str) -> (r: Option<Access>)
    ensures
        r == spec_access_value(value@),
{
    if str_eq(value, "read-write") {
        Some(Access::ReadWrite)
    } else if str_eq(value, "read-only") {
        Some(Access::ReadOnly)
    } else {
        None
    }
}

/// Handle a `key = value` line seen before any section: only the key
/// `default` is lawful there, and its value must name an access level.
pub fn process_default_var(line: &str) -> (r: Result<Access, ConfigError>)
    ensures
        match r {
            Ok(a) => spec_default_var(line@) == Ok::<Access, SpecConfigError>(a),
            Err(e) => spec_default_var(line@) == Err::<Access, SpecConfigError>(e@),
        },
{
    match parse_line(line) {
        Err(e) => Err(e),
        Ok((key, value)) => {
            if str_eq(key.as_str(), "default") {
                match parse_access_value(value.as_str()) {
                    Some(a) => Ok(a),
                    None => Err(ConfigError::BadAccessValue { value }),
                }
            } else {
                Err(ConfigError::UnknownKey { key })
            }
        },
    }
}

/// Apply an `access` or `users` assignment to the open rule section.
/// On an error the section is left as it was.
pub fn process_acl_var(current_acl: &mut AccessControl, line: &str) -> (r: Result<
    (),
    ConfigError,
>)
    ensures
        match r {
            Ok(_) => spec_acl_var(old(current_acl)@, line@) == Ok::<SpecRule, SpecConfigError>(
                final (current_acl)@,
            ) && final (current_acl).pattern@ == old(current_acl).pattern@,
            Err(e) => spec_acl_var(old(current_acl)@, line@) == Err::<SpecRule, SpecConfigError>(
                e@,
            ) && final (current_acl)@ == old(current_acl)@,
        },
{
    match parse_line(line) {
        Err(e) => Err(e),
        Ok((key, value)) => {
            if str_eq(key.as_str(), "access") {
                match parse_access_value(value.as_str()) {
                    Some(a) => {
                        current_acl.access = a;
                        proof {
                            assert(spec_acl_var(old(current_acl)@, line@) == Ok::<
                                SpecRule,
                                SpecConfigError,
                            >(final (current_acl)@));
                        }
                        Ok(())
                    },
                    None => Err(ConfigError::BadAccessValue { value }),
                }
            } else if str_eq(key.as_str(), "users") {
                current_acl.users = split_tokens(value.as_str());
                proof {
                    assert(spec_acl_var(old(current_acl)@, line@) == Ok::<
                        SpecRule,
                        SpecConfigError,
                    >(final (current_acl)@));
                }
                Ok(())
            } else {
                Err(ConfigError::UnknownKey { key })
            }
        },
    }
}

/// A fold splits at any prefix boundary.
pub proof fn lemma_fold_split(lines: Seq<Seq<char>>, st: ParserState, i: int)
    requires
        0 <= i <= lines.len(),
    ensures
        spec_fold(lines, st) == (match spec_fold(lines.take(i), st) {
            Err(e) => Err(e),
            Ok(s) => spec_fold(lines.skip(i), s),
        }),
    decreases i,
{
    if i == 0 {
        assert(lines.take(0) =~= Seq::<Seq<char>>::empty());
        assert(lines.skip(0) =~= lines);
    } else {
        assert(lines.take(i)[0] == lines[0]);
        match spec_step(st, lines[0]) {
            Err(_) => {},
            Ok(st2) => {
                lemma_fold_split(lines.drop_first(), st2, i - 1);
                assert(lines.take(i).drop_first() =~= lines.drop_first().take(i - 1));
                assert(lines.skip(i) =~= lines.drop_first().skip(i - 1));
            },
        }
    }
}

/// Ghost abbreviation of the exec parser's loop state.
pub open spec fn loop_state(
    acl_started: bool,
    current: AccessControl,
    done: Vec<AccessControl>,
    default_rw: bool,
) -> ParserState {
    ParserState {
        opened: if acl_started {
            Some(current@)
        } else {
            None
        },
        done: done.deep_view(),
        default_rw,
    }
}

/// Parse a configuration text into the rule set it denotes. A broken
/// configuration yields the error of its first offending line, and no
/// rule set: a bad policy file blocks everything rather than failing
/// open.
pub fn create_acl_map(text: &str) -> (r: Result<RuleSet, ConfigError>)
    ensures
        match r {
            Ok(rs) => spec_parse(text@) == Ok::<SpecRuleSet, SpecConfigError>(rs@) && rs.wf(),
            Err(e) => spec_parse(text@) == Err::<SpecRuleSet, SpecConfigError>(e@),
        },
{
    let lines: Vec<String> = split_lines(text);
    let ghost dv: Seq<Seq<char>> = lines.deep_view();
    let mut done: Vec<AccessControl> = Vec::new();
    let mut current = AccessControl {
        pattern: String::new(),
        access: Access::ReadOnly,
        users: Vec::new(),
    };
    let mut acl_started: bool = false;
    let mut default_rw: bool = false;
    let mut li: usize = 0;
    proof {
        assert(dv.take(0) =~= Seq::<Seq<char>>::empty());
        assert(loop_state(false, current, done, false) =~= initial_state());
    }
    while li < lines.len()
        invariant
            0 <= li <= lines@.len(),
            dv == lines.deep_view(),
            dv == spec_lines(text@),
            spec_fold(dv.take(li as int), initial_state()) == Ok::<ParserState, SpecConfigError>(
                loop_state(acl_started, current, done, default_rw),
            ),
            forall|k: int|
                0 <= k < done.deep_view().len() ==> regex_valid(
                    #[trigger] done.deep_view()[k].pattern,
                ),
            acl_started ==> regex_valid(current@.pattern),
        decreases lines@.len() - li,
    {
        let ghost pre = loop_state(acl_started, current, done, default_rw);
        let ghost raw = dv[li as int];
        proof {
            lemma_fold_push(dv.take(li as int), initial_state(), raw);
            assert(dv.take(li as int).push(raw) =~= dv.take(li as int + 1));
        }
        let raw_line: &String = &lines[li];
        proof {
            assert(raw_line@ == dv[li as int]);
        }
        let line: &str = trim_str(raw_line.as_str());
        let n: usize = line.unicode_len();
        if n == 0 {
            proof {
                assert(spec_step(pre, raw) == Ok::<ParserState, SpecConfigError>(pre));
            }
            li = li + 1;
        } else {
            let c0: char = line.get_char(0);
            if c0 == '#' {
                proof {
                    assert(spec_step(pre, raw) == Ok::<ParserState, SpecConfigError>(pre));
                }
                li = li + 1;
            } else if c0 == '[' {
                if line.get_char(n - 1) != ']' {
                    let e = ConfigError::BadSectionHeader { line: line.to_owned() };
                    proof {
                        assert(line@.last() == line@[n as int - 1]);
                        assert(spec_step(pre, raw) == Err::<ParserState, SpecConfigError>(e@));
                        lemma_fold_split(dv, initial_state(), li as int + 1);
                    }
                    return Err(e);
                }
                let pattern: &str = line.substring_char(1, n - 1);
                proof {
                    assert(line@.last() == line@[n as int - 1]);
                    assert(pattern@ =~= line@.subrange(1, n as int - 1));
                }
                if !regex_compiles(pattern) {
                    let e = ConfigError::BadPattern { pattern: pattern.to_owned() };
                    proof {
                        assert(spec_step(pre, raw) == Err::<ParserState, SpecConfigError>(e@));
                        lemma_fold_split(dv, initial_state(), li as int + 1);
                    }
                    return Err(e);
                }
                let ghost pre_done = done.deep_view();
                let ghost cur_v = current@;
                if acl_started {
                    done.push(current);
                    proof {
                        assert(done.deep_view() =~= pre_done.push(cur_v));
                    }
                }
                current = AccessControl {
                    pattern: pattern.to_owned(),
                    access: Access::ReadOnly,
                    users: Vec::new(),
                };
                acl_started = true;
                li = li + 1;
                proof {
                    assert(current@ =~= fresh_rule(line@.subrange(1, n as int - 1)));
                    let post = loop_state(acl_started, current, done, default_rw);
                    match spec_step(pre, raw) {
                        Ok(st2) => {
                            assert(post =~= st2);
                        },
                        Err(_) => {
                            assert(false);
                        },
                    }
                }
            } else {
                // a key = value line
                if !acl_started {
                    match process_default_var(line) {
                        Ok(a) => {
                            let is_rw: bool = match a {
                                Access::ReadWrite => true,
                                Access::ReadOnly => false,
                            };
                            default_rw = is_rw;
                            li = li + 1;
                            proof {
                                let post = loop_state(acl_started, current, done, default_rw);
                                match spec_step(pre, raw) {
                                    Ok(st2) => {
                                        assert(post =~= st2);
                                    },
                                    Err(_) => {
                                        assert(false);
                                    },
                                }
                            }
                        },
                        Err(e) => {
                            proof {
                                assert(spec_step(pre, raw) == Err::<ParserState, SpecConfigError>(
                                    e@,
                                ));
                                lemma_fold_split(dv, initial_state(), li as int + 1);
                            }
                            return Err(e);
                        },
                    }
                } else {
                    match process_acl_var(&mut current, line) {
                        Ok(_) => {
                            li = li + 1;
                            proof {
                                let post = loop_state(acl_started, current, done, default_rw);
                                match spec_step(pre, raw) {
                                    Ok(st2) => {
                                        assert(post =~= st2);
                                    },
                                    Err(_) => {
                                        assert(false);
                                    },
                                }
                            }
                        },
                        Err(e) => {
                            proof {
                                assert(spec_step(pre, raw) == Err::<ParserState, SpecConfigError>(
                                    e@,
                                ));
                                lemma_fold_split(dv, initial_state(), li as int + 1);
                            }
                            return Err(e);
                        },
                    }
                }
            }
        }
    }
    let ghost fin = loop_state(acl_started, current, done, default_rw);
    proof {
        assert(dv.take(lines@.len() as int) =~= dv);
    }
    let ghost pre_done = done.deep_view();
    let ghost cur_v = current@;
    if acl_started {
        done.push(current);
        proof {
            assert(done.deep_view() =~= pre_done.push(cur_v));
        }
    }
    let default_rule: Option<AccessControl> = if default_rw {
        let mut star_users: Vec<String> = Vec::new();
        star_users.push("*".to_owned());
        let dr = AccessControl {
            pattern: ".*".to_owned(),
            access: Access::ReadWrite,
            users: star_users,
        };
        proof {
            assert(dr@.users =~= seq!["*"@]);
            assert(dr@ =~= spec_default_rule());
        }
        Some(dr)
    } else {
        None
    };
    let rs = RuleSet { rules: done, default_rule };
    proof {
        assert(rs@ =~= spec_finalize(fin));
        assert(spec_parse(text@) == Ok::<SpecRuleSet, SpecConfigError>(rs@));
        assert(rs.wf());
    }
    Ok(rs)
}

/// The first rule in declaration order whose pattern matches `path`.
pub open spec fn spec_first_match(rules: Seq<SpecRule>, path: Seq<char>) -> Option<SpecRule>
    decreases rules.len(),
{
    if rules.len() == 0 {
        None
    } else if regex_match(rules[0].pattern, path) {
        Some(rules[0])
    } else {
        spec_first_match(rules.drop_first(), path)
    }
}

/// The governing rule for `path`: the first explicit rule whose
/// pattern matches; failing that, the synthetic default rule if one
/// was configured; failing that, none.
pub open spec fn spec_rule_for(rs: SpecRuleSet, path: Seq<char>) -> Option<SpecRule> {
    match spec_first_match(rs.rules, path) {
        Some(r) => Some(r),
        None => rs.default_rule,
    }
}

impl RuleSet {
    /// The governing rule for `path`, first match wins; the synthetic
    /// default rule, when present, is considered last.
    pub fn rule_for<'a>(&'a self, path: &str) -> (r: Option<&'a AccessControl>)
        requires
            self.wf(),
        ensures
            match r {
                Some(rule) => spec_rule_for(self@, path@) == Some(rule@),
                None => spec_rule_for(self@, path@) == None::<SpecRule>,
            },
    {
        let mut i: usize = 0;
        proof {
            assert(self@.rules.skip(0) =~= self@.rules);
        }
        while i < self.rules.len()
            invariant
                self.wf(),
                0 <= i <= self.rules@.len(),
                spec_first_match(self@.rules.skip(i as int), path@) == spec_first_match(
                    self@.rules,
                    path@,
                ),
            decreases self.rules@.len() - i,
        {
            let rule: &AccessControl = &self.rules[i];
            proof {
                assert(self@.rules[i as int] == rule@);
                assert(self@.rules.skip(i as int)[0] == self@.rules[i as int]);
            }
            if regex_is_match(rule.pattern.as_str(), path) {
                return Some(rule);
            }
            proof {
                assert(self@.rules.skip(i as int).drop_first() =~= self@.rules.skip(i as int + 1));
            }
            i = i + 1;
        }
        proof {
            assert(self@.rules.skip(i as int) =~= Seq::<SpecRule>::empty());
        }
        match &self.default_rule {
            Some(d) => {
                proof {
                    assert(self@.default_rule == Some(d@));
                }
                Some(d)
            },
            None => None,
        }
    }
}

/// `rule_for` is deterministic: any two results for the same rule set
/// and path are the same.
pub proof fn lemma_rule_for_deterministic(
    rs: SpecRuleSet,
    path: Seq<char>,
    r1: Option<SpecRule>,
    r2: Option<SpecRule>,
)
    requires
        r1 == spec_rule_for(rs, path),
        r2 == spec_rule_for(rs, path),
    ensures
        r1 == r2,
{
}

/// Where the governing rule of `path` sits: index `k` matches, nothing
/// before it matches, and the first match is the rule there.
pub open spec fn first_match_at(rules: Seq<SpecRule>, path: Seq<char>, k: int) -> bool {
    &&& 0 <= k < rules.len()
    &&& regex_match(rules[k].pattern, path)
    &&& (forall|j: int| 0 <= j < k ==> !regex_match(#[trigger] rules[j].pattern, path))
    &&& spec_first_match(rules, path) == Some(rules[k])
}

/// First match wins: as soon as any rule matches `path`, the governing
/// rule is the one at the earliest matching index, so of two matching
/// rules only the one declared earlier can govern.
pub proof fn lemma_first_match_wins(rules: Seq<SpecRule>, path: Seq<char>, i: int)
    requires
        0 <= i < rules.len(),
        regex_match(rules[i].pattern, path),
    ensures
        exists|k: int| 0 <= k <= i && #[trigger] first_match_at(rules, path, k),
    decreases rules.len(),
{
    if regex_match(rules[0].pattern, path) {
        assert(first_match_at(rules, path, 0));
    } else {
        let t = rules.drop_first();
        assert(t[i - 1] == rules[i]);
        lemma_first_match_wins(t, path, i - 1);
        let k = choose|k: int| 0 <= k <= i - 1 && #[trigger] first_match_at(t, path, k);
        assert(rules[k + 1] == t[k]);
        assert forall|j: int| 0 <= j < k + 1 implies !regex_match(
            #[trigger] rules[j].pattern,
            path,
        ) by {
            if j > 0 {
                assert(t[j - 1] == rules[j]);
            }
        }
        assert(first_match_at(rules, path, k + 1));
    }
}

/// At the rule-set level: when any explicit rule matches `path`, the
/// governing rule is the one at the earliest matching index — never a
/// later matching rule, and never the synthetic default.
pub proof fn lemma_first_match_governs(rs: SpecRuleSet, path: Seq<char>, i: int)
    requires
        0 <= i < rs.rules.len(),
        regex_match(rs.rules[i].pattern, path),
    ensures
        exists|k: int|
            0 <= k <= i && #[trigger] first_match_at(rs.rules, path, k) && spec_rule_for(rs, path)
                == Some(rs.rules[k]),
{
    lemma_first_match_wins(rs.rules, path, i);
    let k = choose|k: int| 0 <= k <= i && #[trigger] first_match_at(rs.rules, path, k);
    assert(0 <= k <= i && first_match_at(rs.rules, path, k) && spec_rule_for(rs, path) == Some(
        rs.rules[k],
    ));
}

} // verus!
