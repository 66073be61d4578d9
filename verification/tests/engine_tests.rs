use acl_hook::acl::create_acl_map;
use acl_hook::engine::{check_push, decide_path, evaluate, DenialReason, PolicyDecision};

fn paths(items: &[&str]) -> Vec<String> {
    items.iter().map(|s| s.to_string()).collect()
}

#[test]
fn scenario_a_listed_user_allowed_other_denied() {
    let text = "[docs/.*]\naccess = read-write\nusers = alice";
    let ev = check_push(text, &paths(&["docs/readme.md"]), "alice", "acl").unwrap();
    assert!(ev.accepted());
    assert!(ev.denials.is_empty());

    let ev = check_push(text, &paths(&["docs/readme.md"]), "bob", "acl").unwrap();
    assert!(!ev.accepted());
    assert_eq!(ev.denials.len(), 1);
    assert_eq!(ev.denials[0].path, "docs/readme.md");
    assert_eq!(ev.denials[0].reason, DenialReason::UserNotAuthorized);
}

#[test]
fn scenario_b_default_read_write_allows_anything() {
    let text = "default = read-write";
    let ev = check_push(text, &paths(&["anything/here.txt"]), "whoever", "acl").unwrap();
    assert!(ev.accepted());
}

#[test]
fn scenario_c_read_only_rule_denies_everyone() {
    let text = "[.*]\naccess = read-only";
    let ev = check_push(text, &paths(&["core/main.rs"]), "anyone", "acl").unwrap();
    assert!(!ev.accepted());
    assert_eq!(ev.denials[0].reason, DenialReason::ReadOnlyPath);
    assert_eq!(ev.denials[0].path, "core/main.rs");
}

#[test]
fn scenario_d_uncovered_path_denied_without_default() {
    let text = "[docs/.*]\naccess = read-write\nusers = alice";
    let ev = check_push(text, &paths(&["secret/keys.pem"]), "alice", "acl").unwrap();
    assert!(!ev.accepted());
    assert_eq!(ev.denials[0].reason, DenialReason::NoRule);
    assert_eq!(ev.denials[0].path, "secret/keys.pem");
}

#[test]
fn scenario_e_exposed_rule_file_warns_without_denying() {
    let text = "[.*]\naccess=read-write\nusers=*";
    let ev = check_push(text, &paths(&["unrelated/file.txt"]), "carol", "hooks/acl").unwrap();
    assert!(ev.accepted());
    assert!(ev.denials.is_empty());
    assert!(ev.acl_file_warning);
}

#[test]
fn first_match_wins_on_overlapping_patterns() {
    let text = "[docs/.*]\naccess = read-only\n[.*]\naccess = read-write\nusers = *";
    let ev = check_push(text, &paths(&["docs/notes.md"]), "alice", "acl").unwrap();
    assert!(!ev.accepted());
    assert_eq!(ev.denials[0].reason, DenialReason::ReadOnlyPath);

    let ev = check_push(text, &paths(&["src/lib.rs"]), "alice", "acl").unwrap();
    assert!(ev.accepted());
}

#[test]
fn rule_for_is_deterministic() {
    let text = "[docs/.*]\naccess = read-write\nusers = alice\n[.*]\naccess = read-only";
    let rs = create_acl_map(text).unwrap();
    let a = rs.rule_for("docs/a.md").unwrap();
    let b = rs.rule_for("docs/a.md").unwrap();
    assert_eq!(a.pattern, b.pattern);
    assert_eq!(a.access, b.access);
    assert_eq!(a.users, b.users);
}

#[test]
fn reparsing_gives_identical_decisions() {
    let text = "[docs/.*]\naccess = read-write\nusers = alice\ndefault-ignored = x";
    // the above text is broken on purpose: both parses must fail alike
    assert_eq!(create_acl_map(text).is_err(), create_acl_map(text).is_err());

    let text = "[docs/.*]\naccess = read-write\nusers = alice";
    let rs1 = create_acl_map(text).unwrap();
    let rs2 = create_acl_map(text).unwrap();
    for (path, user) in [("docs/a.md", "alice"), ("docs/a.md", "bob"), ("x/y", "alice")] {
        let d1 = decide_path(&rs1, path, user);
        let d2 = decide_path(&rs2, path, user);
        assert_eq!(d1, d2);
    }
}

#[test]
fn wildcard_principal_admits_everyone() {
    let text = "[docs/.*]\naccess = read-write\nusers = *";
    let rs = create_acl_map(text).unwrap();
    let d = decide_path(&rs, "docs/a.md", "someone-new");
    assert_eq!(d, PolicyDecision::Allowed);
}

#[test]
fn non_matching_pattern_does_not_govern() {
    // would fail if pattern matching were a constant or echoed its input
    let text = "[docs/.*]\naccess = read-write\nusers = *";
    let rs = create_acl_map(text).unwrap();
    assert!(matches!(decide_path(&rs, "src/main.rs", "alice"), PolicyDecision::Denied(_)));
    assert_eq!(decide_path(&rs, "docs/a.md", "alice"), PolicyDecision::Allowed);
}

#[test]
fn empty_path_entries_are_skipped() {
    let text = "[docs/.*]\naccess = read-write\nusers = alice";
    let ev = check_push(text, &paths(&["", "docs/a.md", ""]), "alice", "acl").unwrap();
    assert!(ev.accepted());
    assert!(ev.denials.is_empty());
}

#[test]
fn every_denied_path_is_reported_in_order() {
    let text = "[docs/.*]\naccess = read-write\nusers = alice";
    let ev = check_push(text, &paths(&["secret/a", "docs/ok.md", "secret/b"]), "alice", "acl")
        .unwrap();
    assert!(!ev.accepted());
    assert_eq!(ev.denials.len(), 2);
    assert_eq!(ev.denials[0].path, "secret/a");
    assert_eq!(ev.denials[1].path, "secret/b");
}

#[test]
fn protected_rule_file_raises_no_warning() {
    let text = "[hooks/.*]\naccess = read-write\nusers = admin\n[docs/.*]\naccess = read-write\nusers = alice";
    let rs = create_acl_map(text).unwrap();
    let ev = evaluate(&rs, &paths(&["docs/a.md"]), "alice", "hooks/acl");
    assert!(ev.accepted());
    assert!(!ev.acl_file_warning);
}

#[test]
fn unprotected_rule_file_raises_warning() {
    // no rule matches the rule file's own path at all
    let text = "[docs/.*]\naccess = read-write\nusers = alice";
    let rs = create_acl_map(text).unwrap();
    let ev = evaluate(&rs, &paths(&["docs/a.md"]), "alice", "hooks/acl");
    assert!(ev.accepted());
    assert!(ev.acl_file_warning);
}

#[test]
fn broken_configuration_blocks_instead_of_failing_open() {
    let e = check_push("[docs/.*]\naccess = yes", &paths(&["docs/a.md"]), "alice", "acl");
    assert!(e.is_err());
}
