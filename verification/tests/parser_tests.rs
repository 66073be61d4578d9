use acl_hook::acl::{create_acl_map, parse_line, process_acl_var, process_default_var, Access,
    AccessControl, ConfigError};

#[test]
fn parse_line_splits_and_trims() {
    let (k, v) = parse_line("  access =  read-write  ").unwrap();
    assert_eq!(k, "access");
    assert_eq!(v, "read-write");
}

#[test]
fn parse_line_strips_inline_comment() {
    let (k, v) = parse_line("users = alice # the admins").unwrap();
    assert_eq!(k, "users");
    assert_eq!(v, "alice");
}

#[test]
fn parse_line_without_separator_fails() {
    let e = parse_line("no separator here").unwrap_err();
    assert!(matches!(e, ConfigError::MissingSeparator { .. }));
}

#[test]
fn default_var_read_write() {
    let a = process_default_var("default = read-write").unwrap();
    assert_eq!(a, Access::ReadWrite);
}

#[test]
fn default_var_read_only() {
    let a = process_default_var("default = read-only").unwrap();
    assert_eq!(a, Access::ReadOnly);
}

#[test]
fn default_var_rejects_other_keys() {
    let e = process_default_var("users = alice").unwrap_err();
    assert!(matches!(e, ConfigError::UnknownKey { .. }));
}

#[test]
fn default_var_rejects_bad_value() {
    let e = process_default_var("default = maybe").unwrap_err();
    assert!(matches!(e, ConfigError::BadAccessValue { .. }));
}

#[test]
fn acl_var_sets_access_and_users() {
    let mut rule = AccessControl {
        pattern: String::from("docs/.*"),
        access: Access::ReadOnly,
        users: Vec::new(),
    };
    process_acl_var(&mut rule, "access = read-write").unwrap();
    assert_eq!(rule.access, Access::ReadWrite);
    process_acl_var(&mut rule, "users = alice bob").unwrap();
    assert_eq!(rule.users, vec!["alice".to_string(), "bob".to_string()]);
}

#[test]
fn acl_var_rejects_unknown_key() {
    let mut rule = AccessControl {
        pattern: String::from("docs/.*"),
        access: Access::ReadOnly,
        users: Vec::new(),
    };
    let e = process_acl_var(&mut rule, "owner = alice").unwrap_err();
    assert!(matches!(e, ConfigError::UnknownKey { .. }));
    assert_eq!(rule.access, Access::ReadOnly);
    assert!(rule.users.is_empty());
}

#[test]
fn parses_sections_in_order() {
    let text = "# a comment\n\n[docs/.*]\naccess = read-write\nusers = alice\n[.*]\naccess = read-only\n";
    let rs = create_acl_map(text).unwrap();
    assert_eq!(rs.rules.len(), 2);
    assert_eq!(rs.rules[0].pattern, "docs/.*");
    assert_eq!(rs.rules[0].access, Access::ReadWrite);
    assert_eq!(rs.rules[0].users, vec!["alice".to_string()]);
    assert_eq!(rs.rules[1].pattern, ".*");
    assert_eq!(rs.rules[1].access, Access::ReadOnly);
    assert!(rs.rules[1].users.is_empty());
    assert!(rs.default_rule.is_none());
}

#[test]
fn fresh_section_defaults_to_read_only_for_nobody() {
    let rs = create_acl_map("[docs/.*]").unwrap();
    assert_eq!(rs.rules.len(), 1);
    assert_eq!(rs.rules[0].access, Access::ReadOnly);
    assert!(rs.rules[0].users.is_empty());
}

#[test]
fn default_read_write_appends_catch_all() {
    let rs = create_acl_map("default = read-write\n").unwrap();
    assert!(rs.rules.is_empty());
    let d = rs.default_rule.as_ref().unwrap();
    assert_eq!(d.pattern, ".*");
    assert_eq!(d.access, Access::ReadWrite);
    assert_eq!(d.users, vec!["*".to_string()]);
}

#[test]
fn default_read_only_appends_nothing() {
    let rs = create_acl_map("default = read-only\n").unwrap();
    assert!(rs.rules.is_empty());
    assert!(rs.default_rule.is_none());
}

#[test]
fn empty_config_has_no_rules() {
    let rs = create_acl_map("").unwrap();
    assert!(rs.rules.is_empty());
    assert!(rs.default_rule.is_none());
}

#[test]
fn unclosed_section_header_fails() {
    let e = create_acl_map("[docs/.*").unwrap_err();
    assert!(matches!(e, ConfigError::BadSectionHeader { .. }));
}

#[test]
fn uncompilable_pattern_fails() {
    let e = create_acl_map("[*]").unwrap_err();
    match e {
        ConfigError::BadPattern { pattern } => assert_eq!(pattern, "*"),
        other => panic!("wrong error: {:?}", other),
    }
}

#[test]
fn key_before_any_section_must_be_default() {
    let e = create_acl_map("access = read-write\n[docs/.*]").unwrap_err();
    assert!(matches!(e, ConfigError::UnknownKey { .. }));
}

#[test]
fn bad_access_value_inside_section_fails() {
    let e = create_acl_map("[docs/.*]\naccess = rw").unwrap_err();
    match e {
        ConfigError::BadAccessValue { value } => assert_eq!(value, "rw"),
        other => panic!("wrong error: {:?}", other),
    }
}

#[test]
fn missing_separator_inside_section_fails() {
    let e = create_acl_map("[docs/.*]\njust words").unwrap_err();
    assert!(matches!(e, ConfigError::MissingSeparator { .. }));
}

#[test]
fn carriage_returns_are_trimmed() {
    let rs = create_acl_map("[docs/.*]\r\naccess = read-write\r\nusers = alice\r\n").unwrap();
    assert_eq!(rs.rules.len(), 1);
    assert_eq!(rs.rules[0].pattern, "docs/.*");
    assert_eq!(rs.rules[0].access, Access::ReadWrite);
    assert_eq!(rs.rules[0].users, vec!["alice".to_string()]);
}

#[test]
fn repeated_spaces_between_users_add_no_empty_principal() {
    let rs = create_acl_map("[docs/.*]\nusers = alice   bob ").unwrap();
    assert_eq!(rs.rules[0].users, vec!["alice".to_string(), "bob".to_string()]);
}

#[test]
fn trailing_text_after_section_bracket_fails() {
    let e = create_acl_map("[docs/.*] # the docs").unwrap_err();
    assert!(matches!(e, ConfigError::BadSectionHeader { .. }));
}
