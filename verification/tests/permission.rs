use agent_engine::agent::{agent_def_for, AgentKind};
use agent_engine::cli::build_registry;
use agent_engine::pattern::wildcard_match;
use agent_engine::permission::{
    DefaultPermissionChecker, PermissionChecker, PermissionLevel, PermissionRule, Verdict,
};
use agent_engine::types::ToolCall;
use agent_engine::json::Json;

fn rule(pattern: &str, level: PermissionLevel) -> PermissionRule {
    PermissionRule { pattern: pattern.to_string(), level }
}

fn call(name: &str) -> ToolCall {
    ToolCall { id: "1".to_string(), name: name.to_string(), input: Json::null() }
}

#[test]
fn patterns_match_names() {
    assert!(wildcard_match("*", "anything"));
    assert!(wildcard_match("*", ""));
    assert!(!wildcard_match("*", "two\nlines"));
    assert!(wildcard_match("bash", "bash"));
    assert!(!wildcard_match("bash", "bashful"));
    assert!(wildcard_match("edit.*", "edit.file"));
    assert!(wildcard_match("edit.*", "edit_file"));
    assert!(!wildcard_match("edit.*", "edit"));
    assert!(!wildcard_match("edit.*", "reedit.x"));
    assert!(wildcard_match("git_?og", "git_log"));
    assert!(!wildcard_match("(", "("));
}

#[test]
fn allowed_tools_run_without_questions() {
    let c = DefaultPermissionChecker::new()
        .allow_tool("read")
        .add_rule(rule("*", PermissionLevel::Deny));
    assert!(c.check("read", false).is_ok());
    assert_eq!(c.check("write", true), Err("Tool 'write' is denied by rule '*'".to_string()));
}

#[test]
fn the_first_rule_decides() {
    let c = DefaultPermissionChecker::default()
        .add_rule(rule("git_.*", PermissionLevel::Allow))
        .add_rule(rule("git_log", PermissionLevel::Deny))
        .add_rule(rule("bash", PermissionLevel::Ask));
    assert!(c.check("git_log", false).is_ok());
    assert_eq!(
        c.check("bash", true),
        Err("Tool 'bash' requires user permission (pattern: 'bash')".to_string())
    );
    assert!(!c.asks("bash"));
    let c = c.with_approver();
    assert!(c.asks("bash"));
    assert!(c.check("bash", true).is_ok());
    assert!(c.check("bash", false).is_err());
}

#[test]
fn patterns_to_ask_for_come_last() {
    let c = DefaultPermissionChecker::new()
        .allow_pattern("read.*")
        .ask_pattern("*")
        .with_approver();
    assert!(matches!(c.verdict("read_all"), Verdict::Allowed));
    assert!(matches!(c.verdict("x"), Verdict::Ask { pattern } if pattern == "*"));
    assert!(c.check("x", true).is_ok());
    assert_eq!(
        c.check("x", false),
        Err("Tool 'x' requires user permission (pattern: '*')".to_string())
    );
}

#[test]
fn unknown_tools_are_not_permitted() {
    let c = DefaultPermissionChecker::new();
    assert_eq!(c.check("x", true), Err("Tool 'x' is not permitted".to_string()));
}

#[test]
fn a_star_allows_everything() {
    let def = agent_def_for(AgentKind::Build);
    let c = DefaultPermissionChecker::from_agent(&def.default_allowed, &def.ask_patterns, false);
    assert!(c.check("anything", false).is_ok());
}

#[test]
fn planning_agents_ask_before_they_change_anything() {
    let def = agent_def_for(AgentKind::Plan);
    let c = DefaultPermissionChecker::from_agent(&def.default_allowed, &def.ask_patterns, true);
    for name in ["read", "glob", "grep", "webfetch", "websearch"] {
        assert!(c.check(name, false).is_ok());
    }
    for name in ["write", "edit", "bash", "undo"] {
        assert!(c.asks(name));
        assert!(c.check(name, true).is_ok());
        assert!(c.check(name, false).is_err());
    }
    assert_eq!(c.check("git_commit", true), Err("Tool 'git_commit' is not permitted".to_string()));
}

#[test]
fn approvals_are_kept() {
    let r = build_registry(AgentKind::Plan, &vec!["write".to_string()], true);
    assert!(r.execute(&call("write"), false).is_ok());
    assert!(r.execute(&call("edit"), false).is_err());
    assert!(!r.asks("write"));
    assert!(r.asks("edit"));
    assert!(!r.asks("no_such_tool"));
}

#[test]
fn building_agents_may_use_all_tools() {
    let r = build_registry(AgentKind::Build, &vec![], false);
    assert_eq!(r.tools.len(), 13);
    for t in &r.tools {
        assert!(r.execute(&call(&t.name), false).is_ok());
    }
}
