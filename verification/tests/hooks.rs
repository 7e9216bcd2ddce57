use telos_agent::hooks::{HookCondition, HookEntry, HookPhase, HookRegistry};

#[derive(Clone, Debug, PartialEq)]
struct TestHook {
    name: &'static str,
}

fn entry(name: &'static str, phase: HookPhase, condition: Option<HookCondition>, once: bool) -> HookEntry<TestHook> {
    HookEntry { hook: TestHook { name }, phase, condition, once, async_exec: false }
}

fn pre(tool: &str) -> HookPhase {
    HookPhase::PreToolUse { tool_name: tool.into() }
}

#[test]
fn registry_is_empty_by_default() {
    let r: HookRegistry<TestHook> = HookRegistry::new();
    assert!(r.hooks_for_phase(&HookPhase::PostSampling).is_empty());
    assert!(r.hooks_for_phase(&HookPhase::Stop).is_empty());
}

#[test]
fn registry_filters_hooks_by_phase() {
    let mut r = HookRegistry::new();
    r.register(TestHook { name: "post" }, HookPhase::PostSampling);
    r.register(TestHook { name: "stop" }, HookPhase::Stop);
    assert_eq!(r.hooks_for_phase(&HookPhase::PostSampling).len(), 1);
    assert_eq!(r.hooks_for_phase(&HookPhase::Stop).len(), 1);
}

#[test]
fn registry_preserves_registration_order() {
    let mut r = HookRegistry::new();
    r.register(TestHook { name: "a" }, HookPhase::Stop);
    r.register(TestHook { name: "b" }, HookPhase::Stop);
    let hooks = r.hooks_for_phase(&HookPhase::Stop);
    assert_eq!(hooks[0].name, "a");
    assert_eq!(hooks[1].name, "b");
}

#[test]
fn empty_registry_returns_empty_vec_for_any_phase() {
    let r: HookRegistry<TestHook> = HookRegistry::new();
    assert!(r.hooks_for_phase(&HookPhase::PostSampling).is_empty());
    assert!(r.hooks_for_phase(&HookPhase::Stop).is_empty());
}

#[test]
fn hook_condition_exact_match() {
    let cond = HookCondition { tool_name: Some("Bash".into()) };
    assert!(cond.matches(&pre("Bash")));
    assert!(!cond.matches(&pre("Grep")));
    assert!(!cond.matches(&HookPhase::PostSampling));
}

#[test]
fn hook_condition_glob_match() {
    let cond = HookCondition { tool_name: Some("Bash(git *)".into()) };
    assert!(cond.matches(&pre("Bash(git status)")));
    assert!(!cond.matches(&pre("Bash")));
    assert!(!cond.matches(&HookPhase::PostSampling));
}

#[test]
fn hook_condition_wildcard_matches_any() {
    let cond = HookCondition { tool_name: Some("*".into()) };
    assert!(cond.matches(&pre("Bash")));
    assert!(cond.matches(&pre("Anything")));
    assert!(!cond.matches(&HookPhase::PostSampling));
}

#[test]
fn hook_condition_none_matches_all() {
    let cond = HookCondition { tool_name: None };
    assert!(cond.matches(&pre("Bash")));
    assert!(cond.matches(&HookPhase::PostSampling));
}

#[test]
fn hooks_for_phase_filters_by_condition() {
    let mut r = HookRegistry::new();
    r.register_entry(entry("bash-only", pre(""), Some(HookCondition { tool_name: Some("Bash".into()) }), false));
    r.register_entry(entry("any-tool", pre(""), None, false));
    let bash_hooks = r.hooks_for_phase(&pre("Bash"));
    assert_eq!(bash_hooks.len(), 2, "both hooks should match for Bash");
    let grep_hooks = r.hooks_for_phase(&pre("Grep"));
    assert_eq!(grep_hooks.len(), 1, "only the unconditional hook should match for Grep");
    assert_eq!(grep_hooks[0].name, "any-tool");
}

#[test]
fn remove_once_hooks_cleans_up() {
    let mut r = HookRegistry::new();
    r.register_entry(entry("once", HookPhase::PostSampling, None, true));
    r.register_entry(entry("persistent", HookPhase::PostSampling, None, false));
    assert_eq!(r.hooks_for_phase(&HookPhase::PostSampling).len(), 2);
    r.remove_once_hooks();
    let remaining = r.hooks_for_phase(&HookPhase::PostSampling);
    assert_eq!(remaining.len(), 1);
    assert_eq!(remaining[0].name, "persistent");
}

#[test]
fn hook_phase_name_returns_static_str() {
    assert_eq!(HookPhase::PostSampling.name(), "post_sampling");
    assert_eq!(HookPhase::Stop.name(), "stop");
    assert_eq!(pre("Bash").name(), "pre_tool_use");
    assert_eq!(HookPhase::SessionStart.name(), "session_start");
    assert_eq!(HookPhase::UserPromptSubmit.name(), "user_prompt_submit");
    assert_eq!(HookPhase::PostToolUseFailure { tool_name: "x".into() }.name(), "post_tool_use_failure");
}

#[test]
fn phase_kind_ignores_tool_name_but_condition_does_not() {
    let mut r = HookRegistry::new();
    r.register_entry(entry("post-tool", HookPhase::PostToolUse { tool_name: "Write".into() }, None, false));
    assert_eq!(r.hooks_for_phase(&HookPhase::PostToolUse { tool_name: "Read".into() }).len(), 1);
    assert!(r.hooks_for_phase(&pre("Read")).is_empty());
}
