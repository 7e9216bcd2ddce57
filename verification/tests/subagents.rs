use telos_agent::error::AgentError;
use telos_agent::subagent::{
    parse_model_hint, required_frontmatter_string, optional_trimmed_string, split_frontmatter,
    AgentDefinition, AgentFrontmatter, AgentIsolation, AgentSource, ModelHint, SubagentRegistry,
};

#[test]
fn parses_model_hint_aliases() {
    assert_eq!(parse_model_hint("thinking").unwrap(), Some(ModelHint::Thinking));
    assert_eq!(parse_model_hint("execution").unwrap(), Some(ModelHint::Execution));
    assert_eq!(parse_model_hint("recovery").unwrap(), Some(ModelHint::Recovery));
    assert_eq!(parse_model_hint("summarization").unwrap(), Some(ModelHint::Summarization));
    assert!(parse_model_hint("inherit").unwrap().is_none());
    assert!(parse_model_hint("unknown").is_err());
}

#[test]
fn model_hints_are_trimmed_and_case_insensitive() {
    assert_eq!(parse_model_hint("  Summary ").unwrap(), Some(ModelHint::Summarization));
    assert!(parse_model_hint("DEFAULT").unwrap().is_none());
    assert_eq!(
        parse_model_hint(" Fast ").unwrap_err(),
        AgentError::Validation(
            "invalid agent model `fast`; expected thinking, execution, recovery, summarization, or inherit".into()
        )
    );
}

#[test]
fn later_agent_registration_overrides_earlier_definition() {
    let mut registry = SubagentRegistry::new();
    registry.register(AgentDefinition::new("auditor", "old", "old prompt", AgentSource::BuiltIn));
    registry.register(AgentDefinition::new(
        "auditor",
        "new",
        "new prompt",
        AgentSource::Project { path: "agents/auditor.md".into() },
    ));

    let definition = registry.get("auditor").unwrap();
    assert_eq!(definition.description, "new");
    assert_eq!(registry.definitions().len(), 1);
}

#[test]
fn builtins_include_core_agent_types() {
    let registry = SubagentRegistry::with_builtin_agents();
    assert!(registry.get("general-purpose").is_some());
    assert!(registry.get("Explore").is_some());
    assert!(registry.get("Plan").is_some());
    assert!(registry.get("Verification").is_some());
    assert!(registry.render_listing().contains("Explore"));
}

#[test]
fn definitions_come_in_name_order_and_listing_shows_tools() {
    let mut registry = SubagentRegistry::new();
    let mut b = AgentDefinition::new("b", "second", "p", AgentSource::BuiltIn);
    b.allowed_tools = vec!["Read".into(), "Grep".into()];
    registry.register(b);
    registry.register(AgentDefinition::new("a", "first", "p", AgentSource::BuiltIn));
    let names: Vec<&str> = registry.definitions().iter().map(|d| d.name.as_str()).collect();
    assert_eq!(names, vec!["a", "b"]);
    assert_eq!(
        registry.render_listing(),
        "- a: first (Tools: All tools)\n- b: second (Tools: Read, Grep)"
    );
    assert!(registry.get("c").is_none());
}

#[test]
fn frontmatter_is_split_from_the_body() {
    let (front, body) = split_frontmatter("---\nname: x\n---\r\n\nBody text\n").unwrap();
    assert_eq!(front, "name: x");
    assert_eq!(body, "Body text\n");
    assert!(split_frontmatter("name: x\n---\nbody").is_none());
    assert!(split_frontmatter("---\nname: x\nbody").is_none());
}

fn frontmatter(name: Option<&str>, description: Option<&str>) -> AgentFrontmatter {
    AgentFrontmatter {
        name: name.map(String::from),
        description: description.map(String::from),
        tools: vec!["Read".into()],
        disallowed_tools: vec![],
        model: Some("execution".into()),
        max_iterations: Some(8),
        background: true,
        isolation: Some("Worktree".into()),
        initial_prompt: Some("  Read README.md first. ".into()),
        permission_mode: Some("   ".into()),
        skills: vec![],
        effort: None,
    }
}

#[test]
fn definitions_are_built_from_frontmatter() {
    let d = AgentDefinition::from_frontmatter(
        frontmatter(Some(" Explore "), Some("Use for exploration.")),
        "\nYou inspect the codebase.\n",
        AgentSource::BuiltIn,
    )
    .unwrap();
    assert_eq!(d.name, "Explore");
    assert_eq!(d.system_prompt, "You inspect the codebase.");
    assert_eq!(d.model_hint, Some(ModelHint::Execution));
    assert_eq!(d.isolation, AgentIsolation::Worktree);
    assert_eq!(d.initial_prompt.as_deref(), Some("Read README.md first."));
    assert_eq!(d.permission_mode, None);
    assert_eq!(d.max_iterations, Some(8));
    assert!(d.background);
}

#[test]
fn frontmatter_requires_name_and_description() {
    let e = AgentDefinition::from_frontmatter(frontmatter(None, Some("d")), "", AgentSource::BuiltIn).unwrap_err();
    assert_eq!(e, AgentError::Validation("missing required `name`".into()));
    let e = AgentDefinition::from_frontmatter(frontmatter(Some("n"), Some(" ")), "", AgentSource::BuiltIn).unwrap_err();
    assert_eq!(e, AgentError::Validation("missing required `description`".into()));
    let mut bad = frontmatter(Some("n"), Some("d"));
    bad.isolation = Some("vm".into());
    let e = AgentDefinition::from_frontmatter(bad, "", AgentSource::BuiltIn).unwrap_err();
    assert_eq!(e, AgentError::Validation("invalid agent isolation `vm`; expected `none` or `worktree`".into()));
    assert_eq!(required_frontmatter_string(Some(" a ".into()), "k").unwrap(), "a");
    assert_eq!(optional_trimmed_string(Some(" ".into())), None);
}
