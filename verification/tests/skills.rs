use telos_agent::plugin_id::PluginId;
use telos_agent::skills::{Skill, SkillRegistry, SkillSource};

fn skill(name: &str, description: &str, when: Option<&str>, body: &str) -> Skill {
    Skill {
        name: name.into(),
        description: description.into(),
        when_to_use: when.map(String::from),
        prompt: String::new(),
        arguments: Vec::new(),
        body: body.into(),
        source: SkillSource::Bundled,
    }
}

#[test]
fn later_registration_with_same_name_wins() {
    let mut r = SkillRegistry::new();
    r.register(skill("debug", "old", None, ""));
    r.register(skill("debug", "new", None, ""));
    assert_eq!(r.get("debug").unwrap().description, "new");
    assert_eq!(r.names().len(), 1);
    assert_eq!(r.list().len(), 1);
    assert!(r.get("missing").is_none());
}

#[test]
fn injected_skills_take_the_given_source() {
    let mut r = SkillRegistry::new();
    let source = SkillSource::Plugin { plugin_id: PluginId::parse("p@m").unwrap() };
    r.inject_skills_from_dir(vec![skill("a", "d", None, "")], source.clone());
    assert_eq!(r.get("a").unwrap().source, source);
}

#[test]
fn retrieval_ranks_by_score_then_name() {
    let mut r = SkillRegistry::new();
    r.register(skill("verify", "Run the test suite", None, ""));
    r.register(skill("debug", "Find the failing test", Some("tests fail"), ""));
    r.register(skill("deploy", "Ship it", None, "no match here"));
    let found: Vec<&str> = r.retrieve("failing TEST", 10).iter().map(|s| s.name.as_str()).collect();
    assert_eq!(found, vec!["debug", "verify"]);
    let limited: Vec<&str> = r.retrieve("failing test", 1).iter().map(|s| s.name.as_str()).collect();
    assert_eq!(limited, vec!["debug"]);
    assert!(r.retrieve("test", 0).is_empty());
    assert!(r.retrieve("!!!", 5).is_empty());
}

#[test]
fn prompt_listings_are_sorted_by_name() {
    let mut r = SkillRegistry::new();
    assert_eq!(r.render_index_for_prompt(), "");
    assert_eq!(r.render_for_prompt(), "");
    r.register(skill("zeta", "Last", Some("at the end"), ""));
    r.register(skill("alpha", "First", None, ""));
    assert_eq!(
        r.render_index_for_prompt(),
        "## Skill Index\nUse the Skill tool only for skills listed as available or recommended below.\n- **alpha**: First\n- **zeta**: Last"
    );
    assert_eq!(
        r.render_for_prompt(),
        "## Available Skills\nYou can invoke skills via the Skill tool. Available skills:\n- **alpha**: First\n- **zeta**: Last — Use when: at the end"
    );
}

#[test]
fn plugin_ids_parse_name_and_marketplace() {
    let id = PluginId::parse("formatter@official").unwrap();
    assert_eq!(id.name, "formatter");
    assert_eq!(id.marketplace, "official");
    assert_eq!(id.to_string(), "formatter@official");
    assert!(PluginId::parse("no-marketplace").is_none());
    assert!(PluginId::parse("bad name@m").is_none());
    assert!(PluginId::parse("@m").is_none());
}
