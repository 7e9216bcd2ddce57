use telos_agent::events::{filter_incoming, to_system_message, topic_matches, ExternalEvent, Subscription};
use telos_agent::marketplace::{
    choose_marketplace_name, derived_marketplace_name, marketplace_problems, MarketplaceSource,
    PluginSourceStatus,
};
use telos_agent::message::Role;

fn sub(topic: &str) -> Subscription {
    Subscription { topic: topic.into() }
}

fn event(topic: &str) -> ExternalEvent {
    ExternalEvent { topic: topic.into(), payload: "p".into() }
}

#[test]
fn topics_match_glob_subscriptions() {
    assert!(!topic_matches(&vec![], "github.push"));
    assert!(topic_matches(&vec![sub("*")], "anything"));
    assert!(topic_matches(&vec![sub("")], "anything"));
    assert!(topic_matches(&vec![sub("github.*")], "github.push"));
    assert!(!topic_matches(&vec![sub("github.*")], "ci.failed"));
    assert!(!topic_matches(&vec![sub("[")], "["));
}

#[test]
fn only_subscribed_events_are_kept_in_order() {
    let kept = filter_incoming(&vec![sub("ci.*")], vec![event("ci.a"), event("gh.b"), event("ci.c")]);
    let topics: Vec<&str> = kept.iter().map(|e| e.topic.as_str()).collect();
    assert_eq!(topics, vec!["ci.a", "ci.c"]);
}

#[test]
fn events_become_system_messages() {
    let m = to_system_message(&ExternalEvent { topic: "ci".into(), payload: "build failed".into() });
    assert_eq!(m.role, Role::System);
    assert_eq!(m.text_content(), "<external-event topic=\"ci\">\nbuild failed\n</external-event>");
}

#[test]
fn source_statuses_have_stable_names() {
    assert_eq!(PluginSourceStatus::Available.as_str(), "available");
    assert_eq!(PluginSourceStatus::RemovedFromMarketplace.as_str(), "removed-from-marketplace");
    assert_eq!(PluginSourceStatus::MarketplaceMissing.as_str(), "marketplace-missing");
}

#[test]
fn marketplace_names_are_derived_and_checked() {
    let gh = MarketplaceSource::GitHub { repo: "owner/repo".into(), ref_: None, path: None };
    assert_eq!(derived_marketplace_name(&gh), "repo");
    let local = MarketplaceSource::Local { path: "/tmp/my-market".into() };
    assert_eq!(derived_marketplace_name(&local), "my-market");
    assert_eq!(choose_marketplace_name(&gh, None).unwrap(), "repo");
    assert_eq!(choose_marketplace_name(&gh, Some("alias".into())).unwrap(), "alias");
    assert_eq!(
        choose_marketplace_name(&gh, Some("bad name".into())).unwrap_err(),
        "invalid marketplace name `bad name`; use ASCII letters, digits, dots, hyphens, or underscores"
    );
}

#[test]
fn marketplace_catalogs_are_validated() {
    assert!(marketplace_problems("mkt", &vec!["a".into(), "b".into()], &None).is_empty());
    assert_eq!(
        marketplace_problems("bad mkt", &vec!["a".into(), "a".into(), "x y".into()], &Some(vec!["ok".into(), "no/".into()])),
        vec![
            "invalid marketplace name `bad mkt`".to_string(),
            "duplicate plugin entry `a`".to_string(),
            "invalid plugin entry name `x y`".to_string(),
            "invalid allowed dependency marketplace `no/`".to_string(),
        ]
    );
}
