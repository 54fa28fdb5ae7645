use coda_agent::prompt::{PromptStore, VarsSource};
use coda_agent::{substitute, SharedSystemPrompt, SystemPrompt, VarsProvider};
use std::sync::Arc;

struct Fixed(Vec<(String, String)>);

impl VarsSource for Fixed {
    fn vars(&self, _store: &PromptStore) -> Vec<(String, String)> {
        self.0.clone()
    }
}

struct FromHandle {
    name: String,
    handle: SharedSystemPrompt,
}

impl VarsSource for FromHandle {
    fn vars(&self, store: &PromptStore) -> Vec<(String, String)> {
        vec![(self.name.clone(), self.handle.get(store))]
    }
}

fn provider(source: impl VarsSource + 'static) -> VarsProvider {
    VarsProvider {
        source: Arc::new(Box::new(source)),
    }
}

#[test]
fn resolve_base_only() {
    let mut store = PromptStore::new();
    let sp = SystemPrompt::from_text(&mut store, "base body".to_string());
    assert_eq!(sp.resolve(&store), "base body");
}

#[test]
fn resolve_composes_everything_from_vars_including_authored_content() {
    // The base body places both the env date and the workspace's AGENTS.md (as a variable). The AGENTS.md
    // value contains `{{date}}` but, being a binding value, is not scanned again: it stays verbatim.
    let vars = provider(Fixed(vec![
        ("date".into(), "2026-07-24".into()),
        (
            "workspace_custom_instructions".into(),
            "be concise. today is {{date}}".into(),
        ),
    ]));
    let mut store = PromptStore::new();
    let sp = SystemPrompt::new(SharedSystemPrompt::new(
        &mut store,
        "today: {{date}}\n---\n{{workspace_custom_instructions}}".to_string(),
    ))
    .with_vars(vars);
    assert_eq!(
        sp.resolve(&store),
        "today: 2026-07-24\n---\nbe concise. today is {{date}}"
    );
}

#[test]
fn resolve_injects_empty_string_for_empty_bindings() {
    let vars = provider(Fixed(vec![("available_skills".into(), String::new())]));
    let mut store = PromptStore::new();
    let sp = SystemPrompt::new(SharedSystemPrompt::new(
        &mut store,
        "root{{available_skills}}".to_string(),
    ))
    .with_vars(vars);
    assert_eq!(sp.resolve(&store), "root");
}

#[test]
fn substitute_leaves_unknown_and_malformed_placeholders_untouched() {
    let vars = [("date".to_string(), "2026-07-23".to_string())];
    // Unknown name, no closing braces, and a non-name span all pass through.
    assert_eq!(
        substitute("{{date}} {{unknown}} {{ a b }} {{oops", &vars),
        "2026-07-23 {{unknown}} {{ a b }} {{oops"
    );
}

#[test]
fn substitute_does_not_rescan_values() {
    // A value containing `{{date}}` must not be expanded again.
    let vars = [("x".to_string(), "{{date}}".to_string())];
    assert_eq!(substitute("{{x}}", &vars), "{{date}}");
}

#[test]
fn resolve_reflects_binding_handle_updates_in_place() {
    // A binding sourced from a shared handle reflects in-place updates on the next resolve.
    let mut store = PromptStore::new();
    let handle = SharedSystemPrompt::new(&mut store, "old".to_string());
    let vars = provider(FromHandle {
        name: "available_skills".to_string(),
        handle,
    });
    let sp = SystemPrompt::new(SharedSystemPrompt::new(
        &mut store,
        "skills: {{available_skills}}".to_string(),
    ))
    .with_vars(vars);
    assert_eq!(sp.resolve(&store), "skills: old");
    handle.set(&mut store, "new".to_string());
    assert_eq!(sp.resolve(&store), "skills: new");
}

#[test]
fn a_set_reaches_the_holders_of_one_text_only() {
    let mut store = PromptStore::new();
    let one = SharedSystemPrompt::new(&mut store, "one".to_string());
    let other = SharedSystemPrompt::new(&mut store, "other".to_string());
    let same = one;
    one.set(&mut store, "changed".to_string());
    assert_eq!(same.get(&store), "changed");
    assert_eq!(other.get(&store), "other");
}

#[test]
fn substitute_without_bindings_changes_nothing() {
    assert_eq!(substitute("a {{b}} {{ c", &[]), "a {{b}} {{ c");
}

#[test]
fn substitute_trims_names_and_keeps_text_without_placeholders() {
    let vars = [("x".to_string(), "1".to_string())];
    assert_eq!(substitute("{{ x }}-{{x}}", &vars), "1-1");
    assert_eq!(substitute("no placeholders { } here", &vars), "no placeholders { } here");
}

#[test]
fn substitute_takes_the_first_binding_of_a_name() {
    let vars = [
        ("x".to_string(), "first".to_string()),
        ("x".to_string(), "second".to_string()),
    ];
    assert_eq!(substitute("{{x}}", &vars), "first");
}

#[test]
fn a_handle_is_in_the_store_it_was_made_in() {
    let mut store = PromptStore::new();
    let handle = SharedSystemPrompt::new(&mut store, "text".to_string());
    assert!(handle.is_in(&store));
    assert!(!handle.is_in(&PromptStore::new()));
}
