use coda_agent::capabilities::UnknownCapability;
use coda_agent::{Capabilities, Capability};

/// A configuration: a JSON list of names.
fn configured(input: &str) -> Option<Capabilities> {
    let names: Vec<String> = serde_json::from_str(input).ok()?;
    Capabilities::select(&names).ok()
}

#[test]
fn explicit_lists_replace_the_default_and_deduplicate() {
    assert_eq!(Capabilities::default(), Capabilities::all());
    assert_eq!(configured("[]").unwrap(), Capabilities::none());
    let ptc = configured(r#"["ptc", "ptc"]"#).unwrap();
    assert!(ptc.contains(Capability::Ptc));
    assert!(!ptc.contains(Capability::Background));
}

#[test]
fn rejects_unknown_names_and_non_lists() {
    for input in [r#"["unknown"]"#, r#"["PTC"]"#, "null", "{}", r#""ptc""#] {
        assert!(configured(input).is_none(), "{input}");
    }
}

#[test]
fn the_first_unknown_name_is_reported() {
    let names = vec![
        "ptc".to_string(),
        "nothing".to_string(),
        "also nothing".to_string(),
    ];
    assert_eq!(
        Capabilities::select(&names),
        Err(UnknownCapability {
            name: "nothing".to_string()
        })
    );
}

#[test]
fn a_list_selects_exactly_its_entries() {
    let selected = Capabilities::of(&vec![Capability::Background, Capability::Background]);
    assert!(selected.contains(Capability::Background));
    assert!(!selected.contains(Capability::Ptc));
    assert_eq!(Capabilities::of(&vec![]), Capabilities::none());
    assert_eq!(
        Capabilities::of(&vec![Capability::Ptc, Capability::Background]),
        Capabilities::all()
    );
}

#[test]
fn capabilities_are_found_by_name() {
    assert_eq!(Capability::named("background"), Some(Capability::Background));
    assert_eq!(Capability::named("ptc"), Some(Capability::Ptc));
    assert_eq!(Capability::named("Background"), None);
}
