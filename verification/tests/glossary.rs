use velvet::glossary::{Glossary, GlossaryError, GlossaryTerm};

fn sample() -> Glossary {
    let mut g = Glossary::new();
    g.register(
        GlossaryTerm::new("aether", "Aether", "A luminous energy used by mages.")
            .with_category("magic")
            .with_aliases(&["ether", "mana-light"])
            .default_unlocked(),
    );
    g.register(
        GlossaryTerm::new("velvet", "Velvet Order", "A secretive guild.")
            .with_category("factions")
            .with_aliases(&["order"]),
    );
    g.register(GlossaryTerm::new("harbor", "Old Harbor", "Coastal trade hub.").with_category("places"));
    g
}

#[test]
fn unlock_and_lookup() {
    let mut g = sample();
    assert!(g.lookup("aether").is_some());
    assert!(g.lookup("velvet").is_none());
    assert!(g.unlock("velvet").unwrap());
    assert_eq!(g.lookup("velvet").unwrap().title, "Velvet Order");
    assert!(matches!(g.unlock("nope"), Err(GlossaryError::NotFound(_))));
}

#[test]
fn search_titles_aliases_body() {
    let mut g = sample();
    g.unlock("velvet").unwrap();
    g.unlock("harbor").unwrap();
    let by_title = g.search("Harbor");
    assert_eq!(by_title.len(), 1);
    assert_eq!(by_title[0].id, "harbor");
    let by_alias = g.search("ether");
    assert_eq!(by_alias.len(), 1);
    assert_eq!(by_alias[0].id, "aether");
    let by_body = g.search("guild");
    assert_eq!(by_body.len(), 1);
    assert_eq!(by_body[0].id, "velvet");
    let empty = g.search("   ");
    assert_eq!(empty.len(), 3);
}

#[test]
fn category_and_progress() {
    let mut g = sample();
    g.unlock("velvet").unwrap();
    let factions = g.list_by_category("factions");
    assert_eq!(factions.len(), 1);
    assert_eq!(g.progress(), (2, 3));
}

#[test]
fn unlock_set_roundtrip() {
    let mut g = sample();
    g.unlock("harbor").unwrap();
    let set = g.unlock_set();
    let mut g2 = sample();
    g2.clear_unlocks();
    g2.apply_unlock_set(set);
    assert!(g2.is_unlocked("aether"));
    assert!(g2.is_unlocked("harbor"));
    assert!(!g2.is_unlocked("velvet"));
}

#[test]
fn search_only_sees_unlocked_terms() {
    let g = sample();
    assert!(g.search("guild").is_empty());
    assert_eq!(g.search("MANA").len(), 1);
    assert_eq!(g.search("").len(), 1);
}

#[test]
fn list_unlocked_sorted_by_title() {
    let mut g = sample();
    g.unlock("velvet").unwrap();
    g.unlock("harbor").unwrap();
    let titles: Vec<&str> = g.list_unlocked().iter().map(|t| t.title.as_str()).collect();
    assert_eq!(titles, vec!["Aether", "Old Harbor", "Velvet Order"]);
}

#[test]
fn get_raw_sees_locked_terms() {
    let g = sample();
    assert!(g.get_raw("velvet").is_some());
    assert!(g.lookup("velvet").is_none());
    assert!(g.get_raw("nope").is_none());
    assert!(g.contains("harbor"));
}

#[test]
fn unlock_twice_reports_false() {
    let mut g = sample();
    assert!(g.unlock("harbor").unwrap());
    assert!(!g.unlock("harbor").unwrap());
    assert!(!g.unlock_if_known("nope"));
    assert!(!g.unlock_if_known("harbor"));
}

#[test]
fn search_does_not_match_category() {
    let mut g = sample();
    g.unlock("velvet").unwrap();
    assert!(g.search("factions").is_empty());
    assert!(g.search("magic").is_empty());
    assert_eq!(g.search("order").len(), 1);
}
