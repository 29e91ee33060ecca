use velvet::gallery::{Gallery, GalleryEntry, GalleryError, GalleryFile};

fn sample_gallery() -> Gallery {
    let mut g = Gallery::new();
    g.register(
        GalleryEntry::new("cg01", "Sunset", "cg/sunset.png")
            .with_group("ch1")
            .with_sort_order(2),
    );
    g.register(
        GalleryEntry::new("cg00", "Title", "cg/title.png")
            .with_group("ch1")
            .with_sort_order(1)
            .default_unlocked(),
    );
    g.register(
        GalleryEntry::new("cg02", "Harbor", "cg/harbor.png")
            .with_group("ch2")
            .with_sort_order(1),
    );
    g
}

#[test]
fn default_unlocked_and_progress() {
    let g = sample_gallery();
    assert!(g.is_unlocked("cg00"));
    assert!(!g.is_unlocked("cg01"));
    assert_eq!(g.progress(), (1, 3));
}

#[test]
fn unlock_and_list_sorted() {
    let mut g = sample_gallery();
    assert!(g.unlock("cg01").unwrap());
    assert!(!g.unlock("cg01").unwrap()); // already unlocked
    let list = g.list_unlocked();
    assert_eq!(list.len(), 2);
    assert_eq!(list[0].id, "cg00");
    assert_eq!(list[1].id, "cg01");
}

#[test]
fn unlock_unknown_errors() {
    let mut g = sample_gallery();
    assert!(matches!(g.unlock("missing"), Err(GalleryError::NotFound(_))));
    assert!(!g.unlock_if_known("missing"));
}

#[test]
fn group_filter_and_list_all() {
    let mut g = sample_gallery();
    g.unlock("cg02").unwrap();
    let ch2 = g.list_unlocked_in_group("ch2");
    assert_eq!(ch2.len(), 1);
    assert_eq!(ch2[0].id, "cg02");
    let all = g.list_all();
    assert_eq!(all.len(), 3);
    assert_eq!(all[0].0.id, "cg00");
    assert!(all[0].1);
}

#[test]
fn save_unlock_roundtrip() {
    let mut g = sample_gallery();
    g.unlock("cg01").unwrap();
    let set = g.unlock_set();
    let mut g2 = sample_gallery();
    g2.clear_unlocks();
    assert!(!g2.is_unlocked("cg01"));
    g2.apply_unlock_set(set);
    assert!(g2.is_unlocked("cg00"));
    assert!(g2.is_unlocked("cg01"));
}

#[test]
fn list_all_orders_by_sort_order_then_id() {
    let g = sample_gallery();
    let all = g.list_all();
    let ids: Vec<&str> = all.iter().map(|(e, _)| e.id.as_str()).collect();
    assert_eq!(ids, vec!["cg00", "cg02", "cg01"]);
    let flags: Vec<bool> = all.iter().map(|(_, u)| *u).collect();
    assert_eq!(flags, vec![true, false, false]);
}

#[test]
fn register_replaces_same_id() {
    let mut g = sample_gallery();
    g.register(GalleryEntry::new("cg01", "Dusk", "cg/dusk.png"));
    assert_eq!(g.progress(), (1, 3));
    assert_eq!(g.get("cg01").unwrap().title, "Dusk");
    assert!(g.contains("cg02"));
    assert!(!g.contains("nope"));
    assert!(g.get("nope").is_none());
}

#[test]
fn unlock_is_idempotent_and_error_leaves_state() {
    let mut g = sample_gallery();
    let before = g.unlock_set();
    assert!(g.unlock("ghost").is_err());
    assert_eq!(g.unlock_set(), before);
    assert!(g.unlock_if_known("cg02"));
    assert!(!g.unlock_if_known("cg02"));
    assert_eq!(g.progress(), (2, 3));
}

#[test]
fn unlock_set_keeps_unknown_ids_and_clear_restores_defaults() {
    let mut g = sample_gallery();
    g.unlock("cg02").unwrap();
    g.unlock("cg01").unwrap();
    let set = g.unlock_set();
    assert_eq!(set, vec!["cg00".to_string(), "cg01".to_string(), "cg02".to_string()]);
    let mut g2 = sample_gallery();
    g2.clear_unlocks();
    assert_eq!(g2.progress(), (1, 3));
    assert!(g2.is_unlocked("cg00"));
    g2.apply_unlock_set(vec!["cg02".to_string(), "unknown".to_string()]);
    assert!(g2.is_unlocked("cg02"));
    assert!(g2.is_unlocked("unknown"));
    assert_eq!(g2.progress(), (3, 3));
}

#[test]
fn from_file_registers_in_order() {
    let file = GalleryFile {
        entries: vec![
            GalleryEntry::new("a", "A", "a.png").default_unlocked(),
            GalleryEntry::new("b", "B", "b.png"),
        ],
    };
    let g = Gallery::from_file(file);
    assert_eq!(g.progress(), (1, 2));
    assert!(g.is_unlocked("a"));
    assert!(GalleryFile::default().entries.is_empty());
}

#[test]
fn empty_group_listing() {
    let g = sample_gallery();
    assert!(g.list_unlocked_in_group("ch2").is_empty());
    assert_eq!(g.list_unlocked_in_group("ch1").len(), 1);
}
