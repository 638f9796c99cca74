use gloss_renderer::scene_names::EntityNames;

#[test]
fn names_find_their_entities() {
    let mut n = EntityNames::new();
    assert_eq!(n.get("mesh"), None);
    n.insert("mesh", 4);
    n.insert("light", 9);
    assert_eq!(n.get("mesh"), Some(4));
    assert_eq!(n.get("light"), Some(9));
    assert!(n.contains("mesh"));
    assert!(!n.contains("cam"));
}

#[test]
fn a_name_stands_for_one_entity() {
    let mut n = EntityNames::new();
    n.insert("mesh", 4);
    n.insert("mesh", 5);
    assert_eq!(n.get("mesh"), Some(5));
    assert_eq!(n.names(), vec!["mesh".to_string()]);
}

#[test]
fn removed_names_are_free() {
    let mut n = EntityNames::new();
    n.insert("a", 1);
    n.insert("b", 2);
    n.insert("c", 3);
    assert_eq!(n.remove("b"), Some(2));
    assert_eq!(n.remove("b"), None);
    assert_eq!(n.get("b"), None);
    assert_eq!(n.get("a"), Some(1));
    assert_eq!(n.get("c"), Some(3));
    let mut names = n.names();
    names.sort();
    assert_eq!(names, vec!["a".to_string(), "c".to_string()]);
}

#[test]
fn get_or_insert_twice_gives_the_same_entity() {
    let mut n = EntityNames::new();
    n.insert("cam", 1);
    assert_eq!(n.get_or_insert("mesh", 7), (7, true));
    assert_eq!(n.get_or_insert("mesh", 8), (7, false));
    assert_eq!(n.get_or_insert("cam", 9), (1, false));
    assert_eq!(n.get("mesh"), Some(7));
    assert_eq!(n.get("cam"), Some(1));
}

#[test]
fn unused_name_counts_up_from_the_start() {
    let mut n = EntityNames::new();
    assert_eq!(n.get_unused_name(0), "ent_0");
    n.insert("ent_0", 1);
    n.insert("ent_1", 2);
    n.insert("ent_3", 3);
    assert_eq!(n.get_unused_name(0), "ent_2");
    assert_eq!(n.get_unused_name(3), "ent_4");
    assert_eq!(n.get_unused_name(12), "ent_12");
    assert_eq!(n.len(), 3);
}

#[test]
fn a_free_default_name_is_found_within_the_number_of_names() {
    let mut n = EntityNames::new();
    for k in 0..10u64 {
        n.insert(&format!("ent_{k}"), k);
    }
    assert_eq!(n.len(), 10);
    assert_eq!(n.get_unused_name(0), "ent_10");
    assert_eq!(n.get_unused_name(9), "ent_10");
}
