use ira::entities::{contains_text, group_matches, group_name_to_create, organize_rows, search_groups};
use ira::entities::{add_entity, entities_differ, partition_entities, remove_entity, ScraperEntity};

fn entity(id: &str, name: &str) -> ScraperEntity {
    ScraperEntity { id: id.to_string(), name: name.to_string() }
}

#[test]
fn test_partition_entities_splits_shared_first() {
    let action_rpg = entity("2620", "Action RPG");
    let adventure = entity("12", "Adventure");
    let all = vec![
        vec![action_rpg.clone(), adventure.clone()],
        vec![action_rpg.clone()],
        vec![],
    ];
    let (shared, rest) = partition_entities(&all);
    // Only the id every game holds counts — the third game holds
    // nothing, so nothing is shared.
    assert!(shared.is_empty());
    assert_eq!(rest.len(), 2);
    let all = vec![
        vec![action_rpg.clone(), adventure.clone()],
        vec![adventure.clone(), action_rpg.clone()],
    ];
    let (shared, rest) = partition_entities(&all);
    assert_eq!(shared.len(), 2);
    assert!(rest.is_empty());
    // Order within a section is by name, stable across runs.
    assert!(shared[0].name <= shared[1].name);
}

#[test]
fn partition_orders_by_lowercase_name_then_id() {
    let all = vec![
        vec![entity("3", "beta"), entity("1", "Alpha"), entity("2", "alpha"), entity("9", "Zeta")],
        vec![entity("3", "beta"), entity("1", "Alpha"), entity("2", "alpha")],
    ];
    let (shared, rest) = partition_entities(&all);
    let ids: Vec<&str> = shared.iter().map(|e| e.id.as_str()).collect();
    assert_eq!(ids, vec!["1", "2", "3"]);
    assert_eq!(rest.len(), 1);
    assert_eq!(rest[0].name, "Zeta");
}

#[test]
fn partition_counts_a_repeated_entity_once_and_keeps_the_first_name() {
    let all = vec![vec![entity("7", "First"), entity("7", "Second")], vec![entity("7", "Other")]];
    let (shared, rest) = partition_entities(&all);
    assert_eq!(shared.len(), 1);
    assert_eq!(shared[0].name, "First");
    assert!(rest.is_empty());
    let (shared, rest) = partition_entities(&vec![]);
    assert!(shared.is_empty() && rest.is_empty());
}

#[test]
fn adding_an_entity_twice_is_noise() {
    let mut list = vec![entity("1", "A")];
    assert!(add_entity(&mut list, &entity("2", "B")));
    assert!(!add_entity(&mut list, &entity("2", "B again")));
    assert_eq!(list.len(), 2);
    assert_eq!(list[1].name, "B");
}

#[test]
fn removing_an_entity_drops_every_copy() {
    let mut list = vec![entity("1", "A"), entity("2", "B"), entity("1", "A2")];
    assert!(remove_entity(&mut list, &"1".to_string()));
    assert_eq!(list.len(), 1);
    assert_eq!(list[0].id, "2");
    assert!(!remove_entity(&mut list, &"1".to_string()));
    assert_eq!(list.len(), 1);
}

#[test]
fn remove_undoes_add() {
    let mut list = vec![entity("1", "A")];
    add_entity(&mut list, &entity("5", "E"));
    remove_entity(&mut list, &"5".to_string());
    assert_eq!(list.len(), 1);
    assert_eq!(list[0].id, "1");
}

#[test]
fn entity_lists_differ_on_content_not_order() {
    let a = vec![entity("1", "A"), entity("2", "B")];
    let b = vec![entity("2", "B"), entity("1", "A")];
    assert!(!entities_differ(&a, &b));
    assert!(entities_differ(&a, &vec![entity("1", "A")]));
    assert!(entities_differ(&a, &vec![entity("1", "A"), entity("2", "Bee")]));
    assert!(entities_differ(&vec![entity("1", "A"), entity("1", "A")], &vec![entity("1", "A"), entity("2", "B")]));
    assert!(!entities_differ(&vec![entity("1", "A"), entity("2", "B")], &vec![entity("2", "B"), entity("1", "A")]));
}

#[test]
fn group_search_folds_case_and_trims_the_term() {
    let groups = vec![(3, "Favourites".to_string()), (-7, "RPG Backlog".to_string()), (12, "Co-op".to_string())];
    let all = search_groups(&groups, "   ");
    assert_eq!(all.len(), 3);
    assert_eq!(all[1].id, "-7");
    assert_eq!(all[1].name, "RPG Backlog");
    let hits = search_groups(&groups, "  back ");
    assert_eq!(hits.len(), 1);
    assert_eq!(hits[0].id, "-7");
    assert_eq!(search_groups(&groups, "FAV")[0].id, "3");
    assert!(search_groups(&groups, "zzz").is_empty());
}

#[test]
fn a_new_group_takes_the_trimmed_term() {
    assert_eq!(group_name_to_create("  Racing  "), Some("Racing".to_string()));
    assert_eq!(group_name_to_create(" \t "), None);
    assert_eq!(group_name_to_create(""), None);
}

#[test]
fn contains_text_finds_runs_of_characters() {
    assert!(contains_text("metroid prime", "prime"));
    assert!(contains_text("abc", ""));
    assert!(!contains_text("abc", "abcd"));
    assert!(!contains_text("abc", "ac"));
    assert!(group_matches("anything", ""));
    assert!(!group_matches("racing", "rpg"));
}

#[test]
fn organize_rows_split_shared_from_addable() {
    let held = vec![
        vec![entity("1", "Action"), entity("2", "RPG")],
        vec![entity("2", "RPG"), entity("1", "Action"), entity("3", "Puzzle")],
    ];
    let answers = vec![entity("3", "Puzzle"), entity("1", "Action"), entity("4", "Racing")];
    let rows = organize_rows(&held, &answers, "  ");
    let removed: Vec<&str> = rows.remove.iter().map(|e| e.id.as_str()).collect();
    assert_eq!(removed, vec!["1", "2"]);
    let added: Vec<&str> = rows.add.iter().map(|e| e.id.as_str()).collect();
    assert_eq!(added, vec!["3", "4"]);
    assert!(rows.custom.is_none());

    let rows = organize_rows(&held, &answers, " rp ");
    let removed: Vec<&str> = rows.remove.iter().map(|e| e.id.as_str()).collect();
    assert_eq!(removed, vec!["2"]);
    assert_eq!(rows.custom, Some(("Add \"rp\"".to_string(), true)));

    // Every game already holds an "rpg": the custom row cannot be picked.
    let rows = organize_rows(&held, &Vec::new(), "rpg");
    assert_eq!(rows.custom, Some(("Add \"rpg\"".to_string(), false)));
}
