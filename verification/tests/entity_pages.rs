use ira::entity_pages::{move_variant_card, usage_subtitle, EntityKind, Page};
use std::collections::HashMap;

#[test]
fn usage_subtitles() {
    let usage = HashMap::from([(4i64, 12i64)]);
    assert_eq!(usage_subtitle(&usage, 4), "Used by 12 games");
    assert_eq!(usage_subtitle(&usage, 5), "Unused");
}

#[test]
fn pages_names_and_depths() {
    assert_eq!(Page::Root.name(), "root");
    assert_eq!(Page::Merge.name(), "merge");
    assert_eq!(Page::Root.depth(), 0);
    assert_eq!(Page::Search.depth(), 1);
    assert_eq!(Page::Manage.depth(), 1);
    assert_eq!(Page::Entity.depth(), 2);
    assert_eq!(Page::Merge.depth(), 3);
}

#[test]
fn empty_picker_copy() {
    assert_eq!(EntityKind::Genre.empty_text(), "No results found");
    assert_eq!(EntityKind::Publisher.empty_text(), "Companies appear here as games get matched");
}

#[test]
fn variant_cards_move_within_the_list() {
    let mut cards = vec!['a', 'b', 'c'];
    assert_eq!(move_variant_card(&mut cards, 1, -1), Some((0, None)));
    assert_eq!(cards, vec!['b', 'a', 'c']);
    assert_eq!(move_variant_card(&mut cards, 1, 1), Some((2, Some(1))));
    assert_eq!(cards, vec!['b', 'c', 'a']);
    assert_eq!(move_variant_card(&mut cards, 0, -1), None);
    assert_eq!(move_variant_card(&mut cards, 2, 1), None);
    assert_eq!(cards, vec!['b', 'c', 'a']);
}

#[test]
fn manage_buttons_need_a_database_id() {
    assert_eq!(ira::entity_pages::manage_id("42"), Some(42));
    assert_eq!(ira::entity_pages::manage_id("-7"), Some(-7));
    assert_eq!(ira::entity_pages::manage_id("steam:Valve"), None);
    assert_eq!(ira::entity_pages::manage_id(""), None);
}

fn entity(id: &str, name: &str) -> ira::entities::ScraperEntity {
    ira::entities::ScraperEntity { id: id.into(), name: name.into() }
}

#[test]
fn the_add_search_page_marks_what_the_draft_holds() {
    assert_eq!(ira::entity_pages::picker_term("   "), None);
    assert_eq!(ira::entity_pages::picker_term("  cap "), Some("cap".to_string()));
    let answers = vec![entity("1", "Capcom"), entity("2", "Capcom USA")];
    let held = vec![entity("2", "Capcom USA"), entity("9", "cap")];
    let page = ira::entity_pages::picker_page("cap", &answers, &held);
    assert_eq!(page.rows.len(), 2);
    assert_eq!(page.rows[0].entity.name, "Capcom");
    assert_eq!(page.rows[0].subtitle, "id 1");
    assert!(!page.rows[0].added);
    assert!(page.rows[1].added);
    assert_eq!(page.custom_label, "Add \"cap\"");
    assert!(page.custom_added);
    let fresh = ira::entity_pages::picker_page("Sega", &answers, &held);
    assert!(!fresh.custom_added);
}

#[test]
fn merge_candidates_leave_out_the_merged_entity() {
    let rows = vec![(1, "A".to_string()), (2, "B".to_string()), (3, "C".to_string())];
    assert_eq!(
        ira::entity_pages::merge_candidates(&rows, 2),
        vec![(1, "A".to_string()), (3, "C".to_string())]
    );
    assert_eq!(ira::entity_pages::manage_empty_note(""), "Nothing in the cache yet — it fills as games get matched");
    assert_eq!(ira::entity_pages::manage_empty_note("x"), "No results found");
}

#[test]
fn field_rows_name_their_entities() {
    let one = vec![entity("1", "Capcom")];
    let two = vec![entity("1", "Capcom"), entity("2", "Sega")];
    assert_eq!(
        ira::entity_pages::field_row_text(&one, "Developers", "Developer"),
        ("Developer".to_string(), "Capcom".to_string())
    );
    assert_eq!(
        ira::entity_pages::field_row_text(&two, "Developers", "Developer"),
        ("Developers".to_string(), "Capcom, Sega".to_string())
    );
    assert_eq!(
        ira::entity_pages::field_row_text(&Vec::new(), "Developers", "Developer"),
        ("Developers".to_string(), "None".to_string())
    );
    assert!(!ira::entity_pages::field_revert_shown(None, &two));
    assert!(ira::entity_pages::field_revert_shown(Some(&one), &two));
    assert!(!ira::entity_pages::field_revert_shown(Some(&two), &two));
    let twice = vec![entity("1", "Capcom"), entity("1", "Capcom")];
    // A repeat counts: the same names twice are not the pair it replaced.
    assert!(ira::entity_pages::field_revert_shown(Some(&two), &twice));
}
