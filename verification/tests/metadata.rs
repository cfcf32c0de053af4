use ira::entities::ScraperEntity;
use ira::metadata::{set_synopsis, upsert_classification, MassEntityList, ScraperMetadata};

#[test]
fn test_upsert_classification_inserts_then_updates_by_kind() {
    let mut metadata = ScraperMetadata::default();
    upsert_classification(&mut metadata, "PEGI", "18");
    upsert_classification(&mut metadata, "ESRB", "M");
    assert_eq!(metadata.classifications.len(), 2);
    // A second entry for the same board replaces the value — the
    // junction's primary key is (game, kind).
    upsert_classification(&mut metadata, "pegi", "16");
    assert_eq!(metadata.classifications.len(), 2);
    assert_eq!(metadata.classifications[0].kind, "PEGI");
    assert_eq!(metadata.classifications[0].value, "16");
}

#[test]
fn test_upsert_classification_trims_and_needs_both_halves() {
    let mut metadata = ScraperMetadata::default();
    upsert_classification(&mut metadata, "  CERO  ", " C ");
    assert_eq!(
        metadata.classifications.first().map(|c| (c.kind.as_str(), c.value.as_str())),
        Some(("CERO", "C"))
    );
    // Empty boards and empty values store nothing.
    upsert_classification(&mut metadata, "", "18");
    upsert_classification(&mut metadata, "   ", "18");
    upsert_classification(&mut metadata, "PEGI", "");
    upsert_classification(&mut metadata, "PEGI", "   ");
    assert_eq!(metadata.classifications.len(), 1);
}

#[test]
fn upsert_classification_folds_the_board_to_upper_case() {
    let mut metadata = ScraperMetadata::default();
    upsert_classification(&mut metadata, " usk ", "12");
    assert_eq!(metadata.classifications[0].kind, "USK");
    upsert_classification(&mut metadata, "Usk", "16");
    assert_eq!(metadata.classifications.len(), 1);
    assert_eq!(metadata.classifications[0].value, "16");
}

#[test]
fn synopsis_edits_replace_append_and_clear() {
    let mut synopses: Vec<(String, String)> = vec![("en".into(), "Old".into())];
    set_synopsis(&mut synopses, "en", "  New text ");
    assert_eq!(synopses, vec![("en".to_string(), "New text".to_string())]);
    set_synopsis(&mut synopses, "fr", "Texte");
    assert_eq!(synopses.len(), 2);
    assert_eq!(synopses[1], ("fr".to_string(), "Texte".to_string()));
    set_synopsis(&mut synopses, "en", "   ");
    assert_eq!(synopses, vec![("fr".to_string(), "Texte".to_string())]);
}

#[test]
fn mass_lists_target_their_own_field() {
    let mut meta = ScraperMetadata::default();
    let studio = ScraperEntity { id: "s1".into(), name: "Studio".into() };
    assert!(MassEntityList::Developer.add(&mut meta, &studio));
    assert!(!MassEntityList::Developer.add(&mut meta, &studio));
    assert_eq!(meta.developers.len(), 1);
    assert!(meta.publishers.is_empty());
    assert!(MassEntityList::Publisher.add(&mut meta, &studio));
    assert!(MassEntityList::Developer.remove(&mut meta, &"s1".to_string()));
    assert!(meta.developers.is_empty());
    assert_eq!(meta.publishers.len(), 1);
    assert!(!MassEntityList::Genre.remove(&mut meta, &"s1".to_string()));
}

#[test]
fn mass_list_actions_and_titles() {
    assert_eq!(MassEntityList::Family.add_action(), "game.mass_family");
    assert_eq!(MassEntityList::Genre.add_action(), "game.mass_genre");
    assert_eq!(MassEntityList::Developer.add_action(), "game.mass_developer");
    assert_eq!(MassEntityList::Publisher.add_action(), "game.mass_publisher");
    assert_eq!(MassEntityList::Genre.add_dialog_title(), "Add to genre…");
}

#[test]
fn fact_row_texts() {
    assert_eq!(ira::metadata::release_subtitle(""), "Unknown");
    assert_eq!(ira::metadata::release_subtitle("1998-08-24"), "1998-08-24");
    assert_eq!(ira::metadata::ratings_title(1), "Age rating");
    assert_eq!(ira::metadata::ratings_title(0), "Age ratings");
    assert_eq!(ira::metadata::ratings_title(3), "Age ratings");
    assert_eq!(ira::metadata::rating_chip("CERO", "C"), "CERO C");
}
