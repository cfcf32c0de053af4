use ira::entity_edits::EntityEdits;

fn loaded() -> EntityEdits {
    EntityEdits::load(
        "Capcom".to_string(),
        vec![(10, "CAPCOM Co., Ltd.".to_string()), (11, "Capcom USA".to_string())],
    )
}

#[test]
fn a_fresh_page_saves_nothing() {
    let e = loaded();
    assert_eq!(e.original_rowids, vec![10, 11]);
    let plan = e.save_plan().unwrap();
    assert_eq!(plan.rename, None);
    assert!(plan.remove_rowids.is_empty());
    assert!(plan.add_aliases.is_empty());
}

#[test]
fn aliases_stage_once_up_to_ascii_case() {
    let mut e = loaded();
    assert!(e.stage_alias("  Capcom Japan "));
    assert!(!e.stage_alias("CAPCOM JAPAN"));
    assert!(!e.stage_alias("capcom usa"));
    assert!(!e.stage_alias("   "));
    assert_eq!(e.aliases.len(), 3);
    assert_eq!(e.aliases[2].text, "Capcom Japan");
    assert_eq!(e.aliases[2].rowid, None);
}

#[test]
fn save_commits_the_difference() {
    let mut e = loaded();
    e.set_typed_name("  Capcom Co. ");
    e.remove_alias(0);
    assert!(e.stage_alias("Capcom Japan"));
    let plan = e.save_plan().unwrap();
    assert_eq!(plan.rename, Some("Capcom Co.".to_string()));
    assert_eq!(plan.remove_rowids, vec![10]);
    assert_eq!(plan.add_aliases, vec!["Capcom Japan".to_string()]);
}

#[test]
fn an_empty_name_refuses_to_save() {
    let mut e = loaded();
    e.set_typed_name("   ");
    assert_eq!(e.name, "");
    assert!(e.save_plan().is_none());
}
