use ira::grouping::{format_last_played, group_categories, group_key, GroupBy, GroupKeyInput};

fn keys(v: &[&str]) -> Vec<String> {
    v.iter().map(|s| s.to_string()).collect()
}

#[test]
fn sections_merge_names_up_to_ascii_case_and_sort_by_name() {
    let cats = group_categories(false, &keys(&["Sega", "atari", "SEGA", "Nintendo", "Atari"]));
    let names: Vec<&str> = cats.iter().map(|c| c.name.as_str()).collect();
    assert_eq!(names, vec!["atari", "Nintendo", "Sega"]);
    assert_eq!(cats[0].members, vec![1, 4]);
    assert_eq!(cats[1].members, vec![3]);
    assert_eq!(cats[2].members, vec![0, 2]);
}

#[test]
fn year_sections_go_newest_first_with_unknowns_last() {
    let cats = group_categories(true, &keys(&["1998", "Unknown year", "2004", "1998"]));
    let names: Vec<&str> = cats.iter().map(|c| c.name.as_str()).collect();
    assert_eq!(names, vec!["2004", "1998", "Unknown year"]);
    assert_eq!(cats[1].members, vec![0, 3]);
}

#[test]
fn no_games_no_sections() {
    assert!(group_categories(false, &vec![]).is_empty());
}

fn input(ts: i64, entity: Option<&str>) -> GroupKeyInput {
    GroupKeyInput {
        name: "Half-Life".into(),
        console_name: "PC".into(),
        release_timestamp: ts,
        entity_name: entity.map(|s| s.to_string()),
    }
}

#[test]
fn group_keys_per_dimension() {
    assert_eq!(group_key(&input(0, None), GroupBy::Console), "PC");
    assert_eq!(group_key(&input(0, None), GroupBy::Off), "Half-Life");
    assert_eq!(group_key(&input(0, None), GroupBy::Year), "Unknown year");
    assert_eq!(group_key(&input(910_000_000, None), GroupBy::Year), "1998");
    assert_eq!(group_key(&input(0, Some("Valve")), GroupBy::Developer), "Valve");
    assert_eq!(group_key(&input(0, None), GroupBy::Genre), "Uncategorized");
}

#[test]
fn last_played_labels() {
    assert_eq!(format_last_played(0), "Never");
    assert_eq!(format_last_played(935_452_800), "Aug 24");
    assert_eq!(format_last_played(i64::MAX), "Never");
}
