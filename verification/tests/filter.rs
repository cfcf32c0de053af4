use std::collections::{HashMap, HashSet};
use ira::filter::{
    compare_credited, filter_and_sort_by_credit, filter_games, game_passes, sort_by_credited,
    FilterGame, GameFilter, GroupSelection,
};

fn game(db_id: i64, hidden: bool, credited: Option<&str>, title: &str) -> FilterGame {
    FilterGame {
        db_id,
        hidden,
        matches_search: false,
        credited: credited.map(|s| s.to_string()),
        sort_key: title.to_string(),
    }
}

fn all_games_filter() -> GameFilter {
    GameFilter {
        show_hidden: false,
        searching: false,
        group: GroupSelection::AllGames,
        group_members: HashMap::from([(10, HashSet::from([1, 3])), (20, HashSet::from([3]))]),
        derived_members: vec![("PlayStation".to_string(), 2), ("PlayStation".to_string(), 4)],
    }
}

fn library() -> Vec<FilterGame> {
    vec![
        game(1, false, Some("Sega"), "Sonic"),
        game(2, false, Some("Capcom"), "Mega Man"),
        game(3, true, None, "Zelda"),
        game(4, false, Some("Capcom"), "ace attorney"),
    ]
}

#[test]
fn hidden_games_are_left_out_unless_shown() {
    let games = library();
    let mut f = all_games_filter();
    assert_eq!(filter_games(&games, &f), vec![0, 1, 3]);
    f.show_hidden = true;
    assert_eq!(filter_games(&games, &f), vec![0, 1, 2, 3]);
}

#[test]
fn a_collection_shows_its_members() {
    let games = library();
    let mut f = all_games_filter();
    f.show_hidden = true;
    f.group = GroupSelection::Collection(10);
    assert_eq!(filter_games(&games, &f), vec![0, 2]);
    f.group = GroupSelection::Collection(30);
    assert_eq!(filter_games(&games, &f), Vec::<usize>::new());
}

#[test]
fn uncategorized_shows_games_in_no_collection() {
    let games = library();
    let mut f = all_games_filter();
    f.show_hidden = true;
    f.group = GroupSelection::Uncategorized;
    assert_eq!(filter_games(&games, &f), vec![1, 3]);
}

#[test]
fn a_metadata_category_shows_its_members() {
    let games = library();
    let mut f = all_games_filter();
    f.group = GroupSelection::Derived("PlayStation".to_string());
    assert_eq!(filter_games(&games, &f), vec![1, 3]);
    f.group = GroupSelection::Derived("Playstation".to_string());
    assert_eq!(filter_games(&games, &f), Vec::<usize>::new());
}

#[test]
fn a_search_looks_past_the_group_but_not_past_hiding() {
    let mut games = library();
    games[0].matches_search = true;
    games[2].matches_search = true;
    let mut f = all_games_filter();
    f.group = GroupSelection::Derived("PlayStation".to_string());
    f.searching = true;
    assert_eq!(filter_games(&games, &f), vec![0]);
    assert!(game_passes(&games[0], &f));
    assert!(!game_passes(&games[2], &f));
    f.show_hidden = true;
    assert_eq!(filter_games(&games, &f), vec![0, 2]);
}

#[test]
fn credited_order_puts_names_then_titles_then_the_uncredited() {
    let games = library();
    let kept = vec![0, 1, 2, 3];
    // Capcom (ace attorney before Mega Man, case folded), then Sega, then
    // the game without a credited name.
    assert_eq!(sort_by_credited(&games, &kept, false), vec![3, 1, 0, 2]);
    // Descending reverses it.
    assert_eq!(sort_by_credited(&games, &kept, true), vec![2, 0, 1, 3]);
}

#[test]
fn credited_ties_break_on_the_insertion_id() {
    let games = vec![
        game(7, false, Some("Nintendo"), "Metroid"),
        game(2, false, Some("Nintendo"), "metroid"),
        game(3, false, Some("Atari"), "Pong"),
    ];
    let kept = vec![0, 1, 2];
    assert_eq!(sort_by_credited(&games, &kept, false), vec![2, 1, 0]);
    assert_eq!(sort_by_credited(&games, &kept, true), vec![0, 1, 2]);
    assert_eq!(compare_credited(&games[1], &games[0], false), -1);
    assert_eq!(compare_credited(&games[1], &games[0], true), 1);
    assert_eq!(compare_credited(&games[0], &games[0], false), 0);
}

#[test]
fn compare_credited_flips_when_descending() {
    let a = game(1, false, Some("Alpha"), "X");
    let b = game(2, false, Some("Beta"), "X");
    assert_eq!(compare_credited(&a, &b, false), -1);
    assert_eq!(compare_credited(&a, &b, true), 1);
    assert_eq!(compare_credited(&b, &a, false), 1);
    let none = game(3, false, None, "A");
    assert_eq!(compare_credited(&none, &a, false), 1);
    assert_eq!(compare_credited(&none, &a, true), -1);
}

#[test]
fn filter_then_sort_by_credit() {
    let games = library();
    let f = all_games_filter();
    assert_eq!(filter_and_sort_by_credit(&games, &f, false), vec![3, 1, 0]);
    assert_eq!(filter_and_sort_by_credit(&games, &f, true), vec![0, 1, 3]);
}
