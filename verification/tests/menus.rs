use ira::menus::{
    checks_for_game, checks_for_games, clear_art, collections_submenu, game_file,
    game_folder_source, game_menu, image_reset_items, multi_hide_item, reset_file_bases,
    AchievementStatus, ArtPaths, FolderSource, GameMenuFacts, MenuItem,
};

fn pairs(items: &[MenuItem]) -> Vec<(String, String)> {
    items.iter().map(|m| (m.label.clone(), m.action.clone())).collect()
}

fn p(label: &str, action: &str) -> (String, String) {
    (label.to_string(), action.to_string())
}

fn plain_facts() -> GameMenuFacts {
    GameMenuFacts {
        hidden: false,
        has_game_location: false,
        has_wine_prefix: false,
        has_save_location: false,
        achievement_status: AchievementStatus::Absent,
        has_manual_script: false,
        deletable: false,
    }
}

#[test]
fn a_plain_game_menu() {
    let m = game_menu(&plain_facts());
    assert_eq!(
        pairs(&m.head),
        vec![
            p("Play", "game.play"),
            p("Edit game settings", "game.edit"),
            p("Controller settings", "game.controller"),
            p("View play history", "game.play_history"),
        ]
    );
    assert_eq!(pairs(&m.open_folder), vec![p("Data location", "game.open_images")]);
    assert_eq!(pairs(&m.tail), vec![p("Hide game", "game.hide")]);
    assert!(m.remove.is_none());
}

#[test]
fn a_wine_game_menu_offers_everything_it_has() {
    let facts = GameMenuFacts {
        hidden: true,
        has_game_location: true,
        has_wine_prefix: true,
        has_save_location: true,
        achievement_status: AchievementStatus::Gog,
        has_manual_script: true,
        deletable: true,
    };
    let m = game_menu(&facts);
    assert_eq!(
        pairs(&m.open_folder),
        vec![
            p("Game location", "game.open_game_folder"),
            p("Wine prefix", "game.open_wine_prefix"),
            p("Data location", "game.open_images"),
            p("Save location", "game.open_save_location"),
            p("Achievement status", "game.open_gog_status"),
        ]
    );
    assert_eq!(
        pairs(&m.tail),
        vec![p("Run manual script", "game.run_manual_script"), p("Unhide game", "game.hide")]
    );
    let remove = m.remove.unwrap();
    assert_eq!((remove.label, remove.action), p("Remove game", "game.delete_game"));
    let mut steam = plain_facts();
    steam.achievement_status = AchievementStatus::Steam;
    assert_eq!(
        pairs(&game_menu(&steam).open_folder)[1],
        p("Achievement status", "game.open_steam_status")
    );
}

#[test]
fn the_game_folder_prefers_the_working_dir_then_the_exe() {
    assert_eq!(
        game_folder_source("/w", "/x/game.exe", "/r/rom.iso"),
        FolderSource::WorkingDir("/w".to_string())
    );
    assert_eq!(
        game_folder_source("", "/x/game.exe", "/r/rom.iso"),
        FolderSource::ParentOf("/x/game.exe".to_string())
    );
    assert_eq!(
        game_folder_source("", "", "/r/rom.iso"),
        FolderSource::ParentOf("/r/rom.iso".to_string())
    );
    assert_eq!(game_folder_source("", "", ""), FolderSource::NoFolder);
    assert_eq!(game_file("/r/rom.iso", false), Some("/r/rom.iso".to_string()));
    assert_eq!(game_file("/r/rom.iso", true), None);
    assert_eq!(game_file("", false), None);
}

#[test]
fn collections_are_checked_for_the_games_in_them() {
    let groups = vec![(1, "Favourites".to_string()), (2, "RPG".to_string())];
    let checks = checks_for_game(&groups, &vec![2, 9]);
    assert_eq!(checks, vec![false, true]);
    let m = collections_submenu(&groups, &checks);
    assert_eq!(m.toggles.len(), 2);
    assert_eq!(m.toggles[0].label, "Favourites");
    assert_eq!(m.toggles[1].label, "✓ RPG");
    assert_eq!(m.toggles[1].group_id, 2);
    assert!(m.separator);
    assert_eq!(m.new_collection.label, "Add to new collection…");
    assert_eq!(m.new_collection.action, "game.new_collection");
    let empty = collections_submenu(&Vec::new(), &Vec::new());
    assert!(!empty.separator);
    assert!(empty.toggles.is_empty());
}

#[test]
fn a_multi_selection_checks_groups_every_game_is_in() {
    let groups = vec![(1, "A".to_string()), (2, "B".to_string())];
    let memberships = vec![vec![1, 2], vec![2]];
    assert_eq!(checks_for_games(&groups, &memberships), vec![false, true]);
    let hide = multi_hide_item(&vec![true, true]);
    assert_eq!((hide.label, hide.action), p("Unhide game", "game.toggle_hide"));
    let hide = multi_hide_item(&vec![true, false]);
    assert_eq!(hide.label, "Hide game");
}

#[test]
fn the_reset_menu_lists_stored_art_in_slot_order() {
    let items = image_reset_items(&vec![false, true, false, false, true, false]).unwrap();
    assert_eq!(
        pairs(&items),
        vec![p("Capsule", "image.reset('vertical')"), p("Logo", "image.reset('logo')")]
    );
    assert!(image_reset_items(&vec![false; 6]).is_none());
}

#[test]
fn a_reset_clears_one_slot_and_its_small_copy() {
    let mut paths = ArtPaths {
        icon: "i".into(),
        hero: "h".into(),
        vertical: "v".into(),
        square: "s".into(),
        header: "hd".into(),
        logo: "l".into(),
    };
    clear_art(&mut paths, "vertical");
    assert_eq!(paths.vertical, "");
    assert_eq!(paths.hero, "h");
    clear_art(&mut paths, "banner");
    assert_eq!((paths.icon.as_str(), paths.logo.as_str()), ("i", "l"));
    assert_eq!(reset_file_bases("logo"), ("logo".to_string(), "logo_small".to_string()));
}
