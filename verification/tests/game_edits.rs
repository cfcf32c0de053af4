use ira::game_edits::{rename_in_list, ListedGame};
use ira::game_edits::{general_page_rows, GeneralPageKind, GeneralPageRows, ServiceIds, TrophySourceTag};
use ira::game_edits::{dlc_page_shown, migration_label, migration_uses_prefix, steam_logo_reset_offered, SaveMigration};
use ira::game_edits::{
    app_id_column, renamed_variant, selected_runtime, steam_link_edit, AppIdColumn, RuntimeKind,
    SteamLinkEdit,
};

#[test]
fn steam_link_edits() {
    assert_eq!(steam_link_edit(" 620 ", "570"), SteamLinkEdit::Store("620".to_string()));
    assert_eq!(steam_link_edit("620", "620"), SteamLinkEdit::Unchanged);
    assert_eq!(steam_link_edit("abc", ""), SteamLinkEdit::Invalid);
    assert_eq!(steam_link_edit("  ", "620"), SteamLinkEdit::Store(String::new()));
    assert_eq!(steam_link_edit("", ""), SteamLinkEdit::Unchanged);
}

#[test]
fn app_id_columns() {
    assert_eq!(app_id_column("1", "1", true, false), None);
    assert_eq!(app_id_column("2", "1", true, false), Some((AppIdColumn::SteamAndNative, false)));
    assert_eq!(app_id_column("2", "1", false, true), Some((AppIdColumn::RetroAchievements, false)));
    assert_eq!(app_id_column("", "1", false, true), Some((AppIdColumn::Native, true)));
    assert_eq!(app_id_column("CUSA1", "", false, false), Some((AppIdColumn::Native, false)));
}

#[test]
fn variants_follow_a_rename() {
    assert_eq!(renamed_variant("Doom (GOG)", "Doom", "DOOM"), "DOOM (GOG)");
    assert_eq!(renamed_variant("Quake", "Doom", "DOOM"), "Quake");
    assert_eq!(renamed_variant("Do", "Doom", "DOOM"), "Do");
    assert_eq!(renamed_variant(renamed_variant("Doom II", "Doom", "X").as_str(), "X", "Doom"), "Doom II");
}

#[test]
fn saved_titles_are_trimmed() {
    assert_eq!(ira::game_edits::saved_title("  Metroid Prime \t"), "Metroid Prime");
    assert_eq!(ira::game_edits::saved_title("   "), "");
}

#[test]
fn default_rows_choose_nothing() {
    assert_eq!(ira::game_edits::choice_after_default(0), None);
    assert_eq!(ira::game_edits::choice_after_default(3), Some(2));
    let gpus = vec!["GPU A".to_string(), "GPU B".to_string()];
    assert_eq!(ira::game_edits::gpu_choice(None, &gpus), "");
    assert_eq!(ira::game_edits::gpu_choice(Some(0), &gpus), "");
    assert_eq!(ira::game_edits::gpu_choice(Some(2), &gpus), "GPU B");
    assert_eq!(ira::game_edits::gpu_choice(Some(3), &gpus), "");
}

#[test]
fn wine_profile_choice() {
    let ids = vec![11, 22];
    assert_eq!(ira::game_edits::chosen_profile(None, &ids, Some(5)), Some(5));
    assert_eq!(ira::game_edits::chosen_profile(Some(0), &ids, Some(5)), None);
    assert_eq!(ira::game_edits::chosen_profile(Some(2), &ids, None), Some(22));
    assert_eq!(ira::game_edits::chosen_profile(Some(3), &ids, None), None);
}

#[test]
fn runtime_row_picks_wine_or_linux() {
    assert_eq!(selected_runtime(Some(0)), Some(RuntimeKind::Wine));
    assert_eq!(selected_runtime(Some(1)), Some(RuntimeKind::Linux));
    assert_eq!(selected_runtime(Some(2)), None);
    assert_eq!(selected_runtime(None), None);
}

#[test]
fn override_marks_are_added_once_and_dropped_entirely() {
    let mut fields = vec!["audio".to_string()];
    ira::game_edits::mark_overridden(&mut fields, "dll_overrides", true);
    assert_eq!(fields, vec!["audio".to_string(), "dll_overrides".to_string()]);
    ira::game_edits::mark_overridden(&mut fields, "dll_overrides", true);
    assert_eq!(fields, vec!["audio".to_string(), "dll_overrides".to_string()]);
    let mut twice = vec!["dll_overrides".to_string(), "audio".to_string(), "dll_overrides".to_string()];
    ira::game_edits::mark_overridden(&mut twice, "dll_overrides", false);
    assert_eq!(twice, vec!["audio".to_string()]);
}

#[test]
fn unmatch_draft_keys() {
    assert_eq!(ira::game_edits::ra_unmatch_key(42), "__ra_unmatch_42");
    assert_eq!(ira::game_edits::ra_unmatch_key(-3), "__ra_unmatch_-3");
    let keys = vec!["grid".to_string(), "__ra_unmatch_42".to_string()];
    assert_eq!(ira::game_edits::pending_unmatches(&keys, 42), (false, true));
    assert_eq!(ira::game_edits::pending_unmatches(&keys, 7), (false, false));
    let keys = vec!["__unmatch__".to_string()];
    assert_eq!(ira::game_edits::pending_unmatches(&keys, 42), (true, false));
}

#[test]
fn logo_settings_inherit_or_clamp() {
    assert_eq!(
        ira::game_edits::shown_logo_settings("", 80, "bottom-left"),
        ("bottom-left".to_string(), 50)
    );
    assert_eq!(
        ira::game_edits::shown_logo_settings("center", 300, "bottom-left"),
        ("center".to_string(), 100)
    );
    assert_eq!(
        ira::game_edits::steam_logo_settings("", 1, "bottom-left"),
        ("bottom-left".to_string(), 5)
    );
    assert_eq!(ira::game_edits::steam_logo_settings("top", 40, "x"), ("top".to_string(), 40));
}

#[test]
fn override_dropdowns_show_and_stage_overrides() {
    let emulators = vec!["retroarch -L a".to_string(), "duckstation".to_string()];
    assert_eq!(ira::game_edits::override_row(&emulators, ""), 0);
    assert_eq!(ira::game_edits::override_row(&emulators, "duckstation"), 2);
    assert_eq!(ira::game_edits::override_row(&emulators, "pcsx2"), 0);
    assert_eq!(ira::game_edits::override_pick(&emulators, 0), Some(String::new()));
    assert_eq!(ira::game_edits::override_pick(&emulators, 1), Some("retroarch -L a".to_string()));
    assert_eq!(ira::game_edits::override_pick(&emulators, 3), None);
}

fn card(id: Option<i64>, deleted: bool, name: &str) -> ira::game_edits::VariantCard {
    ira::game_edits::VariantCard { id, deleted, name: name.to_string() }
}

#[test]
fn variant_save_deletes_then_writes_named_cards() {
    let cards = vec![
        card(Some(4), false, "Director's Cut"),
        card(Some(5), true, "Old"),
        card(None, true, "Never stored"),
        card(None, false, "New"),
        card(Some(6), false, ""),
    ];
    let (deletes, writes) = ira::game_edits::variant_save_plan(&cards);
    assert_eq!(deletes, vec![5]);
    assert_eq!(writes, vec![0, 3]);
    assert_eq!(ira::game_edits::variant_logo(true, "top", 40), ("top".to_string(), 40));
    assert_eq!(ira::game_edits::variant_logo(false, "top", 40), (String::new(), 0));
}

#[test]
fn dialog_pages_follow_the_game() {
    assert!(dlc_page_shown(false));
    assert!(!dlc_page_shown(true));
    assert!(steam_logo_reset_offered(true, "620"));
    assert!(!steam_logo_reset_offered(true, ""));
    assert!(!steam_logo_reset_offered(false, "620"));
    assert!(migration_uses_prefix(true, true));
    assert!(!migration_uses_prefix(true, false));
    assert!(!migration_uses_prefix(false, true));
}

#[test]
fn save_migration_labels() {
    assert_eq!(migration_label(&SaveMigration::NoSavePaths), "No save paths known");
    assert_eq!(migration_label(&SaveMigration::Failed), "Save migration failed");
    assert_eq!(migration_label(&SaveMigration::Moved(3)), "Migrated 3 save folder(s)");
    assert_eq!(migration_label(&SaveMigration::Moved(12)), "Migrated 12 save folder(s)");
    assert_eq!(migration_label(&SaveMigration::Moved(0)), "Already centralized");
}

#[test]
fn general_page_groups_follow_kind_and_trophies() {
    let steam = general_page_rows(GeneralPageKind::Steam, TrophySourceTag::Other, true, true, true, true);
    assert_eq!(steam, GeneralPageRows { game_file: false, shadps4_version: false, emulator: false, service_ids: None, language: false });
    let ps4 = general_page_rows(GeneralPageKind::Ps4, TrophySourceTag::SteamEmulator, true, true, true, false);
    assert_eq!(ps4, GeneralPageRows { game_file: true, shadps4_version: true, emulator: false, service_ids: Some(ServiceIds::Ps4Codes), language: false });
    let retro = general_page_rows(GeneralPageKind::Retro, TrophySourceTag::Other, false, true, true, true);
    assert_eq!(retro, GeneralPageRows { game_file: false, shadps4_version: false, emulator: true, service_ids: None, language: false });
    let gse = general_page_rows(GeneralPageKind::Other, TrophySourceTag::SteamEmulator, true, false, false, true);
    assert_eq!(gse.service_ids, Some(ServiceIds::SteamAppId));
    assert!(gse.language);
    let nge = general_page_rows(GeneralPageKind::Other, TrophySourceTag::GogEmulator, true, false, false, false);
    assert_eq!(nge.service_ids, Some(ServiceIds::GogProductId));
    assert!(!nge.language);
}

fn listed(db_id: i64, variant: bool, name: &str, sort: &str) -> ListedGame {
    ListedGame { db_id, is_variant: variant, name: name.to_string(), sort_title: sort.to_string() }
}

#[test]
fn renaming_updates_the_games_list() {
    let mut games = vec![
        listed(1, true, "Doom (GOG)", "doom"),
        listed(1, false, "Doom", "doom"),
        listed(1, true, "Other cut", "x"),
        listed(2, false, "Doom 2", "doom 2"),
    ];
    rename_in_list(&mut games, 1, "DOOM", "doom classic");
    assert_eq!(games[0].name, "DOOM (GOG)");
    assert_eq!(games[0].sort_title, "doom");
    assert_eq!(games[1].name, "DOOM");
    assert_eq!(games[1].sort_title, "doom classic");
    assert_eq!(games[2].name, "Other cut");
    assert_eq!(games[3].name, "Doom 2");
    // A game missing from the list changes nothing.
    rename_in_list(&mut games, 9, "X", "x");
    assert_eq!(games[1].name, "DOOM");
    assert_eq!(games.len(), 4);
}
