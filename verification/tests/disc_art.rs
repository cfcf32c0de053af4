use ira::disc_art::{
    disc_ensure_plan, disc_file_base, disc_media_wanted, is_disc_draft_key, keep_missing_media,
    missing_disc_numbers, region_order, rom_region_paths,
};
use std::collections::HashMap;

#[test]
fn test_disc_file_base_numbers_from_one() {
    assert_eq!(disc_file_base(1), "disc1");
    assert_eq!(disc_file_base(3), "disc3");
}

#[test]
fn disc_file_base_writes_the_number_in_full() {
    assert_eq!(disc_file_base(12), "disc12");
    assert_eq!(disc_file_base(0), "disc0");
    assert_eq!(disc_file_base(-2), "disc-2");
}

#[test]
fn test_missing_disc_numbers_skips_present() {
    let discs = vec![1, 2, 3];
    let present = HashMap::from([(1, vec![0u8]), (3, vec![0u8])]);
    assert_eq!(missing_disc_numbers(&discs, &present), vec![2]);
    assert!(missing_disc_numbers(&discs, &HashMap::new()).len() == 3);
    assert!(missing_disc_numbers(&[].to_vec(), &present).is_empty());
}

#[test]
fn disc_draft_keys_are_disc_and_a_number() {
    assert!(is_disc_draft_key("disc1"));
    assert!(is_disc_draft_key("disc12"));
    assert!(!is_disc_draft_key("disc"));
    assert!(!is_disc_draft_key("disc1a"));
    assert!(!is_disc_draft_key("icon"));
    assert!(!is_disc_draft_key("Disc1"));
    assert!(!is_disc_draft_key("disc0"));
    assert!(!is_disc_draft_key("disc00"));
    assert!(is_disc_draft_key("disc01"));
    assert!(is_disc_draft_key("disc10"));
    assert!(!is_disc_draft_key("disc-1"));
}

#[test]
fn region_order_puts_the_rom_region_first() {
    assert_eq!(region_order(None), vec!["us", "wor", "ss", "eu", "jp"]);
    assert_eq!(region_order(Some("jp")), vec!["jp", "us", "wor", "ss", "eu"]);
    assert_eq!(region_order(Some("fr")), vec!["fr", "us", "wor", "ss", "eu", "jp"]);
}

#[test]
fn media_wanted_needs_missing_discs_and_a_match() {
    assert!(disc_media_wanted(&vec![2], "123"));
    assert!(!disc_media_wanted(&vec![], "123"));
    assert!(!disc_media_wanted(&vec![2], ""));
}

#[test]
fn only_requested_discs_are_kept() {
    let media = vec![(1, vec![1u8]), (2, vec![2u8]), (2, vec![3u8]), (4, vec![4u8])];
    let kept = keep_missing_media(media, &vec![2, 4]);
    assert_eq!(kept.len(), 2);
    assert_eq!(kept.get(&2), Some(&vec![3u8]));
    assert_eq!(kept.get(&4), Some(&vec![4u8]));
    assert!(kept.get(&1).is_none());
}

#[test]
fn ensure_plan_skips_single_disc_complete_and_unmatched_games() {
    let present = HashMap::from([(1, vec![0u8])]);
    assert_eq!(disc_ensure_plan(&vec![1], &HashMap::new(), "9"), None);
    assert_eq!(disc_ensure_plan(&vec![1, 2], &present, "9"), Some(vec![2]));
    assert_eq!(disc_ensure_plan(&vec![1, 2], &present, ""), None);
    let all = HashMap::from([(1, vec![0u8]), (2, vec![0u8])]);
    assert_eq!(disc_ensure_plan(&vec![1, 2], &all, "9"), None);
}

#[test]
fn rom_paths_add_the_game_path_when_set() {
    let discs = vec!["a.cue".to_string(), "b.cue".to_string()];
    assert_eq!(rom_region_paths(discs.clone(), "game.m3u".to_string()).len(), 3);
    assert_eq!(rom_region_paths(discs, String::new()).len(), 2);
}

#[test]
fn disc_tiles_caption_and_columns() {
    assert_eq!(ira::disc_art::disc_caption("", 2), "Disc 2");
    assert_eq!(ira::disc_art::disc_caption("Install disc", 1), "Install disc");
    assert_eq!(ira::disc_art::picker_min_columns(0), 1);
    assert_eq!(ira::disc_art::picker_min_columns(1), 1);
    assert_eq!(ira::disc_art::picker_min_columns(4), 2);
}
