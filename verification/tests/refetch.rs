use ira::refetch::{steam_read_outcome, steam_refetch_target, steam_store_outcome};
use ira::entities::ScraperEntity;
use ira::metadata::ScraperMetadata;
use ira::refetch::{
    genre_entries, merge_store_extras, pick_release_date, refetch_pace_ms, start_full_refetch,
    start_metadata_refetch, start_steam_refetch, steam_app_id, steam_gaps, steam_refetch_queue,
    RefetchCandidate, RefetchOutcome, RefetchSource, RefetchTally, StoreExtras, StoredRecord,
};

fn full_meta() -> ScraperMetadata {
    let mut meta = ScraperMetadata::default();
    meta.release_date = "1998-08-24".into();
    meta.developers.push(ScraperEntity { id: "d".into(), name: "Dev".into() });
    meta.synopses.push(("en".into(), "Text".into()));
    meta.classifications.push(ira::metadata::ScraperClassification {
        kind: "PEGI".into(),
        value: "12".into(),
    });
    meta
}

fn game(id: i64, link: &str, pc: bool, platform: &str, record: StoredRecord) -> RefetchCandidate {
    RefetchCandidate {
        db_id: id,
        steam_link_id: link.into(),
        is_pc: pc,
        platform_id: platform.into(),
        record,
    }
}

#[test]
fn steam_gaps_spot_each_hole() {
    assert!(!steam_gaps(&full_meta(), false));
    assert!(steam_gaps(&full_meta(), true));
    let mut m = full_meta();
    m.developers.clear();
    assert!(steam_gaps(&m, false));
    m.publishers.push(ScraperEntity { id: "p".into(), name: "Pub".into() });
    assert!(!steam_gaps(&m, false));
    let mut m = full_meta();
    m.synopses.clear();
    assert!(steam_gaps(&m, false));
    let mut m = full_meta();
    m.classifications.clear();
    assert!(steam_gaps(&m, false));
}

#[test]
fn steam_queue_takes_readable_games_with_holes() {
    let games = vec![
        game(1, "", true, "570", StoredRecord::Missing),
        game(2, "", true, "not-an-id", StoredRecord::Missing),
        game(3, "", false, "570", StoredRecord::Missing),
        game(4, "620", false, "SLUS-0001", StoredRecord::Stored { meta: full_meta(), release_date_broken: false }),
        game(5, "620", false, "", StoredRecord::Stored { meta: full_meta(), release_date_broken: true }),
        game(6, "620", false, "", StoredRecord::Unreadable),
    ];
    assert_eq!(steam_refetch_queue(&games, false), vec![1, 5]);
    assert_eq!(steam_refetch_queue(&games, true), vec![1, 4, 5, 6]);
}

#[test]
fn steam_refetch_starts_only_with_work_and_a_free_strip() {
    let games = vec![game(1, "", true, "570", StoredRecord::Missing)];
    assert_eq!(start_steam_refetch(&games, false, true), Some(vec![1]));
    assert_eq!(start_steam_refetch(&games, false, false), None);
    assert_eq!(start_steam_refetch(&vec![], true, true), None);
}

#[test]
fn screenscraper_passes_need_the_quota_an_account_and_work() {
    assert_eq!(start_metadata_refetch(false, true, "me", vec![3], true), Some(vec![3]));
    assert_eq!(start_metadata_refetch(true, true, "me", vec![3], true), None);
    assert_eq!(start_metadata_refetch(false, false, "me", vec![3], true), None);
    assert_eq!(start_metadata_refetch(false, true, "", vec![3], true), None);
    assert_eq!(start_metadata_refetch(false, true, "me", vec![], true), None);
    assert_eq!(start_metadata_refetch(false, true, "me", vec![3], false), None);
}

#[test]
fn full_refetch_runs_steam_then_screenscraper_then_genres() {
    let jobs = start_full_refetch(false, true, "me", &vec![7], &vec![1, 2], true, true).unwrap();
    assert_eq!(
        jobs,
        vec![
            (RefetchSource::Steam, 1),
            (RefetchSource::Steam, 2),
            (RefetchSource::Ss, 7),
            (RefetchSource::GenresTable, 0),
        ]
    );
    assert_eq!(start_full_refetch(false, true, "me", &vec![], &vec![], false, true), None);
    assert_eq!(
        start_full_refetch(false, true, "me", &vec![], &vec![], true, true),
        Some(vec![(RefetchSource::GenresTable, 0)])
    );
    assert_eq!(start_full_refetch(true, true, "me", &vec![7], &vec![], false, true), None);
}

#[test]
fn refetch_pace_by_source() {
    assert_eq!(refetch_pace_ms(RefetchSource::Ss, 0), 0);
    assert_eq!(refetch_pace_ms(RefetchSource::Ss, 3), 1000);
    assert_eq!(refetch_pace_ms(RefetchSource::Steam, 1), 250);
    assert_eq!(refetch_pace_ms(RefetchSource::GenresTable, 2), 250);
}

#[test]
fn steam_app_id_prefers_the_link() {
    assert_eq!(steam_app_id("620", true, "570"), Some("620".to_string()));
    assert_eq!(steam_app_id("620", false, "570"), Some("620".to_string()));
    assert_eq!(steam_app_id("", true, "570"), Some("570".to_string()));
    assert_eq!(steam_app_id("", true, "+0570"), Some("570".to_string()));
    assert_eq!(steam_app_id("", true, "SLUS-0001"), None);
    assert_eq!(steam_app_id("", true, "4294967296"), None);
    // Only a PC game's platform id is a store app id.
    assert_eq!(steam_app_id("", false, "570"), None);
}

#[test]
fn steam_refetch_steps_decide_the_outcome() {
    assert!(matches!(steam_refetch_target(false, "620", true, "570"),
        Err(RefetchOutcome::Failed(m)) if m == "game not found"));
    assert!(matches!(steam_refetch_target(true, "", false, "570"), Err(RefetchOutcome::Unchanged)));
    assert!(matches!(steam_refetch_target(true, "", true, "570"), Ok(id) if id == "570"));
    assert!(matches!(steam_refetch_target(true, "620", false, ""), Ok(id) if id == "620"));
    assert!(matches!(steam_read_outcome(false, true),
        Some(RefetchOutcome::Failed(m)) if m == "steam answered nothing"));
    assert!(matches!(steam_read_outcome(true, false), Some(RefetchOutcome::Unchanged)));
    assert!(steam_read_outcome(true, true).is_none());
    assert!(matches!(steam_store_outcome(Ok(())), RefetchOutcome::Filled));
    assert!(matches!(steam_store_outcome(Err("disk full".to_string())),
        RefetchOutcome::Failed(m) if m == "disk full"));
}

#[test]
fn release_date_prefers_steamcmd() {
    assert_eq!(pick_release_date(Some("2020-01-02"), Some("Jan 3, 2020")), Some("2020-01-02".to_string()));
    assert_eq!(pick_release_date(Some(""), Some("Jan 3, 2020")), Some("Jan 3, 2020".to_string()));
    assert_eq!(pick_release_date(None, Some("")), None);
    assert_eq!(pick_release_date(None, None), None);
}

#[test]
fn store_extras_fill_only_holes() {
    let extras = StoreExtras {
        release_date: String::new(),
        synopsis: "About".into(),
        ratings: vec![("ESRB".into(), "T".into()), ("PEGI".into(), "12".into())],
    };
    let mut empty = ScraperMetadata::default();
    assert!(merge_store_extras(&mut empty, &extras));
    assert_eq!(empty.synopses, vec![("en".to_string(), "About".to_string())]);
    assert_eq!(empty.classifications.len(), 2);
    assert_eq!(empty.classifications[1].kind, "PEGI");
    let mut full = full_meta();
    assert!(!merge_store_extras(&mut full, &extras));
    assert_eq!(full.synopses[0].1, "Text");
    assert_eq!(full.classifications.len(), 1);
}

#[test]
fn tally_counts_filled_and_processed() {
    let mut tally = RefetchTally::new();
    assert!(tally.record(&RefetchOutcome::Filled));
    assert!(!tally.record(&RefetchOutcome::Unchanged));
    assert!(!tally.record(&RefetchOutcome::Failed("steam answered nothing".into())));
    assert_eq!(tally.filled, 1);
    assert_eq!(tally.processed, 3);
    assert_eq!(tally.summary(), "1 of 3 games updated");
}

#[test]
fn genre_rows_without_numeric_ids_are_skipped() {
    let rows = vec![
        ("12".to_string(), "Action".to_string()),
        ("x".to_string(), "Broken".to_string()),
        ("-3".to_string(), "Odd".to_string()),
    ];
    assert_eq!(
        genre_entries(&rows),
        vec![(12, "Action".to_string()), (-3, "Odd".to_string())]
    );
}

#[test]
fn studios_are_refilled_only_when_both_lists_are_empty() {
    let mut meta = ScraperMetadata::default();
    assert!(ira::refetch::needs_companies(&meta));
    meta.publishers.push(ScraperEntity { id: "p".into(), name: "Pub".into() });
    assert!(!ira::refetch::needs_companies(&meta));
    assert!(!ira::refetch::needs_companies(&full_meta()));
}

#[test]
fn steam_merge_fills_a_broken_date_and_missing_extras() {
    let extras = StoreExtras {
        release_date: "Mar 4, 2021".into(),
        synopsis: "About".into(),
        ratings: vec![("ESRB".into(), "M".into())],
    };
    let mut meta = ScraperMetadata::default();
    meta.release_date = "1970-01-01".into();
    assert!(ira::refetch::steam_refetch_merge(&mut meta, true, Some("2021-03-04"), Some(&extras), 1_614_816_000));
    assert_eq!(meta.release_date, "2021-03-04");
    assert_eq!(meta.release_timestamp, 1_614_816_000);
    assert_eq!(meta.synopses, vec![("en".to_string(), "About".to_string())]);
    assert_eq!(meta.classifications.len(), 1);
    assert_eq!(meta.classifications[0].value, "M");

    // Without SteamCMD's date the store page's fills the broken one.
    let mut meta = ScraperMetadata::default();
    assert!(ira::refetch::steam_refetch_merge(&mut meta, true, None, Some(&extras), 1_614_816_000));
    assert_eq!(meta.release_date, "Mar 4, 2021");
}

#[test]
fn steam_merge_leaves_a_sound_record_alone() {
    let extras = StoreExtras {
        release_date: "Mar 4, 2021".into(),
        synopsis: "About".into(),
        ratings: vec![("ESRB".into(), "M".into())],
    };
    let mut meta = full_meta();
    meta.release_timestamp = 903_916_800;
    assert!(!ira::refetch::steam_refetch_merge(&mut meta, false, Some("2021-03-04"), Some(&extras), 1_614_816_000));
    assert_eq!(meta.release_date, "1998-08-24");
    assert_eq!(meta.release_timestamp, 903_916_800);
    assert_eq!(meta.synopses[0].1, "Text");
    let mut meta = full_meta();
    assert!(!ira::refetch::steam_refetch_merge(&mut meta, true, Some(""), None, 1_614_816_000));
    assert_eq!(meta.release_date, "1998-08-24");
}

#[test]
fn a_single_game_refetch_needs_a_free_quota_and_an_id() {
    let busy = ira::refetch::start_refetch_missing(true, Some("9"), "5");
    assert!(matches!(busy, Err(RefetchOutcome::Failed(ref m)) if m == "Another metadata job is running"));
    let none = ira::refetch::start_refetch_missing(false, Some(""), "");
    assert!(matches!(none, Err(RefetchOutcome::Failed(ref m)) if m == "no ScreenScraper id"));
    assert_eq!(ira::refetch::start_refetch_missing(false, Some("9"), "5").ok(), Some("9".to_string()));
    assert_eq!(ira::refetch::start_refetch_missing(false, Some(""), "5").ok(), Some("5".to_string()));
    assert_eq!(ira::refetch::start_refetch_missing(false, None, "5").ok(), Some("5".to_string()));
    assert!(matches!(ira::refetch::refetch_missing_outcome(Ok(true)), RefetchOutcome::Filled));
    assert!(matches!(ira::refetch::refetch_missing_outcome(Ok(false)), RefetchOutcome::Unchanged));
    assert!(matches!(
        ira::refetch::refetch_missing_outcome(Err("entry not found".to_string())),
        RefetchOutcome::Failed(ref m) if m == "entry not found"
    ));
}
