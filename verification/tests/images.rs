use ira::images::image_section_buttons;
use ira::images::StripState;
use ira::images::{
    first_landed_path, image_fetch_plan, may_claim_strip, may_report_image_save,
    needs_screenscraper_square, sgdb_identity, square_sources, start_missing_images_fetch,
    ImageFetchCandidate, ImageFetchPlan, ImageFetchRefusal, SgdbIdentity, SquareSource,
};

fn candidate(sgdb: &str, native: bool, steam: bool, ss: &str) -> ImageFetchCandidate {
    ImageFetchCandidate {
        sgdb_id: sgdb.into(),
        native_square: native,
        steam_enriched: steam,
        screenscraper_id: ss.into(),
    }
}

#[test]
fn matched_games_get_the_full_ensure() {
    assert_eq!(image_fetch_plan(&candidate("42", false, false, "")), ImageFetchPlan::Ensure);
    assert_eq!(image_fetch_plan(&candidate("", true, true, "")), ImageFetchPlan::Ensure);
    assert_eq!(image_fetch_plan(&candidate("", false, false, "9")), ImageFetchPlan::Ensure);
}

#[test]
fn unmatched_native_games_import_their_icon_and_others_are_skipped() {
    assert_eq!(image_fetch_plan(&candidate("", true, false, "")), ImageFetchPlan::ImportNative);
    assert_eq!(image_fetch_plan(&candidate("", false, false, "")), ImageFetchPlan::Skip);
}

#[test]
fn screenscraper_square_only_for_squareless_non_native_games() {
    assert!(needs_screenscraper_square(false, false));
    assert!(!needs_screenscraper_square(true, false));
    assert!(!needs_screenscraper_square(false, true));
}

#[test]
fn missing_images_pass_refusals_in_order() {
    let games = vec![candidate("", false, false, ""), candidate("1", false, false, "")];
    assert_eq!(start_missing_images_fetch(false, true, &games), Err(ImageFetchRefusal::NoStrip));
    assert_eq!(start_missing_images_fetch(true, true, &games), Err(ImageFetchRefusal::Busy));
    let nothing = vec![candidate("", false, false, "")];
    assert_eq!(
        start_missing_images_fetch(true, false, &nothing),
        Err(ImageFetchRefusal::NothingToFetch)
    );
    assert_eq!(ImageFetchRefusal::Busy.message(), "A job is already running");
    assert_eq!(ImageFetchRefusal::NoStrip.message(), "Nothing to fetch right now");
    assert_eq!(ImageFetchRefusal::NothingToFetch.message(), "No games to fetch images for");
}

#[test]
fn missing_images_pass_visits_games_with_work_in_order() {
    let games = vec![
        candidate("", true, false, ""),
        candidate("", false, false, ""),
        candidate("", false, true, ""),
    ];
    assert_eq!(start_missing_images_fetch(true, false, &games), Ok(vec![0, 2]));
}

#[test]
fn strip_claims() {
    assert!(may_claim_strip(true, false, false));
    assert!(!may_claim_strip(true, false, true));
    assert!(!may_claim_strip(true, true, false));
    assert!(!may_claim_strip(false, false, false));
    assert!(may_report_image_save(true, false));
    assert!(!may_report_image_save(true, true));
}

#[test]
fn sgdb_serves_by_match_then_by_store_id() {
    assert_eq!(sgdb_identity("123", true, "440"), Some(SgdbIdentity::Game("123".to_string())));
    assert_eq!(sgdb_identity("", true, "440"), Some(SgdbIdentity::Steam("440".to_string())));
    assert_eq!(sgdb_identity("", false, "440"), None);
    assert_eq!(sgdb_identity("", true, ""), None);
}

#[test]
fn square_source_orders() {
    let (native, sgdb, ss) =
        (SquareSource::NativeIcon, SquareSource::SgdbSquare, SquareSource::ScreenScraperBox);
    assert_eq!(square_sources(true, true), vec![native, sgdb]);
    assert_eq!(square_sources(true, false), vec![native]);
    assert_eq!(square_sources(false, true), vec![sgdb, ss]);
    assert_eq!(square_sources(false, false), vec![ss]);
}

#[test]
fn the_first_landed_path_wins() {
    let tried = vec![String::new(), "/a/square.webp".to_string(), "/b/square.webp".to_string()];
    assert_eq!(first_landed_path(&tried), "/a/square.webp");
    assert_eq!(first_landed_path(&vec![String::new()]), "");
    assert_eq!(first_landed_path(&Vec::new()), "");
}

#[test]
fn staged_bytes_are_written_by_their_signature() {
    let png = vec![0x89, 0x50, 0x4E, 0x47, 0x0D];
    let jpg = vec![0xFF, 0xD8, 0xFF, 0xE0];
    let mut webp = b"RIFF\x00\x00\x00\x00WEBPVP8 ".to_vec();
    assert_eq!(ira::images::sniffed_extension(false, &png), "png");
    assert_eq!(ira::images::sniffed_extension(true, &png), "ico");
    assert_eq!(ira::images::sniffed_extension(false, &jpg), "jpg");
    assert_eq!(ira::images::sniffed_extension(false, &webp), "webp");
    webp.truncate(12);
    assert_eq!(ira::images::sniffed_extension(false, &webp), "webp");
    webp.truncate(11);
    assert_eq!(ira::images::sniffed_extension(false, &webp), "png");
    assert_eq!(ira::images::sniffed_extension(false, &vec![1, 2]), "png");
    assert_eq!(ira::images::sniffed_extension(false, &Vec::new()), "png");
}

#[test]
fn webp_and_jpeg_copies_stay_as_they_are() {
    assert!(!ira::images::converts_to_webp("webp"));
    assert!(!ira::images::converts_to_webp("JPG"));
    assert!(ira::images::converts_to_webp("png"));
    assert!(ira::images::converts_to_webp("jpeg"));
    assert!(ira::images::converts_to_webp(""));
}

#[test]
fn control_drafts_are_not_images() {
    assert!(ira::images::is_image_draft("grid"));
    assert!(ira::images::is_image_draft("disc2"));
    assert!(!ira::images::is_image_draft("__unmatch__"));
    assert!(!ira::images::is_image_draft("__ra_unmatch_4"));
    assert!(ira::images::is_image_draft("_x"));
    assert_eq!(
        ira::images::landed_files("hero"),
        vec!["hero.webp", "hero.jpg", "hero_small.webp", "hero_small.jpg"]
    );
}

#[test]
fn strip_details_and_summary() {
    assert_eq!(ira::images::details_line(3, 10, ""), "3 / 10");
    assert_eq!(ira::images::details_line(3, 10, "Sonic &amp; Knuckles"), "3 / 10 · Sonic &amp; Knuckles");
    assert_eq!(ira::images::fetched_summary(0), "0 games needed new art");
    assert_eq!(ira::images::fetched_summary(12), "12 games needed new art");
}

#[test]
fn one_strip_job_at_a_time() {
    let mut strip = StripState { present: true, running: false, busy: false, cancelled: true };
    assert!(strip.begin());
    assert_eq!(strip, StripState { present: true, running: true, busy: true, cancelled: false });
    assert!(strip.shows_progress());
    // A second job is refused and changes nothing.
    let held = strip;
    assert!(!strip.begin());
    assert_eq!(strip, held);
    // A finished job shows its summary and frees the strip.
    assert!(strip.finish());
    assert_eq!(strip, StripState { present: true, running: false, busy: false, cancelled: false });
    assert!(strip.begin());
    // A cancelled job freezes its labels and skips the summary.
    strip.cancel();
    assert!(!strip.shows_progress());
    assert!(!strip.finish());
    assert!(!strip.busy);
    // Without a strip nothing can be claimed.
    let mut none = StripState { present: false, running: false, busy: false, cancelled: false };
    assert!(!none.begin());
}

#[test]
fn an_image_save_releases_the_strip() {
    let mut strip = StripState { present: true, running: false, busy: false, cancelled: false };
    assert!(strip.begin_image_save());
    // While it reports, no strip job can claim the strip.
    assert!(!strip.begin());
    assert!(!strip.begin_image_save());
    strip.finish_image_save();
    assert!(strip.begin());
}

#[test]
fn image_section_buttons_follow_the_game() {
    let b = image_section_buttons("hero", true, false, false, "", "620");
    assert!(b.steam_art && !b.steam_icon && !b.ps4_icon_reset);
    assert_eq!(b.sgdb_picker, Some(("620".to_string(), true)));
    let b = image_section_buttons("icon", true, true, false, "77", "620");
    assert!(!b.steam_art && b.steam_icon);
    assert_eq!(b.sgdb_picker, Some(("77".to_string(), false)));
    let b = image_section_buttons("icon", false, false, true, "", "CUSA0001");
    assert!(b.ps4_icon_reset && !b.steam_art && !b.steam_icon);
    assert_eq!(b.sgdb_picker, Some(("CUSA0001".to_string(), false)));
    let b = image_section_buttons("grid", false, false, false, "", "");
    assert_eq!(b.sgdb_picker, None);
}
