use ira::match_staging::{fills_title, MatchStaging, SaveAction, SsPending};
use ira::metadata::ScraperMetadata;

fn record(ss_id: &str, date: &str) -> ScraperMetadata {
    let mut m = ScraperMetadata::default();
    m.ss_id = ss_id.into();
    m.release_date = date.into();
    m
}

#[test]
fn a_new_staging_holds_the_stored_record() {
    let s: MatchStaging<u32> = MatchStaging::new(record("", "1999"));
    assert_eq!(s.draft.release_date, "1999");
    assert!(matches!(s.pending, SsPending::Idle));
    assert!(s.pre_match.is_none());
    assert_eq!(s.save_action(), SaveAction::Nothing);
}

#[test]
fn unmatching_a_pick_staged_this_session_undoes_it() {
    let mut s: MatchStaging<u32> = MatchStaging::new(record("", "1999"));
    s.stage_match(7, record("700", "2001"));
    s.stage_match(8, record("800", "2002"));
    assert_eq!(s.draft.ss_id, "800");
    assert_eq!(s.pre_match.as_ref().map(|p| p.release_date.clone()), Some("1999".to_string()));
    assert_eq!(s.save_action(), SaveAction::ClearMiss("800".to_string()));
    s.stage_unmatch(false);
    assert_eq!(s.draft.release_date, "1999");
    assert_eq!(s.draft.ss_id, "");
    assert!(matches!(s.pending, SsPending::Idle));
    assert!(s.pre_match.is_none());
    assert_eq!(s.save_action(), SaveAction::Nothing);
}

#[test]
fn unmatching_a_stored_match_stages_the_unmatch() {
    let mut s: MatchStaging<u32> = MatchStaging::new(record("55", "2010"));
    s.stage_unmatch(true);
    assert_eq!(s.draft.ss_id, "");
    assert_eq!(s.draft.release_date, "2010");
    assert!(matches!(s.pending, SsPending::Unmatch));
    assert_eq!(s.save_action(), SaveAction::Unmatch);
}

#[test]
fn a_resync_keeps_a_staged_pick_folded_in() {
    let mut s: MatchStaging<u32> = MatchStaging::new(record("", "1999"));
    s.stage_match(7, record("700", "2001"));
    s.resync(record("", "2005"), Some(record("700", "2005")));
    assert_eq!(s.draft.ss_id, "700");
    assert_eq!(s.draft.release_date, "2005");
    assert!(s.pre_match.is_none());
    assert!(matches!(s.pending, SsPending::Match(7)));

    let mut idle: MatchStaging<u32> = MatchStaging::new(record("", "1999"));
    idle.resync(record("", "2005"), Some(record("9", "2006")));
    assert_eq!(idle.draft.release_date, "2005");
}

#[test]
fn a_pick_renames_only_an_untouched_dump_title() {
    assert!(fills_title("Sonic", Some(false), "  sonic_dump ", "sonic_dump"));
    assert!(!fills_title("Sonic", Some(true), "sonic_dump", "sonic_dump"));
    assert!(!fills_title("Sonic", None, "sonic_dump", "sonic_dump"));
    assert!(!fills_title("", Some(false), "sonic_dump", "sonic_dump"));
    assert!(!fills_title("Sonic", Some(false), "My Sonic", "sonic_dump"));
}
