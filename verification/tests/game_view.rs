use ira::game_view::{header_style, keeps_scroll, reuses_page, trophy_count, HeaderStyle, ShownPage};

fn shown(db_id: i64, variant_id: Option<i64>) -> ShownPage {
    ShownPage { unloaded: false, db_id, variant_id, dirty: false, has_content: true }
}

#[test]
fn a_built_page_is_reused_only_for_the_same_fresh_entry() {
    assert!(reuses_page(shown(4, None), 4, None));
    assert!(reuses_page(shown(4, Some(2)), 4, Some(2)));
    assert!(!reuses_page(shown(4, Some(2)), 4, None));
    assert!(!reuses_page(shown(4, None), 5, None));
    let mut stale = shown(4, None);
    stale.dirty = true;
    assert!(!reuses_page(stale, 4, None));
    let mut gone = shown(4, None);
    gone.unloaded = true;
    assert!(!reuses_page(gone, 4, None));
    let mut empty = shown(4, None);
    empty.has_content = false;
    assert!(!reuses_page(empty, 4, None));
    assert!(keeps_scroll(4, 4));
    assert!(!keeps_scroll(4, 5));
}

#[test]
fn headers_and_trophies() {
    assert_eq!(header_style(false, false, false), HeaderStyle::Plain);
    assert_eq!(header_style(false, true, false), HeaderStyle::Hero);
    assert_eq!(trophy_count(3, 12), Some("3/12".to_string()));
    assert_eq!(trophy_count(0, 0), None);
}
