use ira::selection::{select_item, set_selection, splice_selection, unselect_all, SelectionModel, SidebarEntry, NO_POSITION};

fn game(id: i64) -> SidebarEntry {
    SidebarEntry { is_game: true, db_id: id }
}

fn header() -> SidebarEntry {
    SidebarEntry { is_game: false, db_id: 0 }
}

#[test]
fn clicking_a_game_selects_all_its_rows() {
    let items = vec![header(), game(5), game(6), header(), game(5)];
    let r = select_item(&items, 1, &vec![]);
    assert!(r.handled);
    assert_eq!(r.selected, vec![1, 4]);
    assert_eq!(r.changed, Some((1, 4)));
    let again = select_item(&items, 4, &r.selected);
    assert!(again.handled);
    assert_eq!(again.changed, None);
}

#[test]
fn clicking_a_header_selects_it_alone() {
    let items = vec![header(), game(5), game(5)];
    let r = select_item(&items, 0, &vec![1, 2]);
    assert_eq!(r.selected, vec![0]);
    assert_eq!(r.changed, Some((0, 3)));
}

#[test]
fn clicking_past_the_end_is_not_handled() {
    let items = vec![game(1)];
    let r = select_item(&items, 3, &vec![0]);
    assert!(!r.handled);
    assert_eq!(r.selected, vec![0]);
    assert_eq!(r.changed, None);
}

#[test]
fn unselect_and_set_report_the_touched_range() {
    let r = unselect_all(&vec![2, 5]);
    assert!(r.selected.is_empty());
    assert_eq!(r.changed, Some((2, 4)));
    assert_eq!(unselect_all(&vec![]).changed, None);
    let r = set_selection(&vec![2], &vec![7, 9]);
    assert_eq!(r.selected, vec![7, 9]);
    assert_eq!(r.changed, Some((2, 8)));
    assert_eq!(set_selection(&vec![3], &vec![3]).changed, None);
}

#[test]
fn splicing_shifts_and_drops_selected_rows() {
    assert_eq!(splice_selection(&vec![1, 4, 6, 9], 4, 3, 1), vec![1, 7]);
    assert_eq!(splice_selection(&vec![0, 2], 1, 0, 2), vec![0, 4]);
}

#[test]
fn the_model_records_every_click() {
    let items = vec![header(), game(5), game(6), header(), game(5)];
    let mut model = SelectionModel::new();
    assert_eq!(model.clicked_position(), NO_POSITION);
    let r = model.select_item(&items, 4);
    assert!(r.handled);
    assert_eq!(model.selected, vec![1, 4]);
    assert_eq!(model.clicked_position(), 4);
    // A refused click is still recorded, and the selection stays.
    let r = model.select_item(&items, 9);
    assert!(!r.handled);
    assert_eq!(model.clicked_position(), 9);
    assert_eq!(model.selected, vec![1, 4]);
}
