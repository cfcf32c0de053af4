use ira::folders::{free_space_subtitle, FolderList};

fn list() -> FolderList {
    FolderList::new(vec!["/games".to_string(), "/mnt/roms".to_string()])
}

#[test]
fn folders_change_remove_and_add() {
    let mut l = list();
    l.change(1, "/media/roms".to_string());
    assert_eq!(l.get(), vec!["/games", "/media/roms"]);
    l.change(5, "/nowhere".to_string());
    assert_eq!(l.get(), vec!["/games", "/media/roms"]);
    l.add("/extra".to_string());
    assert_eq!(l.get(), vec!["/games", "/media/roms", "/extra"]);
    l.remove(0);
    assert_eq!(l.get(), vec!["/media/roms", "/extra"]);
    l.remove(7);
    assert_eq!(l.folders.len(), 2);
}

#[test]
fn free_space_reads_in_decimal_units() {
    assert_eq!(free_space_subtitle(Some(12_500_000_000)), Some("12.5 GB free".to_string()));
    assert_eq!(free_space_subtitle(Some(7)), Some("7 B free".to_string()));
    assert_eq!(free_space_subtitle(None), None);
}
