use ira::playtime::identity_parts;

#[test]
fn test_identity_parts_names_source_id_and_location() {
    assert_eq!(
        identity_parts("Steam", "12345", "", "", "/games/elden/elden.exe", ""),
        "Steam  ·  App 12345  ·  /games/elden/elden.exe"
    );
}

#[test]
fn test_identity_parts_drops_missing_pieces() {
    // No ids, no location: just the source.
    assert_eq!(identity_parts("Nintendo Switch", "", "", "", "", ""), "Nintendo Switch");
    // A console entry identifies by its serial.
    assert_eq!(
        identity_parts("Nintendo Switch", "", "", "0100000000010000", "", "/roms/switch/elden"),
        "Nintendo Switch  ·  0100000000010000  ·  /roms/switch/elden"
    );
}

#[test]
fn identity_parts_prefers_the_first_id_and_location() {
    assert_eq!(identity_parts("GOG", "", "1207", "p1", "", "/games/x"), "GOG  ·  1207  ·  /games/x");
    assert_eq!(identity_parts("PC", "", "", "", "/a.exe", "/games/a"), "PC  ·  /a.exe");
}

#[test]
fn the_link_section_follows_membership() {
    let unlinked = ira::playtime::link_section(&Vec::new(), 7);
    assert_eq!(unlinked.link_title, "Link with other games");
    assert!(unlinked.others.is_empty());
    assert!(!unlinked.can_leave);
    let linked = ira::playtime::link_section(&vec![3, 7, 9], 7);
    assert_eq!(linked.link_title, "Link more games");
    assert_eq!(linked.others, vec![3, 9]);
    assert!(linked.can_leave);
}

#[test]
fn the_link_picker_offers_everything_else() {
    let entries = vec![1, 7, 3, 9, 4];
    assert_eq!(ira::playtime::link_candidates(&entries, 7, &vec![3, 7]), vec![0, 3, 4]);
    assert_eq!(ira::playtime::link_group(&vec![3], 7, &vec![1, 4]), Some(vec![3, 7, 1, 4]));
    assert_eq!(ira::playtime::link_group(&vec![3], 7, &Vec::new()), None);
    assert!(ira::playtime::picker_row_visible("Kirby & The Amazing Mirror", "AMAZ"));
    assert!(ira::playtime::picker_row_visible("Anything", ""));
    assert!(!ira::playtime::picker_row_visible("Zelda", "mario"));
}
