use ira::dlc::{apply_dlc_switches, dlc_group_title, dlc_rows, dlc_subtitle, DlcInfo};

fn dlc(app_id: u64, name: &str, enabled: bool) -> DlcInfo {
    DlcInfo { app_id, name: name.to_string(), enabled }
}

#[test]
fn dlcs_are_listed_by_app_id() {
    let dlcs = vec![dlc(300, "C", true), dlc(100, "A", false), dlc(200, "B", true), dlc(100, "A2", true)];
    assert_eq!(dlc_rows(&dlcs), vec![1, 3, 2, 0]);
    assert_eq!(dlc_rows(&Vec::new()), Vec::<usize>::new());
    assert_eq!(dlc_group_title(4), "DLCs  ·  4");
    assert_eq!(dlc_subtitle(1234560), "App ID: 1234560");
}

#[test]
fn switches_apply_by_position() {
    let mut dlcs = vec![dlc(300, "C", true), dlc(100, "A", false), dlc(200, "B", true)];
    apply_dlc_switches(&mut dlcs, &vec![false, true]);
    assert_eq!(dlcs.iter().map(|d| d.enabled).collect::<Vec<_>>(), vec![false, true, true]);
    assert_eq!(dlcs[0].app_id, 300);
    assert_eq!(dlcs[1].name, "A");
}
