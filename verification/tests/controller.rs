use ira::controller::{input_mode_from_index, input_mode_index, profile_label, ControllerInputMode};

#[test]
fn test_input_mode_index_round_trip() {
    for mode in [
        None,
        Some(ControllerInputMode::Disabled),
        Some(ControllerInputMode::Enabled),
    ] {
        assert_eq!(input_mode_from_index(input_mode_index(mode)), mode);
    }
}

#[test]
fn input_mode_rows() {
    assert_eq!(input_mode_index(None), 0);
    assert_eq!(input_mode_index(Some(ControllerInputMode::Disabled)), 1);
    assert_eq!(input_mode_index(Some(ControllerInputMode::Enabled)), 2);
    assert_eq!(input_mode_from_index(7), None);
}

#[test]
fn blank_profile_names_fall_back_to_the_file() {
    assert_eq!(profile_label("Racing", "racing-pad"), "Racing");
    assert_eq!(profile_label("  ", "racing-pad"), "racing-pad");
    assert_eq!(profile_label("", "Unnamed"), "Unnamed");
}

fn matched() -> Vec<(String, String)> {
    vec![
        ("Pad".to_string(), "/p/pad.toml".to_string()),
        ("Stick".to_string(), "/p/stick.toml".to_string()),
    ]
}

#[test]
fn profile_choices_select_the_current_profile() {
    let c = ira::controller::profile_choices(&matched(), Some("/p/stick.toml"), "stick", true);
    assert_eq!(c.labels, vec!["No profile", "Pad", "Stick", "Create new profile…"]);
    assert_eq!(
        c.paths,
        vec![None, Some("/p/pad.toml".to_string()), Some("/p/stick.toml".to_string()), None]
    );
    assert_eq!(c.selected, 2);
}

#[test]
fn a_current_profile_outside_the_list_gets_its_own_row() {
    let c = ira::controller::profile_choices(&matched(), Some("/q/old.toml"), "old", true);
    assert_eq!(c.labels, vec!["No profile", "Pad", "Stick", "old (current)", "Create new profile…"]);
    assert_eq!(c.paths[3], Some("/q/old.toml".to_string()));
    assert_eq!(c.selected, 3);
    let gone = ira::controller::profile_choices(&matched(), Some("/q/old.toml"), "old", false);
    assert_eq!(gone.labels.len(), 4);
    assert_eq!(gone.selected, 0);
    let none = ira::controller::profile_choices(&Vec::new(), None, "", true);
    assert_eq!(none.labels, vec!["No profile", "Create new profile…"]);
    assert_eq!(none.selected, 0);
}

#[test]
fn picking_the_last_row_creates_a_profile() {
    let c = ira::controller::profile_choices(&matched(), None, "", false);
    assert_eq!(
        ira::controller::profile_pick(&c.paths, 3, 1),
        ira::controller::ProfilePick::CreateNew { revert_to: 1 }
    );
    assert_eq!(
        ira::controller::profile_pick(&c.paths, 1, 0),
        ira::controller::ProfilePick::Chose { has_profile: true }
    );
    assert_eq!(
        ira::controller::profile_pick(&c.paths, 0, 2),
        ira::controller::ProfilePick::Chose { has_profile: false }
    );
}

#[test]
fn community_layouts_search_by_numeric_steam_ids_only() {
    assert_eq!(ira::controller::workshop_app_id("440", true), "440");
    assert_eq!(ira::controller::workshop_app_id("440", false), "");
    assert_eq!(ira::controller::workshop_app_id("CUSA123", true), "");
    assert_eq!(ira::controller::workshop_app_id("", true), "");
}
