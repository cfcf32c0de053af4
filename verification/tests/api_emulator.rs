use ira::api_emulator::{default_version_row, emulator_page, install_version, EmulatorKind};
use ira::lutris::{lutris_wine_settings, matching_profile, new_profile_name};

#[test]
fn the_page_needs_an_emulator_and_an_executable() {
    assert_eq!(emulator_page(None, true, false, true, 2), None);
    assert_eq!(emulator_page(Some(EmulatorKind::Steam), false, false, true, 2), None);
}

#[test]
fn an_installed_emulator_offers_removal() {
    let page = emulator_page(Some(EmulatorKind::Steam), true, true, true, 2).unwrap();
    assert_eq!(page.status, "API emulator installed");
    assert!(page.uninstall);
    assert_eq!(page.install, None);
    assert!(page.generate_interfaces);
    let gog = emulator_page(Some(EmulatorKind::Gog), true, true, false, 0).unwrap();
    assert!(!gog.generate_interfaces);
    assert!(!gog.missing_dlls_note);
}

#[test]
fn installing_needs_the_original_dlls() {
    let page = emulator_page(Some(EmulatorKind::Gog), true, false, false, 0).unwrap();
    assert_eq!(page.status, "API emulator not installed");
    assert!(page.missing_dlls_note);
    assert!(page.no_versions_note);
    assert!(!page.version_row);
    assert_eq!(page.install, Some(false));
    let ready = emulator_page(Some(EmulatorKind::Steam), true, false, true, 3).unwrap();
    assert!(ready.version_row);
    assert_eq!(ready.install, Some(true));
    assert!(!ready.generate_interfaces);
}

#[test]
fn versions_default_and_install() {
    let versions = vec!["2024.1".to_string(), "2025.2".to_string()];
    assert_eq!(default_version_row(&versions, "2025.2"), 1);
    assert_eq!(default_version_row(&versions, "1999"), 0);
    assert_eq!(default_version_row(&versions, ""), 0);
    assert_eq!(install_version(&versions, Some(1)), "2025.2");
    assert_eq!(install_version(&versions, Some(9)), "");
    assert_eq!(install_version(&versions, None), "");
}

#[test]
fn lutris_conversion_fills_blanks_and_reuses_profiles() {
    assert_eq!(
        lutris_wine_settings("", "", ""),
        ("system".to_string(), "auto".to_string(), "-all".to_string())
    );
    assert_eq!(
        lutris_wine_settings("lutris-ge-8", "win64", "+err"),
        ("lutris-ge-8".to_string(), "win64".to_string(), "+err".to_string())
    );
    let profiles = vec![(1, "/p/a".to_string()), (2, "/p/b".to_string()), (3, "/p/b".to_string())];
    assert_eq!(matching_profile(&profiles, "/p/b"), Some(2));
    assert_eq!(matching_profile(&profiles, "/p/c"), None);
    assert_eq!(new_profile_name("Diablo", "system"), "Diablo (system)");
}
