//! The game settings' API emulator page (the Steam and GOG API
//! emulators that give non-Steam copies their achievements): whether it
//! shows, which rows it holds, and the version an install uses.

use vstd::prelude::*;

verus! {

broadcast use vstd::string::group_string_axioms;

/// Which API emulator a game uses.
#[derive(Clone, Copy, PartialEq, Eq, Debug, Structural)]
pub enum EmulatorKind {
    /// The Steam API emulator.
    Steam,
    /// The GOG Galaxy API emulator.
    Gog,
}

/// The rows of the API emulator page.
#[derive(PartialEq, Eq, Debug)]
pub struct EmulatorPage {
    /// The status row's title.
    pub status: &'static str,
    /// The uninstall row (an installed emulator).
    pub uninstall: bool,
    /// The note that the game folder lacks the original API DLLs.
    pub missing_dlls_note: bool,
    /// The version dropdown (versions are available).
    pub version_row: bool,
    /// The note that no emulator versions are available.
    pub no_versions_note: bool,
    /// The install row, and whether its button works (the original DLLs
    /// are there to patch); `None` once installed.
    pub install: Option<bool>,
    /// The row that generates `steam_interfaces.txt` (an installed Steam
    /// emulator).
    pub generate_interfaces: bool,
}

/// The page's rows: none without an emulator kind or a launch
/// executable. An installed emulator offers uninstalling (and, for
/// Steam, generating the interfaces file); otherwise the page notes
/// missing original DLLs, offers the versions (or notes there are none)
/// and an install button that works only with the original DLLs.
pub open spec fn emulator_page_spec(
    kind: Option<EmulatorKind>,
    has_exe: bool,
    installed: bool,
    has_original_dlls: bool,
    version_count: nat,
) -> Option<EmulatorPage> {
    match kind {
        None => None,
        Some(k) => if !has_exe {
            None
        } else {
            Some(
                EmulatorPage {
                    status: if installed {
                        "API emulator installed"
                    } else {
                        "API emulator not installed"
                    },
                    uninstall: installed,
                    missing_dlls_note: !installed && !has_original_dlls,
                    version_row: !installed && version_count > 0,
                    no_versions_note: !installed && version_count == 0,
                    install: if installed {
                        None
                    } else {
                        Some(has_original_dlls)
                    },
                    generate_interfaces: installed && k == EmulatorKind::Steam,
                },
            )
        },
    }
}

/// The API emulator page for a game.
pub fn emulator_page(
    kind: Option<EmulatorKind>,
    has_exe: bool,
    installed: bool,
    has_original_dlls: bool,
    version_count: usize,
) -> (r: Option<EmulatorPage>)
    ensures
        r == emulator_page_spec(kind, has_exe, installed, has_original_dlls, version_count as nat),
{
    match kind {
        None => None,
        Some(k) => {
            if !has_exe {
                None
            } else {
                Some(
                    EmulatorPage {
                        status: if installed {
                            "API emulator installed"
                        } else {
                            "API emulator not installed"
                        },
                        uninstall: installed,
                        missing_dlls_note: !installed && !has_original_dlls,
                        version_row: !installed && version_count > 0,
                        no_versions_note: !installed && version_count == 0,
                        install: if installed {
                            None
                        } else {
                            Some(has_original_dlls)
                        },
                        generate_interfaces: installed && k == EmulatorKind::Steam,
                    },
                )
            }
        },
    }
}

/// The version dropdown's starting row: the first version equal to the
/// configured default, else the first row.
pub fn default_version_row(versions: &Vec<String>, default_version: &str) -> (r: u32)
    requires
        versions.len() <= u32::MAX,
    ensures
        default_version@.len() > 0 && (exists|i: int|
            0 <= i < versions.len() && #[trigger] versions@[i]@ == default_version@) ==> {
            &&& r < versions.len()
            &&& versions@[r as int]@ == default_version@
            &&& forall|j: int| 0 <= j < r ==> versions@[j]@ != default_version@
        },
        !(default_version@.len() > 0 && (exists|i: int|
            0 <= i < versions.len() && #[trigger] versions@[i]@ == default_version@)) ==> r == 0,
{
    if default_version.is_empty() {
        return 0;
    }
    let mut i: usize = 0;
    while i < versions.len()
        invariant
            i <= versions.len(),
            versions.len() <= u32::MAX,
            default_version@.len() > 0,
            forall|j: int| 0 <= j < i ==> versions@[j]@ != default_version@,
        decreases versions.len() - i,
    {
        if crate::text::same_text(versions[i].as_str(), default_version) {
            assert(versions@[i as int]@ == default_version@);
            return i as u32;
        }
        i = i + 1;
    }
    0
}

/// The version an install uses: the dropdown's version, or none (empty)
/// without a dropdown or past its end.
pub fn install_version(versions: &Vec<String>, selected: Option<u32>) -> (r: String)
    ensures
        r@ == match selected {
            Some(i) => if i < versions.len() {
                versions@[i as int]@
            } else {
                Seq::empty()
            },
            None => Seq::empty(),
        },
{
    match selected {
        Some(i) => {
            if (i as usize) < versions.len() {
                versions[i as usize].clone()
            } else {
                String::new()
            }
        },
        None => String::new(),
    }
}

} // verus!
