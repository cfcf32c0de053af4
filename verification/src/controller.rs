//! The controller page's rules: the input-mode dropdown, the profile
//! dropdown's entries and selection, and the app id community layouts
//! are searched by.

use vstd::prelude::*;
use crate::text::{trim, trim_spec, chars_of, string_of, is_digit, all_digits, same_text};

verus! {

broadcast use vstd::string::group_string_axioms;

/// Whether a game's controller input is turned off or on; a game with no
/// mode follows the global setting.
#[derive(Clone, Copy, PartialEq, Eq, Debug, Structural)]
pub enum ControllerInputMode {
    Disabled,
    Enabled,
}

/// The dropdown row of a mode: 0 follows the global setting, 1 is
/// disabled, 2 enabled.
pub open spec fn input_mode_index_spec(mode: Option<ControllerInputMode>) -> u32 {
    match mode {
        None => 0,
        Some(ControllerInputMode::Disabled) => 1,
        Some(ControllerInputMode::Enabled) => 2,
    }
}

/// The mode of a dropdown row; rows past the last read as following the
/// global setting.
pub open spec fn input_mode_from_index_spec(index: u32) -> Option<ControllerInputMode> {
    if index == 1 {
        Some(ControllerInputMode::Disabled)
    } else if index == 2 {
        Some(ControllerInputMode::Enabled)
    } else {
        None
    }
}

/// The dropdown row showing a mode.
pub fn input_mode_index(mode: Option<ControllerInputMode>) -> (r: u32)
    ensures
        r == input_mode_index_spec(mode),
{
    match mode {
        None => 0,
        Some(ControllerInputMode::Disabled) => 1,
        Some(ControllerInputMode::Enabled) => 2,
    }
}

/// The mode a dropdown row stands for.
pub fn input_mode_from_index(index: u32) -> (r: Option<ControllerInputMode>)
    ensures
        r == input_mode_from_index_spec(index),
{
    match index {
        0 => None,
        1 => Some(ControllerInputMode::Disabled),
        2 => Some(ControllerInputMode::Enabled),
        _ => None,
    }
}

/// Reading back the row a mode is shown in gives the mode.
pub proof fn law_input_mode_round_trip(mode: Option<ControllerInputMode>)
    ensures
        input_mode_from_index_spec(input_mode_index_spec(mode)) == mode,
{
}

/// Every row the dropdown has (0 to 2) shows the mode it stands for.
pub proof fn law_input_mode_rows(index: u32)
    requires
        index <= 2,
    ensures
        input_mode_index_spec(input_mode_from_index_spec(index)) == index,
{
}

/// The label a stored profile is listed under: its name, or — when the
/// name is blank — the label of its file.
pub fn profile_label(name: &str, file_label: &str) -> (r: String)
    ensures
        r@ == if trim_spec(name@).len() == 0 {
            file_label@
        } else {
            name@
        },
{
    let trimmed = trim(name);
    if trimmed.as_str().is_empty() {
        file_label.to_string()
    } else {
        name.to_string()
    }
}

/// The profile dropdown: its labels, the profile file behind each row
/// (none for "No profile" and "Create new profile…"), and the row
/// selected.
pub struct ProfileChoices {
    pub labels: Vec<String>,
    pub paths: Vec<Option<String>>,
    pub selected: u32,
}

/// The views of the dropdown's profile files.
pub open spec fn paths_view(s: Seq<Option<String>>) -> Seq<Option<Seq<char>>> {
    s.map_values(|p: Option<String>| match p {
        Some(x) => Some(x@),
        None => None,
    })
}

/// The first row from `from` on whose file is `path`, when one is.
pub open spec fn first_row_from(paths: Seq<Option<Seq<char>>>, path: Seq<char>, from: int) -> Option<
    int,
>
    decreases paths.len() - from,
{
    if from < 0 || from >= paths.len() {
        None
    } else if paths[from] == Some(path) {
        Some(from)
    } else {
        first_row_from(paths, path, from + 1)
    }
}

/// The dropdown's rows: "No profile", the stored profiles that fit the
/// game and its platform (`matched`: label and file), the game's current
/// profile file when none of those is it but it is still a readable
/// profile (labelled `<file label> (current)`), and "Create new
/// profile…". The current file's first row is selected, else "No
/// profile".
pub open spec fn profile_choices_ok(
    matched: Seq<(Seq<char>, Seq<char>)>,
    current: Option<Seq<char>>,
    current_label: Seq<char>,
    current_readable: bool,
    labels: Seq<Seq<char>>,
    paths: Seq<Option<Seq<char>>>,
    selected: int,
) -> bool {
    let listed = seq![None::<Seq<char>>] + matched.map_values(
        |m: (Seq<char>, Seq<char>)| Some(m.1),
    );
    let base_labels = seq!["No profile"@] + matched.map_values(|m: (Seq<char>, Seq<char>)| m.0);
    let found = match current {
        Some(c) => first_row_from(listed, c, 0),
        None => None,
    };
    let extra = found is None && current is Some && current_readable;
    &&& labels == base_labels + (if extra {
        seq![current_label + " (current)"@]
    } else {
        Seq::empty()
    }) + seq!["Create new profile…"@]
    &&& paths == listed + (if extra {
        seq![current]
    } else {
        Seq::empty()
    }) + seq![None::<Seq<char>>]
    &&& selected == match found {
        Some(i) => i,
        None => if extra {
            listed.len() as int
        } else {
            0
        },
    }
}

/// Build the profile dropdown's rows.
pub fn profile_choices(
    matched: &Vec<(String, String)>,
    current: Option<&str>,
    current_label: &str,
    current_readable: bool,
) -> (r: ProfileChoices)
    requires
        matched.len() + 3 <= u32::MAX,
    ensures
        profile_choices_ok(
            matched@.map_values(|m: (String, String)| (m.0@, m.1@)),
            match current {
                Some(c) => Some(c@),
                None => None,
            },
            current_label@,
            current_readable,
            r.labels@.map_values(|l: String| l@),
            paths_view(r.paths@),
            r.selected as int,
        ),
{
    let ghost mv = matched@.map_values(|m: (String, String)| (m.0@, m.1@));
    let ghost listed = seq![None::<Seq<char>>] + mv.map_values(|m: (Seq<char>, Seq<char>)| Some(m.1));
    let ghost base_labels = seq!["No profile"@] + mv.map_values(|m: (Seq<char>, Seq<char>)| m.0);
    let mut labels: Vec<String> = Vec::new();
    let mut paths: Vec<Option<String>> = Vec::new();
    labels.push("No profile".to_string());
    paths.push(None);
    assert(labels@.map_values(|l: String| l@) =~= base_labels.take(1));
    assert(paths_view(paths@) =~= listed.take(1));
    let mut i: usize = 0;
    while i < matched.len()
        invariant
            i <= matched.len(),
            mv == matched@.map_values(|m: (String, String)| (m.0@, m.1@)),
            listed == seq![None::<Seq<char>>] + mv.map_values(|m: (Seq<char>, Seq<char>)| Some(m.1)),
            base_labels == seq!["No profile"@] + mv.map_values(|m: (Seq<char>, Seq<char>)| m.0),
            labels@.map_values(|l: String| l@) == base_labels.take(i + 1),
            paths_view(paths@) == listed.take(i + 1),
        decreases matched.len() - i,
    {
        let ghost lb = labels@.map_values(|l: String| l@);
        let ghost pb = paths_view(paths@);
        labels.push(matched[i].0.clone());
        paths.push(Some(matched[i].1.clone()));
        assert(base_labels[i + 1] == mv[i as int].0);
        assert(listed[i + 1] == Some(mv[i as int].1));
        assert(labels@.map_values(|l: String| l@) =~= lb.push(mv[i as int].0));
        assert(paths_view(paths@) =~= pb.push(Some(mv[i as int].1)));
        assert(base_labels.take(i + 2) =~= base_labels.take(i + 1).push(base_labels[i + 1]));
        assert(listed.take(i + 2) =~= listed.take(i + 1).push(listed[i + 1]));
        i = i + 1;
    }
    assert(labels@.map_values(|l: String| l@) =~= base_labels);
    assert(paths_view(paths@) =~= listed);
    let ghost cv: Option<Seq<char>> = match current {
        Some(c) => Some(c@),
        None => None,
    };
    let ghost found_spec: Option<int> = match cv {
        Some(c) => first_row_from(listed, c, 0),
        None => None,
    };
    let mut found: Option<usize> = None;
    match current {
        Some(c) => {
            let mut k: usize = 0;
            while k < paths.len()
                invariant
                    k <= paths.len(),
                    paths_view(paths@) == listed,
                    cv == Some(c@),
                    found_spec == first_row_from(listed, c@, 0),
                    found is None ==> found_spec == first_row_from(listed, c@, k as int),
                    found matches Some(f) ==> found_spec == Some(f as int) && f < paths.len(),
                decreases paths.len() - k,
            {
                if found.is_none() {
                    let hit = match &paths[k] {
                        Some(p) => same_text(p.as_str(), c),
                        None => false,
                    };
                    assert(hit == (listed[k as int] == Some(c@)));
                    if hit {
                        found = Some(k);
                    }
                }
                k = k + 1;
            }
        },
        None => {},
    }
    proof {
        assert(listed.len() == paths.len());
        assert(found is None ==> found_spec is None);
        assert(found matches Some(f) ==> found_spec == Some(f as int) && f < paths.len());
    }
    let ghost extra = found_spec is None && cv is Some && current_readable;
    let ghost mid_labels = labels@.map_values(|l: String| l@);
    let ghost mid_paths = paths_view(paths@);
    let selected: u32 = match found {
        Some(f) => f as u32,
        None => {
            if current_readable {
                match current {
                    Some(c) => {
                        let mut label = chars_of(current_label);
                        let suffix = chars_of(" (current)");
                        let ghost start = label@;
                        let mut k: usize = 0;
                        while k < suffix.len()
                            invariant
                                k <= suffix.len(),
                                label@ == start + suffix@.take(k as int),
                            decreases suffix.len() - k,
                        {
                            label.push(suffix[k]);
                            k = k + 1;
                            assert(label@ =~= start + suffix@.take(k as int));
                        }
                        assert(suffix@.take(suffix.len() as int) =~= suffix@);
                        labels.push(string_of(&label));
                        paths.push(Some(c.to_string()));
                        assert(labels@.map_values(|l: String| l@) =~= mid_labels.push(
                            current_label@ + " (current)"@,
                        ));
                        assert(paths_view(paths@) =~= mid_paths.push(cv));
                        (paths.len() - 1) as u32
                    },
                    None => 0,
                }
            } else {
                0
            }
        },
    };
    let ghost lb = labels@.map_values(|l: String| l@);
    let ghost pb = paths_view(paths@);
    labels.push("Create new profile…".to_string());
    paths.push(None);
    assert(labels@.map_values(|l: String| l@) =~= lb.push("Create new profile…"@));
    assert(paths_view(paths@) =~= pb.push(None));
    proof {
        if extra {
            assert(lb =~= base_labels + seq![current_label@ + " (current)"@]);
            assert(pb =~= listed + seq![cv]);
        } else {
            assert(lb =~= base_labels + Seq::<Seq<char>>::empty());
            assert(pb =~= listed + Seq::<Option<Seq<char>>>::empty());
        }
        let fl = labels@.map_values(|l: String| l@);
        let fp = paths_view(paths@);
        assert(fl == base_labels + (if extra {
            seq![current_label@ + " (current)"@]
        } else {
            Seq::<Seq<char>>::empty()
        }) + seq!["Create new profile…"@]);
        assert(fp == listed + (if extra {
            seq![cv]
        } else {
            Seq::<Option<Seq<char>>>::empty()
        }) + seq![None::<Seq<char>>]);
        assert(selected as int == match found_spec {
            Some(i) => i,
            None => if extra {
                listed.len() as int
            } else {
                0
            },
        });
    }
    ProfileChoices { labels, paths, selected }
}

/// What picking a row of the profile dropdown does.
#[derive(PartialEq, Eq, Debug)]
pub enum ProfilePick {
    /// The last row, "Create new profile…": the dropdown goes back to the
    /// row chosen before and the profile editor opens.
    CreateNew { revert_to: u32 },
    /// A real row: it becomes the one to go back to, and the edit and
    /// delete buttons work when it holds a profile.
    Chose { has_profile: bool },
}

/// React to a row pick, given the dropdown's profile files and the row
/// chosen before.
pub fn profile_pick(paths: &Vec<Option<String>>, selected: u32, previous: u32) -> (r: ProfilePick)
    ensures
        r == if paths.len() == 0 {
            if selected == 0 {
                ProfilePick::CreateNew { revert_to: previous }
            } else {
                ProfilePick::Chose { has_profile: false }
            }
        } else if selected == paths.len() - 1 {
            ProfilePick::CreateNew { revert_to: previous }
        } else {
            ProfilePick::Chose {
                has_profile: selected < paths.len() && paths@[selected as int] is Some,
            }
        },
{
    let sentinel: usize = if paths.len() == 0 {
        0
    } else {
        paths.len() - 1
    };
    if selected as usize == sentinel {
        ProfilePick::CreateNew { revert_to: previous }
    } else {
        let has_profile = (selected as usize) < paths.len() && paths[selected as usize].is_some();
        ProfilePick::Chose { has_profile }
    }
}

/// The Steam app id community layouts are searched by: the game's app
/// id when the game is Steam-enriched and the id is all ASCII digits,
/// else none (empty), and the search goes by free text.
pub fn workshop_app_id(app_id: &str, steam_enriched: bool) -> (r: String)
    ensures
        r@ == if steam_enriched && app_id@.len() > 0 && all_digits(app_id@) {
            app_id@
        } else {
            Seq::empty()
        },
{
    let v = chars_of(app_id);
    let mut numeric = v.len() > 0;
    let mut i: usize = 0;
    while i < v.len()
        invariant
            i <= v.len(),
            v@ == app_id@,
            numeric == (v.len() > 0 && forall|k: int| 0 <= k < i ==> is_digit(#[trigger] v@[k])),
        decreases v.len() - i,
    {
        if !('0' <= v[i] && v[i] <= '9') {
            numeric = false;
        }
        i = i + 1;
    }
    if steam_enriched && numeric {
        app_id.to_string()
    } else {
        String::new()
    }
}

} // verus!
