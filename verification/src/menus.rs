//! The game context menus: which entries a right-click offers, in what
//! order, under which action names — for one game, for a multi-selection,
//! and for resetting a game's stored art.

use vstd::prelude::*;
use crate::text::{chars_of, same_text, string_of};

verus! {

broadcast use vstd::string::group_string_axioms;

/// One menu entry: its label and the action it fires.
#[derive(Clone, Debug)]
pub struct MenuItem {
    pub label: String,
    pub action: String,
}

impl View for MenuItem {
    type V = (Seq<char>, Seq<char>);

    open spec fn view(&self) -> (Seq<char>, Seq<char>) {
        (self.label@, self.action@)
    }
}

/// The views of a list of entries.
pub open spec fn items_view(items: Seq<MenuItem>) -> Seq<(Seq<char>, Seq<char>)> {
    items.map_values(|m: MenuItem| m@)
}

fn item(label: &str, action: &str) -> (r: MenuItem)
    ensures
        r@ == (label@, action@),
{
    MenuItem { label: label.to_string(), action: action.to_string() }
}

/// Which per-game achievement status folder the game has.
#[derive(Clone, Copy, PartialEq, Eq, Debug, Structural)]
pub enum AchievementStatus {
    /// Neither emulator keeps one.
    Absent,
    /// The Steam API emulator's status folder.
    Steam,
    /// The GOG API emulator's status folder.
    Gog,
}

/// What the single-game menu depends on.
#[derive(Clone, Copy, Debug)]
pub struct GameMenuFacts {
    pub hidden: bool,
    /// The game has a file or a folder to open.
    pub has_game_location: bool,
    /// A Wine game with Wine enabled (its prefix can be opened).
    pub has_wine_prefix: bool,
    /// The game has centralized save data.
    pub has_save_location: bool,
    pub achievement_status: AchievementStatus,
    pub has_manual_script: bool,
    /// A Wine or native Linux game, which the library can remove.
    pub deletable: bool,
}

/// The single-game menu: the head entries, the "Open folder" submenu,
/// the entries after the "Collections" submenu, and the "Remove game"
/// section.
pub struct GameMenu {
    pub head: Vec<MenuItem>,
    pub open_folder: Vec<MenuItem>,
    pub tail: Vec<MenuItem>,
    pub remove: Option<MenuItem>,
}

pub open spec fn game_menu_head() -> Seq<(Seq<char>, Seq<char>)> {
    seq![
        ("Play"@, "game.play"@),
        ("Edit game settings"@, "game.edit"@),
        ("Controller settings"@, "game.controller"@),
        ("View play history"@, "game.play_history"@),
    ]
}

/// The entry list `s` when `cond` holds, else nothing.
pub open spec fn when(cond: bool, s: Seq<(Seq<char>, Seq<char>)>) -> Seq<(Seq<char>, Seq<char>)> {
    if cond {
        s
    } else {
        Seq::empty()
    }
}

/// "Open folder": the game's location, its Wine prefix, its data dir
/// (always), its save location, and its achievement status folder, each
/// when the game has one.
pub open spec fn open_folder_spec(f: GameMenuFacts) -> Seq<(Seq<char>, Seq<char>)> {
    when(f.has_game_location, seq![("Game location"@, "game.open_game_folder"@)])
        + when(f.has_wine_prefix, seq![("Wine prefix"@, "game.open_wine_prefix"@)])
        + seq![("Data location"@, "game.open_images"@)]
        + when(f.has_save_location, seq![("Save location"@, "game.open_save_location"@)])
        + match f.achievement_status {
            AchievementStatus::Steam => seq![("Achievement status"@, "game.open_steam_status"@)],
            AchievementStatus::Gog => seq![("Achievement status"@, "game.open_gog_status"@)],
            AchievementStatus::Absent => Seq::empty(),
        }
}

/// After the collections: the manual script when there is one, then
/// hiding or unhiding.
pub open spec fn game_menu_tail(f: GameMenuFacts) -> Seq<(Seq<char>, Seq<char>)> {
    when(f.has_manual_script, seq![("Run manual script"@, "game.run_manual_script"@)]) + seq![
        (
            if f.hidden {
                "Unhide game"@
            } else {
                "Hide game"@
            },
            "game.hide"@,
        ),
    ]
}

fn push_item(v: &mut Vec<MenuItem>, label: &str, action: &str)
    ensures
        items_view(final(v)@) == items_view(old(v)@).push((label@, action@)),
{
    let ghost before = items_view(v@);
    v.push(item(label, action));
    assert(items_view(v@) =~= before.push((label@, action@)));
}

/// The menu a right-click on one game opens.
pub fn game_menu(f: &GameMenuFacts) -> (m: GameMenu)
    ensures
        items_view(m.head@) == game_menu_head(),
        items_view(m.open_folder@) == open_folder_spec(*f),
        items_view(m.tail@) == game_menu_tail(*f),
        match m.remove {
            Some(r) => f.deletable && r@ == ("Remove game"@, "game.delete_game"@),
            None => !f.deletable,
        },
{
    let mut head: Vec<MenuItem> = Vec::new();
    push_item(&mut head, "Play", "game.play");
    push_item(&mut head, "Edit game settings", "game.edit");
    push_item(&mut head, "Controller settings", "game.controller");
    push_item(&mut head, "View play history", "game.play_history");
    assert(items_view(head@) =~= game_menu_head());

    let mut open_folder: Vec<MenuItem> = Vec::new();
    if f.has_game_location {
        push_item(&mut open_folder, "Game location", "game.open_game_folder");
    }
    if f.has_wine_prefix {
        push_item(&mut open_folder, "Wine prefix", "game.open_wine_prefix");
    }
    push_item(&mut open_folder, "Data location", "game.open_images");
    if f.has_save_location {
        push_item(&mut open_folder, "Save location", "game.open_save_location");
    }
    match f.achievement_status {
        AchievementStatus::Steam => {
            push_item(&mut open_folder, "Achievement status", "game.open_steam_status");
        },
        AchievementStatus::Gog => {
            push_item(&mut open_folder, "Achievement status", "game.open_gog_status");
        },
        AchievementStatus::Absent => {},
    }
    assert(items_view(open_folder@) =~= open_folder_spec(*f));

    let mut tail: Vec<MenuItem> = Vec::new();
    if f.has_manual_script {
        push_item(&mut tail, "Run manual script", "game.run_manual_script");
    }
    if f.hidden {
        push_item(&mut tail, "Unhide game", "game.hide");
    } else {
        push_item(&mut tail, "Hide game", "game.hide");
    }
    assert(items_view(tail@) =~= game_menu_tail(*f));

    let remove = if f.deletable {
        Some(item("Remove game", "game.delete_game"))
    } else {
        None
    };
    GameMenu { head, open_folder, tail, remove }
}

/// Where the game's folder comes from: its launch working directory,
/// else the folder of its launch executable, else the folder of its game
/// file.
#[derive(PartialEq, Eq, Debug)]
pub enum FolderSource {
    WorkingDir(String),
    /// The folder holding this path.
    ParentOf(String),
    NoFolder,
}

/// The source of the game's folder.
pub fn game_folder_source(working_dir: &str, exe: &str, game_path: &str) -> (r: FolderSource)
    ensures
        match r {
            FolderSource::WorkingDir(d) => working_dir@.len() > 0 && d@ == working_dir@,
            FolderSource::ParentOf(p) => working_dir@.len() == 0 && if exe@.len() > 0 {
                p@ == exe@
            } else {
                game_path@.len() > 0 && p@ == game_path@
            },
            FolderSource::NoFolder => working_dir@.len() == 0 && exe@.len() == 0
                && game_path@.len() == 0,
        },
{
    if !working_dir.is_empty() {
        FolderSource::WorkingDir(working_dir.to_string())
    } else if !exe.is_empty() {
        FolderSource::ParentOf(exe.to_string())
    } else if !game_path.is_empty() {
        FolderSource::ParentOf(game_path.to_string())
    } else {
        FolderSource::NoFolder
    }
}

/// The game file the menu opens: the (resolved) game path, except for
/// Steam games, and never an empty one.
pub fn game_file(game_path: &str, is_steam: bool) -> (r: Option<String>)
    ensures
        match r {
            Some(p) => !is_steam && game_path@.len() > 0 && p@ == game_path@,
            None => is_steam || game_path@.len() == 0,
        },
{
    if !game_path.is_empty() && !is_steam {
        Some(game_path.to_string())
    } else {
        None
    }
}

/// A collection entry: toggles the game's membership of the group.
#[derive(Clone, Debug)]
pub struct CollectionItem {
    pub label: String,
    pub group_id: i64,
}

/// A collection's label: its name, behind a check mark when the game (or
/// every selected game) is in it.
pub open spec fn collection_label(name: Seq<char>, checked: bool) -> Seq<char> {
    if checked {
        "✓ "@ + name
    } else {
        name
    }
}

/// The "Collections" submenu: one toggle per group, in the groups'
/// order, then (after a separator when there were groups) "Add to new
/// collection…".
pub struct CollectionsMenu {
    pub toggles: Vec<CollectionItem>,
    pub separator: bool,
    pub new_collection: MenuItem,
}

/// The submenu for groups whose check marks are `checked`.
pub fn collections_submenu(groups: &Vec<(i64, String)>, checked: &Vec<bool>) -> (m: CollectionsMenu)
    requires
        groups.len() == checked.len(),
    ensures
        m.toggles.len() == groups.len(),
        forall|i: int|
            0 <= i < groups.len() ==> (#[trigger] m.toggles@[i]).group_id == groups@[i].0
                && m.toggles@[i].label@ == collection_label(groups@[i].1@, checked@[i]),
        m.separator == (groups.len() > 0),
        m.new_collection@ == ("Add to new collection…"@, "game.new_collection"@),
{
    let mut toggles: Vec<CollectionItem> = Vec::new();
    let mut i: usize = 0;
    while i < groups.len()
        invariant
            i <= groups.len(),
            groups.len() == checked.len(),
            toggles.len() == i,
            forall|k: int|
                0 <= k < i ==> (#[trigger] toggles@[k]).group_id == groups@[k].0
                    && toggles@[k].label@ == collection_label(groups@[k].1@, checked@[k]),
        decreases groups.len() - i,
    {
        let label = if checked[i] {
            let mut v = chars_of("✓ ");
            let name = chars_of(groups[i].1.as_str());
            let mut k: usize = 0;
            let ghost start = v@;
            while k < name.len()
                invariant
                    k <= name.len(),
                    v@ == start + name@.take(k as int),
                decreases name.len() - k,
            {
                v.push(name[k]);
                k = k + 1;
                assert(v@ =~= start + name@.take(k as int));
            }
            assert(name@.take(name.len() as int) =~= name@);
            string_of(&v)
        } else {
            groups[i].1.clone()
        };
        toggles.push(CollectionItem { label, group_id: groups[i].0 });
        i = i + 1;
    }
    CollectionsMenu {
        toggles,
        separator: groups.len() > 0,
        new_collection: item("Add to new collection…", "game.new_collection"),
    }
}

/// Whether the id is in the list.
pub fn holds_id(ids: &Vec<i64>, id: i64) -> (r: bool)
    ensures
        r == ids@.contains(id),
{
    let mut i: usize = 0;
    while i < ids.len()
        invariant
            i <= ids.len(),
            forall|k: int| 0 <= k < i ==> ids@[k] != id,
        decreases ids.len() - i,
    {
        if ids[i] == id {
            assert(ids@[i as int] == id);
            return true;
        }
        i = i + 1;
    }
    false
}

/// The check marks of one game's collections submenu: the groups the
/// game is in.
pub fn checks_for_game(groups: &Vec<(i64, String)>, game_groups: &Vec<i64>) -> (r: Vec<bool>)
    ensures
        r.len() == groups.len(),
        forall|i: int| 0 <= i < groups.len() ==> #[trigger] r@[i] == game_groups@.contains(groups@[i].0),
{
    let mut r: Vec<bool> = Vec::new();
    let mut i: usize = 0;
    while i < groups.len()
        invariant
            i <= groups.len(),
            r.len() == i,
            forall|k: int| 0 <= k < i ==> #[trigger] r@[k] == game_groups@.contains(groups@[k].0),
        decreases groups.len() - i,
    {
        r.push(holds_id(game_groups, groups[i].0));
        i = i + 1;
    }
    r
}

/// The check marks of a multi-selection's collections submenu: the
/// groups every selected game is in (`memberships` holds each selected
/// game's group ids).
pub fn checks_for_games(groups: &Vec<(i64, String)>, memberships: &Vec<Vec<i64>>) -> (r: Vec<bool>)
    ensures
        r.len() == groups.len(),
        forall|i: int|
            0 <= i < groups.len() ==> (#[trigger] r@[i] <==> forall|j: int|
                0 <= j < memberships.len() ==> (#[trigger] memberships@[j])@.contains(groups@[i].0)),
{
    let mut r: Vec<bool> = Vec::new();
    let mut i: usize = 0;
    while i < groups.len()
        invariant
            i <= groups.len(),
            r.len() == i,
            forall|k: int|
                0 <= k < i ==> (#[trigger] r@[k] <==> forall|j: int|
                    0 <= j < memberships.len() ==> (#[trigger] memberships@[j])@.contains(
                        groups@[k].0,
                    )),
        decreases groups.len() - i,
    {
        let id = groups[i].0;
        let mut all = true;
        let mut j: usize = 0;
        while j < memberships.len()
            invariant
                j <= memberships.len(),
                all == forall|m: int| 0 <= m < j ==> (#[trigger] memberships@[m])@.contains(id),
            decreases memberships.len() - j,
        {
            if !holds_id(&memberships[j], id) {
                all = false;
            }
            j = j + 1;
        }
        r.push(all);
        i = i + 1;
    }
    r
}

/// The multi-selection menu's hide entry: "Unhide game" when every
/// selected game is hidden, else "Hide game"; it toggles them all.
pub fn multi_hide_item(hidden: &Vec<bool>) -> (r: MenuItem)
    ensures
        r@ == (
            if forall|i: int| 0 <= i < hidden.len() ==> #[trigger] hidden@[i] {
                "Unhide game"@
            } else {
                "Hide game"@
            },
            "game.toggle_hide"@,
        ),
{
    let mut all = true;
    let mut i: usize = 0;
    while i < hidden.len()
        invariant
            i <= hidden.len(),
            all == forall|k: int| 0 <= k < i ==> #[trigger] hidden@[k],
        decreases hidden.len() - i,
    {
        if !hidden[i] {
            all = false;
        }
        i = i + 1;
    }
    if all {
        item("Unhide game", "game.toggle_hide")
    } else {
        item("Hide game", "game.toggle_hide")
    }
}

/// The art slots a reset can clear, in menu order: (label, file base).
pub open spec fn art_slots() -> Seq<(Seq<char>, Seq<char>)> {
    seq![
        ("Icon"@, "icon"@),
        ("Capsule"@, "vertical"@),
        ("Square"@, "square"@),
        ("Header"@, "header"@),
        ("Logo"@, "logo"@),
        ("Hero"@, "hero"@),
    ]
}

/// The action that resets the art stored under a file base.
pub open spec fn reset_action(base: Seq<char>) -> Seq<char> {
    "image.reset('"@ + base + "')"@
}

/// The reset entries for the slots among the first `n` whose art is
/// present.
pub open spec fn reset_items_spec(present: Seq<bool>, n: int) -> Seq<(Seq<char>, Seq<char>)>
    decreases n,
{
    if n <= 0 {
        Seq::empty()
    } else {
        let prev = reset_items_spec(present, n - 1);
        if present[n - 1] {
            prev.push((art_slots()[n - 1].0, reset_action(art_slots()[n - 1].1)))
        } else {
            prev
        }
    }
}

fn concat3(a: &str, b: &str, c: &str) -> (r: String)
    ensures
        r@ == a@ + b@ + c@,
{
    let mut v = chars_of(a);
    let bv = chars_of(b);
    let cv = chars_of(c);
    let ghost start = v@;
    let mut k: usize = 0;
    while k < bv.len()
        invariant
            k <= bv.len(),
            v@ == start + bv@.take(k as int),
        decreases bv.len() - k,
    {
        v.push(bv[k]);
        k = k + 1;
        assert(v@ =~= start + bv@.take(k as int));
    }
    assert(bv@.take(bv.len() as int) =~= bv@);
    let ghost mid = v@;
    let mut k: usize = 0;
    while k < cv.len()
        invariant
            k <= cv.len(),
            v@ == mid + cv@.take(k as int),
        decreases cv.len() - k,
    {
        v.push(cv[k]);
        k = k + 1;
        assert(v@ =~= mid + cv@.take(k as int));
    }
    assert(cv@.take(cv.len() as int) =~= cv@);
    string_of(&v)
}

/// The image-reset menu's entries for the slots whose art is present
/// (`present` in the order of `art_slots`): `None` when no art is
/// stored, so no menu opens.
pub fn image_reset_items(present: &Vec<bool>) -> (r: Option<Vec<MenuItem>>)
    requires
        present.len() == 6,
    ensures
        match r {
            Some(items) => items_view(items@) == reset_items_spec(present@, 6) && items.len() > 0,
            None => forall|i: int| 0 <= i < 6 ==> !#[trigger] present@[i],
        },
{
    let labels: [&str; 6] = ["Icon", "Capsule", "Square", "Header", "Logo", "Hero"];
    let bases: [&str; 6] = ["icon", "vertical", "square", "header", "logo", "hero"];
    proof {
        reveal_strlit("Icon");
        reveal_strlit("Capsule");
        reveal_strlit("Square");
        reveal_strlit("Header");
        reveal_strlit("Logo");
        reveal_strlit("Hero");
        reveal_strlit("icon");
        reveal_strlit("vertical");
        reveal_strlit("square");
        reveal_strlit("header");
        reveal_strlit("logo");
        reveal_strlit("hero");
    }
    assert(forall|k: int| 0 <= k < 6 ==> (#[trigger] labels@[k])@ == art_slots()[k].0 && bases@[k]@
        == art_slots()[k].1);
    let mut items: Vec<MenuItem> = Vec::new();
    let mut i: usize = 0;
    while i < 6
        invariant
            i <= 6,
            present.len() == 6,
            forall|k: int| 0 <= k < 6 ==> (#[trigger] labels@[k])@ == art_slots()[k].0
                && bases@[k]@ == art_slots()[k].1,
            items_view(items@) == reset_items_spec(present@, i as int),
            items.len() == 0 ==> forall|k: int| 0 <= k < i ==> !#[trigger] present@[k],
        decreases 6 - i,
    {
        if present[i] {
            let ghost before = items_view(items@);
            let action = concat3("image.reset('", bases[i], "')");
            items.push(MenuItem { label: labels[i].to_string(), action });
            assert(items_view(items@) =~= before.push(
                (art_slots()[i as int].0, reset_action(art_slots()[i as int].1)),
            ));
        }
        i = i + 1;
    }
    if items.len() == 0 {
        None
    } else {
        Some(items)
    }
}

/// The paths of a game's stored art, one per slot.
#[derive(Clone, Debug)]
pub struct ArtPaths {
    pub icon: String,
    pub hero: String,
    pub vertical: String,
    pub square: String,
    pub header: String,
    pub logo: String,
}

/// Clear the path of the slot stored under `base` (an unknown base
/// clears nothing), so every view falls back at once.
pub fn clear_art(paths: &mut ArtPaths, base: &str)
    ensures
        final(paths).icon@ == (if base@ == "icon"@ { Seq::empty() } else { old(paths).icon@ }),
        final(paths).hero@ == (if base@ == "hero"@ { Seq::empty() } else { old(paths).hero@ }),
        final(paths).vertical@ == (if base@ == "vertical"@ {
            Seq::empty()
        } else {
            old(paths).vertical@
        }),
        final(paths).square@ == (if base@ == "square"@ {
            Seq::empty()
        } else {
            old(paths).square@
        }),
        final(paths).header@ == (if base@ == "header"@ {
            Seq::empty()
        } else {
            old(paths).header@
        }),
        final(paths).logo@ == (if base@ == "logo"@ { Seq::empty() } else { old(paths).logo@ }),
{
    proof {
        reveal_strlit("icon");
        reveal_strlit("hero");
        reveal_strlit("vertical");
        reveal_strlit("square");
        reveal_strlit("header");
        reveal_strlit("logo");
        assert("icon"@[0] == 'i' && "hero"@[0] == 'h' && "logo"@[0] == 'l');
        assert("square"@[0] == 's' && "header"@[0] == 'h');
        assert("header"@.len() == 6 && "hero"@.len() == 4 && "icon"@.len() == 4);
        assert("vertical"@.len() == 8 && "logo"@.len() == 4 && "square"@.len() == 6);
    }
    if same_text(base, "icon") {
        paths.icon = String::new();
    } else if same_text(base, "hero") {
        paths.hero = String::new();
    } else if same_text(base, "vertical") {
        paths.vertical = String::new();
    } else if same_text(base, "square") {
        paths.square = String::new();
    } else if same_text(base, "header") {
        paths.header = String::new();
    } else if same_text(base, "logo") {
        paths.logo = String::new();
    }
}

/// The file bases a reset removes: the slot's art and its small copy.
pub fn reset_file_bases(base: &str) -> (r: (String, String))
    ensures
        r.0@ == base@,
        r.1@ == base@ + "_small"@,
{
    proof {
        reveal_strlit("");
    }
    let small = concat3(base, "_small", "");
    assert(base@ + "_small"@ + ""@ =~= base@ + "_small"@);
    (base.to_string(), small)
}

/// The entries after the collections: the manual script entry comes
/// first whenever the game has a manual script, hidden or not, and the
/// last entry always toggles hiding, labelled by whether the game is
/// hidden; there is nothing else.
pub proof fn law_manual_script_then_hide(f: GameMenuFacts)
    ensures
        game_menu_tail(f).len() == 1 + (if f.has_manual_script {
            1int
        } else {
            0int
        }),
        f.has_manual_script ==> game_menu_tail(f)[0] == ("Run manual script"@,
            "game.run_manual_script"@),
        game_menu_tail(f).last() == (if f.hidden {
            "Unhide game"@
        } else {
            "Hide game"@
        }, "game.hide"@),
{
}

/// How many `true`s the first `n` flags hold.
pub open spec fn count_true(flags: Seq<bool>, n: int) -> int
    decreases n,
{
    if n <= 0 {
        0
    } else {
        count_true(flags, n - 1) + if flags[n - 1] {
            1int
        } else {
            0int
        }
    }
}

/// "Open folder" always offers the data location; each other folder shows
/// exactly when the game has it, in the order game location, Wine
/// prefix, data location, save location, achievement status.
pub proof fn law_open_folder_offers_what_the_game_has(f: GameMenuFacts)
    ensures
        ({
            let s = open_folder_spec(f);
            let g = if f.has_game_location {
                1int
            } else {
                0int
            };
            let w = if f.has_wine_prefix {
                1int
            } else {
                0int
            };
            let v = if f.has_save_location {
                1int
            } else {
                0int
            };
            let a = if f.achievement_status is Absent {
                0int
            } else {
                1int
            };
            &&& s.len() == g + w + 1 + v + a
            &&& f.has_game_location ==> s[0] == ("Game location"@, "game.open_game_folder"@)
            &&& f.has_wine_prefix ==> s[g] == ("Wine prefix"@, "game.open_wine_prefix"@)
            &&& s[g + w] == ("Data location"@, "game.open_images"@)
            &&& f.has_save_location ==> s[g + w + 1] == ("Save location"@,
                "game.open_save_location"@)
            &&& f.achievement_status is Steam ==> s[s.len() - 1] == ("Achievement status"@,
                "game.open_steam_status"@)
            &&& f.achievement_status is Gog ==> s[s.len() - 1] == ("Achievement status"@,
                "game.open_gog_status"@)
        }),
{
}

/// The image-reset menu offers one entry per slot whose art is present,
/// and each present slot's entry resets that slot's file base.
pub proof fn law_reset_items_cover_the_present_art(present: Seq<bool>, n: int)
    requires
        0 <= n <= 6,
        present.len() == 6,
    ensures
        reset_items_spec(present, n).len() == count_true(present, n),
        forall|i: int|
            0 <= i < n && #[trigger] present[i] ==> reset_items_spec(present, n).contains(
                (art_slots()[i].0, reset_action(art_slots()[i].1)),
            ),
    decreases n,
{
    if n > 0 {
        law_reset_items_cover_the_present_art(present, n - 1);
        let prev = reset_items_spec(present, n - 1);
        assert forall|i: int|
            0 <= i < n && #[trigger] present[i] implies reset_items_spec(present, n).contains(
                (art_slots()[i].0, reset_action(art_slots()[i].1)),
            ) by {
            let e = (art_slots()[i].0, reset_action(art_slots()[i].1));
            if i < n - 1 {
                let k = choose|k: int| 0 <= k < prev.len() && prev[k] == e;
                if present[n - 1] {
                    assert(reset_items_spec(present, n)[k] == e);
                }
            } else {
                assert(reset_items_spec(present, n)[prev.len() as int] == e);
            }
        }
    }
}

} // verus!
