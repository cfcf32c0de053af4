//! The big-picture couch shell's navigation: which page shows, what a
//! controller command or a key does on it, the button prompts of each
//! page, and the gamepad dots of the bottom rail.

use vstd::prelude::*;
use crate::text::{push_decimal, decimal, chars_of, string_of};

verus! {

broadcast use vstd::string::group_string_axioms;

/// The couch shell's two pages.
#[derive(Clone, Copy, PartialEq, Eq, Debug, Structural)]
pub enum CouchPage {
    /// The home carousel.
    Home,
    /// The All Software grid.
    AllSoftware,
}

/// A navigation command from a gamepad (or the keyboard).
#[derive(Clone, Copy, PartialEq, Eq, Debug, Structural)]
pub enum NavCommand {
    Left,
    Right,
    Up,
    Down,
    Confirm,
    Back,
}

/// A key the couch window listens to.
#[derive(Clone, Copy, PartialEq, Eq, Debug, Structural)]
pub enum CouchKey {
    Left,
    Right,
    Up,
    Down,
    /// Return, keypad Enter or the space bar.
    Enter,
    Escape,
    /// `q` with Control held.
    ControlQ,
    /// Any other key: passed on to the focused widget.
    Other,
}

/// What the shell does.
#[derive(Clone, Copy, PartialEq, Eq, Debug, Structural)]
pub enum CouchAction {
    /// Move the grid's selection by columns and rows.
    GridMove(i32, i32),
    /// Launch the game selected on the grid.
    LaunchGridGame,
    /// Move the home carousel's selection.
    HomeMove(i32),
    /// Launch the game selected on the home carousel.
    LaunchHomeGame,
    /// Open the All Software grid.
    OpenAll,
    /// Go back to the home carousel.
    ShowHome,
    /// Quit the application.
    Quit,
    /// Nothing.
    Ignore,
}

/// What a command does on the page showing; `tile_selected` tells
/// whether the home carousel's selection is its All Software tile. On the
/// grid the arrows move the selection, Confirm launches and Back goes
/// home; at home left and right move the carousel and Confirm opens the
/// grid (on its tile) or launches; the rest does nothing.
pub open spec fn route_spec(page: CouchPage, command: NavCommand, tile_selected: bool) -> CouchAction {
    match page {
        CouchPage::AllSoftware => match command {
            NavCommand::Left => CouchAction::GridMove(-1i32, 0i32),
            NavCommand::Right => CouchAction::GridMove(1i32, 0i32),
            NavCommand::Up => CouchAction::GridMove(0i32, -1i32),
            NavCommand::Down => CouchAction::GridMove(0i32, 1i32),
            NavCommand::Confirm => CouchAction::LaunchGridGame,
            NavCommand::Back => CouchAction::ShowHome,
        },
        CouchPage::Home => match command {
            NavCommand::Left => CouchAction::HomeMove(-1i32),
            NavCommand::Right => CouchAction::HomeMove(1i32),
            NavCommand::Confirm => if tile_selected {
                CouchAction::OpenAll
            } else {
                CouchAction::LaunchHomeGame
            },
            _ => CouchAction::Ignore,
        },
    }
}

/// Route a command to the page showing.
pub fn route(page: CouchPage, command: NavCommand, tile_selected: bool) -> (r: CouchAction)
    ensures
        r == route_spec(page, command, tile_selected),
{
    match page {
        CouchPage::AllSoftware => match command {
            NavCommand::Left => CouchAction::GridMove(-1, 0),
            NavCommand::Right => CouchAction::GridMove(1, 0),
            NavCommand::Up => CouchAction::GridMove(0, -1),
            NavCommand::Down => CouchAction::GridMove(0, 1),
            NavCommand::Confirm => CouchAction::LaunchGridGame,
            NavCommand::Back => CouchAction::ShowHome,
        },
        CouchPage::Home => match command {
            NavCommand::Left => CouchAction::HomeMove(-1),
            NavCommand::Right => CouchAction::HomeMove(1),
            NavCommand::Confirm => {
                if tile_selected {
                    CouchAction::OpenAll
                } else {
                    CouchAction::LaunchHomeGame
                }
            },
            _ => CouchAction::Ignore,
        },
    }
}

/// What a key does: the arrows and Enter act as the matching commands,
/// Escape goes home from the grid and quits from home, Control+Q quits;
/// `None` for a key the shell passes on.
pub open spec fn key_action_spec(page: CouchPage, key: CouchKey, tile_selected: bool) -> Option<
    CouchAction,
> {
    match key {
        CouchKey::Left => Some(route_spec(page, NavCommand::Left, tile_selected)),
        CouchKey::Right => Some(route_spec(page, NavCommand::Right, tile_selected)),
        CouchKey::Up => Some(route_spec(page, NavCommand::Up, tile_selected)),
        CouchKey::Down => Some(route_spec(page, NavCommand::Down, tile_selected)),
        CouchKey::Enter => Some(route_spec(page, NavCommand::Confirm, tile_selected)),
        CouchKey::Escape => if page == CouchPage::AllSoftware {
            Some(CouchAction::ShowHome)
        } else {
            Some(CouchAction::Quit)
        },
        CouchKey::ControlQ => Some(CouchAction::Quit),
        CouchKey::Other => None,
    }
}

/// What a key press does on the page showing.
pub fn key_action(page: CouchPage, key: CouchKey, tile_selected: bool) -> (r: Option<CouchAction>)
    ensures
        r == key_action_spec(page, key, tile_selected),
{
    match key {
        CouchKey::Left => Some(route(page, NavCommand::Left, tile_selected)),
        CouchKey::Right => Some(route(page, NavCommand::Right, tile_selected)),
        CouchKey::Up => Some(route(page, NavCommand::Up, tile_selected)),
        CouchKey::Down => Some(route(page, NavCommand::Down, tile_selected)),
        CouchKey::Enter => Some(route(page, NavCommand::Confirm, tile_selected)),
        CouchKey::Escape => {
            if page == CouchPage::AllSoftware {
                Some(CouchAction::ShowHome)
            } else {
                Some(CouchAction::Quit)
            }
        },
        CouchKey::ControlQ => Some(CouchAction::Quit),
        CouchKey::Other => None,
    }
}

/// The page showing after an action: opening the grid shows the grid,
/// going home shows home, anything else keeps the page.
pub open spec fn page_after_spec(page: CouchPage, action: CouchAction) -> CouchPage {
    match action {
        CouchAction::OpenAll => CouchPage::AllSoftware,
        CouchAction::ShowHome => CouchPage::Home,
        _ => page,
    }
}

/// The page showing after an action.
pub fn page_after(page: CouchPage, action: CouchAction) -> (r: CouchPage)
    ensures
        r == page_after_spec(page, action),
{
    match action {
        CouchAction::OpenAll => CouchPage::AllSoftware,
        CouchAction::ShowHome => CouchPage::Home,
        _ => page,
    }
}

/// A page's button prompts, (glyph, label) pairs: A/Play at home; B/Back
/// then A/Play on the grid.
pub open spec fn prompts_spec(page: CouchPage) -> Seq<(Seq<char>, Seq<char>)> {
    match page {
        CouchPage::Home => seq![("A"@, "Play"@)],
        CouchPage::AllSoftware => seq![("B"@, "Back"@), ("A"@, "Play"@)],
    }
}

/// The prompt row for a page.
pub fn prompts(page: CouchPage) -> (r: Vec<(String, String)>)
    ensures
        r@.map_values(|p: (String, String)| (p.0@, p.1@)) == prompts_spec(page),
{
    let mut r: Vec<(String, String)> = Vec::new();
    match page {
        CouchPage::Home => {
            r.push(("A".to_string(), "Play".to_string()));
        },
        CouchPage::AllSoftware => {
            r.push(("B".to_string(), "Back".to_string()));
            r.push(("A".to_string(), "Play".to_string()));
        },
    }
    assert(r@.map_values(|p: (String, String)| (p.0@, p.1@)) =~= prompts_spec(page));
    r
}

/// The bottom rail's four gamepad dots: one lit per connected gamepad,
/// four at most.
pub fn lit_dots(count: usize) -> (r: Vec<bool>)
    ensures
        r.len() == 4,
        forall|i: int| 0 <= i < 4 ==> #[trigger] r@[i] == (i < count),
{
    let mut r: Vec<bool> = Vec::new();
    let mut i: usize = 0;
    while i < 4
        invariant
            i <= 4,
            r.len() == i,
            forall|k: int| 0 <= k < i ==> #[trigger] r@[k] == (k < count),
        decreases 4 - i,
    {
        r.push(i < count);
        i = i + 1;
    }
    r
}

/// The gamepad rail's tooltip: `Controllers connected: <count>`.
pub fn controllers_tooltip(count: u64) -> (r: String)
    ensures
        r@ == "Controllers connected: "@ + decimal(count as nat),
{
    let mut v = chars_of("Controllers connected: ");
    push_decimal(&mut v, count);
    string_of(&v)
}

/// Back, or Escape, on the grid always returns to the home carousel.
pub proof fn law_back_returns_home(tile_selected: bool)
    ensures
        page_after_spec(
            CouchPage::AllSoftware,
            route_spec(CouchPage::AllSoftware, NavCommand::Back, tile_selected),
        ) == CouchPage::Home,
        key_action_spec(CouchPage::AllSoftware, CouchKey::Escape, tile_selected) == Some(
            CouchAction::ShowHome,
        ),
{
}

/// Confirm on the home carousel's All Software tile opens the grid, and
/// Back from there comes home again.
pub proof fn law_tile_opens_grid_and_back_undoes_it()
    ensures
        ({
            let open = page_after_spec(
                CouchPage::Home,
                route_spec(CouchPage::Home, NavCommand::Confirm, true),
            );
            &&& open == CouchPage::AllSoftware
            &&& page_after_spec(open, route_spec(open, NavCommand::Back, true)) == CouchPage::Home
        }),
{
}

/// The arrows move by unit steps in opposite directions: on the home
/// carousel Left and Right move one game back and forth (wherever the
/// selection is); on the grid Left/Right move one column and Up/Down one
/// row. The arrow keys do exactly what the matching pad commands do.
pub proof fn law_arrows_move_by_opposite_unit_steps(page: CouchPage, t: bool)
    ensures
        route_spec(CouchPage::Home, NavCommand::Left, t) == CouchAction::HomeMove(-1i32),
        route_spec(CouchPage::Home, NavCommand::Right, t) == CouchAction::HomeMove(1i32),
        route_spec(CouchPage::AllSoftware, NavCommand::Left, t) == CouchAction::GridMove(-1i32, 0i32),
        route_spec(CouchPage::AllSoftware, NavCommand::Right, t) == CouchAction::GridMove(1i32, 0i32),
        route_spec(CouchPage::AllSoftware, NavCommand::Up, t) == CouchAction::GridMove(0i32, -1i32),
        route_spec(CouchPage::AllSoftware, NavCommand::Down, t) == CouchAction::GridMove(0i32, 1i32),
        key_action_spec(page, CouchKey::Left, t) == Some(route_spec(page, NavCommand::Left, t)),
        key_action_spec(page, CouchKey::Right, t) == Some(route_spec(page, NavCommand::Right, t)),
        key_action_spec(page, CouchKey::Up, t) == Some(route_spec(page, NavCommand::Up, t)),
        key_action_spec(page, CouchKey::Down, t) == Some(route_spec(page, NavCommand::Down, t)),
        key_action_spec(page, CouchKey::Enter, t) == Some(route_spec(page, NavCommand::Confirm, t)),
{
}

/// Confirm, Back and the other keys: on the grid Confirm launches the
/// selected game and Back goes home; at home Confirm opens the grid when
/// its tile is selected and launches the selected game otherwise, while
/// Up, Down and Back do nothing. Escape goes home from the grid and quits
/// from home, Control+Q quits on either page, and any other key is passed
/// on. Only opening the grid and going home change the page; a page
/// shows its Back prompt exactly on the grid, and Play last on both.
pub proof fn law_confirm_back_and_quit(page: CouchPage, t: bool, action: CouchAction)
    ensures
        route_spec(CouchPage::AllSoftware, NavCommand::Confirm, t) == CouchAction::LaunchGridGame,
        route_spec(CouchPage::AllSoftware, NavCommand::Back, t) == CouchAction::ShowHome,
        route_spec(CouchPage::Home, NavCommand::Confirm, t) == (if t {
            CouchAction::OpenAll
        } else {
            CouchAction::LaunchHomeGame
        }),
        route_spec(CouchPage::Home, NavCommand::Up, t) == CouchAction::Ignore,
        route_spec(CouchPage::Home, NavCommand::Down, t) == CouchAction::Ignore,
        route_spec(CouchPage::Home, NavCommand::Back, t) == CouchAction::Ignore,
        key_action_spec(CouchPage::AllSoftware, CouchKey::Escape, t) == Some(CouchAction::ShowHome),
        key_action_spec(CouchPage::Home, CouchKey::Escape, t) == Some(CouchAction::Quit),
        key_action_spec(page, CouchKey::ControlQ, t) == Some(CouchAction::Quit),
        key_action_spec(page, CouchKey::Other, t) is None,
        page_after_spec(page, CouchAction::OpenAll) == CouchPage::AllSoftware,
        page_after_spec(page, CouchAction::ShowHome) == CouchPage::Home,
        !(action is OpenAll) && !(action is ShowHome) ==> page_after_spec(page, action) == page,
        prompts_spec(page).last() == ("A"@, "Play"@),
        prompts_spec(page).contains(("B"@, "Back"@)) <==> page == CouchPage::AllSoftware,
{
    if page == CouchPage::Home {
        reveal_strlit("A");
        reveal_strlit("B");
        assert("A"@[0] != "B"@[0]);
        if prompts_spec(page).contains(("B"@, "Back"@)) {
            let k = choose|k: int| 0 <= k < prompts_spec(page).len() && prompts_spec(page)[k] == ("B"@, "Back"@);
            assert(k == 0);
            assert(prompts_spec(page)[0] == ("A"@, "Play"@));
        }
    } else {
        assert(prompts_spec(page)[0] == ("B"@, "Back"@));
    }
}

} // verus!
