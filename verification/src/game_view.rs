//! The game page: when the page shown can be reused, whether its header
//! sits on hero art, and the trophy count in its stats row.

use vstd::prelude::*;
use crate::text::{push_decimal, decimal, string_of};

verus! {

/// What the content pane shows right now.
#[derive(Clone, Copy, Debug)]
pub struct ShownPage {
    /// The pane was unloaded (hidden to the background).
    pub unloaded: bool,
    pub db_id: i64,
    pub variant_id: Option<i64>,
    /// A change since it was built makes it stale.
    pub dirty: bool,
    /// The pane holds a built page.
    pub has_content: bool,
}

/// Selecting a game shows the page already built when it is for that very
/// entry (game and variant), still loaded, fresh and not empty; otherwise
/// the page is rebuilt.
pub fn reuses_page(shown: ShownPage, db_id: i64, variant_id: Option<i64>) -> (r: bool)
    ensures
        r == (!shown.unloaded && shown.db_id == db_id && shown.variant_id == variant_id && !shown.dirty
            && shown.has_content),
{
    let same_variant = match (shown.variant_id, variant_id) {
        (Some(a), Some(b)) => a == b,
        (None, None) => true,
        _ => false,
    };
    !shown.unloaded && shown.db_id == db_id && same_variant && !shown.dirty && shown.has_content
}

/// A rebuilt page keeps the scroll position only when it shows the same
/// game again.
pub fn keeps_scroll(shown_db_id: i64, db_id: i64) -> (r: bool)
    ensures
        r == (shown_db_id == db_id),
{
    shown_db_id == db_id
}

/// How the game page's header is laid out.
#[derive(Clone, Copy, PartialEq, Eq, Debug, Structural)]
pub enum HeaderStyle {
    /// Title, stats and buttons on the plain background.
    Plain,
    /// Over the hero art (or the logo or grid art standing in for it).
    Hero,
}

/// The header sits on art when the game has a hero, a logo or a grid
/// image; otherwise it is plain.
pub fn header_style(has_hero: bool, has_logo: bool, has_grid: bool) -> (r: HeaderStyle)
    ensures
        r == (if has_hero || has_logo || has_grid {
            HeaderStyle::Hero
        } else {
            HeaderStyle::Plain
        }),
{
    if has_hero || has_logo || has_grid {
        HeaderStyle::Hero
    } else {
        HeaderStyle::Plain
    }
}

/// The stats row's trophy count, `<earned>/<total>`, shown only for a
/// game with trophies.
pub fn trophy_count(earned: u32, total: u32) -> (r: Option<String>)
    ensures
        match r {
            Some(s) => total > 0 && s@ == decimal(earned as nat) + seq!['/'] + decimal(total as nat),
            None => total == 0,
        },
{
    if total == 0 {
        return None;
    }
    let mut v: Vec<char> = Vec::new();
    push_decimal(&mut v, earned as u64);
    v.push('/');
    push_decimal(&mut v, total as u64);
    Some(string_of(&v))
}

} // verus!
