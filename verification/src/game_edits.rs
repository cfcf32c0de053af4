//! The rules the game settings dialog applies when it saves: the Steam
//! link edit, where an edited app id is written, how variants follow a
//! renamed game, and which stored image a preview shows.

use vstd::prelude::*;
use crate::text::{chars_of, parse_u32, parse_u32_spec, string_of, trim, trim_spec, push_signed_decimal,
    signed_decimal, decimal, push_decimal, same_text};

verus! {

broadcast use vstd::string::group_string_axioms;

/// What saving the console Steam-link entry does.
#[derive(PartialEq, Eq, Debug)]
pub enum SteamLinkEdit {
    /// The entry holds something that is not a store app id; nothing is
    /// saved and the entry is flagged.
    Invalid,
    /// The link did not move.
    Unchanged,
    /// Store this link (empty clears it).
    Store(String),
}

/// The Steam-link entry's save: the trimmed text must be empty or parse
/// as an app id; it is stored when it differs from the current link.
pub open spec fn steam_link_edit_spec(text: Seq<char>, current: Seq<char>) -> Option<Option<Seq<char>>> {
    let link = trim_spec(text);
    if link.len() > 0 && parse_u32_spec(link) is None {
        None
    } else if link == current {
        Some(None)
    } else {
        Some(Some(link))
    }
}

/// Decide what saving the Steam-link entry does, from the entry's text and
/// the game's current link.
pub fn steam_link_edit(text: &str, current: &str) -> (r: SteamLinkEdit)
    ensures
        match r {
            SteamLinkEdit::Invalid => steam_link_edit_spec(text@, current@) == None::<Option<Seq<char>>>,
            SteamLinkEdit::Unchanged => steam_link_edit_spec(text@, current@) == Some(None::<Seq<char>>),
            SteamLinkEdit::Store(link) => steam_link_edit_spec(text@, current@) == Some(Some(link@)),
        },
{
    let link = trim(text);
    if !link.as_str().is_empty() && parse_u32(link.as_str()).is_none() {
        return SteamLinkEdit::Invalid;
    }
    if crate::text::same_text(link.as_str(), current) {
        return SteamLinkEdit::Unchanged;
    }
    SteamLinkEdit::Store(link)
}

/// The column an edited app id is written to.
#[derive(Clone, Copy, PartialEq, Eq, Debug, Structural)]
pub enum AppIdColumn {
    /// A Steam-enriched game: the Steam app id, and the platform-native id
    /// too.
    SteamAndNative,
    /// A RetroAchievements match: the RA id.
    RetroAchievements,
    /// Anything else: the platform-native id (title id, serial).
    Native,
}

/// Where an edited app id lands: nowhere when it did not change; for a
/// Steam-enriched game in the Steam and native columns; for a
/// RetroAchievements match with a non-empty new id in the RA column;
/// otherwise in the native column. An emptied id also clears the
/// achievement source.
pub open spec fn app_id_column_spec(
    new_id: Seq<char>,
    old_id: Seq<char>,
    steam_enriched: bool,
    retro_achievements: bool,
) -> Option<(AppIdColumn, bool)> {
    if new_id == old_id {
        None
    } else {
        let column = if steam_enriched {
            AppIdColumn::SteamAndNative
        } else if retro_achievements && new_id.len() > 0 {
            AppIdColumn::RetroAchievements
        } else {
            AppIdColumn::Native
        };
        Some((column, new_id.len() == 0))
    }
}

/// Where an edited app id is written, and whether the game's achievement
/// source is cleared with it; `None` when the id did not change.
pub fn app_id_column(new_id: &str, old_id: &str, steam_enriched: bool, retro_achievements: bool) -> (r:
    Option<(AppIdColumn, bool)>)
    ensures
        r == app_id_column_spec(new_id@, old_id@, steam_enriched, retro_achievements),
{
    if crate::text::same_text(new_id, old_id) {
        return None;
    }
    let column = if steam_enriched {
        AppIdColumn::SteamAndNative
    } else if retro_achievements && !new_id.is_empty() {
        AppIdColumn::RetroAchievements
    } else {
        AppIdColumn::Native
    };
    Some((column, new_id.is_empty()))
}

/// A variant's name after its game was renamed from `old_name` to
/// `title`: a name starting with the old name keeps its suffix behind the
/// new title; any other name stays.
pub open spec fn renamed_variant_spec(name: Seq<char>, old_name: Seq<char>, title: Seq<char>) -> Seq<
    char,
> {
    if old_name.len() <= name.len() && name.take(old_name.len() as int) == old_name {
        title + name.skip(old_name.len() as int)
    } else {
        name
    }
}

/// The name a variant takes when its game is renamed.
pub fn renamed_variant(name: &str, old_name: &str, title: &str) -> (r: String)
    ensures
        r@ == renamed_variant_spec(name@, old_name@, title@),
{
    let n = chars_of(name);
    let o = chars_of(old_name);
    if o.len() > n.len() {
        return name.to_string();
    }
    let mut i: usize = 0;
    while i < o.len()
        invariant
            i <= o.len(),
            o.len() <= n.len(),
            n@ == name@,
            o@ == old_name@,
            forall|k: int| 0 <= k < i ==> n@[k] == o@[k],
        decreases o.len() - i,
    {
        if n[i] != o[i] {
            assert(name@.take(old_name@.len() as int)[i as int] != old_name@[i as int]);
            return name.to_string();
        }
        i = i + 1;
    }
    assert(name@.take(old_name@.len() as int) =~= old_name@);
    let mut out = chars_of(title);
    let mut k: usize = o.len();
    while k < n.len()
        invariant
            o.len() <= k <= n.len(),
            n@ == name@,
            o@ == old_name@,
            out@ == title@ + name@.subrange(old_name@.len() as int, k as int),
        decreases n.len() - k,
    {
        out.push(n[k]);
        k = k + 1;
        assert(out@ =~= title@ + name@.subrange(old_name@.len() as int, k as int));
    }
    assert(name@.subrange(old_name@.len() as int, name@.len() as int) =~= name@.skip(old_name@.len() as int));
    string_of(&out)
}

/// Renaming a game to the name it already has leaves every variant name
/// as it was.
pub proof fn law_rename_to_same_name_keeps_variants(name: Seq<char>, old_name: Seq<char>)
    ensures
        renamed_variant_spec(name, old_name, old_name) == name,
{
    if old_name.len() <= name.len() && name.take(old_name.len() as int) == old_name {
        assert(old_name + name.skip(old_name.len() as int) =~= name);
    }
}


/// Renaming a game back undoes a rename: a variant named after the game
/// gets its name back.
pub proof fn law_rename_back_restores_variant(name: Seq<char>, old_name: Seq<char>, title: Seq<char>)
    requires
        old_name.len() <= name.len(),
        name.take(old_name.len() as int) == old_name,
    ensures
        renamed_variant_spec(renamed_variant_spec(name, old_name, title), title, old_name) == name,
{
    let suffix = name.skip(old_name.len() as int);
    let renamed = title + suffix;
    assert(renamed.take(title.len() as int) =~= title);
    assert(renamed.skip(title.len() as int) =~= suffix);
    assert(old_name + suffix =~= name);
}

/// The title or sort title a save stores: the entry's text without white
/// space at either end.
pub fn saved_title(text: &str) -> (r: String)
    ensures
        r@ == trim_spec(text@),
{
    trim(text)
}

/// A settings combo whose first row is "default": the chosen position
/// among the real options, or `None` for the default row.
pub fn choice_after_default(selected: u32) -> (r: Option<u32>)
    ensures
        r == (if selected == 0 {
            None
        } else {
            Some((selected - 1) as u32)
        }),
{
    if selected == 0 {
        None
    } else {
        Some(selected - 1)
    }
}

/// The GPU a save stores: none (empty) without a GPU row or on its
/// default row, else the chosen option (empty when out of range).
pub fn gpu_choice(selected: Option<u32>, options: &Vec<String>) -> (r: String)
    ensures
        r@ == match selected {
            Some(i) if i > 0 && i - 1 < options.len() => options@[i - 1]@,
            _ => Seq::<char>::empty(),
        },
{
    match selected {
        Some(i) => {
            if i > 0 && ((i - 1) as usize) < options.len() {
                options[(i - 1) as usize].clone()
            } else {
                String::new()
            }
        },
        None => String::new(),
    }
}

/// The Wine profile a save links: the saved one when the page has no
/// profile row, none on the row's "no profile" entry, else the chosen
/// profile's id (none when out of range).
pub fn chosen_profile(selected: Option<u32>, profile_ids: &Vec<i64>, saved: Option<i64>) -> (r:
    Option<i64>)
    ensures
        r == match selected {
            None => saved,
            Some(i) => if i > 0 && i - 1 < profile_ids.len() {
                Some(profile_ids@[i - 1])
            } else {
                None
            },
        },
{
    match selected {
        None => saved,
        Some(i) => {
            if i > 0 && ((i - 1) as usize) < profile_ids.len() {
                Some(profile_ids[(i - 1) as usize])
            } else {
                None
            }
        },
    }
}

/// The runtime a managed PC game is switched to.
#[derive(Clone, Copy, PartialEq, Eq, Debug, Structural)]
pub enum RuntimeKind {
    Wine,
    Linux,
}

/// The runtime row's choice: its first row is Wine, its second native
/// Linux; without the row (or on another row) the game keeps its kind.
pub fn selected_runtime(selected: Option<u32>) -> (r: Option<RuntimeKind>)
    ensures
        r == match selected {
            Some(0) => Some(RuntimeKind::Wine),
            Some(1) => Some(RuntimeKind::Linux),
            _ => None,
        },
{
    match selected {
        Some(0) => Some(RuntimeKind::Wine),
        Some(1) => Some(RuntimeKind::Linux),
        _ => None,
    }
}

/// The names in a list of override names.
pub open spec fn names_view(fields: Seq<String>) -> Seq<Seq<char>> {
    fields.map_values(|f: String| f@)
}

/// The list without any copy of `name`.
pub open spec fn without_name(fields: Seq<Seq<char>>, name: Seq<char>) -> Seq<Seq<char>>
    decreases fields.len(),
{
    if fields.len() == 0 {
        fields
    } else {
        let rest = without_name(fields.drop_last(), name);
        if fields.last() == name {
            rest
        } else {
            rest.push(fields.last())
        }
    }
}

/// The override marks after a save: a setting that differs from the
/// app-wide default is marked once (appended when new), one that matches
/// it loses every mark.
pub open spec fn marked_spec(fields: Seq<Seq<char>>, name: Seq<char>, overridden: bool) -> Seq<
    Seq<char>,
> {
    if overridden {
        if fields.contains(name) {
            fields
        } else {
            fields.push(name)
        }
    } else {
        without_name(fields, name)
    }
}

proof fn lemma_without_name_lacks(fields: Seq<Seq<char>>, name: Seq<char>)
    ensures
        !without_name(fields, name).contains(name),
    decreases fields.len(),
{
    if fields.len() > 0 {
        lemma_without_name_lacks(fields.drop_last(), name);
        let rest = without_name(fields.drop_last(), name);
        if fields.last() != name {
            assert forall|k: int| 0 <= k < rest.len() + 1 implies rest.push(fields.last())[k]
                != name by {
                if k < rest.len() {
                    assert(rest.push(fields.last())[k] == rest[k]);
                }
            }
        }
    }
}

/// Mark a setting as overridden for the game, or drop its mark.
pub fn mark_overridden(fields: &mut Vec<String>, name: &str, overridden: bool)
    ensures
        names_view(final(fields)@) == marked_spec(names_view(old(fields)@), name@, overridden),
{
    let ghost before = names_view(fields@);
    let mut present = false;
    let mut i: usize = 0;
    while i < fields.len()
        invariant
            i <= fields.len(),
            before == names_view(fields@),
            present == exists|k: int| 0 <= k < i && #[trigger] before[k] == name@,
        decreases fields.len() - i,
    {
        if crate::text::same_text(fields[i].as_str(), name) {
            assert(before[i as int] == name@);
            present = true;
        }
        i = i + 1;
    }
    if overridden {
        if !present {
            fields.push(name.to_string());
            assert(names_view(fields@) =~= before.push(name@));
        } else {
            assert(before.contains(name@));
        }
        proof {
            if !present {
                assert(!before.contains(name@));
            }
        }
    } else {
        let mut kept: Vec<String> = Vec::new();
        let mut j: usize = 0;
        while j < fields.len()
            invariant
                j <= fields.len(),
                before == names_view(fields@),
                names_view(kept@) == without_name(before.take(j as int), name@),
            decreases fields.len() - j,
        {
            assert(before.take(j + 1).drop_last() =~= before.take(j as int));
            assert(before.take(j + 1).last() == fields@[j as int]@);
            if !crate::text::same_text(fields[j].as_str(), name) {
                let ghost prev = names_view(kept@);
                kept.push(fields[j].clone());
                assert(names_view(kept@) =~= prev.push(fields@[j as int]@));
            }
            j = j + 1;
        }
        assert(before.take(fields.len() as int) =~= before);
        *fields = kept;
    }
}

/// Marking twice is marking once, and afterwards the setting is marked
/// exactly when it is overridden.
pub proof fn law_override_marks_settle(fields: Seq<Seq<char>>, name: Seq<char>, overridden: bool)
    ensures
        marked_spec(marked_spec(fields, name, overridden), name, overridden) == marked_spec(
            fields,
            name,
            overridden,
        ),
        marked_spec(fields, name, overridden).contains(name) == overridden,
{
    lemma_without_name_lacks(fields, name);
    if overridden {
        if !fields.contains(name) {
            assert(fields.push(name)[fields.len() as int] == name);
        }
    } else {
        lemma_without_name_same(without_name(fields, name), name);
    }
}

proof fn lemma_without_name_same(fields: Seq<Seq<char>>, name: Seq<char>)
    requires
        !fields.contains(name),
    ensures
        without_name(fields, name) == fields,
    decreases fields.len(),
{
    if fields.len() > 0 {
        assert(!fields.drop_last().contains(name)) by {
            if fields.drop_last().contains(name) {
                let k = choose|k: int| 0 <= k < fields.drop_last().len() && fields.drop_last()[k]
                    == name;
                assert(fields[k] == name);
            }
        }
        lemma_without_name_same(fields.drop_last(), name);
        assert(fields.last() != name) by {
            assert(fields[fields.len() - 1] == fields.last());
        }
        assert(fields.drop_last().push(fields.last()) =~= fields);
    }
}

/// The draft key that asks the save to drop a game's RetroAchievements
/// match: `__ra_unmatch_` and the game's id.
pub open spec fn ra_unmatch_key_spec(db_id: i64) -> Seq<char> {
    "__ra_unmatch_"@ + signed_decimal(db_id as int)
}

/// The draft key that asks the save to drop the game's SteamGridDB match.
pub open spec fn sgdb_unmatch_key_spec() -> Seq<char> {
    "__unmatch__"@
}

/// The RetroAchievements unmatch draft key for a game.
pub fn ra_unmatch_key(db_id: i64) -> (r: String)
    ensures
        r@ == ra_unmatch_key_spec(db_id),
{
    let prefix = "__ra_unmatch_";
    let mut v = chars_of(prefix);
    push_signed_decimal(&mut v, db_id);
    string_of(&v)
}

/// Which unmatches a save applies, from the staged draft keys: the
/// SteamGridDB one, and the game's RetroAchievements one.
pub fn pending_unmatches(keys: &Vec<String>, db_id: i64) -> (r: (bool, bool))
    ensures
        r.0 == names_view(keys@).contains(sgdb_unmatch_key_spec()),
        r.1 == names_view(keys@).contains(ra_unmatch_key_spec(db_id)),
{
    let ghost kv = names_view(keys@);
    let ra_key = ra_unmatch_key(db_id);
    let sgdb_key = "__unmatch__";
    proof {
        reveal_strlit("__unmatch__");
    }
    let mut sgdb = false;
    let mut ra = false;
    let mut i: usize = 0;
    while i < keys.len()
        invariant
            i <= keys.len(),
            kv == names_view(keys@),
            ra_key@ == ra_unmatch_key_spec(db_id),
            sgdb_key@ == sgdb_unmatch_key_spec(),
            sgdb == exists|k: int| 0 <= k < i && #[trigger] kv[k] == sgdb_unmatch_key_spec(),
            ra == exists|k: int| 0 <= k < i && #[trigger] kv[k] == ra_unmatch_key_spec(db_id),
        decreases keys.len() - i,
    {
        if crate::text::same_text(keys[i].as_str(), sgdb_key) {
            assert(kv[i as int] == sgdb_unmatch_key_spec());
            sgdb = true;
        }
        if crate::text::same_text(keys[i].as_str(), ra_key.as_str()) {
            assert(kv[i as int] == ra_unmatch_key_spec(db_id));
            ra = true;
        }
        i = i + 1;
    }
    (sgdb, ra)
}

/// A logo size percentage kept within 5 to 100.
pub open spec fn clamp_logo_size(size: i32) -> i32 {
    if size < 5 {
        5
    } else if size > 100 {
        100
    } else {
        size
    }
}

/// The logo page's starting position and size: a game without its own
/// position inherits the default position at half size; otherwise its
/// position and its size, kept within 5 to 100 percent.
pub fn shown_logo_settings(position: &str, size: i32, default_position: &str) -> (r: (String, i32))
    ensures
        r.0@ == (if position@.len() == 0 {
            default_position@
        } else {
            position@
        }),
        r.1 == (if position@.len() == 0 {
            50
        } else {
            clamp_logo_size(size)
        }),
{
    if position.is_empty() {
        (default_position.to_string(), 50)
    } else {
        (position.to_string(), clamp_size(size))
    }
}

fn clamp_size(size: i32) -> (r: i32)
    ensures
        r == clamp_logo_size(size),
{
    if size < 5 {
        5
    } else if size > 100 {
        100
    } else {
        size
    }
}

/// The logo settings a Steam reset stores: Steam's position (the default
/// when Steam gives none) and its size, kept within 5 to 100 percent.
pub fn steam_logo_settings(position: &str, size: i32, default_position: &str) -> (r: (String, i32))
    ensures
        r.0@ == (if position@.len() == 0 {
            default_position@
        } else {
            position@
        }),
        r.1 == clamp_logo_size(size),
{
    let pos = if position.is_empty() {
        default_position.to_string()
    } else {
        position.to_string()
    };
    (pos, clamp_size(size))
}

/// The first position of `value` in `values`, when it is there.
pub open spec fn first_index_of(values: Seq<Seq<char>>, value: Seq<char>, from: int) -> Option<int>
    decreases values.len() - from,
{
    if from < 0 || from >= values.len() {
        None
    } else if values[from] == value {
        Some(from)
    } else {
        first_index_of(values, value, from + 1)
    }
}

/// The row an override dropdown shows: row 0 ("Follow global") for no
/// override, else the first row whose option is the stored override (row
/// `i + 1` for option `i`), falling back to row 0 for an override no
/// option offers.
pub open spec fn override_row_spec(values: Seq<Seq<char>>, current: Seq<char>) -> int {
    if current.len() == 0 {
        0
    } else {
        match first_index_of(values, current, 0) {
            Some(i) => i + 1,
            None => 0,
        }
    }
}

/// The row an override dropdown starts on.
pub fn override_row(values: &Vec<String>, current: &str) -> (r: u32)
    requires
        values.len() < u32::MAX,
    ensures
        r as int == override_row_spec(texts_view(values@), current@),
{
    let ghost vv = texts_view(values@);
    if current.is_empty() {
        return 0;
    }
    let mut i: usize = 0;
    while i < values.len()
        invariant
            i <= values.len(),
            values.len() < u32::MAX,
            vv == texts_view(values@),
            vv.len() == values.len(),
            current@.len() > 0,
            first_index_of(vv, current@, 0) == first_index_of(vv, current@, i as int),
        decreases values.len() - i,
    {
        if crate::text::same_text(values[i].as_str(), current) {
            assert(vv[i as int] == current@);
            assert(first_index_of(vv, current@, i as int) == Some(i as int));
            return (i + 1) as u32;
        }
        i = i + 1;
    }
    0
}

/// The views of a list of texts.
pub open spec fn texts_view(s: Seq<String>) -> Seq<Seq<char>> {
    s.map_values(|t: String| t@)
}

/// What picking a row of an override dropdown stages: row 0 clears the
/// override (empty, follow the global setting), another row its option;
/// a row past the options stages nothing.
pub fn override_pick(values: &Vec<String>, row: u32) -> (r: Option<String>)
    ensures
        match r {
            Some(v) => if row == 0 {
                v@.len() == 0
            } else {
                row - 1 < values.len() && v@ == values@[row - 1]@
            },
            None => row > 0 && row - 1 >= values.len(),
        },
{
    if row == 0 {
        Some(String::new())
    } else if ((row - 1) as usize) < values.len() {
        Some(values[(row - 1) as usize].clone())
    } else {
        None
    }
}

/// An override dropdown shows the stored override, and picking the row it
/// shows stages that override back: no override (row 0) or an override
/// the dropdown offers.
pub proof fn law_override_row_round_trip(values: Seq<Seq<char>>, current: Seq<char>)
    requires
        current.len() == 0 || values.contains(current),
    ensures
        current.len() == 0 ==> override_row_spec(values, current) == 0,
        current.len() > 0 ==> {
            let row = override_row_spec(values, current);
            1 <= row <= values.len() && values[row - 1] == current
        },
{
    if current.len() > 0 {
        let k = choose|k: int| 0 <= k < values.len() && values[k] == current;
        lemma_first_index_found(values, current, 0, k);
    }
}

proof fn lemma_first_index_found(values: Seq<Seq<char>>, value: Seq<char>, from: int, k: int)
    requires
        0 <= from <= k < values.len(),
        values[k] == value,
    ensures
        first_index_of(values, value, from) matches Some(i) && from <= i <= k && values[i] == value,
    decreases k - from,
{
    if values[from] != value {
        lemma_first_index_found(values, value, from + 1, k);
    }
}

/// A variant card as the variants page's save reads it: its stored id
/// (none for a card added this session), whether its delete was
/// confirmed, and its name.
pub struct VariantCard {
    pub id: Option<i64>,
    pub deleted: bool,
    pub name: String,
}

/// The stored variants whose cards were deleted, in card order.
pub open spec fn variant_deletes(cards: Seq<VariantCard>) -> Seq<i64>
    decreases cards.len(),
{
    if cards.len() == 0 {
        Seq::empty()
    } else {
        let prev = variant_deletes(cards.drop_last());
        let c = cards.last();
        if c.deleted && c.id is Some {
            prev.push(c.id->0)
        } else {
            prev
        }
    }
}

/// The cards that are written (updated when stored, added otherwise),
/// in card order: kept cards with a name.
pub open spec fn variant_writes(cards: Seq<VariantCard>) -> Seq<usize>
    decreases cards.len(),
{
    if cards.len() == 0 {
        Seq::empty()
    } else {
        let prev = variant_writes(cards.drop_last());
        let c = cards.last();
        if !c.deleted && c.name@.len() > 0 {
            prev.push((cards.len() - 1) as usize)
        } else {
            prev
        }
    }
}

/// What saving the variants page does: the stored variants to delete,
/// then the cards to write in order (their ids, old and new, give the
/// variants' order, stored when there are two or more).
pub fn variant_save_plan(cards: &Vec<VariantCard>) -> (r: (Vec<i64>, Vec<usize>))
    ensures
        r.0@ == variant_deletes(cards@),
        r.1@ == variant_writes(cards@),
{
    let mut deletes: Vec<i64> = Vec::new();
    let mut writes: Vec<usize> = Vec::new();
    let mut i: usize = 0;
    while i < cards.len()
        invariant
            i <= cards.len(),
            deletes@ == variant_deletes(cards@.take(i as int)),
            writes@ == variant_writes(cards@.take(i as int)),
        decreases cards.len() - i,
    {
        assert(cards@.take(i + 1).drop_last() =~= cards@.take(i as int));
        assert(cards@.take(i + 1).last() == cards@[i as int]);
        let c = &cards[i];
        if c.deleted {
            match c.id {
                Some(id) => {
                    deletes.push(id);
                },
                None => {},
            }
        } else if !c.name.as_str().is_empty() {
            writes.push(i);
        }
        i = i + 1;
    }
    assert(cards@.take(cards.len() as int) =~= cards@);
    (deletes, writes)
}

/// The logo settings a variant stores: its own when its logo was
/// changed on the page, else none (empty position, size 0: it follows
/// its game).
pub fn variant_logo(modified: bool, position: &str, size: i32) -> (r: (String, i32))
    ensures
        r.0@ == (if modified {
            position@
        } else {
            Seq::empty()
        }),
        r.1 == (if modified {
            size
        } else {
            0
        }),
{
    if modified {
        (position.to_string(), size)
    } else {
        (String::new(), 0)
    }
}

/// The settings dialog has a DLC page for every game that is not a Steam
/// game (Steam manages its own DLC).
pub fn dlc_page_shown(is_steam: bool) -> (r: bool)
    ensures
        r == !is_steam,
{
    !is_steam
}

/// The logo page offers to reset to Steam's logo when the game's
/// trophies come from Steam enrichment and it has a Steam app id.
pub fn steam_logo_reset_offered(steam_enriched: bool, app_id: &str) -> (r: bool)
    ensures
        r == (steam_enriched && app_id@.len() > 0),
{
    steam_enriched && !app_id.is_empty()
}

/// How moving a game's saves into the central save folder ended.
pub enum SaveMigration {
    /// The game's app details name no save paths (or could not be read).
    NoSavePaths,
    /// Moving the saves failed.
    Failed,
    /// This many save folders were moved.
    Moved(u64),
}

/// The save-migration wants the Wine prefix only for a Wine game with
/// Wine enabled.
pub fn migration_uses_prefix(is_wine_game: bool, wine_enabled: bool) -> (r: bool)
    ensures
        r == (is_wine_game && wine_enabled),
{
    is_wine_game && wine_enabled
}

/// The save-migration button's label once it has run.
pub open spec fn migration_label_spec(outcome: SaveMigration) -> Seq<char> {
    match outcome {
        SaveMigration::NoSavePaths => "No save paths known"@,
        SaveMigration::Failed => "Save migration failed"@,
        SaveMigration::Moved(n) => if n > 0 {
            "Migrated "@ + decimal(n as nat) + " save folder(s)"@
        } else {
            "Already centralized"@
        },
    }
}

/// The label the save-migration button shows after a run.
pub fn migration_label(outcome: &SaveMigration) -> (s: String)
    ensures
        s@ == migration_label_spec(*outcome),
{
    match outcome {
        SaveMigration::NoSavePaths => "No save paths known".to_string(),
        SaveMigration::Failed => "Save migration failed".to_string(),
        SaveMigration::Moved(n) => {
            if *n > 0 {
                let mut v: Vec<char> = chars_of("Migrated ");
                push_decimal(&mut v, *n);
                let tail = chars_of(" save folder(s)");
                let mut i: usize = 0;
                let ghost head = v@;
                while i < tail.len()
                    invariant
                        i <= tail.len(),
                        v@ == head + tail@.take(i as int),
                    decreases tail.len() - i,
                {
                    v.push(tail[i]);
                    assert(tail@.take(i + 1) =~= tail@.take(i as int).push(tail@[i as int]));
                    i = i + 1;
                }
                assert(tail@.take(tail.len() as int) =~= tail@);
                string_of(&v)
            } else {
                "Already centralized".to_string()
            }
        },
    }
}

/// The kinds of game the general settings page tells apart.
#[derive(Clone, Copy, PartialEq, Eq, Debug, Structural)]
pub enum GeneralPageKind {
    Steam,
    Ps4,
    Retro,
    Other,
}

/// Where a game's trophies come from, as the general page tells them
/// apart: the Steam API emulator, the GOG one, or elsewhere.
#[derive(Clone, Copy, PartialEq, Eq, Debug, Structural)]
pub enum TrophySourceTag {
    SteamEmulator,
    GogEmulator,
    Other,
}

/// The service-id rows of the general page.
#[derive(Clone, Copy, PartialEq, Eq, Debug, Structural)]
pub enum ServiceIds {
    /// The PS4 NPWR code and game serial, read-only.
    Ps4Codes,
    /// An editable Steam app id with a store search.
    SteamAppId,
    /// An editable GOG product id.
    GogProductId,
}

/// Which groups the general page shows.
#[derive(Clone, Copy, PartialEq, Eq, Debug, Structural)]
pub struct GeneralPageRows {
    /// The read-only game file row.
    pub game_file: bool,
    /// The shadPS4 version dropdown.
    pub shadps4_version: bool,
    /// The emulator dropdown (with its RetroArch core row).
    pub emulator: bool,
    /// The service-id group, if any.
    pub service_ids: Option<ServiceIds>,
    /// The API emulator's game-language row.
    pub language: bool,
}

/// The general page's groups for a game: the game file for any game with
/// a path that is not a Steam game; the shadPS4 version for a PS4 game
/// when shadPS4 builds are installed; the emulator for a retro game when
/// emulators are known; service ids for a PS4 game (its codes) or a game
/// run by an API emulator (Steam's app id, else GOG's product id); the
/// game language when an API emulator runs it and it lists languages.
pub open spec fn general_page_rows_spec(
    kind: GeneralPageKind,
    trophies: TrophySourceTag,
    has_path: bool,
    shadps4_installed: bool,
    emulators_known: bool,
    languages_listed: bool,
) -> GeneralPageRows {
    let api_emulated = trophies != TrophySourceTag::Other;
    GeneralPageRows {
        game_file: has_path && kind != GeneralPageKind::Steam,
        shadps4_version: kind == GeneralPageKind::Ps4 && shadps4_installed,
        emulator: kind == GeneralPageKind::Retro && emulators_known,
        service_ids: if kind == GeneralPageKind::Ps4 {
            Some(ServiceIds::Ps4Codes)
        } else if trophies == TrophySourceTag::SteamEmulator {
            Some(ServiceIds::SteamAppId)
        } else if trophies == TrophySourceTag::GogEmulator {
            Some(ServiceIds::GogProductId)
        } else {
            None
        },
        language: languages_listed && api_emulated,
    }
}

/// The groups the general settings page shows for a game.
pub fn general_page_rows(
    kind: GeneralPageKind,
    trophies: TrophySourceTag,
    has_path: bool,
    shadps4_installed: bool,
    emulators_known: bool,
    languages_listed: bool,
) -> (r: GeneralPageRows)
    ensures
        r == general_page_rows_spec(
            kind,
            trophies,
            has_path,
            shadps4_installed,
            emulators_known,
            languages_listed,
        ),
{
    let api_emulated = match trophies {
        TrophySourceTag::Other => false,
        _ => true,
    };
    let service_ids = match kind {
        GeneralPageKind::Ps4 => Some(ServiceIds::Ps4Codes),
        _ => match trophies {
            TrophySourceTag::SteamEmulator => Some(ServiceIds::SteamAppId),
            TrophySourceTag::GogEmulator => Some(ServiceIds::GogProductId),
            TrophySourceTag::Other => None,
        },
    };
    GeneralPageRows {
        game_file: has_path && !matches!(kind, GeneralPageKind::Steam),
        shadps4_version: matches!(kind, GeneralPageKind::Ps4) && shadps4_installed,
        emulator: matches!(kind, GeneralPageKind::Retro) && emulators_known,
        service_ids,
        language: languages_listed && api_emulated,
    }
}

/// One entry of the in-memory games list as a rename sees it.
#[derive(Clone, Debug)]
pub struct ListedGame {
    pub db_id: i64,
    /// The entry is a variant of the game (the base entry is not).
    pub is_variant: bool,
    pub name: String,
    pub sort_title: String,
}

/// A listed game as values: (db id, is a variant, name, sort title).
pub type ListedGameView = (i64, bool, Seq<char>, Seq<char>);

impl View for ListedGame {
    type V = ListedGameView;

    open spec fn view(&self) -> ListedGameView {
        (self.db_id, self.is_variant, self.name@, self.sort_title@)
    }
}

/// The views of a games list.
pub open spec fn listed_views(s: Seq<ListedGame>) -> Seq<ListedGameView> {
    s.map_values(|g: ListedGame| g@)
}

/// Entry `i` is the game's base entry (same id, not a variant).
pub open spec fn is_base_of(s: Seq<ListedGameView>, db_id: i64, i: int) -> bool {
    0 <= i < s.len() && s[i].0 == db_id && !s[i].1
}

/// Entry `i` is the first base entry of the game.
pub open spec fn is_first_base(s: Seq<ListedGameView>, db_id: i64, i: int) -> bool {
    &&& is_base_of(s, db_id, i)
    &&& forall|k: int| 0 <= k < i ==> !#[trigger] is_base_of(s, db_id, k)
}

/// Entry `j` after renaming the game whose first base entry is `base`
/// (named `old`) to `title` / `sort_title`: the base entry takes both;
/// when the title changed, each variant of the game takes
/// `renamed_variant_spec`; every other entry stays.
pub open spec fn renamed_entry(
    e: ListedGameView,
    j: int,
    base: int,
    db_id: i64,
    old: Seq<char>,
    title: Seq<char>,
    sort_title: Seq<char>,
) -> ListedGameView {
    if j == base {
        (e.0, e.1, title, sort_title)
    } else if e.0 == db_id && e.1 && old != title {
        (e.0, e.1, renamed_variant_spec(e.2, old, title), e.3)
    } else {
        e
    }
}

/// Rename a game in the in-memory list: its first base entry takes the
/// new title and sort title and, when the title changed, its variants'
/// names follow; a game with no base entry leaves the list as it is.
pub fn rename_in_list(games: &mut Vec<ListedGame>, db_id: i64, title: &str, sort_title: &str)
    ensures
        listed_views(final(games)@).len() == listed_views(old(games)@).len(),
        (forall|k: int| !#[trigger] is_base_of(listed_views(old(games)@), db_id, k))
            ==> listed_views(final(games)@) == listed_views(old(games)@),
        forall|b: int| #[trigger] is_first_base(listed_views(old(games)@), db_id, b) ==> forall|j: int|
            0 <= j < old(games)@.len() ==> #[trigger] listed_views(final(games)@)[j] == renamed_entry(
                listed_views(old(games)@)[j],
                j,
                b,
                db_id,
                listed_views(old(games)@)[b].2,
                title@,
                sort_title@,
            ),
{
    let ghost before = listed_views(games@);
    let mut i: usize = 0;
    while i < games.len()
        invariant
            i <= games.len(),
            games@ == old(games)@,
            before == listed_views(games@),
            forall|k: int| 0 <= k < i ==> !#[trigger] is_base_of(before, db_id, k),
        ensures
            i <= games.len(),
            games@ == old(games)@,
            before == listed_views(games@),
            forall|k: int| 0 <= k < i ==> !#[trigger] is_base_of(before, db_id, k),
            i < games.len() ==> is_base_of(before, db_id, i as int),
        decreases games.len() - i,
    {
        assert(before[i as int] == games@[i as int]@);
        if games[i].db_id == db_id && !games[i].is_variant {
            break;
        }
        i = i + 1;
    }
    if i == games.len() {
        assert(listed_views(games@) =~= before);
        return;
    }
    let base = i;
    assert(is_first_base(before, db_id, base as int));
    proof {
        assert forall|b: int| #[trigger] is_first_base(before, db_id, b) implies b == base by {
            if b < base {
            } else if b > base {
                assert(is_base_of(before, db_id, base as int));
            }
        }
    }
    let old_name = games[base].name.clone();
    assert(old_name@ == before[base as int].2);
    let changed = !same_text(old_name.as_str(), title);
    let mut j: usize = 0;
    while j < games.len()
        invariant
            j <= games.len(),
            games@.len() == before.len(),
            base < before.len(),
            is_first_base(before, db_id, base as int),
            old_name@ == before[base as int].2,
            changed == (old_name@ != title@),
            forall|k: int| 0 <= k < j ==> #[trigger] listed_views(games@)[k] == renamed_entry(
                before[k], k, base as int, db_id, old_name@, title@, sort_title@),
            forall|k: int| j <= k < games@.len() ==> #[trigger] listed_views(games@)[k] == before[k],
        decreases games.len() - j,
    {
        let ghost prev = games@;
        assert(listed_views(prev)[j as int] == prev[j as int]@);
        if j == base {
            let e = ListedGame {
                db_id: games[j].db_id,
                is_variant: games[j].is_variant,
                name: title.to_string(),
                sort_title: sort_title.to_string(),
            };
            games.set(j, e);
        } else if changed && games[j].db_id == db_id && games[j].is_variant {
            let e = ListedGame {
                db_id: games[j].db_id,
                is_variant: games[j].is_variant,
                name: renamed_variant(games[j].name.as_str(), old_name.as_str(), title),
                sort_title: games[j].sort_title.clone(),
            };
            games.set(j, e);
        }
        proof {
            assert forall|k: int| 0 <= k < games@.len() && k != j implies #[trigger] listed_views(games@)[k]
                == listed_views(prev)[k] by {
                assert(games@[k] == prev[k]);
            }
            assert(listed_views(games@)[j as int] == games@[j as int]@);
        }
        j = j + 1;
    }
}

/// Saving the Steam-link entry: text that is neither empty nor an app id
/// (after trimming) is refused; otherwise the trimmed text is stored
/// exactly when it differs from the current link, and left alone when it
/// is the current link.
pub proof fn law_steam_link_edit_stores_the_trimmed_id(text: Seq<char>, current: Seq<char>)
    ensures
        ({
            let link = trim_spec(text);
            let valid = link.len() == 0 || parse_u32_spec(link) is Some;
            &&& steam_link_edit_spec(text, current) is None <==> !valid
            &&& valid && link == current ==> steam_link_edit_spec(text, current) == Some(
                None::<Seq<char>>,
            )
            &&& valid && link != current ==> steam_link_edit_spec(text, current) == Some(Some(link))
        }),
{
}

/// An edited app id: an unchanged id writes nothing; a changed id of a
/// Steam-enriched game always goes to the Steam and native columns, of a
/// RetroAchievements match (when non-empty) to the RA column, else to the
/// native column; the achievement source is cleared exactly when the new
/// id is empty.
pub proof fn law_app_id_lands_by_source(
    new_id: Seq<char>,
    old_id: Seq<char>,
    steam_enriched: bool,
    retro_achievements: bool,
)
    ensures
        new_id == old_id ==> app_id_column_spec(new_id, old_id, steam_enriched, retro_achievements)
            is None,
        new_id != old_id ==> (app_id_column_spec(new_id, old_id, steam_enriched, retro_achievements)
            matches Some((column, clears)) && clears == (new_id.len() == 0) && (steam_enriched
            ==> column == AppIdColumn::SteamAndNative) && (!steam_enriched && retro_achievements
            && new_id.len() > 0 ==> column == AppIdColumn::RetroAchievements) && (!steam_enriched
            && !(retro_achievements && new_id.len() > 0) ==> column == AppIdColumn::Native)),
{
}

} // verus!
