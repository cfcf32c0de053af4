//! The entity manager's small rules: usage subtitles, the dialog's page
//! flow, the pickers' rows and empty-state copy, and moving a variant
//! card.

use vstd::prelude::*;
use std::collections::HashMap;
use crate::text::{push_signed_decimal, signed_decimal, string_of, chars_of, trim, trim_spec, parse_i64,
    parse_i64_spec, same_text};
use crate::entities::{ScraperEntity, EntityView, entity_views, contains_id, has_id, entities_differ,
    entities_differ_spec};
use crate::text::{join_spec, join_texts};

verus! {

broadcast use vstd::std_specs::hash::group_hash_axioms;

/// One entity's usage count as a subtitle: `"Used by <n> games"`, or
/// `"Unused"` for an entity no game credits.
pub open spec fn usage_subtitle_spec(usage: Map<i64, i64>, id: i64) -> Seq<char> {
    if usage.contains_key(id) {
        seq!['U', 's', 'e', 'd', ' ', 'b', 'y', ' '] + signed_decimal(usage[id] as int) + seq![
            ' ',
            'g',
            'a',
            'm',
            'e',
            's',
        ]
    } else {
        seq!['U', 'n', 'u', 's', 'e', 'd']
    }
}

/// The usage subtitle of an entity, from the usage counts by entity id.
pub fn usage_subtitle(usage: &HashMap<i64, i64>, id: i64) -> (s: String)
    ensures
        s@ == usage_subtitle_spec(usage@, id),
{
    let mut v: Vec<char> = Vec::new();
    match usage.get(&id) {
        Some(count) => {
            v.push('U');
            v.push('s');
            v.push('e');
            v.push('d');
            v.push(' ');
            v.push('b');
            v.push('y');
            v.push(' ');
            push_signed_decimal(&mut v, *count);
            v.push(' ');
            v.push('g');
            v.push('a');
            v.push('m');
            v.push('e');
            v.push('s');
        },
        None => {
            v.push('U');
            v.push('n');
            v.push('u');
            v.push('s');
            v.push('e');
            v.push('d');
        },
    }
    assert(v@ =~= usage_subtitle_spec(usage@, id));
    string_of(&v)
}

/// The entity dialog's pages, in flow order.
#[derive(Clone, Copy, PartialEq, Eq, Debug, Structural)]
pub enum Page {
    Root,
    Search,
    Manage,
    Entity,
    Merge,
}

/// How deep a page sits in the flow; the slide direction between two
/// pages follows their depth difference.
pub open spec fn page_depth_spec(p: Page) -> u8 {
    match p {
        Page::Root => 0,
        Page::Search => 1,
        Page::Manage => 1,
        Page::Entity => 2,
        Page::Merge => 3,
    }
}

impl Page {
    /// The page's name in the dialog's stack.
    pub fn name(self) -> (r: &'static str)
        ensures
            r@ == match self {
                Page::Root => "root"@,
                Page::Search => "search"@,
                Page::Manage => "manage"@,
                Page::Entity => "entity"@,
                Page::Merge => "merge"@,
            },
    {
        match self {
            Page::Root => "root",
            Page::Search => "search",
            Page::Manage => "manage",
            Page::Entity => "entity",
            Page::Merge => "merge",
        }
    }

    /// The page's depth in the flow.
    pub fn depth(self) -> (r: u8)
        ensures
            r == page_depth_spec(self),
    {
        match self {
            Page::Root => 0,
            Page::Search | Page::Manage => 1,
            Page::Entity => 2,
            Page::Merge => 3,
        }
    }
}

/// Which metadata field an entity picker edits.
#[derive(Clone, Copy, PartialEq, Eq, Debug, Structural)]
pub enum EntityKind {
    Developer,
    Publisher,
    Genre,
    Family,
}

impl EntityKind {
    /// The picker's empty-state copy.
    pub fn empty_text(self) -> (r: &'static str)
        ensures
            r@ == match self {
                EntityKind::Developer => "Companies appear here as games get matched"@,
                EntityKind::Publisher => "Companies appear here as games get matched"@,
                EntityKind::Family => "Families appear here as games get matched"@,
                EntityKind::Genre => "No results found"@,
            },
    {
        match self {
            EntityKind::Developer | EntityKind::Publisher => {
                "Companies appear here as games get matched"
            },
            EntityKind::Family => "Families appear here as games get matched",
            EntityKind::Genre => "No results found",
        }
    }
}

/// Where a variant card moves: `delta` places from `index` when that stays
/// inside the list of `len` cards.
pub open spec fn move_target_spec(len: int, index: int, delta: int) -> Option<int> {
    let target = index + delta;
    if 0 <= index < len && 0 <= target < len {
        Some(target)
    } else {
        None
    }
}

/// Move the card at `index` by `delta` places: the cards swap, and the
/// result names the card's new position and the card it now follows
/// (`None` when it moved to the front). Nothing moves when the target is
/// outside the list.
pub fn move_variant_card<T>(cards: &mut Vec<T>, index: usize, delta: isize) -> (r: Option<
    (usize, Option<usize>),
>)
    ensures
        match move_target_spec(old(cards)@.len() as int, index as int, delta as int) {
            Some(t) => r == Some(
                (
                    t as usize,
                    if t == 0 {
                        None::<usize>
                    } else {
                        Some((t - 1) as usize)
                    },
                ),
            ) && final(cards)@ == old(cards)@.update(index as int, old(cards)@[t]).update(
                t,
                old(cards)@[index as int],
            ),
            None => r is None && final(cards)@ == old(cards)@,
        },
{
    if index >= cards.len() {
        return None;
    }
    let target: i128 = index as i128 + delta as i128;
    if target < 0 || target >= cards.len() as i128 {
        return None;
    }
    let t = target as usize;
    if t != index {
        let (lo, hi) = if t < index {
            (t, index)
        } else {
            (index, t)
        };
        let ghost orig = cards@;
        let high = cards.remove(hi);
        let low = cards.remove(lo);
        cards.insert(lo, high);
        cards.insert(hi, low);
        assert(cards@ =~= orig.update(index as int, orig[t as int]).update(t as int, orig[index as int]));
    } else {
        assert(cards@ =~= cards@.update(index as int, cards@[t as int]).update(t as int, cards@[index as int]));
    }
    let sibling = if t == 0 {
        None
    } else {
        Some(t - 1)
    };
    Some((t, sibling))
}

/// The id an entity row's manage button opens: the entity's id when it
/// is a database id (parses as an `i64`), else the row has no button.
pub fn manage_id(entity_id: &str) -> (r: Option<i64>)
    ensures
        r == parse_i64_spec(entity_id@),
{
    parse_i64(entity_id)
}

/// The term the add-search page searches by: the typed text, trimmed;
/// `None` when blank (the page then shows its empty-state copy).
pub fn picker_term(typed: &str) -> (r: Option<String>)
    ensures
        match r {
            Some(t) => t@ == trim_spec(typed@) && t@.len() > 0,
            None => trim_spec(typed@).len() == 0,
        },
{
    let t = trim(typed);
    if t.as_str().is_empty() {
        None
    } else {
        Some(t)
    }
}

/// One answer row of the add-search page: the entity, its subtitle, and
/// whether the draft already holds it (its button then starts "Added").
pub struct PickRow {
    pub entity: ScraperEntity,
    pub subtitle: String,
    pub added: bool,
}

/// A pick row's subtitle: `id <id>`.
pub open spec fn pick_subtitle(id: Seq<char>) -> Seq<char> {
    seq!['i', 'd', ' '] + id
}

/// The add-search page for a (trimmed, non-blank) term: a row per cache
/// answer, in the answers' order, then the custom row `Add "<term>"`,
/// already added when the draft holds an entity of that name.
pub struct PickerPage {
    pub rows: Vec<PickRow>,
    pub custom_label: String,
    pub custom_added: bool,
}

/// Some entity of the list carries the name.
pub open spec fn has_name(s: Seq<EntityView>, name: Seq<char>) -> bool {
    exists|i: int| 0 <= i < s.len() && #[trigger] s[i].1 == name
}

/// The add-search page's rows for the cache's answers to `term`, given
/// the entities the draft holds.
pub fn picker_page(term: &str, answers: &Vec<ScraperEntity>, held: &Vec<ScraperEntity>) -> (p:
    PickerPage)
    ensures
        p.rows.len() == answers.len(),
        forall|i: int|
            0 <= i < answers.len() ==> {
                &&& (#[trigger] p.rows@[i]).entity@ == answers@[i]@
                &&& p.rows@[i].subtitle@ == pick_subtitle(answers@[i].id@)
                &&& p.rows@[i].added == has_id(entity_views(held@), answers@[i].id@)
            },
        p.custom_label@ == seq!['A', 'd', 'd', ' ', '"'] + term@ + seq!['"'],
        p.custom_added == has_name(entity_views(held@), term@),
{
    let mut rows: Vec<PickRow> = Vec::new();
    let mut i: usize = 0;
    while i < answers.len()
        invariant
            i <= answers.len(),
            rows.len() == i,
            forall|k: int|
                0 <= k < i ==> {
                    &&& (#[trigger] rows@[k]).entity@ == answers@[k]@
                    &&& rows@[k].subtitle@ == pick_subtitle(answers@[k].id@)
                    &&& rows@[k].added == has_id(entity_views(held@), answers@[k].id@)
                },
        decreases answers.len() - i,
    {
        let a = &answers[i];
        let mut sub: Vec<char> = Vec::new();
        sub.push('i');
        sub.push('d');
        sub.push(' ');
        let idc = chars_of(a.id.as_str());
        let mut k: usize = 0;
        while k < idc.len()
            invariant
                k <= idc.len(),
                sub@ == seq!['i', 'd', ' '] + idc@.take(k as int),
            decreases idc.len() - k,
        {
            sub.push(idc[k]);
            k = k + 1;
            assert(sub@ =~= seq!['i', 'd', ' '] + idc@.take(k as int));
        }
        assert(idc@.take(idc.len() as int) =~= idc@);
        let added = contains_id(held, &a.id);
        let entity = ScraperEntity { id: a.id.clone(), name: a.name.clone() };
        rows.push(PickRow { entity, subtitle: string_of(&sub), added });
        i = i + 1;
    }
    let mut label: Vec<char> = Vec::new();
    label.push('A');
    label.push('d');
    label.push('d');
    label.push(' ');
    label.push('"');
    let tc = chars_of(term);
    let mut k: usize = 0;
    while k < tc.len()
        invariant
            k <= tc.len(),
            label@ == seq!['A', 'd', 'd', ' ', '"'] + tc@.take(k as int),
        decreases tc.len() - k,
    {
        label.push(tc[k]);
        k = k + 1;
        assert(label@ =~= seq!['A', 'd', 'd', ' ', '"'] + tc@.take(k as int));
    }
    label.push('"');
    assert(tc@.take(tc.len() as int) =~= tc@);
    assert(label@ =~= seq!['A', 'd', 'd', ' ', '"'] + term@ + seq!['"']);
    let ghost hv = entity_views(held@);
    let mut custom_added = false;
    let mut j: usize = 0;
    while j < held.len()
        invariant
            j <= held.len(),
            hv == entity_views(held@),
            custom_added == exists|m: int| 0 <= m < j && #[trigger] hv[m].1 == term@,
        decreases held.len() - j,
    {
        if same_text(held[j].name.as_str(), term) {
            assert(hv[j as int].1 == term@);
            custom_added = true;
        }
        j = j + 1;
    }
    PickerPage { rows, custom_label: string_of(&label), custom_added }
}

/// The merge page's candidates: every listed entity but the one being
/// merged away, in list order.
pub fn merge_candidates(rows: &Vec<(i64, String)>, id: i64) -> (r: Vec<(i64, String)>)
    ensures
        r@.map_values(|p: (i64, String)| (p.0, p.1@)) == rows@.map_values(
            |p: (i64, String)| (p.0, p.1@),
        ).filter(|p: (i64, Seq<char>)| p.0 != id),
{
    let ghost rv = rows@.map_values(|p: (i64, String)| (p.0, p.1@));
    let mut r: Vec<(i64, String)> = Vec::new();
    let mut i: usize = 0;
    while i < rows.len()
        invariant
            i <= rows.len(),
            rv == rows@.map_values(|p: (i64, String)| (p.0, p.1@)),
            r@.map_values(|p: (i64, String)| (p.0, p.1@)) == rv.take(i as int).filter(
                |p: (i64, Seq<char>)| p.0 != id,
            ),
        decreases rows.len() - i,
    {
        let ghost before = r@.map_values(|p: (i64, String)| (p.0, p.1@));
        assert(rv.take(i + 1).drop_last() =~= rv.take(i as int));
        reveal(Seq::filter);
        if rows[i].0 != id {
            r.push((rows[i].0, rows[i].1.clone()));
            assert(r@.map_values(|p: (i64, String)| (p.0, p.1@)) =~= before.push(rv[i as int]));
        }
        i = i + 1;
    }
    assert(rv.take(rows.len() as int) =~= rv);
    r
}

/// The manage list's empty-state copy: the cache is empty, or the
/// filter matched nothing.
pub fn manage_empty_note(filter: &str) -> (r: &'static str)
    ensures
        r@ == if filter@.len() == 0 {
            "Nothing in the cache yet — it fills as games get matched"@
        } else {
            "No results found"@
        },
{
    if filter.is_empty() {
        "Nothing in the cache yet — it fills as games get matched"
    } else {
        "No results found"
    }
}

/// A metadata field row's title and subtitle: the singular label for
/// exactly one entity, the plural otherwise; the names joined with
/// `, `, or `None` for an empty field.
pub fn field_row_text(entities: &Vec<ScraperEntity>, label: &str, singular: &str) -> (r: (String, String))
    ensures
        r.0@ == if entities.len() == 1 {
            singular@
        } else {
            label@
        },
        r.1@ == if entities.len() == 0 {
            "None"@
        } else {
            join_spec(entity_views(entities@).map_values(|e: EntityView| e.1), ", "@)
        },
{
    let title = if entities.len() == 1 {
        singular.to_string()
    } else {
        label.to_string()
    };
    if entities.len() == 0 {
        return (title, "None".to_string());
    }
    let mut names: Vec<String> = Vec::new();
    let mut i: usize = 0;
    while i < entities.len()
        invariant
            i <= entities.len(),
            names@.map_values(|n: String| n@) == entity_views(entities@).take(i as int).map_values(
                |e: EntityView| e.1,
            ),
        decreases entities.len() - i,
    {
        let ghost before = names@.map_values(|n: String| n@);
        names.push(entities[i].name.clone());
        assert(names@.map_values(|n: String| n@) =~= before.push(entities@[i as int].name@));
        assert(entity_views(entities@).take(i + 1).map_values(|e: EntityView| e.1)
            =~= entity_views(entities@).take(i as int).map_values(|e: EntityView| e.1).push(
            entities@[i as int].name@,
        ));
        i = i + 1;
    }
    assert(entity_views(entities@).take(entities.len() as int) =~= entity_views(entities@));
    (title, join_texts(&names, ", "))
}

/// Whether a field row offers its undo button: a match is staged with a
/// snapshot from before it, and the field's current entities differ from
/// the snapshot's (the current list compared against the snapshot).
pub fn field_revert_shown(snapshot: Option<&Vec<ScraperEntity>>, current: &Vec<ScraperEntity>) -> (r:
    bool)
    ensures
        r == match snapshot {
            Some(pre) => entities_differ_spec(entity_views(current@), entity_views(pre@)),
            None => false,
        },
{
    match snapshot {
        Some(pre) => entities_differ(current, pre),
        None => false,
    }
}

} // verus!
