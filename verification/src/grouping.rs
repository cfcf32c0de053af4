//! The library's group-by sections: the category a game lands under for a
//! dimension, and the categories over a list of games in section order.

use vstd::prelude::*;
use chrono::Datelike;
use crate::order::{
    text_lt, compare_chars, lemma_text_lt_irreflexive, lemma_text_lt_transitive,
    lemma_text_lt_total, lemma_text_lt_asymmetric,
};
use crate::text::{
    chars_of, eq_ignore_ascii_case_spec, chars_eq_ignore_ascii_case, lowercase_of, to_lowercase,
    signed_decimal, push_signed_decimal, string_of, ascii_lower,
};

verus! {

broadcast use vstd::string::group_string_axioms;

/// The UTC calendar date of a Unix timestamp in seconds, as chrono gives
/// it through `DateTime::from_timestamp`: the year (`Datelike::year`) and
/// the month-and-day label (`"Aug 24"`, the format `"%b %-d"`); `None`
/// where chrono rejects the timestamp as out of range.
pub uninterp spec fn utc_date(secs: i64) -> Option<(i32, Seq<char>)>;

/// The UTC calendar date of a timestamp, through chrono.
/// Calls `chrono::DateTime::<Utc>::from_timestamp(secs, 0)` and, on a
/// date, reads its year and formats it with `"%b %-d"`; the result is
/// named by `utc_date` and depends on the timestamp alone. The calendar
/// arithmetic is not restated here.
#[verifier::external_body]
fn timestamp_date(secs: i64) -> (r: Option<(i32, String)>)
    ensures
        match r {
            Some((y, s)) => utc_date(secs) == Some((y, s@)),
            None => utc_date(secs) is None,
        },
{
    match chrono::DateTime::from_timestamp(secs, 0) {
        Some(date) => Some((date.year(), date.format("%b %-d").to_string())),
        None => None,
    }
}

/// When a game was last played: `"Never"` for a zero timestamp or one
/// chrono rejects, else the month and day.
pub open spec fn last_played_spec(ts: i64) -> Seq<char> {
    if ts == 0 {
        "Never"@
    } else {
        match utc_date(ts) {
            Some((_, s)) => s,
            None => "Never"@,
        }
    }
}

/// The "last played" label of a game.
pub fn format_last_played(ts: i64) -> (s: String)
    ensures
        s@ == last_played_spec(ts),
{
    if ts == 0 {
        return "Never".to_string();
    }
    match timestamp_date(ts) {
        Some((_, s)) => s,
        None => "Never".to_string(),
    }
}

/// A group-by dimension of the library.
#[derive(Clone, Copy, PartialEq, Eq, Debug, Structural)]
pub enum GroupBy {
    Off,
    Console,
    Year,
    Developer,
    Publisher,
    Genre,
    Family,
}

/// What a game's category name is made of.
pub struct GroupKeyInput {
    /// The game's name.
    pub name: String,
    /// The display name of the game's console.
    pub console_name: String,
    /// The release date as a Unix timestamp, 0 or less when unknown.
    pub release_timestamp: i64,
    /// The credited entity for the entity dimensions, if any.
    pub entity_name: Option<String>,
}

/// The category name a game lands under: the console's display name; the
/// release year (empty when chrono rejects the timestamp, `"Unknown
/// year"` when there is no date); the credited entity or
/// `"Uncategorized"`; the game's own name when grouping is off.
pub open spec fn group_key_spec(game: GroupKeyInput, group_by: GroupBy) -> Seq<char> {
    match group_by {
        GroupBy::Console => game.console_name@,
        GroupBy::Year => if game.release_timestamp > 0 {
            match utc_date(game.release_timestamp) {
                Some((y, _)) => signed_decimal(y as int),
                None => Seq::empty(),
            }
        } else {
            "Unknown year"@
        },
        GroupBy::Developer | GroupBy::Publisher | GroupBy::Genre | GroupBy::Family => {
            match game.entity_name {
                Some(n) => n@,
                None => "Uncategorized"@,
            }
        },
        GroupBy::Off => game.name@,
    }
}

/// The category name a game lands under for a group-by dimension.
pub fn group_key(game: &GroupKeyInput, group_by: GroupBy) -> (s: String)
    ensures
        s@ == group_key_spec(*game, group_by),
{
    match group_by {
        GroupBy::Console => game.console_name.clone(),
        GroupBy::Year => {
            if game.release_timestamp > 0 {
                match timestamp_date(game.release_timestamp) {
                    Some((y, _)) => {
                        let mut v: Vec<char> = Vec::new();
                        push_signed_decimal(&mut v, y as i64);
                        assert(v@ =~= signed_decimal(y as int));
                        string_of(&v)
                    },
                    None => String::new(),
                }
            } else {
                "Unknown year".to_string()
            }
        },
        GroupBy::Developer | GroupBy::Publisher | GroupBy::Genre | GroupBy::Family => {
            match &game.entity_name {
                Some(n) => n.clone(),
                None => "Uncategorized".to_string(),
            }
        },
        GroupBy::Off => game.name.clone(),
    }
}

/// One section: its name and the positions of its games in the input.
pub struct Category {
    pub name: String,
    pub members: Vec<usize>,
}

/// A section as texts: (name, member positions).
pub type CategoryView = (Seq<char>, Seq<usize>);

impl View for Category {
    type V = CategoryView;

    open spec fn view(&self) -> CategoryView {
        (self.name@, self.members@)
    }
}

/// The views of a list of sections.
pub open spec fn category_views(s: Seq<Category>) -> Seq<CategoryView> {
    s.map_values(|c: Category| c@)
}

/// The views of the games' category names.
pub open spec fn key_views(keys: Seq<String>) -> Seq<Seq<char>> {
    keys.map_values(|k: String| k@)
}

/// A well-formed section over `keys`: its members are, in increasing
/// order, exactly the positions whose key equals its name up to ASCII
/// case, and its name is its first member's key.
pub open spec fn section_of(keys: Seq<Seq<char>>, c: CategoryView) -> bool {
    &&& c.1.len() > 0
    &&& forall|a: int, b: int| 0 <= a < b < c.1.len() ==> #[trigger] c.1[a] < #[trigger] c.1[b]
    &&& c.0 == keys[c.1[0] as int]
    &&& forall|m: usize| #[trigger] c.1.contains(m) <==> (m < keys.len() && eq_ignore_ascii_case_spec(keys[m as int], c.0))
}

/// The sections partition the games: each is well formed, no two names
/// are equal up to ASCII case, and every game is in a section.
pub open spec fn partitions(keys: Seq<Seq<char>>, cats: Seq<CategoryView>) -> bool {
    &&& forall|i: int| 0 <= i < cats.len() ==> section_of(keys, #[trigger] cats[i])
    &&& forall|i: int, j: int|
        0 <= i < j < cats.len() ==> !eq_ignore_ascii_case_spec(#[trigger] cats[i].0, #[trigger] cats[j].0)
    &&& forall|m: int| 0 <= m < keys.len() ==> #[trigger] in_some_section(keys, cats, m)
}

/// Some section's name equals the key of game `m` up to ASCII case.
pub open spec fn in_some_section(keys: Seq<Seq<char>>, cats: Seq<CategoryView>, m: int) -> bool {
    exists|i: int| 0 <= i < cats.len() && eq_ignore_ascii_case_spec(keys[m], #[trigger] cats[i].0)
}

/// A year section holds a known year.
pub open spec fn known_year(name: Seq<char>) -> bool {
    name != "Unknown year"@
}

/// Section order: by year, known years newest first (descending by name)
/// with the unknowns last; by any other dimension, by lower-cased name.
/// Sections that tie keep the order of their first game.
pub open spec fn section_before(a: CategoryView, b: CategoryView, by_year: bool) -> bool {
    if by_year {
        ||| (known_year(a.0) && !known_year(b.0))
        ||| (known_year(a.0) == known_year(b.0) && (text_lt(b.0, a.0) || (a.0 == b.0 && a.1[0]
            < b.1[0])))
    } else {
        ||| text_lt(lowercase_of(a.0), lowercase_of(b.0))
        ||| (lowercase_of(a.0) == lowercase_of(b.0) && a.1[0] < b.1[0])
    }
}

/// Strictly increasing in section order.
pub open spec fn sections_sorted(s: Seq<CategoryView>, by_year: bool) -> bool {
    forall|i: int, j: int|
        0 <= i < j < s.len() ==> section_before(#[trigger] s[i], #[trigger] s[j], by_year)
}

proof fn lemma_section_irreflexive(a: CategoryView, by_year: bool)
    ensures
        !section_before(a, a, by_year),
{
    lemma_text_lt_irreflexive(a.0);
    lemma_text_lt_irreflexive(lowercase_of(a.0));
}

proof fn lemma_section_transitive(a: CategoryView, b: CategoryView, c: CategoryView, by_year: bool)
    requires
        section_before(a, b, by_year),
        section_before(b, c, by_year),
    ensures
        section_before(a, c, by_year),
{
    if by_year {
        if text_lt(c.0, b.0) && text_lt(b.0, a.0) {
            lemma_text_lt_transitive(c.0, b.0, a.0);
        }
    } else {
        let (la, lb, lc) = (lowercase_of(a.0), lowercase_of(b.0), lowercase_of(c.0));
        if text_lt(la, lb) && text_lt(lb, lc) {
            lemma_text_lt_transitive(la, lb, lc);
        }
    }
}

proof fn lemma_section_total(a: CategoryView, b: CategoryView, by_year: bool)
    requires
        a.1.len() > 0,
        b.1.len() > 0,
        a.1[0] != b.1[0],
    ensures
        section_before(a, b, by_year) || section_before(b, a, by_year),
{
    lemma_text_lt_total(a.0, b.0);
    lemma_text_lt_total(lowercase_of(a.0), lowercase_of(b.0));
}

proof fn lemma_eq_ic_symmetric(a: Seq<char>, b: Seq<char>)
    requires
        eq_ignore_ascii_case_spec(a, b),
    ensures
        eq_ignore_ascii_case_spec(b, a),
{
    assert forall|i: int| 0 <= i < b.len() implies ascii_lower(#[trigger] b[i]) == ascii_lower(
        a[i],
    ) by {
        assert(ascii_lower(a[i]) == ascii_lower(b[i]));
    }
}

proof fn lemma_eq_ic_transitive(a: Seq<char>, b: Seq<char>, c: Seq<char>)
    requires
        eq_ignore_ascii_case_spec(a, b),
        eq_ignore_ascii_case_spec(b, c),
    ensures
        eq_ignore_ascii_case_spec(a, c),
{
    assert forall|i: int| 0 <= i < a.len() implies ascii_lower(#[trigger] a[i]) == ascii_lower(
        c[i],
    ) by {
        assert(ascii_lower(a[i]) == ascii_lower(b[i]));
        assert(ascii_lower(b[i]) == ascii_lower(c[i]));
    }
}

proof fn lemma_eq_ic_reflexive(a: Seq<char>)
    ensures
        eq_ignore_ascii_case_spec(a, a),
{
}


proof fn lemma_keys_extend(keys: Seq<Seq<char>>, j: int)
    requires
        0 <= j < keys.len(),
    ensures
        forall|m: int| 0 <= m < j ==> #[trigger] keys.take(j + 1)[m] == keys.take(j)[m],
        keys.take(j + 1)[j] == keys[j],
        keys.take(j + 1).len() == j + 1,
{
}

/// Adding position `j` to the section at index `c`, whose name matches its
/// key, keeps the sections a partition.
proof fn lemma_add_to_section(
    keys: Seq<Seq<char>>,
    j: usize,
    cats: Seq<CategoryView>,
    c: int,
)
    requires
        0 <= j < keys.len(),
        partitions(keys.take(j as int), cats),
        0 <= c < cats.len(),
        eq_ignore_ascii_case_spec(cats[c].0, keys[j as int]),
    ensures
        partitions(keys.take(j + 1), cats.update(c, (cats[c].0, cats[c].1.push(j)))),
{
    let k0 = keys.take(j as int);
    let k1 = keys.take(j + 1);
    let nc = (cats[c].0, cats[c].1.push(j));
    let n = cats.update(c, nc);
    lemma_keys_extend(keys, j as int);
    lemma_eq_ic_symmetric(cats[c].0, keys[j as int]);
    assert forall|i: int| 0 <= i < n.len() implies section_of(k1, #[trigger] n[i]) by {
        let ci = cats[i];
        assert(section_of(k0, ci));
        if i == c {
            assert(n[i] == nc);
            assert forall|a: int, b: int| 0 <= a < b < nc.1.len() implies #[trigger] nc.1[a]
                < #[trigger] nc.1[b] by {
                if b == nc.1.len() - 1 {
                    assert(ci.1.contains(ci.1[a]));
                }
            }
            assert(ci.1.contains(ci.1[0]));
            assert(nc.1[0] == ci.1[0]);
            assert forall|m: usize| #[trigger] nc.1.contains(m) <==> (m < k1.len()
                && eq_ignore_ascii_case_spec(k1[m as int], nc.0)) by {
                if nc.1.contains(m) {
                    let q = choose|q: int| 0 <= q < nc.1.len() && nc.1[q] == m;
                    if q < ci.1.len() {
                        assert(ci.1[q] == m);
                        assert(ci.1.contains(m));
                    }
                }
                if m < k1.len() && eq_ignore_ascii_case_spec(k1[m as int], nc.0) {
                    if m < j {
                        assert(k0[m as int] == k1[m as int]);
                        assert(ci.1.contains(m));
                        let q = choose|q: int| 0 <= q < ci.1.len() && ci.1[q] == m;
                        assert(nc.1[q] == m);
                    } else {
                        assert(nc.1[ci.1.len() as int] == m);
                    }
                }
            }
        } else {
            assert(n[i] == ci);
            assert(ci.1.contains(ci.1[0]));
            assert forall|m: usize| #[trigger] ci.1.contains(m) <==> (m < k1.len()
                && eq_ignore_ascii_case_spec(k1[m as int], ci.0)) by {
                if m < k1.len() && m < j {
                    assert(k0[m as int] == k1[m as int]);
                }
                if m == j {
                    if ci.1.contains(m) {
                    }
                    if eq_ignore_ascii_case_spec(k1[m as int], ci.0) {
                        lemma_eq_ic_transitive(cats[c].0, keys[j as int], ci.0);
                        if c < i {
                        } else {
                            lemma_eq_ic_symmetric(cats[c].0, ci.0);
                        }
                    }
                }
            }
        }
    }
    assert forall|a: int, b: int| 0 <= a < b < n.len() implies !eq_ignore_ascii_case_spec(
        #[trigger] n[a].0,
        #[trigger] n[b].0,
    ) by {
        assert(n[a].0 == cats[a].0);
        assert(n[b].0 == cats[b].0);
    }
    assert forall|m: int| 0 <= m < k1.len() implies #[trigger] in_some_section(k1, n, m) by {
        if m < j {
            assert(k0[m] == k1[m]);
            assert(in_some_section(k0, cats, m));
            let i = choose|i: int| 0 <= i < cats.len() && eq_ignore_ascii_case_spec(k0[m], #[trigger] cats[i].0);
            assert(n[i].0 == cats[i].0);
        } else {
            assert(n[c].0 == cats[c].0);
        }
    }
}

/// Opening a new section for position `j`, whose key matches no section
/// name, keeps the sections a partition.
proof fn lemma_new_section(keys: Seq<Seq<char>>, j: usize, cats: Seq<CategoryView>)
    requires
        0 <= j < keys.len(),
        partitions(keys.take(j as int), cats),
        forall|i: int| 0 <= i < cats.len() ==> !eq_ignore_ascii_case_spec(#[trigger] cats[i].0, keys[j as int]),
    ensures
        partitions(keys.take(j + 1), cats.push((keys[j as int], seq![j]))),
{
    let k0 = keys.take(j as int);
    let k1 = keys.take(j + 1);
    let nc = (keys[j as int], seq![j]);
    let n = cats.push(nc);
    lemma_keys_extend(keys, j as int);
    assert forall|i: int| 0 <= i < n.len() implies section_of(k1, #[trigger] n[i]) by {
        if i == cats.len() {
            assert(n[i] == nc);
            assert forall|m: usize| #[trigger] nc.1.contains(m) <==> (m < k1.len()
                && eq_ignore_ascii_case_spec(k1[m as int], nc.0)) by {
                if nc.1.contains(m) {
                    assert(nc.1[0] == m);
                }
                if m < k1.len() && eq_ignore_ascii_case_spec(k1[m as int], nc.0) {
                    if m < j {
                        assert(k0[m as int] == k1[m as int]);
                        assert(in_some_section(k0, cats, m as int));
                        let q = choose|q: int| 0 <= q < cats.len() && eq_ignore_ascii_case_spec(k0[m as int], #[trigger] cats[q].0);
                        lemma_eq_ic_symmetric(k0[m as int], cats[q].0);
                        lemma_eq_ic_transitive(cats[q].0, k0[m as int], keys[j as int]);
                    } else {
                        assert(nc.1[0] == m);
                    }
                }
            }
        } else {
            let ci = cats[i];
            assert(n[i] == ci);
            assert(section_of(k0, ci));
            assert(ci.1.contains(ci.1[0]));
            assert forall|m: usize| #[trigger] ci.1.contains(m) <==> (m < k1.len()
                && eq_ignore_ascii_case_spec(k1[m as int], ci.0)) by {
                if m < k1.len() && m < j {
                    assert(k0[m as int] == k1[m as int]);
                }
                if m == j && eq_ignore_ascii_case_spec(k1[m as int], ci.0) {
                    lemma_eq_ic_symmetric(k1[m as int], ci.0);
                }
            }
        }
    }
    assert forall|a: int, b: int| 0 <= a < b < n.len() implies !eq_ignore_ascii_case_spec(
        #[trigger] n[a].0,
        #[trigger] n[b].0,
    ) by {
        if b == cats.len() {
            assert(n[a] == cats[a]);
        } else {
            assert(n[a] == cats[a]);
            assert(n[b] == cats[b]);
        }
    }
    assert forall|m: int| 0 <= m < k1.len() implies #[trigger] in_some_section(k1, n, m) by {
        if m < j {
            assert(k0[m] == k1[m]);
            assert(in_some_section(k0, cats, m));
            let i = choose|i: int| 0 <= i < cats.len() && eq_ignore_ascii_case_spec(k0[m], #[trigger] cats[i].0);
            assert(n[i] == cats[i]);
        } else {
            assert(n[cats.len() as int] == nc);
            lemma_eq_ic_reflexive(keys[j as int]);
        }
    }
}

/// The sections over the games' keys, in order of their first game.
fn collect_sections(keys: &Vec<String>) -> (cats: Vec<Category>)
    ensures
        partitions(key_views(keys@), category_views(cats@)),
{
    let ghost kv = key_views(keys@);
    let mut cats: Vec<Category> = Vec::new();
    let mut j: usize = 0;
    assert(category_views(cats@) =~= Seq::<CategoryView>::empty());
    while j < keys.len()
        invariant
            j <= keys.len(),
            kv == key_views(keys@),
            partitions(kv.take(j as int), category_views(cats@)),
        decreases keys.len() - j,
    {
        let key = chars_of(keys[j].as_str());
        assert(key@ == kv[j as int]);
        let ghost cv = category_views(cats@);
        let mut c: usize = 0;
        let mut found = false;
        while c < cats.len() && !found
            invariant
                c <= cats.len(),
                cv == category_views(cats@),
                key@ == kv[j as int],
                !found ==> forall|i: int| 0 <= i < c ==> !eq_ignore_ascii_case_spec(#[trigger] cv[i].0, kv[j as int]),
                found ==> c < cats.len() && eq_ignore_ascii_case_spec(cv[c as int].0, kv[j as int]),
            decreases cats.len() - c + if found { 0usize } else { 1usize },
        {
            let name = chars_of(cats[c].name.as_str());
            assert(name@ == cv[c as int].0);
            if chars_eq_ignore_ascii_case(&name, &key) {
                found = true;
            } else {
                c = c + 1;
            }
        }
        if found {
            proof {
                lemma_add_to_section(kv, j, cv, c as int);
            }
            let mut cat = cats.remove(c);
            cat.members.push(j);
            cats.insert(c, cat);
            assert(category_views(cats@) =~= cv.update(c as int, (cv[c as int].0, cv[c as int].1.push(j))));
        } else {
            proof {
                lemma_new_section(kv, j, cv);
            }
            let mut members: Vec<usize> = Vec::new();
            members.push(j);
            cats.push(Category { name: keys[j].clone(), members });
            assert(category_views(cats@) =~= cv.push((kv[j as int], seq![j])));
        }
        j = j + 1;
    }
    assert(kv.take(keys.len() as int) =~= kv);
    cats
}


/// A section with its lower-cased name, for sorting.
struct SortSection {
    lower: Vec<char>,
    cat: Category,
}

spec fn sort_ok(x: SortSection) -> bool {
    &&& x.lower@ == lowercase_of(x.cat.name@)
    &&& x.cat.members@.len() > 0
}

spec fn sort_views(s: Seq<SortSection>) -> Seq<CategoryView> {
    s.map_values(|x: SortSection| x.cat@)
}

fn same_chars(a: &Vec<char>, b: &Vec<char>) -> (r: bool)
    ensures
        r == (a@ == b@),
{
    compare_chars(a, b) == 0
}

fn before(a: &SortSection, b: &SortSection, by_year: bool) -> (r: bool)
    requires
        sort_ok(*a),
        sort_ok(*b),
    ensures
        r == section_before(a.cat@, b.cat@, by_year),
{
    if by_year {
        proof {
            reveal_strlit("Unknown year");
        }
        let unknown = chars_of("Unknown year");
        let an = chars_of(a.cat.name.as_str());
        let bn = chars_of(b.cat.name.as_str());
        let ka = !same_chars(&an, &unknown);
        let kb = !same_chars(&bn, &unknown);
        if ka != kb {
            return ka;
        }
        let c = compare_chars(&an, &bn);
        if c != 0 {
            return c == 1;
        }
        a.cat.members[0] < b.cat.members[0]
    } else {
        let c = compare_chars(&a.lower, &b.lower);
        if c != 0 {
            return c == -1;
        }
        a.cat.members[0] < b.cat.members[0]
    }
}

fn insert_section(v: &mut Vec<SortSection>, x: SortSection, by_year: bool)
    requires
        forall|i: int| 0 <= i < old(v)@.len() ==> sort_ok(#[trigger] old(v)@[i]),
        sort_ok(x),
        sections_sorted(sort_views(old(v)@), by_year),
        forall|i: int| 0 <= i < old(v)@.len() ==> (#[trigger] old(v)@[i]).cat@.1[0] != x.cat@.1[0],
    ensures
        forall|i: int| 0 <= i < final(v)@.len() ==> sort_ok(#[trigger] final(v)@[i]),
        sections_sorted(sort_views(final(v)@), by_year),
        forall|e: CategoryView|
            sort_views(final(v)@).contains(e) <==> (sort_views(old(v)@).contains(e) || e == x.cat@),
{
    let ghost old_v = sort_views(v@);
    let ghost xv = x.cat@;
    let mut p: usize = 0;
    while p < v.len() && before(&v[p], &x, by_year)
        invariant
            p <= v.len(),
            v@ == old(v)@,
            old_v == sort_views(v@),
            sort_ok(x),
            xv == x.cat@,
            forall|i: int| 0 <= i < v@.len() ==> sort_ok(#[trigger] v@[i]),
            forall|k: int| 0 <= k < p ==> section_before(#[trigger] old_v[k], xv, by_year),
        decreases v.len() - p,
    {
        assert(old_v[p as int] == v@[p as int].cat@);
        p = p + 1;
    }
    proof {
        assert forall|k: int| p <= k < old_v.len() implies section_before(xv, #[trigger] old_v[k], by_year) by {
            assert(old_v[p as int] == old(v)@[p as int].cat@);
            assert(sort_ok(old(v)@[p as int]));
            assert(old_v[p as int].1[0] != xv.1[0]);
            lemma_section_total(old_v[p as int], xv, by_year);
            if k > p {
                lemma_section_transitive(xv, old_v[p as int], old_v[k], by_year);
            }
        }
    }
    v.insert(p, x);
    proof {
        let nv = sort_views(v@);
        assert(nv =~= old_v.insert(p as int, xv));
        assert forall|i: int, j: int| 0 <= i < j < nv.len() implies section_before(
            #[trigger] nv[i],
            #[trigger] nv[j],
            by_year,
        ) by {
            if j < p {
            } else if j == p {
            } else if i < p {
                assert(nv[j] == old_v[j - 1]);
            } else if i == p {
                assert(nv[j] == old_v[j - 1]);
            } else {
                assert(nv[i] == old_v[i - 1]);
                assert(nv[j] == old_v[j - 1]);
            }
        }
        assert forall|e: CategoryView| nv.contains(e) <==> (old_v.contains(e) || e == xv) by {
            if nv.contains(e) {
                let i = choose|i: int| 0 <= i < nv.len() && nv[i] == e;
                if i < p {
                    assert(old_v[i] == e);
                } else if i > p {
                    assert(old_v[i - 1] == e);
                }
            }
            if old_v.contains(e) {
                let i = choose|i: int| 0 <= i < old_v.len() && old_v[i] == e;
                if i < p {
                    assert(nv[i] == e);
                } else {
                    assert(nv[i + 1] == e);
                }
            }
            if e == xv {
                assert(nv[p as int] == e);
            }
        }
    }
}

proof fn lemma_partition_firsts_distinct(keys: Seq<Seq<char>>, cats: Seq<CategoryView>, i: int, j: int)
    requires
        partitions(keys, cats),
        0 <= i < cats.len(),
        0 <= j < cats.len(),
        i != j,
    ensures
        cats[i].1[0] != cats[j].1[0],
{
    assert(section_of(keys, cats[i]));
    assert(section_of(keys, cats[j]));
    let m = cats[i].1[0];
    assert(cats[i].1.contains(m));
    if cats[j].1[0] == m {
        assert(cats[j].1.contains(m));
        assert(eq_ignore_ascii_case_spec(keys[m as int], cats[i].0));
        assert(eq_ignore_ascii_case_spec(keys[m as int], cats[j].0));
        lemma_eq_ic_symmetric(keys[m as int], cats[i].0);
        lemma_eq_ic_transitive(cats[i].0, keys[m as int], cats[j].0);
        if i < j {
        } else {
            lemma_eq_ic_symmetric(cats[i].0, cats[j].0);
        }
    }
}

/// The group-by sections over the games whose category names are `keys`,
/// in section order: each section is named by its first game's key and
/// holds, in input order, the positions of every game whose key equals
/// that name up to ASCII case. By year, known years come newest first
/// and the unknowns last; by any other dimension sections go by
/// lower-cased name, ties in order of first appearance.
pub fn group_categories(by_year: bool, keys: &Vec<String>) -> (r: Vec<Category>)
    ensures
        partitions(key_views(keys@), category_views(r@)),
        sections_sorted(category_views(r@), by_year),
{
    let ghost kv = key_views(keys@);
    let cats = collect_sections(keys);
    let ghost built = category_views(cats@);
    let mut sorted: Vec<SortSection> = Vec::new();
    let mut rest = cats;
    let ghost n = built.len();
    while rest.len() > 0
        invariant
            built == category_views(cats@),
            partitions(kv, built),
            kv == key_views(keys@),
            rest@.len() <= n,
            n == built.len(),
            forall|k: int| 0 <= k < rest@.len() ==> rest@[k]@ == built[k],
            forall|i: int| 0 <= i < sorted@.len() ==> sort_ok(#[trigger] sorted@[i]),
            sections_sorted(sort_views(sorted@), by_year),
            forall|e: CategoryView|
                sort_views(sorted@).contains(e) <==> (exists|k: int| rest@.len() <= k < n && #[trigger] built[k] == e),
        decreases rest.len(),
    {
        let cat = rest.pop().unwrap();
        let ghost idx = rest@.len() as int;
        assert(cat@ == built[idx]);
        let lower = to_lowercase(cat.name.as_str());
        let item = SortSection { lower: chars_of(lower.as_str()), cat };
        proof {
            assert(section_of(kv, built[idx]));
            assert forall|i: int| 0 <= i < sorted@.len() implies (#[trigger] sorted@[i]).cat@.1[0] != item.cat@.1[0] by {
                let e = sort_views(sorted@)[i];
                assert(sort_views(sorted@).contains(e));
                let k = choose|k: int| idx + 1 <= k < n && #[trigger] built[k] == e;
                lemma_partition_firsts_distinct(kv, built, k, idx);
            }
        }
        let ghost before_v = sort_views(sorted@);
        insert_section(&mut sorted, item, by_year);
        proof {
            assert forall|e: CategoryView|
                sort_views(sorted@).contains(e) <==> (exists|k: int| rest@.len() <= k < n && #[trigger] built[k] == e) by {
                if sort_views(sorted@).contains(e) {
                    if e == built[idx] {
                    } else {
                        assert(before_v.contains(e));
                        let k = choose|k: int| idx + 1 <= k < n && #[trigger] built[k] == e;
                    }
                }
                if exists|k: int| rest@.len() <= k < n && #[trigger] built[k] == e {
                    let k = choose|k: int| rest@.len() <= k < n && #[trigger] built[k] == e;
                    if k > idx {
                        assert(before_v.contains(e));
                    }
                }
            }
        }
    }
    let mut out: Vec<Category> = Vec::new();
    let ghost sv = sort_views(sorted@);
    let mut sorted = sorted;
    while sorted.len() > 0
        invariant
            category_views(out@) == sv.take(out@.len() as int),
            sort_views(sorted@) == sv.skip(out@.len() as int),
            out@.len() + sorted@.len() == sv.len(),
        decreases sorted.len(),
    {
        let ghost before = sort_views(sorted@);
        let ghost old_sorted = sorted@;
        let x = sorted.remove(0);
        assert(sorted@ =~= old_sorted.subrange(1, old_sorted.len() as int));
        assert(sort_views(sorted@) =~= before.subrange(1, before.len() as int));
        assert(x.cat@ == before[0]);
        assert(before[0] == sv[out@.len() as int]);
        out.push(x.cat);
        assert(category_views(out@) =~= sv.take(out@.len() as int));
        assert(sort_views(sorted@) =~= sv.skip(out@.len() as int));
    }
    assert(sv.take(sv.len() as int) =~= sv);
    proof {
        let ov = category_views(out@);
        assert(ov == sv);
        assert forall|e: CategoryView| ov.contains(e) <==> built.contains(e) by {
            if ov.contains(e) {
                let k = choose|k: int| 0 <= k < n && #[trigger] built[k] == e;
            }
            if built.contains(e) {
                let k = choose|k: int| 0 <= k < built.len() && built[k] == e;
            }
        }
        lemma_sorted_partition(kv, built, ov, by_year);
    }
    out
}

/// A sorted arrangement of a partition's sections is a partition.
proof fn lemma_sorted_partition(
    keys: Seq<Seq<char>>,
    built: Seq<CategoryView>,
    out: Seq<CategoryView>,
    by_year: bool,
)
    requires
        partitions(keys, built),
        sections_sorted(out, by_year),
        forall|e: CategoryView| out.contains(e) <==> built.contains(e),
    ensures
        partitions(keys, out),
{
    assert forall|i: int| 0 <= i < out.len() implies section_of(keys, #[trigger] out[i]) by {
        assert(out.contains(out[i]));
        let k = choose|k: int| 0 <= k < built.len() && built[k] == out[i];
    }
    assert forall|a: int, b: int| 0 <= a < b < out.len() implies !eq_ignore_ascii_case_spec(
        #[trigger] out[a].0,
        #[trigger] out[b].0,
    ) by {
        assert(out.contains(out[a]));
        assert(out.contains(out[b]));
        let p = choose|p: int| 0 <= p < built.len() && built[p] == out[a];
        let q = choose|q: int| 0 <= q < built.len() && built[q] == out[b];
        lemma_section_irreflexive(out[a], by_year);
        if p == q {
            assert(section_before(out[a], out[b], by_year));
        } else if p < q {
        } else {
            if eq_ignore_ascii_case_spec(out[a].0, out[b].0) {
                lemma_eq_ic_symmetric(out[a].0, out[b].0);
            }
        }
    }
    assert forall|m: int| 0 <= m < keys.len() implies #[trigger] in_some_section(keys, out, m) by {
        assert(in_some_section(keys, built, m));
        let i = choose|i: int| 0 <= i < built.len() && eq_ignore_ascii_case_spec(keys[m], #[trigger] built[i].0);
        assert(built.contains(built[i]));
        let j = choose|j: int| 0 <= j < out.len() && out[j] == built[i];
        assert(eq_ignore_ascii_case_spec(keys[m], out[j].0));
    }
    assert(forall|i: int| 0 <= i < out.len() ==> section_of(keys, #[trigger] out[i]));
}

/// What each dimension files a game under: the entity dimensions
/// (developer, publisher, genre, family) by the game's credited entity
/// itself, `"Uncategorized"` only for a game with none; the console
/// dimension by the console's display name; the year dimension under
/// `"Unknown year"` for a game without a release date, else under its
/// UTC release year written in decimal; no grouping under the game's own
/// name.
pub proof fn law_group_key_files_by_the_dimension(game: GroupKeyInput, group_by: GroupBy)
    ensures
        (group_by == GroupBy::Developer || group_by == GroupBy::Publisher || group_by
            == GroupBy::Genre || group_by == GroupBy::Family) ==> {
            &&& game.entity_name matches Some(n) ==> group_key_spec(game, group_by) == n@
            &&& game.entity_name is None ==> group_key_spec(game, group_by) == "Uncategorized"@
        },
        group_by == GroupBy::Console ==> group_key_spec(game, group_by) == game.console_name@,
        group_by == GroupBy::Off ==> group_key_spec(game, group_by) == game.name@,
        group_by == GroupBy::Year && game.release_timestamp <= 0 ==> group_key_spec(game, group_by)
            == "Unknown year"@,
        group_by == GroupBy::Year && game.release_timestamp > 0 ==> (utc_date(
            game.release_timestamp,
        ) matches Some((y, _)) ==> group_key_spec(game, group_by) == signed_decimal(y as int)),
{
}

/// The category a game lands under for an entity dimension does not
/// depend on which entity dimension it is: the credited entity the caller
/// hands in decides it alone.
pub proof fn law_entity_dimensions_agree(game: GroupKeyInput, a: GroupBy, b: GroupBy)
    requires
        a == GroupBy::Developer || a == GroupBy::Publisher || a == GroupBy::Genre || a
            == GroupBy::Family,
        b == GroupBy::Developer || b == GroupBy::Publisher || b == GroupBy::Genre || b
            == GroupBy::Family,
    ensures
        group_key_spec(game, a) == group_key_spec(game, b),
{
}

/// The order of the sections: by year, every known year comes before
/// the unknown ones and a later year before an earlier one (year names
/// compare as text, the same length for the same number of digits); by
/// any other dimension no section comes after one whose lower-cased name
/// sorts after its own.
pub proof fn law_sections_in_display_order(s: Seq<CategoryView>, by_year: bool, i: int, j: int)
    requires
        sections_sorted(s, by_year),
        0 <= i < j < s.len(),
    ensures
        by_year ==> (s[j].0 != "Unknown year"@ ==> s[i].0 != "Unknown year"@),
        by_year && s[i].0 != "Unknown year"@ && s[j].0 != "Unknown year"@ && s[i].0 != s[j].0 ==> text_lt(
            s[j].0,
            s[i].0,
        ),
        !by_year ==> !text_lt(lowercase_of(s[j].0), lowercase_of(s[i].0)),
{
    assert(section_before(s[i], s[j], by_year));
    if !by_year {
        if text_lt(lowercase_of(s[j].0), lowercase_of(s[i].0)) {
            lemma_text_lt_asymmetric(lowercase_of(s[j].0), lowercase_of(s[i].0));
            lemma_text_lt_irreflexive(lowercase_of(s[i].0));
        }
    }
}

/// A game never played, or played at a time chrono cannot place, reads
/// "Never"; any other reads the month and day chrono gives for it.
pub proof fn law_last_played_label(ts: i64)
    ensures
        ts == 0 ==> last_played_spec(ts) == "Never"@,
        ts != 0 && utc_date(ts) is None ==> last_played_spec(ts) == "Never"@,
        ts != 0 ==> (utc_date(ts) matches Some((_, label)) ==> last_played_spec(ts) == label),
{
}

} // verus!
