//! Which games the game list shows, and in what order when it sorts by
//! the credited publisher or developer: hidden handling, search, group
//! membership, and a stable sort that breaks ties on the insertion id.

use vstd::prelude::*;
use std::collections::{HashMap, HashSet};
use crate::order::{text_lt, lemma_text_lt_irreflexive, lemma_text_lt_transitive,
    lemma_text_lt_total, compare_chars};
use crate::text::{lowercase_of, to_lowercase, chars_of};
use vstd::std_specs::hash::spec_keys_iter;
use vstd::std_specs::iter::IteratorSpec;

verus! {

broadcast use vstd::std_specs::hash::group_hash_axioms;

/// The sidebar group whose games the list shows.
#[derive(Clone, Debug)]
pub enum GroupSelection {
    AllGames,
    /// A user collection, by its id.
    Collection(i64),
    /// Games in no collection.
    Uncategorized,
    /// A metadata category (console, year, company), by its name.
    Derived(String),
}

/// One game as the filter and the credited sort see it.
#[derive(Clone, Debug)]
pub struct FilterGame {
    pub db_id: i64,
    pub hidden: bool,
    /// Whether the current search query matches the game.
    pub matches_search: bool,
    /// The credited publisher or developer, when the game has one.
    pub credited: Option<String>,
    /// The title the list sorts by.
    pub sort_key: String,
}

/// Everything the filter looks at besides the games.
#[derive(Clone, Debug)]
pub struct GameFilter {
    pub show_hidden: bool,
    /// Whether a search query is entered; a search looks past the group.
    pub searching: bool,
    pub group: GroupSelection,
    /// Collection membership: the game ids of each collection, by the
    /// collection's id.
    pub group_members: HashMap<i64, HashSet<i64>>,
    /// Metadata category membership: `(category name, game id)` pairs.
    pub derived_members: Vec<(String, i64)>,
}

/// The game belongs to the collection.
pub open spec fn in_collection(members: Map<i64, HashSet<i64>>, group_id: i64, db_id: i64) -> bool {
    members.contains_key(group_id) && members[group_id]@.contains(db_id)
}

/// The game belongs to some collection.
pub open spec fn in_any_collection(members: Map<i64, HashSet<i64>>, db_id: i64) -> bool {
    exists|k: i64| #[trigger] in_collection(members, k, db_id)
}

/// The game belongs to the named metadata category.
pub open spec fn in_category(derived: Seq<(String, i64)>, name: Seq<char>, db_id: i64) -> bool {
    exists|i: int|
        0 <= i < derived.len() && (#[trigger] derived[i]).0@ == name && derived[i].1 == db_id
}

/// The selected group admits the game.
pub open spec fn group_admits(f: GameFilter, db_id: i64) -> bool {
    match f.group {
        GroupSelection::AllGames => true,
        GroupSelection::Collection(id) => in_collection(f.group_members@, id, db_id),
        GroupSelection::Uncategorized => !in_any_collection(f.group_members@, db_id),
        GroupSelection::Derived(name) => in_category(f.derived_members@, name@, db_id),
    }
}

/// The list shows the game: hidden games only when they are shown, and
/// then the search when one is entered, else the selected group.
pub open spec fn passes_filter(g: FilterGame, f: GameFilter) -> bool {
    &&& (!g.hidden || f.show_hidden)
    &&& if f.searching {
        g.matches_search
    } else {
        group_admits(f, g.db_id)
    }
}

fn collection_has(members: &HashMap<i64, HashSet<i64>>, group_id: i64, db_id: i64) -> (r: bool)
    ensures
        r == in_collection(members@, group_id, db_id),
{
    match members.get(&group_id) {
        Some(set) => set.contains(&db_id),
        None => false,
    }
}

fn any_collection_has(members: &HashMap<i64, HashSet<i64>>, db_id: i64) -> (r: bool)
    ensures
        r == in_any_collection(members@, db_id),
{
    let ghost keys = spec_keys_iter(members).remaining().unref();
    for k in it: members.keys()
        invariant
            it.seq().unref() == keys,
            keys.to_set() == members@.dom(),
            forall|i: int| 0 <= i < it.index() ==> !#[trigger] in_collection(members@, keys[i], db_id),
    {
        assert(keys[it.index() as int] == *k);
        if collection_has(members, *k, db_id) {
            return true;
        }
    }
    assert forall|g: i64| !#[trigger] in_collection(members@, g, db_id) by {
        if members@.contains_key(g) {
            assert(keys.to_set().contains(g));
            let i = choose|i: int| 0 <= i < keys.len() && keys[i] == g;
            assert(!in_collection(members@, keys[i], db_id));
        }
    }
    false
}

fn category_has(derived: &Vec<(String, i64)>, name: &String, db_id: i64) -> (r: bool)
    ensures
        r == in_category(derived@, name@, db_id),
{
    let mut i: usize = 0;
    while i < derived.len()
        invariant
            i <= derived.len(),
            forall|k: int|
                0 <= k < i ==> !((#[trigger] derived@[k]).0@ == name@ && derived@[k].1 == db_id),
        decreases derived.len() - i,
    {
        if derived[i].1 == db_id && derived[i].0 == *name {
            return true;
        }
        i = i + 1;
    }
    false
}

/// Whether the list shows the game.
pub fn game_passes(g: &FilterGame, f: &GameFilter) -> (r: bool)
    ensures
        r == passes_filter(*g, *f),
{
    if g.hidden && !f.show_hidden {
        return false;
    }
    if f.searching {
        return g.matches_search;
    }
    match &f.group {
        GroupSelection::AllGames => true,
        GroupSelection::Collection(id) => collection_has(&f.group_members, *id, g.db_id),
        GroupSelection::Uncategorized => !any_collection_has(&f.group_members, g.db_id),
        GroupSelection::Derived(name) => category_has(&f.derived_members, name, g.db_id),
    }
}

/// Positions in strictly increasing order.
pub open spec fn increasing(s: Seq<usize>) -> bool {
    forall|i: int, j: int| 0 <= i < j < s.len() ==> #[trigger] s[i] < #[trigger] s[j]
}

/// The positions of the games the list shows, in the games' order.
pub fn filter_games(games: &Vec<FilterGame>, f: &GameFilter) -> (kept: Vec<usize>)
    ensures
        increasing(kept@),
        forall|k: int| 0 <= k < kept.len() ==> #[trigger] kept@[k] < games.len(),
        forall|i: int|
            0 <= i < games.len() ==> (passes_filter(#[trigger] games@[i], *f) <==> kept@.contains(
                i as usize,
            )),
{
    let mut kept: Vec<usize> = Vec::new();
    let mut i: usize = 0;
    while i < games.len()
        invariant
            i <= games.len(),
            increasing(kept@),
            forall|k: int| 0 <= k < kept.len() ==> #[trigger] kept@[k] < i,
            forall|j: int|
                0 <= j < i ==> (passes_filter(#[trigger] games@[j], *f) <==> kept@.contains(
                    j as usize,
                )),
        decreases games.len() - i,
    {
        let ghost before = kept@;
        if game_passes(&games[i], f) {
            kept.push(i);
            proof {
                assert forall|j: int| 0 <= j <= i implies (passes_filter(
                    #[trigger] games@[j],
                    *f,
                ) <==> kept@.contains(j as usize)) by {
                    if j < i {
                        if before.contains(j as usize) {
                            let k = choose|k: int| 0 <= k < before.len() && before[k] == j as usize;
                            assert(kept@[k] == j as usize);
                        }
                        if kept@.contains(j as usize) {
                            let k = choose|k: int| 0 <= k < kept@.len() && kept@[k] == j as usize;
                            assert(k < before.len());
                            assert(before[k] == j as usize);
                        }
                    } else {
                        assert(kept@[before.len() as int] == i);
                    }
                }
            }
        } else {
            proof {
                assert(!kept@.contains(i));
            }
        }
        i = i + 1;
    }
    kept
}

/// A credit key: the credited name, the lower-cased title, the insertion
/// id.
pub type CreditKeyView = (Option<Seq<char>>, Seq<char>, i64);

/// What the publisher and developer orderings compare: the credited name
/// (a game without one sorts after the others), then the lower-cased
/// title, then the insertion id.
pub open spec fn credit_key(g: FilterGame) -> CreditKeyView {
    (
        match g.credited {
            Some(name) => Some(name@),
            None => None,
        },
        lowercase_of(g.sort_key@),
        g.db_id,
    )
}

/// Strict order on credit keys: by credited name, none last, then by the
/// lower-cased title, then by the insertion id.
pub open spec fn key_lt(a: CreditKeyView, b: CreditKeyView) -> bool {
    if a.0 != b.0 {
        match a.0 {
            None => false,
            Some(x) => match b.0 {
                None => true,
                Some(y) => text_lt(x, y),
            },
        }
    } else if a.1 != b.1 {
        text_lt(a.1, b.1)
    } else {
        a.2 < b.2
    }
}

/// `a` comes strictly before `b` in the credited ordering, which is
/// reversed when descending.
pub open spec fn ranks_before(a: FilterGame, b: FilterGame, descending: bool) -> bool {
    if descending {
        key_lt(credit_key(b), credit_key(a))
    } else {
        key_lt(credit_key(a), credit_key(b))
    }
}

proof fn lemma_key_lt_irreflexive(a: CreditKeyView)
    ensures
        !key_lt(a, a),
{
    lemma_text_lt_irreflexive(a.1);
}

proof fn lemma_key_lt_transitive(a: CreditKeyView, b: CreditKeyView, c: CreditKeyView)
    requires
        key_lt(a, b),
        key_lt(b, c),
    ensures
        key_lt(a, c),
{
    if a.0 == b.0 && b.0 == c.0 {
        if a.1 != b.1 && b.1 != c.1 {
            lemma_text_lt_transitive(a.1, b.1, c.1);
            if a.1 == c.1 {
                lemma_text_lt_transitive(a.1, b.1, a.1);
                lemma_text_lt_irreflexive(a.1);
            }
        }
    } else if a.0 != b.0 && b.0 != c.0 {
        if a.0 == c.0 {
            match (a.0, b.0) {
                (Some(x), Some(y)) => {
                    lemma_text_lt_transitive(x, y, x);
                    lemma_text_lt_irreflexive(x);
                },
                _ => {},
            }
        } else {
            match (a.0, b.0, c.0) {
                (Some(x), Some(y), Some(z)) => {
                    lemma_text_lt_transitive(x, y, z);
                },
                _ => {},
            }
        }
    }
}

proof fn lemma_key_lt_total(a: CreditKeyView, b: CreditKeyView)
    ensures
        a == b || key_lt(a, b) || key_lt(b, a),
{
    if a.0 == b.0 {
        lemma_text_lt_total(a.1, b.1);
    } else {
        match (a.0, b.0) {
            (Some(x), Some(y)) => {
                lemma_text_lt_total(x, y);
            },
            _ => {},
        }
    }
}

/// The credited ordering is a strict total order on the keys: never
/// both ways, transitive, and any two games with different keys are
/// ordered one way or the other.
pub proof fn lemma_ranks_before_order(a: FilterGame, b: FilterGame, c: FilterGame, d: bool)
    ensures
        !ranks_before(a, a, d),
        ranks_before(a, b, d) && ranks_before(b, c, d) ==> ranks_before(a, c, d),
        credit_key(a) == credit_key(b) || ranks_before(a, b, d) || ranks_before(b, a, d),
{
    lemma_key_lt_irreflexive(credit_key(a));
    lemma_key_lt_total(credit_key(a), credit_key(b));
    if ranks_before(a, b, d) && ranks_before(b, c, d) {
        if d {
            lemma_key_lt_transitive(credit_key(c), credit_key(b), credit_key(a));
        } else {
            lemma_key_lt_transitive(credit_key(a), credit_key(b), credit_key(c));
        }
    }
}

/// An executable credit key.
struct CreditKey {
    credited: Option<Vec<char>>,
    lower: Vec<char>,
    db_id: i64,
}

spec fn credit_key_view(k: CreditKey) -> CreditKeyView {
    (
        match k.credited {
            Some(v) => Some(v@),
            None => None,
        },
        k.lower@,
        k.db_id,
    )
}

fn credit_key_of(g: &FilterGame) -> (k: CreditKey)
    ensures
        credit_key_view(k) == credit_key(*g),
{
    let credited = match &g.credited {
        Some(name) => Some(chars_of(name.as_str())),
        None => None,
    };
    let lower = to_lowercase(g.sort_key.as_str());
    CreditKey { credited, lower: chars_of(lower.as_str()), db_id: g.db_id }
}

fn compare_keys(a: &CreditKey, b: &CreditKey) -> (r: i8)
    ensures
        r == -1 <==> key_lt(credit_key_view(*a), credit_key_view(*b)),
        r == 0 <==> credit_key_view(*a) == credit_key_view(*b),
        r == 1 <==> key_lt(credit_key_view(*b), credit_key_view(*a)),
        r == -1 || r == 0 || r == 1,
{
    proof {
        lemma_key_lt_irreflexive(credit_key_view(*a));
        lemma_key_lt_irreflexive(credit_key_view(*b));
    }
    let by_name: i8 = match (&a.credited, &b.credited) {
        (None, None) => 0,
        (None, Some(_)) => 1,
        (Some(_), None) => -1,
        (Some(x), Some(y)) => compare_chars(x, y),
    };
    if by_name != 0 {
        return by_name;
    }
    let by_title = compare_chars(&a.lower, &b.lower);
    if by_title != 0 {
        return by_title;
    }
    if a.db_id < b.db_id {
        -1
    } else if a.db_id > b.db_id {
        1
    } else {
        0
    }
}

/// The credited ordering's comparison of two games: -1 when `a` comes
/// first, 1 when `b` does, 0 when their keys are equal (the same credit,
/// title and insertion id; the list then keeps its order).
pub fn compare_credited(a: &FilterGame, b: &FilterGame, descending: bool) -> (r: i8)
    ensures
        r == -1 <==> ranks_before(*a, *b, descending),
        r == 1 <==> ranks_before(*b, *a, descending),
        r == 0 <==> credit_key(*a) == credit_key(*b),
        r == -1 || r == 0 || r == 1,
{
    let c = compare_keys(&credit_key_of(a), &credit_key_of(b));
    if descending {
        -c
    } else {
        c
    }
}

/// The positions list games in the credited ordering: no game comes
/// after one it ranks before.
pub open spec fn sorted_by_credit(games: Seq<FilterGame>, s: Seq<usize>, d: bool) -> bool {
    forall|i: int, j: int|
        #![trigger s[i], s[j]]
        0 <= i < j < s.len() ==> !ranks_before(games[s[j] as int], games[s[i] as int], d)
}

/// Games with equal keys keep the order of their positions.
pub open spec fn ties_in_order(games: Seq<FilterGame>, s: Seq<usize>) -> bool {
    forall|i: int, j: int|
        #![trigger s[i], s[j]]
        0 <= i < j < s.len() && credit_key(games[s[i] as int]) == credit_key(games[s[j] as int])
            ==> s[i] < s[j]
}

proof fn lemma_insert_in_place(games: Seq<FilterGame>, o: Seq<usize>, x: usize, p: int, d: bool)
    requires
        0 <= p <= o.len(),
        x < games.len(),
        forall|k: int| 0 <= k < o.len() ==> #[trigger] o[k] < x,
        sorted_by_credit(games, o, d),
        ties_in_order(games, o),
        forall|k: int| 0 <= k < p ==> !ranks_before(games[x as int], games[#[trigger] o[k] as int], d),
        p < o.len() ==> ranks_before(games[x as int], games[o[p] as int], d),
    ensures
        sorted_by_credit(games, o.insert(p, x), d),
        ties_in_order(games, o.insert(p, x)),
{
    let n = o.insert(p, x);
    let gx = games[x as int];
    assert forall|i: int, j: int| 0 <= i < j < n.len() implies !ranks_before(
        games[#[trigger] n[j] as int],
        games[#[trigger] n[i] as int],
        d,
    ) && (credit_key(games[n[i] as int]) == credit_key(games[n[j] as int]) ==> n[i] < n[j]) by {
        if j < p {
            assert(n[i] == o[i] && n[j] == o[j]);
        } else if j == p {
            assert(n[i] == o[i]);
            assert(n[j] == x);
        } else if i < p {
            assert(n[i] == o[i] && n[j] == o[j - 1]);
        } else if i == p {
            let gp = games[o[p] as int];
            let gj = games[o[j - 1] as int];
            assert(n[i] == x && n[j] == o[j - 1]);
            lemma_ranks_before_order(gx, gp, gj, d);
            lemma_ranks_before_order(gp, gj, gx, d);
            lemma_ranks_before_order(gj, gx, gp, d);
            lemma_ranks_before_order(gx, gj, gx, d);
            if j - 1 > p {
                assert(!ranks_before(gj, gp, d));
            }
        } else {
            assert(n[i] == o[i - 1] && n[j] == o[j - 1]);
        }
    }
}

/// Order the listed positions by the credited ordering; games with equal
/// keys keep the order of their positions, as a stable sort leaves them.
pub fn sort_by_credited(games: &Vec<FilterGame>, kept: &Vec<usize>, descending: bool) -> (order:
    Vec<usize>)
    requires
        increasing(kept@),
        forall|k: int| 0 <= k < kept.len() ==> #[trigger] kept@[k] < games.len(),
    ensures
        order.len() == kept.len(),
        forall|x: usize| order@.contains(x) <==> kept@.contains(x),
        sorted_by_credit(games@, order@, descending),
        ties_in_order(games@, order@),
{
    let mut keys: Vec<CreditKey> = Vec::new();
    let mut g: usize = 0;
    while g < games.len()
        invariant
            g <= games.len(),
            keys.len() == g,
            forall|k: int| 0 <= k < g ==> credit_key_view(#[trigger] keys@[k]) == credit_key(games@[k]),
        decreases games.len() - g,
    {
        keys.push(credit_key_of(&games[g]));
        g = g + 1;
    }
    let mut order: Vec<usize> = Vec::new();
    let mut t: usize = 0;
    while t < kept.len()
        invariant
            t <= kept.len(),
            keys.len() == games.len(),
            forall|k: int| 0 <= k < keys.len() ==> credit_key_view(#[trigger] keys@[k]) == credit_key(games@[k]),
            increasing(kept@),
            forall|k: int| 0 <= k < kept.len() ==> #[trigger] kept@[k] < games.len(),
            order.len() == t,
            forall|x: usize| order@.contains(x) <==> kept@.take(t as int).contains(x),
            forall|k: int| 0 <= k < order.len() ==> #[trigger] order@[k] < games.len(),
            t < kept.len() ==> forall|k: int| 0 <= k < order.len() ==> #[trigger] order@[k] < kept@[t as int],
            sorted_by_credit(games@, order@, descending),
            ties_in_order(games@, order@),
        decreases kept.len() - t,
    {
        let x = kept[t];
        // `x` goes before the first game it ranks before.
        let after: i8 = if descending {
            -1
        } else {
            1
        };
        let mut p: usize = 0;
        while p < order.len() && compare_keys(&keys[order[p]], &keys[x]) != after
            invariant
                p <= order.len(),
                x < games.len(),
                after == (if descending { -1i8 } else { 1i8 }),
                keys.len() == games.len(),
                forall|k: int| 0 <= k < keys.len() ==> credit_key_view(#[trigger] keys@[k]) == credit_key(games@[k]),
                forall|k: int| 0 <= k < order.len() ==> #[trigger] order@[k] < games.len(),
                forall|k: int| 0 <= k < p ==> !ranks_before(games@[x as int], games@[#[trigger] order@[k] as int], descending),
            decreases order.len() - p,
        {
            p = p + 1;
        }
        let ghost o = order@;
        let ghost before = kept@.take(t as int);
        proof {
            assert(forall|y: usize| o.contains(y) <==> before.contains(y));
            lemma_insert_in_place(games@, o, x, p as int, descending);
        }
        order.insert(p, x);
        proof {
            assert(order@ == o.insert(p as int, x));
            assert(kept@.take(t + 1) == kept@.take(t as int).push(x));
            assert forall|y: usize| order@.contains(y) <==> kept@.take(t + 1).contains(y) by {
                if order@.contains(y) {
                    let k = choose|k: int| 0 <= k < order@.len() && order@[k] == y;
                    if k < p {
                        assert(o[k] == y);
                    } else if k > p {
                        assert(o[k - 1] == y);
                    }
                }
                if o.contains(y) {
                    let k = choose|k: int| 0 <= k < o.len() && o[k] == y;
                    if k < p {
                        assert(order@[k] == y);
                    } else {
                        assert(order@[k + 1] == y);
                    }
                }
                if y == x {
                    assert(order@[p as int] == y);
                }
                let after_t = kept@.take(t + 1);
                if after_t.contains(y) {
                    let k = choose|k: int| 0 <= k < after_t.len() && after_t[k] == y;
                    if k < t {
                        assert(before[k] == y);
                    }
                }
                if before.contains(y) {
                    let k = choose|k: int| 0 <= k < before.len() && before[k] == y;
                    assert(after_t[k] == y);
                }
                if y == x {
                    assert(after_t[t as int] == y);
                }
            }
            if t + 1 < kept.len() {
                assert(kept@[t as int] < kept@[t + 1]);
                assert forall|k: int| 0 <= k < order@.len() implies #[trigger] order@[k] < kept@[t + 1] by {
                    if k < p {
                        assert(order@[k] == o[k]);
                    } else if k > p {
                        assert(order@[k] == o[k - 1]);
                    }
                }
            }
            assert forall|k: int| 0 <= k < order@.len() implies #[trigger] order@[k] < games.len() by {
                if k < p {
                    assert(order@[k] == o[k]);
                } else if k > p {
                    assert(order@[k] == o[k - 1]);
                }
            }
        }
        t = t + 1;
    }
    proof {
        assert(kept@.take(kept.len() as int) == kept@);
    }
    order
}

/// `x` comes before `y` in a sorted list: it ranks before, or it ties and
/// has the smaller position.
spec fn position_before(games: Seq<FilterGame>, d: bool, x: usize, y: usize) -> bool {
    ||| ranks_before(games[x as int], games[y as int], d)
    ||| (credit_key(games[x as int]) == credit_key(games[y as int]) && x < y)
}

proof fn lemma_position_before_strict(games: Seq<FilterGame>, d: bool, x: usize, y: usize)
    ensures
        !position_before(games, d, x, x),
        !(position_before(games, d, x, y) && position_before(games, d, y, x)),
        x == y || position_before(games, d, x, y) || position_before(games, d, y, x),
{
    let gx = games[x as int];
    let gy = games[y as int];
    lemma_ranks_before_order(gx, gy, gx, d);
    lemma_ranks_before_order(gy, gx, gy, d);
}

proof fn lemma_sorted_positions(games: Seq<FilterGame>, s: Seq<usize>, d: bool)
    requires
        sorted_by_credit(games, s, d),
        ties_in_order(games, s),
    ensures
        forall|i: int, j: int|
            #![trigger s[i], s[j]]
            0 <= i < j < s.len() ==> position_before(games, d, s[i], s[j]),
{
    assert forall|i: int, j: int| 0 <= i < j < s.len() implies position_before(
        games,
        d,
        #[trigger] s[i],
        #[trigger] s[j],
    ) by {
        lemma_ranks_before_order(games[s[i] as int], games[s[j] as int], games[s[i] as int], d);
    }
}

/// Two lists of the same games, both in the credited order with ties in
/// the order of their positions, are the same list: the sort leaves no
/// choice, so every view that shows the same games shows them in the
/// same order.
pub proof fn law_credited_order_is_determined(
    games: Seq<FilterGame>,
    a: Seq<usize>,
    b: Seq<usize>,
    d: bool,
)
    requires
        sorted_by_credit(games, a, d),
        ties_in_order(games, a),
        sorted_by_credit(games, b, d),
        ties_in_order(games, b),
        forall|x: usize| a.contains(x) <==> b.contains(x),
    ensures
        a == b,
    decreases a.len(),
{
    lemma_sorted_positions(games, a, d);
    lemma_sorted_positions(games, b, d);
    if a.len() == 0 {
        if b.len() > 0 {
            assert(b.contains(b[0]));
        }
        assert(a =~= b);
    } else {
        assert(a.contains(a[0]));
        assert(b.contains(b[0]));
        let ka = choose|k: int| 0 <= k < b.len() && b[k] == a[0];
        let kb = choose|k: int| 0 <= k < a.len() && a[k] == b[0];
        lemma_position_before_strict(games, d, a[0], b[0]);
        lemma_position_before_strict(games, d, a[0], a[0]);
        lemma_position_before_strict(games, d, b[0], b[0]);
        if ka > 0 {
            assert(position_before(games, d, b[0], b[ka]));
        }
        if kb > 0 {
            assert(position_before(games, d, a[0], a[kb]));
        }
        assert(a[0] == b[0]);
        let ra = a.drop_first();
        let rb = b.drop_first();
        assert forall|x: usize| ra.contains(x) <==> rb.contains(x) by {
            if ra.contains(x) {
                let k = choose|k: int| 0 <= k < ra.len() && ra[k] == x;
                assert(a[k + 1] == x);
                assert(position_before(games, d, a[0], a[k + 1]));
                assert(b.contains(x));
                let m = choose|m: int| 0 <= m < b.len() && b[m] == x;
                if m == 0 {
                    lemma_position_before_strict(games, d, x, x);
                }
                assert(rb[m - 1] == x);
            }
            if rb.contains(x) {
                let k = choose|k: int| 0 <= k < rb.len() && rb[k] == x;
                assert(b[k + 1] == x);
                assert(position_before(games, d, b[0], b[k + 1]));
                assert(a.contains(x));
                let m = choose|m: int| 0 <= m < a.len() && a[m] == x;
                if m == 0 {
                    lemma_position_before_strict(games, d, x, x);
                }
                assert(ra[m - 1] == x);
            }
        }
        assert(sorted_by_credit(games, ra, d) && ties_in_order(games, ra)) by {
            assert forall|i: int, j: int| 0 <= i < j < ra.len() implies (#[trigger] ra[i] == a[i + 1]
                && #[trigger] ra[j] == a[j + 1]) by {}
        }
        assert(sorted_by_credit(games, rb, d) && ties_in_order(games, rb)) by {
            assert forall|i: int, j: int| 0 <= i < j < rb.len() implies (#[trigger] rb[i] == b[i + 1]
                && #[trigger] rb[j] == b[j + 1]) by {}
        }
        law_credited_order_is_determined(games, ra, rb, d);
        assert(a =~= seq![a[0]] + ra);
        assert(b =~= seq![b[0]] + rb);
    }
}

/// The games the list shows, as positions in the credited ordering (the
/// publisher and developer sort modes; equal credits and titles break on
/// the insertion id).
pub fn filter_and_sort_by_credit(games: &Vec<FilterGame>, f: &GameFilter, descending: bool) -> (order:
    Vec<usize>)
    ensures
        forall|x: usize|
            order@.contains(x) <==> (x < games.len() && passes_filter(games@[x as int], *f)),
        sorted_by_credit(games@, order@, descending),
        ties_in_order(games@, order@),
{
    let kept = filter_games(games, f);
    let order = sort_by_credited(games, &kept, descending);
    proof {
        assert forall|x: usize|
            order@.contains(x) <==> (x < games.len() && passes_filter(games@[x as int], *f)) by {
            if kept@.contains(x) {
                let k = choose|k: int| 0 <= k < kept.len() && kept@[k] == x;
                assert(kept@[k] < games.len());
            }
            if x < games.len() {
                assert(passes_filter(games@[x as int], *f) <==> kept@.contains(x as usize));
            }
        }
    }
    order
}

/// Descending reverses the credited ordering: `a` comes before `b`
/// descending exactly when `b` comes before `a` ascending.
pub proof fn law_descending_flips(a: FilterGame, b: FilterGame)
    ensures
        ranks_before(a, b, true) == ranks_before(b, a, false),
{
}

/// What the list shows: a hidden game only when hidden games are shown;
/// with a search entered, every shown game the search matches, whatever
/// group is selected; otherwise all games, a collection's members, the
/// games in no collection, or a metadata category's members.
pub proof fn law_list_shows_by_hiding_search_and_group(g: FilterGame, f: GameFilter)
    ensures
        g.hidden && !f.show_hidden ==> !passes_filter(g, f),
        (!g.hidden || f.show_hidden) && f.searching ==> (passes_filter(g, f) == g.matches_search),
        (!g.hidden || f.show_hidden) && !f.searching ==> passes_filter(g, f) == match f.group {
            GroupSelection::AllGames => true,
            GroupSelection::Collection(id) => f.group_members@.contains_key(id)
                && f.group_members@[id]@.contains(g.db_id),
            GroupSelection::Uncategorized => forall|k: i64|
                #![trigger f.group_members@[k]]
                f.group_members@.contains_key(k) ==> !f.group_members@[k]@.contains(g.db_id),
            GroupSelection::Derived(name) => exists|i: int|
                0 <= i < f.derived_members@.len() && (#[trigger] f.derived_members@[i]).0@ == name@
                    && f.derived_members@[i].1 == g.db_id,
        },
{
    if (!g.hidden || f.show_hidden) && !f.searching {
        if f.group is Uncategorized {
            if in_any_collection(f.group_members@, g.db_id) {
                let k = choose|k: i64| #[trigger] in_collection(f.group_members@, k, g.db_id);
                assert(f.group_members@.contains_key(k) && f.group_members@[k]@.contains(g.db_id));
            }
            if !in_any_collection(f.group_members@, g.db_id) {
                assert forall|k: i64| f.group_members@.contains_key(k) implies !#[trigger] f.group_members@[k]@.contains(g.db_id) by {
                    assert(!in_collection(f.group_members@, k, g.db_id));
                }
            }
        }
    }
}

} // verus!
