//! Metadata entities (developers, publishers, genres, families, groups)
//! as the organise menus handle them across a multi-game selection.

use vstd::prelude::*;
use crate::order::{
    text_lt, compare_chars, lemma_text_lt_irreflexive, lemma_text_lt_transitive,
    lemma_text_lt_total, lemma_text_lt_asymmetric,
};
use crate::text::{chars_of, lowercase_of, to_lowercase, trim, trim_spec, i64_to_string, signed_decimal,
    string_of, eq_ignore_ascii_case, eq_ignore_ascii_case_spec};

verus! {

/// One metadata entity: the id the source knows it by and its display
/// name.
#[derive(Clone, Debug)]
pub struct ScraperEntity {
    pub id: String,
    pub name: String,
}

/// An entity as a pair of texts: (id, name).
pub type EntityView = (Seq<char>, Seq<char>);

impl View for ScraperEntity {
    type V = EntityView;

    open spec fn view(&self) -> EntityView {
        (self.id@, self.name@)
    }
}

/// The views of a list of entities.
pub open spec fn entity_views(s: Seq<ScraperEntity>) -> Seq<EntityView> {
    s.map_values(|e: ScraperEntity| e@)
}

/// The views of one entity list per selected game.
pub open spec fn lists_view(all: Seq<Vec<ScraperEntity>>) -> Seq<Seq<EntityView>> {
    all.map_values(|l: Vec<ScraperEntity>| entity_views(l@))
}

/// An owned copy of an entity.
pub fn copy_entity(e: &ScraperEntity) -> (r: ScraperEntity)
    ensures
        r@ == e@,
{
    ScraperEntity { id: e.id.clone(), name: e.name.clone() }
}

/// Some entry of `s` carries the id `id`.
pub open spec fn has_id(s: Seq<EntityView>, id: Seq<char>) -> bool {
    exists|i: int| 0 <= i < s.len() && (#[trigger] s[i]).0 == id
}

/// No two entries of `s` share an id.
pub open spec fn distinct_ids(s: Seq<EntityView>) -> bool {
    forall|i: int, j: int| 0 <= i < j < s.len() ==> (#[trigger] s[i]).0 != (#[trigger] s[j]).0
}

/// `d` followed by the entries of `s` whose id is new, in order of first
/// appearance.
pub open spec fn add_unseen(d: Seq<EntityView>, s: Seq<EntityView>) -> Seq<EntityView>
    decreases s.len(),
{
    if s.len() == 0 {
        d
    } else {
        let prev = add_unseen(d, s.drop_last());
        if has_id(prev, s.last().0) {
            prev
        } else {
            prev.push(s.last())
        }
    }
}

/// Every entity id met in the lists, once, as first met (list by list,
/// front to back).
pub open spec fn first_occurrences(all: Seq<Seq<EntityView>>) -> Seq<EntityView>
    decreases all.len(),
{
    if all.len() == 0 {
        Seq::empty()
    } else {
        add_unseen(first_occurrences(all.drop_last()), all.last())
    }
}

/// Every list holds an entity with this id.
pub open spec fn held_by_all_spec(all: Seq<Seq<EntityView>>, id: Seq<char>) -> bool {
    forall|j: int| 0 <= j < all.len() ==> has_id(#[trigger] all[j], id)
}

/// The menu order of entities: by lower-cased name, then by id.
pub open spec fn entity_before(a: EntityView, b: EntityView) -> bool {
    ||| text_lt(lowercase_of(a.1), lowercase_of(b.1))
    ||| (lowercase_of(a.1) == lowercase_of(b.1) && text_lt(a.0, b.0))
}

/// Strictly increasing in the menu order.
pub open spec fn sorted_by_name(s: Seq<EntityView>) -> bool {
    forall|i: int, j: int| 0 <= i < j < s.len() ==> entity_before(#[trigger] s[i], #[trigger] s[j])
}

proof fn lemma_before_irreflexive(a: EntityView)
    ensures
        !entity_before(a, a),
{
    lemma_text_lt_irreflexive(lowercase_of(a.1));
    lemma_text_lt_irreflexive(a.0);
}

proof fn lemma_before_transitive(a: EntityView, b: EntityView, c: EntityView)
    requires
        entity_before(a, b),
        entity_before(b, c),
    ensures
        entity_before(a, c),
{
    let (la, lb, lc) = (lowercase_of(a.1), lowercase_of(b.1), lowercase_of(c.1));
    if text_lt(la, lb) && text_lt(lb, lc) {
        lemma_text_lt_transitive(la, lb, lc);
    } else if la == lb && lb == lc {
        lemma_text_lt_transitive(a.0, b.0, c.0);
    }
}

proof fn lemma_before_total(a: EntityView, b: EntityView)
    requires
        a.0 != b.0,
    ensures
        entity_before(a, b) || entity_before(b, a),
{
    lemma_text_lt_total(lowercase_of(a.1), lowercase_of(b.1));
    lemma_text_lt_total(a.0, b.0);
}

proof fn lemma_before_asymmetric(a: EntityView, b: EntityView)
    requires
        entity_before(a, b),
    ensures
        !entity_before(b, a),
{
    if entity_before(b, a) {
        lemma_before_transitive(a, b, a);
        lemma_before_irreflexive(a);
    }
}

/// Whether some entity of the list carries the id.
pub fn contains_id(list: &Vec<ScraperEntity>, id: &String) -> (r: bool)
    ensures
        r == has_id(entity_views(list@), id@),
{
    let ghost v = entity_views(list@);
    let mut i: usize = 0;
    while i < list.len()
        invariant
            i <= list.len(),
            v == entity_views(list@),
            forall|k: int| 0 <= k < i ==> (#[trigger] v[k]).0 != id@,
        decreases list.len() - i,
    {
        if list[i].id == *id {
            assert(v[i as int].0 == id@);
            return true;
        }
        i = i + 1;
    }
    false
}

/// Whether every list holds an entity with the id.
fn held_by_all(all: &Vec<Vec<ScraperEntity>>, id: &String) -> (r: bool)
    ensures
        r == held_by_all_spec(lists_view(all@), id@),
{
    let ghost av = lists_view(all@);
    let mut j: usize = 0;
    while j < all.len()
        invariant
            j <= all.len(),
            av == lists_view(all@),
            forall|k: int| 0 <= k < j ==> has_id(#[trigger] av[k], id@),
        decreases all.len() - j,
    {
        if !contains_id(&all[j], id) {
            assert(av[j as int] == entity_views(all@[j as int]@));
            return false;
        }
        assert(av[j as int] == entity_views(all@[j as int]@));
        j = j + 1;
    }
    true
}

/// An entity with its lower-cased name, the first half of its sort key.
struct Keyed {
    lower: Vec<char>,
    entity: ScraperEntity,
}

spec fn keyed_ok(k: Keyed) -> bool {
    k.lower@ == lowercase_of(k.entity.name@)
}

spec fn keyed_views(s: Seq<Keyed>) -> Seq<EntityView> {
    s.map_values(|k: Keyed| k.entity@)
}

fn keyed(e: ScraperEntity) -> (k: Keyed)
    ensures
        keyed_ok(k),
        k.entity@ == e@,
{
    let lower = to_lowercase(e.name.as_str());
    Keyed { lower: chars_of(lower.as_str()), entity: e }
}

fn keyed_before(a: &Keyed, b: &Keyed) -> (r: bool)
    requires
        keyed_ok(*a),
        keyed_ok(*b),
    ensures
        r == entity_before(a.entity@, b.entity@),
{
    let c = compare_chars(&a.lower, &b.lower);
    if c != 0 {
        c == -1
    } else {
        compare_chars(&chars_of(a.entity.id.as_str()), &chars_of(b.entity.id.as_str())) == -1
    }
}

/// Insert into a list sorted in menu order, keeping it sorted.
fn insert_sorted(v: &mut Vec<Keyed>, x: Keyed)
    requires
        forall|i: int| 0 <= i < old(v)@.len() ==> keyed_ok(#[trigger] old(v)@[i]),
        keyed_ok(x),
        sorted_by_name(keyed_views(old(v)@)),
        !has_id(keyed_views(old(v)@), x.entity@.0),
    ensures
        forall|i: int| 0 <= i < final(v)@.len() ==> keyed_ok(#[trigger] final(v)@[i]),
        sorted_by_name(keyed_views(final(v)@)),
        forall|e: EntityView|
            keyed_views(final(v)@).contains(e) <==> (keyed_views(old(v)@).contains(e) || e
                == x.entity@),
{
    let ghost old_v = keyed_views(v@);
    let ghost xv = x.entity@;
    let mut p: usize = 0;
    while p < v.len() && keyed_before(&v[p], &x)
        invariant
            p <= v.len(),
            v@ == old(v)@,
            old_v == keyed_views(v@),
            keyed_ok(x),
            xv == x.entity@,
            forall|i: int| 0 <= i < v@.len() ==> keyed_ok(#[trigger] v@[i]),
            forall|k: int| 0 <= k < p ==> entity_before(#[trigger] old_v[k], xv),
        decreases v.len() - p,
    {
        assert(old_v[p as int] == v@[p as int].entity@);
        p = p + 1;
    }
    proof {
        assert forall|k: int| p <= k < old_v.len() implies entity_before(xv, #[trigger] old_v[k]) by {
            assert(old_v[p as int].0 != xv.0);
            lemma_before_total(old_v[p as int], xv);
            if k > p {
                lemma_before_transitive(xv, old_v[p as int], old_v[k]);
            }
        }
    }
    v.insert(p, x);
    proof {
        let nv = keyed_views(v@);
        assert(nv =~= old_v.insert(p as int, xv));
        assert forall|i: int, j: int| 0 <= i < j < nv.len() implies entity_before(
            #[trigger] nv[i],
            #[trigger] nv[j],
        ) by {
            if j < p {
            } else if j == p {
            } else if i < p {
                assert(nv[j] == old_v[j - 1]);
            } else if i == p {
                assert(nv[j] == old_v[j - 1]);
            } else {
                assert(nv[i] == old_v[i - 1]);
                assert(nv[j] == old_v[j - 1]);
            }
        }
        assert forall|e: EntityView| nv.contains(e) <==> (old_v.contains(e) || e == xv) by {
            if nv.contains(e) {
                let i = choose|i: int| 0 <= i < nv.len() && nv[i] == e;
                if i < p {
                    assert(old_v[i] == e);
                } else if i > p {
                    assert(old_v[i - 1] == e);
                }
            }
            if old_v.contains(e) {
                let i = choose|i: int| 0 <= i < old_v.len() && old_v[i] == e;
                if i < p {
                    assert(nv[i] == e);
                } else {
                    assert(nv[i + 1] == e);
                }
            }
            if e == xv {
                assert(nv[p as int] == e);
            }
        }
    }
}


proof fn lemma_add_unseen_distinct(d: Seq<EntityView>, s: Seq<EntityView>)
    requires
        distinct_ids(d),
    ensures
        distinct_ids(add_unseen(d, s)),
    decreases s.len(),
{
    if s.len() > 0 {
        lemma_add_unseen_distinct(d, s.drop_last());
        let prev = add_unseen(d, s.drop_last());
        if !has_id(prev, s.last().0) {
            let next = prev.push(s.last());
            assert forall|i: int, j: int| 0 <= i < j < next.len() implies (#[trigger] next[i]).0
                != (#[trigger] next[j]).0 by {
                if j == next.len() - 1 {
                    assert(next[i] == prev[i]);
                }
            }
        }
    }
}

proof fn lemma_first_occurrences_distinct(all: Seq<Seq<EntityView>>)
    ensures
        distinct_ids(first_occurrences(all)),
    decreases all.len(),
{
    if all.len() > 0 {
        lemma_first_occurrences_distinct(all.drop_last());
        lemma_add_unseen_distinct(first_occurrences(all.drop_last()), all.last());
    }
}

/// Every id met in the lists, once each, with the first entity met for it.
fn collect_first_occurrences(all: &Vec<Vec<ScraperEntity>>) -> (reps: Vec<ScraperEntity>)
    ensures
        entity_views(reps@) == first_occurrences(lists_view(all@)),
{
    let ghost av = lists_view(all@);
    let mut reps: Vec<ScraperEntity> = Vec::new();
    let mut j: usize = 0;
    assert(av.take(0) =~= Seq::<Seq<EntityView>>::empty());
    assert(entity_views(reps@) =~= Seq::<EntityView>::empty());
    while j < all.len()
        invariant
            j <= all.len(),
            av == lists_view(all@),
            entity_views(reps@) == first_occurrences(av.take(j as int)),
        decreases all.len() - j,
    {
        let list = &all[j];
        let ghost lv = av[j as int];
        assert(lv == entity_views(list@));
        let mut k: usize = 0;
        assert(lv.take(0) =~= Seq::<EntityView>::empty());
        while k < list.len()
            invariant
                j < all.len(),
                k <= list.len(),
                list == &all[j as int],
                lv == entity_views(list@),
                entity_views(reps@) == add_unseen(first_occurrences(av.take(j as int)), lv.take(
                    k as int,
                )),
            decreases list.len() - k,
        {
            let e = &list[k];
            assert(lv.take(k + 1).drop_last() =~= lv.take(k as int));
            assert(lv.take(k + 1).last() == e@);
            if !contains_id(&reps, &e.id) {
                let c = copy_entity(e);
                let ghost before = entity_views(reps@);
                reps.push(c);
                assert(entity_views(reps@) =~= before.push(e@));
            }
            k = k + 1;
        }
        assert(lv.take(list.len() as int) =~= lv);
        assert(av.take(j + 1).drop_last() =~= av.take(j as int));
        assert(av.take(j + 1).last() == lv);
        j = j + 1;
    }
    assert(av.take(all.len() as int) =~= av);
    reps
}

/// Split one metadata list across a selection of games, `all` holding
/// each game's entities. The first part holds the entities every game
/// holds, the second the entities some but not all games hold; each
/// entity once (as first met), each part sorted by lower-cased name,
/// then id.
pub fn partition_entities(all: &Vec<Vec<ScraperEntity>>) -> (r: (
    Vec<ScraperEntity>,
    Vec<ScraperEntity>,
))
    ensures
        sorted_by_name(entity_views(r.0@)),
        sorted_by_name(entity_views(r.1@)),
        forall|e: EntityView|
            #![trigger entity_views(r.0@).contains(e)]
            entity_views(r.0@).contains(e) <==> (first_occurrences(lists_view(all@)).contains(e)
                && held_by_all_spec(lists_view(all@), e.0)),
        forall|e: EntityView|
            #![trigger entity_views(r.1@).contains(e)]
            entity_views(r.1@).contains(e) <==> (first_occurrences(lists_view(all@)).contains(e)
                && !held_by_all_spec(lists_view(all@), e.0)),
{
    let ghost av = lists_view(all@);
    let reps = collect_first_occurrences(all);
    let ghost rv = entity_views(reps@);
    proof {
        lemma_first_occurrences_distinct(av);
    }
    let mut shared: Vec<Keyed> = Vec::new();
    let mut rest: Vec<Keyed> = Vec::new();
    let mut i: usize = 0;
    while i < reps.len()
        invariant
            i <= reps.len(),
            av == lists_view(all@),
            rv == entity_views(reps@),
            rv == first_occurrences(av),
            distinct_ids(rv),
            forall|k: int| 0 <= k < shared@.len() ==> keyed_ok(#[trigger] shared@[k]),
            forall|k: int| 0 <= k < rest@.len() ==> keyed_ok(#[trigger] rest@[k]),
            sorted_by_name(keyed_views(shared@)),
            sorted_by_name(keyed_views(rest@)),
            forall|e: EntityView|
                keyed_views(shared@).contains(e) <==> (rv.take(i as int).contains(e)
                    && held_by_all_spec(av, e.0)),
            forall|e: EntityView|
                keyed_views(rest@).contains(e) <==> (rv.take(i as int).contains(e)
                    && !held_by_all_spec(av, e.0)),
        decreases reps.len() - i,
    {
        let e = &reps[i];
        let ghost ev = e@;
        assert(rv[i as int] == ev);
        proof {
            let t1 = rv.take(i + 1);
            let t0 = rv.take(i as int);
            assert forall|e2: EntityView| t1.contains(e2) <==> (t0.contains(e2) || e2 == ev) by {
                if t1.contains(e2) {
                    let k = choose|k: int| 0 <= k < t1.len() && #[trigger] t1[k] == e2;
                    if k < i {
                        assert(t0[k] == e2);
                    }
                }
                if t0.contains(e2) {
                    let k = choose|k: int| 0 <= k < t0.len() && #[trigger] t0[k] == e2;
                    assert(t1[k] == e2);
                }
                if e2 == ev {
                    assert(t1[i as int] == e2);
                }
            }
        }
        let all_hold = held_by_all(all, &e.id);
        let k = keyed(copy_entity(e));
        if all_hold {
            assert(!has_id(keyed_views(shared@), ev.0)) by {
                let kv = keyed_views(shared@);
                let t0 = rv.take(i as int);
                if has_id(kv, ev.0) {
                    let m = choose|m: int| 0 <= m < kv.len() && (#[trigger] kv[m]).0 == ev.0;
                    assert(kv.contains(kv[m]));
                    let q = choose|q: int| 0 <= q < t0.len() && #[trigger] t0[q] == kv[m];
                    assert(rv[q] == t0[q]);
                }
            }
            insert_sorted(&mut shared, k);
        } else {
            assert(!has_id(keyed_views(rest@), ev.0)) by {
                let kv = keyed_views(rest@);
                let t0 = rv.take(i as int);
                if has_id(kv, ev.0) {
                    let m = choose|m: int| 0 <= m < kv.len() && (#[trigger] kv[m]).0 == ev.0;
                    assert(kv.contains(kv[m]));
                    let q = choose|q: int| 0 <= q < t0.len() && #[trigger] t0[q] == kv[m];
                    assert(rv[q] == t0[q]);
                }
            }
            insert_sorted(&mut rest, k);
        }
        i = i + 1;
    }
    assert(rv.take(reps.len() as int) =~= rv);
    let a = unkey(shared);
    let b = unkey(rest);
    (a, b)
}

/// The entities of a keyed list, in order.
fn unkey(v: Vec<Keyed>) -> (r: Vec<ScraperEntity>)
    ensures
        entity_views(r@) == keyed_views(v@),
{
    let mut r: Vec<ScraperEntity> = Vec::new();
    let mut i: usize = 0;
    while i < v.len()
        invariant
            i <= v.len(),
            entity_views(r@) == keyed_views(v@).take(i as int),
        decreases v.len() - i,
    {
        let ghost before = entity_views(r@);
        r.push(copy_entity(&v[i].entity));
        assert(entity_views(r@) =~= before.push(keyed_views(v@)[i as int]));
        assert(keyed_views(v@).take(i + 1) =~= keyed_views(v@).take(i as int).push(
            keyed_views(v@)[i as int],
        ));
        i = i + 1;
    }
    assert(keyed_views(v@).take(v.len() as int) =~= keyed_views(v@));
    r
}


/// The list with an entity added at the end, unless one with its id is
/// already there.
pub open spec fn add_entity_spec(s: Seq<EntityView>, e: EntityView) -> Seq<EntityView> {
    if has_id(s, e.0) {
        s
    } else {
        s.push(e)
    }
}

/// The list without the entities carrying `id`, order kept.
pub open spec fn remove_entity_spec(s: Seq<EntityView>, id: Seq<char>) -> Seq<EntityView>
    decreases s.len(),
{
    if s.len() == 0 {
        s
    } else {
        let kept = remove_entity_spec(s.drop_last(), id);
        if s.last().0 != id {
            kept.push(s.last())
        } else {
            kept
        }
    }
}

/// Add an entity to a metadata list — the same entity twice is noise, not
/// data. True when the list changed.
pub fn add_entity(list: &mut Vec<ScraperEntity>, entity: &ScraperEntity) -> (changed: bool)
    ensures
        entity_views(final(list)@) == add_entity_spec(entity_views(old(list)@), entity@),
        changed == !has_id(entity_views(old(list)@), entity@.0),
{
    if contains_id(list, &entity.id) {
        return false;
    }
    let ghost before = entity_views(list@);
    list.push(copy_entity(entity));
    assert(entity_views(list@) =~= before.push(entity@));
    true
}

/// Remove every entity with the id from a metadata list. True when the
/// list held one (and so changed).
pub fn remove_entity(list: &mut Vec<ScraperEntity>, id: &String) -> (changed: bool)
    ensures
        entity_views(final(list)@) == remove_entity_spec(entity_views(old(list)@), id@),
        changed == has_id(entity_views(old(list)@), id@),
{
    let ghost old_v = entity_views(list@);
    if !contains_id(list, id) {
        proof {
            lemma_remove_keeps_all(old_v, id@);
        }
        return false;
    }
    let mut kept: Vec<ScraperEntity> = Vec::new();
    let mut i: usize = 0;
    while i < list.len()
        invariant
            i <= list.len(),
            old_v == entity_views(list@),
            entity_views(kept@) == remove_entity_spec(old_v.take(i as int), id@),
        decreases list.len() - i,
    {
        let ghost before = entity_views(kept@);
        assert(old_v.take(i + 1).drop_last() =~= old_v.take(i as int));
        assert(old_v.take(i + 1).last() == list@[i as int]@);
        if list[i].id != *id {
            kept.push(copy_entity(&list[i]));
            assert(entity_views(kept@) =~= before.push(list@[i as int]@));
        }
        i = i + 1;
    }
    assert(old_v.take(list.len() as int) =~= old_v);
    *list = kept;
    true
}

proof fn lemma_remove_keeps_all(s: Seq<EntityView>, id: Seq<char>)
    requires
        !has_id(s, id),
    ensures
        remove_entity_spec(s, id) == s,
    decreases s.len(),
{
    if s.len() > 0 {
        assert(!has_id(s.drop_last(), id)) by {
            if has_id(s.drop_last(), id) {
                let i = choose|i: int| 0 <= i < s.drop_last().len() && (#[trigger] s.drop_last()[i]).0 == id;
                assert(s[i] == s.drop_last()[i]);
            }
        }
        lemma_remove_keeps_all(s.drop_last(), id);
        assert(s.last().0 != id) by {
            assert(s[s.len() - 1] == s.last());
        }
        assert(s.drop_last().push(s.last()) =~= s);
    }
}

/// Adding an entity twice is the same as adding it once.
pub proof fn law_add_entity_idempotent(s: Seq<EntityView>, e: EntityView)
    ensures
        add_entity_spec(add_entity_spec(s, e), e) == add_entity_spec(s, e),
{
    if !has_id(s, e.0) {
        let t = s.push(e);
        assert(t[t.len() - 1].0 == e.0);
    }
}

/// After removing an id, no entity with that id is left.
pub proof fn law_remove_entity_removes(s: Seq<EntityView>, id: Seq<char>)
    ensures
        !has_id(remove_entity_spec(s, id), id),
    decreases s.len(),
{
    if s.len() > 0 {
        law_remove_entity_removes(s.drop_last(), id);
        let kept = remove_entity_spec(s.drop_last(), id);
        if s.last().0 != id {
            let f = kept.push(s.last());
            if has_id(f, id) {
                let i = choose|i: int| 0 <= i < f.len() && (#[trigger] f[i]).0 == id;
                assert(kept[i] == f[i]);
            }
        }
    }
}

/// Removing an entity just added leaves the list as removing it from the
/// list before the addition would.
pub proof fn law_remove_undoes_add(s: Seq<EntityView>, e: EntityView)
    ensures
        remove_entity_spec(add_entity_spec(s, e), e.0) == remove_entity_spec(s, e.0),
{
    if !has_id(s, e.0) {
        let t = s.push(e);
        assert(t.drop_last() =~= s);
    }
}

/// Whether two entity lists hold different content: taken as multisets
/// of (id, name) pairs they differ, so order does not count but every
/// repeat does.
pub open spec fn entities_differ_spec(a: Seq<EntityView>, b: Seq<EntityView>) -> bool {
    a.to_multiset() != b.to_multiset()
}

/// How many entries of `s` have the id and name of `e`.
fn count_entity(s: &Vec<ScraperEntity>, e: &ScraperEntity) -> (n: usize)
    ensures
        n == entity_views(s@).to_multiset().count(e@),
{
    broadcast use vstd::seq_lib::group_to_multiset_ensures, vstd::multiset::group_multiset_axioms;

    let ghost sv = entity_views(s@);
    let mut n: usize = 0;
    let mut j: usize = 0;
    while j < s.len()
        invariant
            j <= s.len(),
            n <= j,
            sv == entity_views(s@),
            n == sv.take(j as int).to_multiset().count(e@),
        decreases s.len() - j,
    {
        let ghost before = sv.take(j as int);
        assert(sv.take(j + 1) =~= before.push(sv[j as int]));
        proof {
            vstd::seq_lib::to_multiset_build(before, sv[j as int]);
        }
        assert(sv[j as int] == s@[j as int]@);
        if s[j].id == e.id && s[j].name == e.name {
            assert(sv[j as int] == e@);
            n = n + 1;
        } else {
            assert(sv[j as int] != e@);
        }
        j = j + 1;
    }
    assert(sv.take(s.len() as int) =~= sv);
    n
}

/// Whether two entity lists hold different content — the revert button's
/// changed test.
pub fn entities_differ(a: &Vec<ScraperEntity>, b: &Vec<ScraperEntity>) -> (r: bool)
    ensures
        r == entities_differ_spec(entity_views(a@), entity_views(b@)),
{
    broadcast use vstd::seq_lib::group_to_multiset_ensures;

    let ghost av = entity_views(a@);
    let ghost bv = entity_views(b@);
    if a.len() != b.len() {
        assert(av.to_multiset().len() != bv.to_multiset().len());
        return true;
    }
    let mut i: usize = 0;
    while i < a.len()
        invariant
            i <= a.len(),
            av == entity_views(a@),
            bv == entity_views(b@),
            forall|k: int| 0 <= k < i ==> av.to_multiset().count(#[trigger] av[k]) == bv.to_multiset().count(av[k]),
        decreases a.len() - i,
    {
        assert(av[i as int] == a@[i as int]@);
        if count_entity(a, &a[i]) != count_entity(b, &a[i]) {
            return true;
        }
        i = i + 1;
    }
    let mut j: usize = 0;
    while j < b.len()
        invariant
            j <= b.len(),
            av == entity_views(a@),
            bv == entity_views(b@),
            forall|k: int| 0 <= k < a.len() ==> av.to_multiset().count(#[trigger] av[k]) == bv.to_multiset().count(av[k]),
            forall|k: int| 0 <= k < j ==> av.to_multiset().count(#[trigger] bv[k]) == bv.to_multiset().count(bv[k]),
        decreases b.len() - j,
    {
        assert(bv[j as int] == b@[j as int]@);
        if count_entity(a, &b[j]) != count_entity(b, &b[j]) {
            return true;
        }
        j = j + 1;
    }
    assert forall|x: EntityView| av.to_multiset().count(x) == bv.to_multiset().count(x) by {
        if av.contains(x) {
            let k = choose|k: int| 0 <= k < av.len() && av[k] == x;
            assert(av.to_multiset().count(av[k]) == bv.to_multiset().count(av[k]));
        } else if bv.contains(x) {
            let k = choose|k: int| 0 <= k < bv.len() && bv[k] == x;
            assert(av.to_multiset().count(bv[k]) == bv.to_multiset().count(bv[k]));
        } else {
            assert(av.to_multiset().count(x) == 0);
            assert(bv.to_multiset().count(x) == 0);
        }
    }
    assert(av.to_multiset() =~= bv.to_multiset());
    false
}


/// `needle` occurs in `hay` as a run of consecutive characters (the empty
/// text occurs everywhere), as `str::contains` decides.
pub open spec fn text_contains(hay: Seq<char>, needle: Seq<char>) -> bool {
    exists|i: int| 0 <= i && i + needle.len() <= hay.len() && #[trigger] hay.subrange(i, i + needle.len()) == needle
}

fn occurs_at(hay: &Vec<char>, needle: &Vec<char>, i: usize) -> (r: bool)
    requires
        i + needle.len() <= hay.len(),
    ensures
        r == (hay@.subrange(i as int, i + needle.len()) == needle@),
{
    let mut k: usize = 0;
    while k < needle.len()
        invariant
            k <= needle.len(),
            i + needle.len() <= hay.len(),
            forall|m: int| 0 <= m < k ==> hay@[i + m] == needle@[m],
        decreases needle.len() - k,
    {
        if hay[i + k] != needle[k] {
            assert(hay@.subrange(i as int, i + needle.len())[k as int] != needle@[k as int]);
            return false;
        }
        k = k + 1;
    }
    assert(hay@.subrange(i as int, i + needle.len()) =~= needle@);
    true
}

/// Whether `needle` occurs in `hay`.
pub fn contains_text(hay: &str, needle: &str) -> (r: bool)
    ensures
        r == text_contains(hay@, needle@),
{
    let h = chars_of(hay);
    let n = chars_of(needle);
    if n.len() > h.len() {
        return false;
    }
    let mut i: usize = 0;
    let last: usize = h.len() - n.len();
    while i <= last
        invariant
            last == h.len() - n.len(),
            h@ == hay@,
            n@ == needle@,
            n.len() <= h.len(),
            i <= h.len() - n.len() + 1,
            forall|j: int| 0 <= j < i ==> #[trigger] hay@.subrange(j, j + needle@.len()) != needle@,
        decreases h.len() - n.len() + 1 - i,
    {
        if occurs_at(&h, &n, i) {
            return true;
        }
        if i == last {
            return false;
        }
        i = i + 1;
    }
    false
}

/// A group matches a folded search query: the query is empty or occurs in
/// the folded group name.
pub open spec fn group_matches_spec(folded_name: Seq<char>, folded_query: Seq<char>) -> bool {
    folded_query.len() == 0 || text_contains(folded_name, folded_query)
}

/// Whether a group whose lower-cased name is `folded_name` matches the
/// lower-cased, trimmed query `folded_query`.
pub fn group_matches(folded_name: &str, folded_query: &str) -> (r: bool)
    ensures
        r == group_matches_spec(folded_name@, folded_query@),
{
    folded_query.is_empty() || contains_text(folded_name, folded_query)
}

/// The groups matching a search term, as entities (id in decimal, name),
/// in the order given: the term is trimmed and lower-cased, and matches
/// every group when empty, else the groups whose lower-cased name
/// contains it.
pub open spec fn search_groups_spec(groups: Seq<(i64, Seq<char>)>, term: Seq<char>) -> Seq<EntityView>
    decreases groups.len(),
{
    if groups.len() == 0 {
        Seq::empty()
    } else {
        let prev = search_groups_spec(groups.drop_last(), term);
        let g = groups.last();
        if group_matches_spec(lowercase_of(g.1), lowercase_of(trim_spec(term))) {
            prev.push((signed_decimal(g.0 as int), g.1))
        } else {
            prev
        }
    }
}

/// Plain groups as an organise source: the groups matching a search term.
pub fn search_groups(groups: &Vec<(i64, String)>, term: &str) -> (r: Vec<ScraperEntity>)
    ensures
        entity_views(r@) == search_groups_spec(groups@.map_values(|g: (i64, String)| (g.0, g.1@)), term@),
{
    let ghost gv = groups@.map_values(|g: (i64, String)| (g.0, g.1@));
    let trimmed = trim(term);
    let query = to_lowercase(trimmed.as_str());
    let mut r: Vec<ScraperEntity> = Vec::new();
    let mut i: usize = 0;
    while i < groups.len()
        invariant
            i <= groups.len(),
            gv == groups@.map_values(|g: (i64, String)| (g.0, g.1@)),
            query@ == lowercase_of(trim_spec(term@)),
            entity_views(r@) == search_groups_spec(gv.take(i as int), term@),
        decreases groups.len() - i,
    {
        assert(gv.take(i + 1).drop_last() =~= gv.take(i as int));
        assert(gv.take(i + 1).last() == gv[i as int]);
        let folded = to_lowercase(groups[i].1.as_str());
        if group_matches(folded.as_str(), query.as_str()) {
            let ghost before = entity_views(r@);
            r.push(ScraperEntity { id: i64_to_string(groups[i].0), name: groups[i].1.clone() });
            assert(entity_views(r@) =~= before.push((signed_decimal(gv[i as int].0 as int), gv[i as int].1)));
        }
        i = i + 1;
    }
    assert(gv.take(groups.len() as int) =~= gv);
    r
}

/// The name a new group is created under from a typed term: the trimmed
/// term, or `None` when it is blank.
pub fn group_name_to_create(term: &str) -> (r: Option<String>)
    ensures
        match r {
            Some(n) => n@ == trim_spec(term@) && n@.len() > 0,
            None => trim_spec(term@).len() == 0,
        },
{
    let name = trim(term);
    if name.as_str().is_empty() {
        None
    } else {
        Some(name)
    }
}


/// The entity is shared by the whole selection: met in some list and
/// held by every list.
pub open spec fn shared_id(all: Seq<Seq<EntityView>>, id: Seq<char>) -> bool {
    has_id(first_occurrences(all), id) && held_by_all_spec(all, id)
}

/// The entity occurs among the first `i` of the list.
pub open spec fn in_prefix(s: Seq<EntityView>, i: int, e: EntityView) -> bool {
    exists|j: int| 0 <= j < i && #[trigger] s[j] == e
}

/// The search's answers that are not already shared by the selection,
/// in the answers' order.
pub open spec fn unshared_answers(all: Seq<Seq<EntityView>>, answers: Seq<EntityView>) -> Seq<
    EntityView,
>
    decreases answers.len(),
{
    if answers.len() == 0 {
        Seq::empty()
    } else {
        let prev = unshared_answers(all, answers.drop_last());
        if shared_id(all, answers.last().0) {
            prev
        } else {
            prev.push(answers.last())
        }
    }
}

/// The list holds an entity spelled like the term up to ASCII case.
pub open spec fn holds_name(list: Seq<EntityView>, term: Seq<char>) -> bool {
    exists|k: int| 0 <= k < list.len() && eq_ignore_ascii_case_spec(#[trigger] list[k].1, term)
}

/// Some list lacks an entity spelled like the term up to ASCII case.
pub open spec fn not_all_hold_name(all: Seq<Seq<EntityView>>, term: Seq<char>) -> bool {
    exists|j: int| 0 <= j < all.len() && !holds_name(#[trigger] all[j], term)
}

/// The organise picker's rows for a typed term.
pub struct OrganizeRows {
    /// The shared entities whose lower-cased name contains the folded
    /// term (every one when it is blank), in menu order; each removes the
    /// entity from the whole selection.
    pub remove: Vec<ScraperEntity>,
    /// The source's answers to the term that the selection does not
    /// share, in the answers' order; each adds the entity to all.
    pub add: Vec<ScraperEntity>,
    /// For a non-blank term: the custom row's label `Add "<term>"` and
    /// whether it can be picked (some game lacks an entity of that name).
    pub custom: Option<(String, bool)>,
}

/// Build the organise picker's rows: `held` holds each selected game's
/// entities, `answers` the source's answers to the trimmed term.
pub fn organize_rows(held: &Vec<Vec<ScraperEntity>>, answers: &Vec<ScraperEntity>, term: &str) -> (r:
    OrganizeRows)
    ensures
        ({
            let all = lists_view(held@);
            let query = lowercase_of(trim_spec(term@));
            &&& sorted_by_name(entity_views(r.remove@))
            &&& forall|e: EntityView|
                #![trigger entity_views(r.remove@).contains(e)]
                entity_views(r.remove@).contains(e) <==> (first_occurrences(all).contains(e)
                    && held_by_all_spec(all, e.0) && group_matches_spec(lowercase_of(e.1), query))
            &&& entity_views(r.add@) == unshared_answers(all, entity_views(answers@))
            &&& match r.custom {
                Some((label, enabled)) => {
                    &&& trim_spec(term@).len() > 0
                    &&& label@ == seq!['A', 'd', 'd', ' ', '"'] + trim_spec(term@) + seq!['"']
                    &&& enabled == not_all_hold_name(all, trim_spec(term@))
                },
                None => trim_spec(term@).len() == 0,
            }
        }),
{
    let ghost all = lists_view(held@);
    let parts = partition_entities(held);
    let shared = parts.0;
    let ghost sv = entity_views(shared@);
    let t = trim(term);
    let query = to_lowercase(t.as_str());
    // The rows that remove a shared entity.
    let mut remove: Vec<ScraperEntity> = Vec::new();
    let mut i: usize = 0;
    while i < shared.len()
        invariant
            i <= shared.len(),
            sv == entity_views(shared@),
            sorted_by_name(sv),
            query@ == lowercase_of(trim_spec(term@)),
            sorted_by_name(entity_views(remove@)),
            forall|k: int|
                0 <= k < remove.len() ==> in_prefix(sv, i as int, #[trigger] entity_views(remove@)[k]),
            forall|e: EntityView|
                #![trigger entity_views(remove@).contains(e)]
                entity_views(remove@).contains(e) <==> in_prefix(sv, i as int, e)
                    && group_matches_spec(lowercase_of(e.1), query@),
        decreases shared.len() - i,
    {
        let ghost before = entity_views(remove@);
        let ghost x = sv[i as int];
        let folded = to_lowercase(shared[i].name.as_str());
        let keep = group_matches(folded.as_str(), query.as_str());
        if keep {
            remove.push(copy_entity(&shared[i]));
        }
        let ghost after = entity_views(remove@);
        proof {
            if keep {
                assert(after =~= before.push(x));
            } else {
                assert(after =~= before);
            }
            assert forall|e: EntityView| in_prefix(sv, i + 1, e) <==> (in_prefix(sv, i as int, e)
                || e == x) by {
                if in_prefix(sv, i + 1, e) {
                    let j = choose|j: int| 0 <= j < i + 1 && sv[j] == e;
                    if j < i {
                        assert(in_prefix(sv, i as int, e));
                    }
                }
                if in_prefix(sv, i as int, e) {
                    let j = choose|j: int| 0 <= j < i && sv[j] == e;
                    assert(sv[j] == e);
                }
                if e == x {
                    assert(sv[i as int] == e);
                }
            }
            assert forall|a: int, b: int| 0 <= a < b < after.len() implies entity_before(
                #[trigger] after[a],
                #[trigger] after[b],
            ) by {
                if keep && b == before.len() {
                    assert(in_prefix(sv, i as int, before[a]));
                    let j = choose|j: int| 0 <= j < i && sv[j] == before[a];
                    assert(entity_before(sv[j], sv[i as int]));
                } else {
                    assert(after[a] == before[a] && after[b] == before[b]);
                }
            }
            assert forall|k: int| 0 <= k < after.len() implies in_prefix(
                sv,
                i + 1,
                #[trigger] after[k],
            ) by {
                if k < before.len() {
                    assert(after[k] == before[k]);
                    assert(in_prefix(sv, i as int, before[k]));
                } else {
                    assert(after[k] == x);
                }
            }
            assert forall|e: EntityView| after.contains(e) <==> in_prefix(sv, i + 1, e)
                && group_matches_spec(lowercase_of(e.1), query@) by {
                if after.contains(e) {
                    let k = choose|k: int| 0 <= k < after.len() && after[k] == e;
                    if k < before.len() {
                        assert(before[k] == e);
                        assert(before.contains(e));
                    } else {
                        assert(e == x);
                    }
                }
                if in_prefix(sv, i + 1, e) && group_matches_spec(lowercase_of(e.1), query@) {
                    if e == x {
                        assert(keep);
                        assert(after[before.len() as int] == e);
                    } else {
                        assert(in_prefix(sv, i as int, e));
                        assert(before.contains(e));
                        let k = choose|k: int| 0 <= k < before.len() && before[k] == e;
                        assert(after[k] == e);
                    }
                }
            }
        }
        i = i + 1;
    }
    proof {
        let q = query@;
        assert forall|e: EntityView|
            #![trigger entity_views(remove@).contains(e)]
            entity_views(remove@).contains(e) <==> (first_occurrences(all).contains(e)
                && held_by_all_spec(all, e.0) && group_matches_spec(lowercase_of(e.1), q)) by {
            if in_prefix(sv, shared.len() as int, e) {
                let j = choose|j: int| 0 <= j < shared.len() && sv[j] == e;
                assert(sv.contains(e));
            }
            if sv.contains(e) {
                let j = choose|j: int| 0 <= j < sv.len() && sv[j] == e;
                assert(in_prefix(sv, shared.len() as int, e));
            }
            assert(sv.contains(e) <==> (first_occurrences(all).contains(e) && held_by_all_spec(all, e.0)));
        }
    }
    // The rows that add an answer the selection does not share.
    let ghost av = entity_views(answers@);
    let mut add: Vec<ScraperEntity> = Vec::new();
    let mut k: usize = 0;
    while k < answers.len()
        invariant
            k <= answers.len(),
            av == entity_views(answers@),
            sv == entity_views(shared@),
            forall|e: EntityView|
                #![trigger sv.contains(e)]
                sv.contains(e) <==> (first_occurrences(all).contains(e) && held_by_all_spec(all, e.0)),
            all == lists_view(held@),
            entity_views(add@) == unshared_answers(all, av.take(k as int)),
        decreases answers.len() - k,
    {
        assert(av.take(k + 1).drop_last() =~= av.take(k as int));
        assert(av.take(k + 1).last() == av[k as int]);
        let is_shared = contains_id(&shared, &answers[k].id);
        proof {
            let id = av[k as int].0;
            if is_shared {
                let j = choose|j: int| 0 <= j < sv.len() && (#[trigger] sv[j]).0 == id;
                assert(sv.contains(sv[j]));
                assert(first_occurrences(all).contains(sv[j]));
                let m = choose|m: int| 0 <= m < first_occurrences(all).len() && first_occurrences(all)[m] == sv[j];
                assert(first_occurrences(all)[m].0 == id);
            }
            if shared_id(all, id) {
                let fo = first_occurrences(all);
                let m = choose|m: int| 0 <= m < fo.len() && (#[trigger] fo[m]).0 == id;
                assert(fo.contains(fo[m]));
                assert(sv.contains(fo[m]));
                let j = choose|j: int| 0 <= j < sv.len() && sv[j] == fo[m];
                assert(sv[j].0 == id);
            }
        }
        if !is_shared {
            let ghost before = entity_views(add@);
            add.push(copy_entity(&answers[k]));
            assert(entity_views(add@) =~= before.push(av[k as int]));
        }
        k = k + 1;
    }
    assert(av.take(answers.len() as int) =~= av);
    // The custom row for the term itself.
    let custom = if t.as_str().is_empty() {
        None
    } else {
        let mut label: Vec<char> = Vec::new();
        label.push('A');
        label.push('d');
        label.push('d');
        label.push(' ');
        label.push('"');
        let tc = chars_of(t.as_str());
        let mut c: usize = 0;
        while c < tc.len()
            invariant
                c <= tc.len(),
                label@ == seq!['A', 'd', 'd', ' ', '"'] + tc@.take(c as int),
            decreases tc.len() - c,
        {
            label.push(tc[c]);
            c = c + 1;
            assert(label@ =~= seq!['A', 'd', 'd', ' ', '"'] + tc@.take(c as int));
        }
        label.push('"');
        assert(tc@.take(tc.len() as int) =~= tc@);
        assert(label@ =~= seq!['A', 'd', 'd', ' ', '"'] + t@ + seq!['"']);
        // Some game lacks an entity spelled like the term.
        let mut lacking = false;
        let mut g: usize = 0;
        while g < held.len()
            invariant
                g <= held.len(),
                all == lists_view(held@),
                all.len() == held.len(),
                lacking == exists|j: int| 0 <= j < g && !holds_name(#[trigger] all[j], t@),
            decreases held.len() - g,
        {
            let ghost gv = all[g as int];
            assert(gv == entity_views(held@[g as int]@));
            let mut found = false;
            let mut m: usize = 0;
            while m < held[g].len()
                invariant
                    g < held.len(),
                    m <= held@[g as int].len(),
                    gv == entity_views(held@[g as int]@),
                    found == exists|x: int| 0 <= x < m && eq_ignore_ascii_case_spec(#[trigger] gv[x].1, t@),
                decreases held@[g as int].len() - m,
            {
                if eq_ignore_ascii_case(held[g][m].name.as_str(), t.as_str()) {
                    assert(eq_ignore_ascii_case_spec(gv[m as int].1, t@));
                    found = true;
                }
                m = m + 1;
            }
            if !found {
                lacking = true;
            }
            g = g + 1;
        }
        Some((string_of(&label), lacking))
    };
    OrganizeRows { remove, add, custom }
}

/// Two lists in menu order holding the same entities are the same list:
/// the order of a partition's parts is fully determined by their
/// members, whatever order the entities were met in.
pub proof fn law_menu_order_is_determined(a: Seq<EntityView>, b: Seq<EntityView>)
    requires
        sorted_by_name(a),
        sorted_by_name(b),
        forall|e: EntityView| a.contains(e) <==> b.contains(e),
    ensures
        a == b,
    decreases a.len(),
{
    if a.len() == 0 {
        if b.len() > 0 {
            assert(b.contains(b[0]));
        }
        assert(a =~= b);
    } else {
        assert(a.contains(a[0]));
        assert(b.len() > 0);
        assert(b.contains(b[0]));
        let ka = choose|k: int| 0 <= k < b.len() && b[k] == a[0];
        let kb = choose|k: int| 0 <= k < a.len() && a[k] == b[0];
        if ka > 0 && kb > 0 {
            assert(entity_before(b[0], b[ka]));
            assert(entity_before(a[0], a[kb]));
            lemma_before_asymmetric(a[0], b[0]);
        }
        if ka > 0 && kb == 0 {
            assert(entity_before(b[0], b[ka]));
            lemma_before_irreflexive(a[0]);
        }
        if ka == 0 && kb > 0 {
            assert(entity_before(a[0], a[kb]));
            lemma_before_irreflexive(b[0]);
        }
        assert(a[0] == b[0]);
        let ra = a.drop_first();
        let rb = b.drop_first();
        assert forall|e: EntityView| ra.contains(e) <==> rb.contains(e) by {
            if ra.contains(e) {
                let k = choose|k: int| 0 <= k < ra.len() && ra[k] == e;
                assert(a[k + 1] == e);
                assert(entity_before(a[0], a[k + 1]));
                assert(b.contains(e));
                let m = choose|m: int| 0 <= m < b.len() && b[m] == e;
                if m == 0 {
                    lemma_before_irreflexive(e);
                }
                assert(rb[m - 1] == e);
            }
            if rb.contains(e) {
                let k = choose|k: int| 0 <= k < rb.len() && rb[k] == e;
                assert(b[k + 1] == e);
                assert(entity_before(b[0], b[k + 1]));
                assert(a.contains(e));
                let m = choose|m: int| 0 <= m < a.len() && a[m] == e;
                if m == 0 {
                    lemma_before_irreflexive(e);
                }
                assert(ra[m - 1] == e);
            }
        }
        assert(sorted_by_name(ra)) by {
            assert forall|i: int, j: int| 0 <= i < j < ra.len() implies entity_before(#[trigger] ra[i], #[trigger] ra[j]) by {
                assert(ra[i] == a[i + 1] && ra[j] == a[j + 1]);
            }
        }
        assert(sorted_by_name(rb)) by {
            assert forall|i: int, j: int| 0 <= i < j < rb.len() implies entity_before(#[trigger] rb[i], #[trigger] rb[j]) by {
                assert(rb[i] == b[i + 1] && rb[j] == b[j + 1]);
            }
        }
        law_menu_order_is_determined(ra, rb);
        assert(a =~= seq![a[0]] + ra);
        assert(b =~= seq![b[0]] + rb);
    }
}

} // verus!
