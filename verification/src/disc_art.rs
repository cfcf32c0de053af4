//! Per-disc artwork for multi-disc games: the file stems it is cached
//! under, the draft keys it is staged under, which discs still lack art,
//! the region order downloads ask for, and when a download is worth
//! making.

use vstd::prelude::*;
use std::collections::HashMap;
use crate::text::{chars_of, push_signed_decimal, signed_decimal, all_digits, string_of};

verus! {

broadcast use {vstd::string::group_string_axioms, vstd::std_specs::hash::group_hash_axioms};

/// The data-dir file stem for one disc's art: `disc1`, `disc2`, …
pub open spec fn disc_file_base_spec(disc_number: i32) -> Seq<char> {
    seq!['d', 'i', 's', 'c'] + signed_decimal(disc_number as int)
}

/// The data-dir file stem for one disc's art.
pub fn disc_file_base(disc_number: i32) -> (s: String)
    ensures
        s@ == disc_file_base_spec(disc_number),
{
    let mut v: Vec<char> = Vec::new();
    v.push('d');
    v.push('i');
    v.push('s');
    v.push('c');
    push_signed_decimal(&mut v, disc_number as i64);
    assert(v@ =~= disc_file_base_spec(disc_number));
    string_of(&v)
}

/// A settings-draft key disc art stages under: `disc` followed by a
/// positive disc number, one or more ASCII digits not all `0`.
pub open spec fn is_disc_draft_key_spec(key: Seq<char>) -> bool {
    &&& key.len() > 4
    &&& key.take(4) == seq!['d', 'i', 's', 'c']
    &&& all_digits(key.skip(4))
    &&& exists|k: int| 0 <= k < key.len() - 4 && #[trigger] key.skip(4)[k] != '0'
}

/// True for the draft keys disc art stages under, so the save pipeline can
/// tell them apart from asset-type keys.
pub fn is_disc_draft_key(key: &str) -> (r: bool)
    ensures
        r == is_disc_draft_key_spec(key@),
{
    let v = chars_of(key);
    if v.len() <= 4 || v[0] != 'd' || v[1] != 'i' || v[2] != 's' || v[3] != 'c' {
        proof {
            if v.len() > 4 {
                if key@.take(4) == seq!['d', 'i', 's', 'c'] {
                    assert(key@.take(4)[0] == v@[0]);
                    assert(key@.take(4)[1] == v@[1]);
                    assert(key@.take(4)[2] == v@[2]);
                    assert(key@.take(4)[3] == v@[3]);
                }
            }
        }
        return false;
    }
    assert(key@.take(4) =~= seq!['d', 'i', 's', 'c']);
    let ghost rest = key@.skip(4);
    let mut i: usize = 4;
    let mut positive = false;
    while i < v.len()
        invariant
            4 <= i <= v.len(),
            v@ == key@,
            rest == key@.skip(4),
            forall|k: int| 0 <= k < i - 4 ==> crate::text::is_digit(#[trigger] rest[k]),
            positive <==> exists|k: int| 0 <= k < i - 4 && #[trigger] rest[k] != '0',
        decreases v.len() - i,
    {
        let c = v[i];
        if !('0' <= c && c <= '9') {
            assert(rest[i - 4] == c);
            return false;
        }
        assert(rest[i - 4] == c);
        if c != '0' {
            positive = true;
        }
        i = i + 1;
    }
    positive
}

/// The fallback regions, in the service's default order.
pub open spec fn fallback_regions() -> Seq<Seq<char>> {
    seq!["us"@, "wor"@, "ss"@, "eu"@, "jp"@]
}

/// `s` with `x` appended unless already present.
pub open spec fn push_if_absent(s: Seq<Seq<char>>, x: Seq<char>) -> Seq<Seq<char>> {
    if s.contains(x) {
        s
    } else {
        s.push(x)
    }
}

/// The region order disc art downloads with: the region the game's own
/// ROMs come from first (when known), then each fallback region not yet
/// listed.
pub open spec fn region_order_spec(rom_region: Option<Seq<char>>) -> Seq<Seq<char>> {
    let start = match rom_region {
        Some(r) => seq![r],
        None => Seq::empty(),
    };
    let f = fallback_regions();
    push_if_absent(
        push_if_absent(
            push_if_absent(push_if_absent(push_if_absent(start, f[0]), f[1]), f[2]),
            f[3],
        ),
        f[4],
    )
}

fn contains_text(list: &Vec<String>, x: &str) -> (r: bool)
    ensures
        r == list@.map_values(|s: String| s@).contains(x@),
{
    let ghost lv = list@.map_values(|s: String| s@);
    let mut i: usize = 0;
    while i < list.len()
        invariant
            i <= list.len(),
            lv == list@.map_values(|s: String| s@),
            forall|k: int| 0 <= k < i ==> lv[k] != x@,
        decreases list.len() - i,
    {
        if crate::text::same_text(list[i].as_str(), x) {
            assert(lv[i as int] == x@);
            return true;
        }
        i = i + 1;
    }
    false
}

fn push_region_if_absent(list: &mut Vec<String>, x: &str)
    ensures
        final(list)@.map_values(|s: String| s@) == push_if_absent(
            old(list)@.map_values(|s: String| s@),
            x@,
        ),
{
    if !contains_text(list, x) {
        let ghost before = list@.map_values(|s: String| s@);
        list.push(x.to_string());
        assert(list@.map_values(|s: String| s@) =~= before.push(x@));
    }
}

/// The region order every disc-art download uses.
pub fn region_order(rom_region: Option<&str>) -> (r: Vec<String>)
    ensures
        r@.map_values(|s: String| s@) == region_order_spec(
            match rom_region {
                Some(x) => Some(x@),
                None => None,
            },
        ),
{
    let mut regions: Vec<String> = Vec::new();
    if let Some(region) = rom_region {
        regions.push(region.to_string());
    }
    assert(regions@.map_values(|s: String| s@) =~= match rom_region {
        Some(x) => seq![x@],
        None => Seq::<Seq<char>>::empty(),
    });
    push_region_if_absent(&mut regions, "us");
    push_region_if_absent(&mut regions, "wor");
    push_region_if_absent(&mut regions, "ss");
    push_region_if_absent(&mut regions, "eu");
    push_region_if_absent(&mut regions, "jp");
    regions
}

/// The discs of `discs` with no art in `present`, order kept.
pub open spec fn missing_discs_spec(discs: Seq<i32>, present: Map<i32, Vec<u8>>) -> Seq<i32>
    decreases discs.len(),
{
    if discs.len() == 0 {
        Seq::empty()
    } else {
        let prev = missing_discs_spec(discs.drop_last(), present);
        if present.contains_key(discs.last()) {
            prev
        } else {
            prev.push(discs.last())
        }
    }
}

/// Disc numbers with no art yet — the shared "what's missing" behind the
/// picker, the drafts, and the automatic ensure.
pub fn missing_disc_numbers(discs: &Vec<i32>, present: &HashMap<i32, Vec<u8>>) -> (r: Vec<i32>)
    ensures
        r@ == missing_discs_spec(discs@, present@),
{
    let mut r: Vec<i32> = Vec::new();
    let mut i: usize = 0;
    while i < discs.len()
        invariant
            i <= discs.len(),
            r@ == missing_discs_spec(discs@.take(i as int), present@),
        decreases discs.len() - i,
    {
        assert(discs@.take(i + 1).drop_last() =~= discs@.take(i as int));
        assert(discs@.take(i + 1).last() == discs@[i as int]);
        let n = discs[i];
        if !present.contains_key(&n) {
            r.push(n);
        }
        i = i + 1;
    }
    assert(discs@.take(discs.len() as int) =~= discs@);
    r
}

/// Whether asking the service for disc media is worth it: some disc is
/// missing and the game has a ScreenScraper match.
pub fn disc_media_wanted(missing: &Vec<i32>, ss_id: &str) -> (r: bool)
    ensures
        r == (missing@.len() > 0 && ss_id@.len() > 0),
{
    missing.len() > 0 && !ss_id.is_empty()
}

/// The media the service returned, keyed by disc, keeping only discs that
/// were asked for; a later entry for the same disc replaces an earlier
/// one.
pub open spec fn kept_media_spec(media: Seq<(i32, Vec<u8>)>, missing: Seq<i32>) -> Map<
    i32,
    Vec<u8>,
>
    decreases media.len(),
{
    if media.len() == 0 {
        Map::empty()
    } else {
        let prev = kept_media_spec(media.drop_last(), missing);
        if missing.contains(media.last().0) {
            prev.insert(media.last().0, media.last().1)
        } else {
            prev
        }
    }
}

fn contains_disc(list: &Vec<i32>, x: i32) -> (r: bool)
    ensures
        r == list@.contains(x),
{
    let mut i: usize = 0;
    while i < list.len()
        invariant
            i <= list.len(),
            forall|k: int| 0 <= k < i ==> list@[k] != x,
        decreases list.len() - i,
    {
        if list[i] == x {
            assert(list@[i as int] == x);
            return true;
        }
        i = i + 1;
    }
    false
}

/// Keep the downloaded disc images that were asked for.
pub fn keep_missing_media(media: Vec<(i32, Vec<u8>)>, missing: &Vec<i32>) -> (r: HashMap<
    i32,
    Vec<u8>,
>)
    ensures
        r@ == kept_media_spec(media@, missing@),
{
    let ghost all = media@;
    let mut kept: HashMap<i32, Vec<u8>> = HashMap::new();
    for e in it: media
        invariant
            it.seq() == all,
            kept@ == kept_media_spec(all.take(it.index() as int), missing@),
    {
        let ghost k = it.index() as int;
        assert(all.take(k + 1).drop_last() =~= all.take(k));
        assert(all.take(k + 1).last() == e);
        let (disc, png) = e;
        if contains_disc(missing, disc) {
            kept.insert(disc, png);
        }
    }
    assert(all.take(all.len() as int) =~= all);
    kept
}


/// The automatic disc-art ensure: the discs to download, or `None` when
/// there is nothing to do — a single-disc game, every disc's art present,
/// or no ScreenScraper match to query by.
pub fn disc_ensure_plan(discs: &Vec<i32>, present: &HashMap<i32, Vec<u8>>, ss_id: &str) -> (r:
    Option<Vec<i32>>)
    ensures
        match r {
            Some(m) => discs@.len() > 1 && m@ == missing_discs_spec(discs@, present@) && m@.len() > 0
                && ss_id@.len() > 0,
            None => discs@.len() <= 1 || missing_discs_spec(discs@, present@).len() == 0
                || ss_id@.len() == 0,
        },
{
    if discs.len() <= 1 {
        return None;
    }
    let missing = missing_disc_numbers(discs, present);
    if !disc_media_wanted(&missing, ss_id) {
        return None;
    }
    Some(missing)
}

/// The ROM paths a game's region is read from: every disc's ROM path, then
/// the game's own ROM path when it has one.
pub fn rom_region_paths(disc_paths: Vec<String>, rom_path: String) -> (r: Vec<String>)
    ensures
        r@ == if rom_path@.len() > 0 {
            disc_paths@.push(rom_path)
        } else {
            disc_paths@
        },
{
    let mut paths = disc_paths;
    if !rom_path.as_str().is_empty() {
        paths.push(rom_path);
    }
    paths
}

proof fn lemma_push_if_absent(s: Seq<Seq<char>>, x: Seq<char>)
    ensures
        push_if_absent(s, x).contains(x),
        forall|y: Seq<char>| s.contains(y) ==> #[trigger] push_if_absent(s, x).contains(y),
        forall|y: Seq<char>| #[trigger] push_if_absent(s, x).contains(y) ==> s.contains(y) || y == x,
        forall|k: int| 0 <= k < s.len() ==> #[trigger] push_if_absent(s, x)[k] == s[k],
        push_if_absent(s, x).len() >= s.len(),
        (forall|i: int, j: int| 0 <= i < j < s.len() ==> s[i] != s[j]) ==> (forall|i: int, j: int|
            0 <= i < j < push_if_absent(s, x).len() ==> push_if_absent(s, x)[i] != push_if_absent(
                s,
                x,
            )[j]),
{
    let t = push_if_absent(s, x);
    if !s.contains(x) {
        assert(t[s.len() as int] == x);
        assert forall|y: Seq<char>| t.contains(y) implies s.contains(y) || y == x by {
            let k = choose|k: int| 0 <= k < t.len() && t[k] == y;
            if k < s.len() {
                assert(s[k] == y);
            }
        }
        assert forall|y: Seq<char>| s.contains(y) implies t.contains(y) by {
            let k = choose|k: int| 0 <= k < s.len() && s[k] == y;
            assert(t[k] == y);
        }
    }
}

/// The region order starts with the game's own region when known, lists
/// no region twice, and always includes every fallback region.
pub proof fn law_region_order_shape(rom_region: Option<Seq<char>>)
    ensures
        ({
            let r = region_order_spec(rom_region);
            &&& (rom_region matches Some(x) ==> r.len() > 0 && r[0] == x)
            &&& forall|i: int, j: int| 0 <= i < j < r.len() ==> r[i] != r[j]
            &&& forall|k: int| 0 <= k < 5 ==> r.contains(#[trigger] fallback_regions()[k])
        }),
{
    let start = match rom_region {
        Some(r) => seq![r],
        None => Seq::<Seq<char>>::empty(),
    };
    let f = fallback_regions();
    let s1 = push_if_absent(start, f[0]);
    let s2 = push_if_absent(s1, f[1]);
    let s3 = push_if_absent(s2, f[2]);
    let s4 = push_if_absent(s3, f[3]);
    let s5 = push_if_absent(s4, f[4]);
    lemma_push_if_absent(start, f[0]);
    lemma_push_if_absent(s1, f[1]);
    lemma_push_if_absent(s2, f[2]);
    lemma_push_if_absent(s3, f[3]);
    lemma_push_if_absent(s4, f[4]);
    assert(s5 == region_order_spec(rom_region));
    if let Some(x) = rom_region {
        assert(start[0] == x);
        assert(s1[0] == x);
        assert(s2[0] == x);
        assert(s3[0] == x);
        assert(s4[0] == x);
    }
    assert(s1.contains(f[0]));
    assert(s2.contains(f[0]));
    assert(s3.contains(f[0]) && s3.contains(f[1]));
    assert(s4.contains(f[0]) && s4.contains(f[1]) && s4.contains(f[2]));
    assert(s5.contains(f[0]) && s5.contains(f[1]) && s5.contains(f[2]) && s5.contains(f[3]));
    assert(s5.contains(f[4]));
    assert forall|k: int| 0 <= k < 5 implies s5.contains(#[trigger] fallback_regions()[k]) by {}
}

/// A disc tile's caption: the disc's label, or `Disc <n>` without one.
pub fn disc_caption(label: &str, disc_number: i32) -> (r: String)
    ensures
        r@ == if label@.len() == 0 {
            seq!['D', 'i', 's', 'c', ' '] + signed_decimal(disc_number as int)
        } else {
            label@
        },
{
    if label.is_empty() {
        let mut v: Vec<char> = Vec::new();
        v.push('D');
        v.push('i');
        v.push('s');
        v.push('c');
        v.push(' ');
        push_signed_decimal(&mut v, disc_number as i64);
        assert(v@ =~= seq!['D', 'i', 's', 'c', ' '] + signed_decimal(disc_number as int));
        string_of(&v)
    } else {
        label.to_string()
    }
}

/// The disc picker's columns at least: one for a single disc, else two
/// (four at most per line).
pub fn picker_min_columns(discs: usize) -> (r: u32)
    ensures
        r == if discs <= 1 {
            1u32
        } else {
            2u32
        },
{
    if discs <= 1 {
        1
    } else {
        2
    }
}

/// The missing discs are exactly the listed discs with no art, each as
/// often as listed: a disc with art is never missing, and every disc
/// without art is.
pub proof fn law_missing_discs_are_the_ones_without_art(discs: Seq<i32>, present: Map<i32, Vec<u8>>)
    ensures
        forall|d: i32| #[trigger] missing_discs_spec(discs, present).contains(d) <==> (discs.contains(d)
            && !present.contains_key(d)),
        missing_discs_spec(discs, present).len() <= discs.len(),
    decreases discs.len(),
{
    if discs.len() > 0 {
        let rest = discs.drop_last();
        law_missing_discs_are_the_ones_without_art(rest, present);
        let prev = missing_discs_spec(rest, present);
        let m = missing_discs_spec(discs, present);
        assert forall|d: i32| #[trigger] m.contains(d) <==> (discs.contains(d) && !present.contains_key(d)) by {
            if m.contains(d) {
                let k = choose|k: int| 0 <= k < m.len() && m[k] == d;
                if k < prev.len() {
                    assert(prev[k] == d);
                    assert(prev.contains(d));
                    let j = choose|j: int| 0 <= j < rest.len() && rest[j] == d;
                    assert(discs[j] == d);
                } else {
                    assert(discs[discs.len() - 1] == d);
                }
            }
            if discs.contains(d) && !present.contains_key(d) {
                let j = choose|j: int| 0 <= j < discs.len() && discs[j] == d;
                if j < discs.len() - 1 {
                    assert(rest[j] == d);
                    assert(prev.contains(d));
                    let k = choose|k: int| 0 <= k < prev.len() && prev[k] == d;
                    assert(m[k] == d);
                } else {
                    assert(m[prev.len() as int] == d);
                }
            }
        }
    }
}

} // verus!
