//! The playtime page: the identifying line of a library entry (its
//! source, the id that source knows it by, and where it lives), and the
//! linking of entries whose time counts together.

use vstd::prelude::*;
use crate::text::{chars_of, string_of, lowercase_of, to_lowercase, join_spec};
use crate::entities::{contains_text, text_contains};

verus! {

/// The separator between the pieces of an identity line: two spaces, a
/// middle dot, two spaces.
pub open spec fn identity_separator() -> Seq<char> {
    seq![' ', ' ', '\u{b7}', ' ', ' ']
}

/// The pieces of an identity line: the source's name; then the Steam app
/// id as `App <id>`, else the game id, else the platform id (the first
/// non-empty one, if any); then the ROM path, else the game folder (the
/// first non-empty one, if any).
pub open spec fn identity_pieces(
    kind_name: Seq<char>,
    steam_id: Seq<char>,
    game_id: Seq<char>,
    platform_id: Seq<char>,
    rom_path: Seq<char>,
    game_folder: Seq<char>,
) -> Seq<Seq<char>> {
    let id_part: Seq<Seq<char>> = if steam_id.len() > 0 {
        seq![seq!['A', 'p', 'p', ' '] + steam_id]
    } else if game_id.len() > 0 {
        seq![game_id]
    } else if platform_id.len() > 0 {
        seq![platform_id]
    } else {
        Seq::empty()
    };
    let location: Seq<Seq<char>> = if rom_path.len() > 0 {
        seq![rom_path]
    } else if game_folder.len() > 0 {
        seq![game_folder]
    } else {
        Seq::empty()
    };
    seq![kind_name] + id_part + location
}

fn push_all(out: &mut Vec<char>, s: &str)
    ensures
        final(out)@ == old(out)@ + s@,
{
    let v = chars_of(s);
    let mut i: usize = 0;
    while i < v.len()
        invariant
            i <= v.len(),
            v@ == s@,
            out@ == old(out)@ + s@.take(i as int),
        decreases v.len() - i,
    {
        out.push(v[i]);
        i = i + 1;
        assert(out@ =~= old(out)@ + s@.take(i as int));
    }
    assert(s@.take(v.len() as int) =~= s@);
}

fn push_separator(out: &mut Vec<char>)
    ensures
        final(out)@ == old(out)@ + identity_separator(),
{
    out.push(' ');
    out.push(' ');
    out.push('\u{b7}');
    out.push(' ');
    out.push(' ');
    assert(final(out)@ =~= old(out)@ + identity_separator());
}

/// The identifying line for an entry row, from the display name of its
/// source and its raw identity fields; empty pieces drop out.
pub fn identity_parts(
    kind_name: &str,
    steam_id: &str,
    game_id: &str,
    platform_id: &str,
    rom_path: &str,
    game_folder: &str,
) -> (r: String)
    ensures
        r@ == join_spec(
            identity_pieces(kind_name@, steam_id@, game_id@, platform_id@, rom_path@, game_folder@),
            identity_separator(),
        ),
{
    let ghost pieces = identity_pieces(
        kind_name@,
        steam_id@,
        game_id@,
        platform_id@,
        rom_path@,
        game_folder@,
    );
    let ghost sep = identity_separator();
    let mut out: Vec<char> = Vec::new();
    push_all(&mut out, kind_name);
    assert(out@ =~= kind_name@);
    let mut count: usize = 1;
    if !steam_id.is_empty() {
        push_separator(&mut out);
        out.push('A');
        out.push('p');
        out.push('p');
        out.push(' ');
        push_all(&mut out, steam_id);
        count = 2;
    } else if !game_id.is_empty() {
        push_separator(&mut out);
        push_all(&mut out, game_id);
        count = 2;
    } else if !platform_id.is_empty() {
        push_separator(&mut out);
        push_all(&mut out, platform_id);
        count = 2;
    }
    assert(out@ =~= join_spec(pieces.take(count as int), sep)) by {
        if count == 2 {
            assert(pieces.take(2).drop_last() =~= seq![kind_name@]);
            assert(join_spec(seq![kind_name@], sep) == kind_name@);
        } else {
            assert(pieces.take(1) =~= seq![kind_name@]);
        }
    }
    let ghost before = out@;
    let mut added = false;
    if !rom_path.is_empty() {
        push_separator(&mut out);
        push_all(&mut out, rom_path);
        added = true;
    } else if !game_folder.is_empty() {
        push_separator(&mut out);
        push_all(&mut out, game_folder);
        added = true;
    }
    proof {
        if added {
            assert(pieces.len() == count + 1);
            assert(pieces.drop_last() =~= pieces.take(count as int));
            assert(out@ =~= before + sep + pieces.last());
        } else {
            assert(pieces.len() == count);
            assert(pieces.take(count as int) =~= pieces);
        }
    }
    string_of(&out)
}

/// The link section of an entry's playtime page.
pub struct LinkSection {
    /// The picker row's title.
    pub link_title: &'static str,
    /// The other entries of the link, one row each, in link order.
    pub others: Vec<i64>,
    /// Whether the entry is in a link it can leave.
    pub can_leave: bool,
}

/// The link section for entry `db_id` whose link holds `members` (empty
/// when unlinked): "Link with other games" while unlinked, "Link more
/// games" once linked; a row per other member; a leave row when linked.
pub fn link_section(members: &Vec<i64>, db_id: i64) -> (r: LinkSection)
    ensures
        r.link_title@ == if members.len() == 0 {
            "Link with other games"@
        } else {
            "Link more games"@
        },
        r.others@ == members@.filter(|m: i64| m != db_id),
        r.can_leave == (members.len() > 0),
{
    let mut others: Vec<i64> = Vec::new();
    let mut i: usize = 0;
    while i < members.len()
        invariant
            i <= members.len(),
            others@ == members@.take(i as int).filter(|m: i64| m != db_id),
        decreases members.len() - i,
    {
        reveal(Seq::filter);
        assert(members@.take(i + 1).drop_last() =~= members@.take(i as int));
        if members[i] != db_id {
            others.push(members[i]);
        }
        i = i + 1;
    }
    assert(members@.take(members.len() as int) =~= members@);
    let link_title = if members.len() == 0 {
        "Link with other games"
    } else {
        "Link more games"
    };
    LinkSection { link_title, others, can_leave: members.len() > 0 }
}

/// The entries the link picker offers (as positions in `entries`): every
/// entry but this one and its link's current members, hidden ones
/// included.
pub fn link_candidates(entries: &Vec<i64>, db_id: i64, members: &Vec<i64>) -> (r: Vec<usize>)
    ensures
        forall|k: int| 0 <= k < r.len() ==> #[trigger] r@[k] < entries.len(),
        forall|i: int, j: int| 0 <= i < j < r.len() ==> r@[i] < r@[j],
        forall|p: int|
            0 <= p < entries.len() ==> (r@.contains(p as usize) <==> (#[trigger] entries@[p]
                != db_id && !members@.contains(entries@[p]))),
{
    let mut r: Vec<usize> = Vec::new();
    let mut i: usize = 0;
    while i < entries.len()
        invariant
            i <= entries.len(),
            forall|k: int| 0 <= k < r.len() ==> #[trigger] r@[k] < i,
            forall|a: int, b: int| 0 <= a < b < r.len() ==> r@[a] < r@[b],
            forall|p: int|
                0 <= p < i ==> (r@.contains(p as usize) <==> (#[trigger] entries@[p] != db_id
                    && !members@.contains(entries@[p]))),
        decreases entries.len() - i,
    {
        let id = entries[i];
        let mut member = false;
        let mut m: usize = 0;
        while m < members.len()
            invariant
                m <= members.len(),
                member == exists|k: int| 0 <= k < m && members@[k] == id,
            decreases members.len() - m,
        {
            if members[m] == id {
                member = true;
            }
            m = m + 1;
        }
        let ghost before = r@;
        if id != db_id && !member {
            r.push(i);
            proof {
                assert forall|p: int| 0 <= p < i + 1 implies (r@.contains(p as usize) <==> (
                #[trigger] entries@[p] != db_id && !members@.contains(entries@[p]))) by {
                    if p < i {
                        if before.contains(p as usize) {
                            let k = choose|k: int| 0 <= k < before.len() && before[k] == p as usize;
                            assert(r@[k] == p as usize);
                        }
                        if r@.contains(p as usize) {
                            let k = choose|k: int| 0 <= k < r@.len() && r@[k] == p as usize;
                            assert(k < before.len());
                        }
                    } else {
                        assert(r@[before.len() as int] == i);
                    }
                }
            }
        } else {
            proof {
                assert(!r@.contains(i));
                if member {
                    let k = choose|k: int| 0 <= k < members.len() && members@[k] == id;
                    assert(members@.contains(id));
                }
            }
        }
        i = i + 1;
    }
    r
}

/// The entries a confirmed link joins into one fresh link: the link's
/// current members, this entry, then the picked entries; `None` when
/// nothing was picked (the Link button is off until one entry is).
pub fn link_group(members: &Vec<i64>, db_id: i64, picked: &Vec<i64>) -> (r: Option<Vec<i64>>)
    ensures
        match r {
            Some(g) => picked.len() > 0 && g@ == members@ + seq![db_id] + picked@,
            None => picked.len() == 0,
        },
{
    if picked.len() == 0 {
        return None;
    }
    let mut g: Vec<i64> = Vec::new();
    let mut i: usize = 0;
    while i < members.len()
        invariant
            i <= members.len(),
            g@ == members@.take(i as int),
        decreases members.len() - i,
    {
        g.push(members[i]);
        i = i + 1;
        assert(g@ =~= members@.take(i as int));
    }
    assert(members@.take(members.len() as int) =~= members@);
    g.push(db_id);
    let ghost mid = g@;
    let mut k: usize = 0;
    while k < picked.len()
        invariant
            k <= picked.len(),
            g@ == mid + picked@.take(k as int),
        decreases picked.len() - k,
    {
        g.push(picked[k]);
        k = k + 1;
        assert(g@ =~= mid + picked@.take(k as int));
    }
    assert(picked@.take(picked.len() as int) =~= picked@);
    Some(g)
}

/// Linking more entries keeps the link's current members, this entry and
/// every pick.
pub proof fn law_linking_keeps_members(members: Seq<i64>, db_id: i64, picked: Seq<i64>, x: i64)
    requires
        members.contains(x) || x == db_id || picked.contains(x),
    ensures
        (members + seq![db_id] + picked).contains(x),
{
    let g = members + seq![db_id] + picked;
    if members.contains(x) {
        let k = choose|k: int| 0 <= k < members.len() && members[k] == x;
        assert(g[k] == x);
    } else if x == db_id {
        assert(g[members.len() as int] == x);
    } else {
        let k = choose|k: int| 0 <= k < picked.len() && picked[k] == x;
        assert(g[members.len() + 1 + k] == x);
    }
}

/// A picker row shows while the search is empty or its lower-cased title
/// contains the lower-cased search.
pub fn picker_row_visible(title: &str, query: &str) -> (r: bool)
    ensures
        r == (lowercase_of(query@).len() == 0 || text_contains(lowercase_of(title@), lowercase_of(
            query@,
        ))),
{
    let q = to_lowercase(query);
    if q.as_str().is_empty() {
        return true;
    }
    let t = to_lowercase(title);
    contains_text(t.as_str(), q.as_str())
}

} // verus!
