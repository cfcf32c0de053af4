//! The entity page's staged edits: the typed name and the alias list
//! change only the staging area, and Save commits the difference from
//! what the database held when the page loaded.

use vstd::prelude::*;
use crate::text::{eq_ignore_ascii_case, eq_ignore_ascii_case_spec, same_text, trim, trim_spec};

verus! {

broadcast use vstd::string::group_string_axioms;

/// One alias as the page stages it: `rowid` is the stored alias's row,
/// `None` for one added since the page loaded.
#[derive(Clone, Debug)]
pub struct AliasDraft {
    pub rowid: Option<i64>,
    pub text: String,
}

impl View for AliasDraft {
    type V = (Option<i64>, Seq<char>);

    open spec fn view(&self) -> (Option<i64>, Seq<char>) {
        (self.rowid, self.text@)
    }
}

/// The views of a list of alias drafts.
pub open spec fn drafts_view(s: Seq<AliasDraft>) -> Seq<(Option<i64>, Seq<char>)> {
    s.map_values(|d: AliasDraft| d@)
}

/// The staged edits: what Save commits and Discard throws away.
#[derive(Clone, Debug)]
pub struct EntityEdits {
    /// The name as typed (trimmed); empty refuses to save.
    pub name: String,
    /// The name the database had when the page loaded.
    pub original_name: String,
    pub aliases: Vec<AliasDraft>,
    /// The alias rows the database had when the page loaded.
    pub original_rowids: Vec<i64>,
}

/// What Save writes: a rename when the name changed, the stored aliases
/// no longer staged (to remove), and the aliases added since the load.
#[derive(Debug)]
pub struct EntitySave {
    pub rename: Option<String>,
    pub remove_rowids: Vec<i64>,
    pub add_aliases: Vec<String>,
}

/// Some staged draft spells the alias the same way up to ASCII case.
pub open spec fn alias_staged(drafts: Seq<(Option<i64>, Seq<char>)>, text: Seq<char>) -> bool {
    exists|i: int|
        0 <= i < drafts.len() && eq_ignore_ascii_case_spec(#[trigger] drafts[i].1, text)
}

/// The stored alias rows that are no longer staged, in load order.
pub open spec fn unstaged_rowids(loaded: Seq<i64>, drafts: Seq<(Option<i64>, Seq<char>)>) -> Seq<
    i64,
>
    decreases loaded.len(),
{
    if loaded.len() == 0 {
        Seq::empty()
    } else {
        let prev = unstaged_rowids(loaded.drop_last(), drafts);
        let r = loaded.last();
        if exists|i: int| 0 <= i < drafts.len() && #[trigger] drafts[i].0 == Some(r) {
            prev
        } else {
            prev.push(r)
        }
    }
}

/// The texts of the drafts added since the load, in staging order.
pub open spec fn added_aliases(drafts: Seq<(Option<i64>, Seq<char>)>) -> Seq<Seq<char>>
    decreases drafts.len(),
{
    if drafts.len() == 0 {
        Seq::empty()
    } else {
        let prev = added_aliases(drafts.drop_last());
        if drafts.last().0 is None {
            prev.push(drafts.last().1)
        } else {
            prev
        }
    }
}

/// The views of a list of texts.
pub open spec fn texts_view(s: Seq<String>) -> Seq<Seq<char>> {
    s.map_values(|t: String| t@)
}

impl EntityEdits {
    /// The staging area for an entity as stored: its name and its
    /// aliases `(row, text)`, nothing changed yet.
    pub fn load(name: String, stored: Vec<(i64, String)>) -> (e: Self)
        ensures
            e.name@ == name@,
            e.original_name@ == name@,
            drafts_view(e.aliases@) == stored@.map_values(
                |p: (i64, String)| (Some(p.0), p.1@),
            ),
            e.original_rowids@ == stored@.map_values(|p: (i64, String)| p.0),
    {
        let mut aliases: Vec<AliasDraft> = Vec::new();
        let mut rowids: Vec<i64> = Vec::new();
        let mut i: usize = 0;
        while i < stored.len()
            invariant
                i <= stored.len(),
                drafts_view(aliases@) == stored@.take(i as int).map_values(
                    |p: (i64, String)| (Some(p.0), p.1@),
                ),
                rowids@ == stored@.take(i as int).map_values(|p: (i64, String)| p.0),
            decreases stored.len() - i,
        {
            let ghost before = drafts_view(aliases@);
            let text = stored[i].1.clone();
            aliases.push(AliasDraft { rowid: Some(stored[i].0), text });
            rowids.push(stored[i].0);
            assert(drafts_view(aliases@) =~= before.push((Some(stored@[i as int].0), stored@[i as int].1@)));
            assert(stored@.take(i + 1) =~= stored@.take(i as int).push(stored@[i as int]));
            assert(drafts_view(aliases@) =~= stored@.take(i + 1).map_values(
                |p: (i64, String)| (Some(p.0), p.1@),
            ));
            assert(rowids@ =~= stored@.take(i + 1).map_values(|p: (i64, String)| p.0));
            i = i + 1;
        }
        assert(stored@.take(stored.len() as int) =~= stored@);
        let original_name = name.clone();
        EntityEdits { name, original_name, aliases, original_rowids: rowids }
    }

    /// Typing in the name entry stages the trimmed text.
    pub fn set_typed_name(&mut self, text: &str)
        ensures
            final(self).name@ == trim_spec(text@),
            final(self).original_name == old(self).original_name,
            final(self).aliases == old(self).aliases,
            final(self).original_rowids == old(self).original_rowids,
    {
        self.name = trim(text);
    }

    /// Stage a typed alias: its trimmed text joins the list unless it is
    /// empty or a spelling already staged (up to ASCII case). True when
    /// it joined.
    pub fn stage_alias(&mut self, text: &str) -> (added: bool)
        ensures
            ({
                let t = trim_spec(text@);
                let before = drafts_view(old(self).aliases@);
                &&& added == (t.len() > 0 && !alias_staged(before, t))
                &&& drafts_view(final(self).aliases@) == if added {
                    before.push((None, t))
                } else {
                    before
                }
            }),
            final(self).name == old(self).name,
            final(self).original_name == old(self).original_name,
            final(self).original_rowids == old(self).original_rowids,
    {
        let t = trim(text);
        if t.as_str().is_empty() {
            return false;
        }
        let ghost before = drafts_view(self.aliases@);
        let mut i: usize = 0;
        while i < self.aliases.len()
            invariant
                i <= self.aliases.len(),
                before == drafts_view(self.aliases@),
                t@ == trim_spec(text@),
                t@.len() > 0,
                *self == *old(self),
                forall|k: int|
                    0 <= k < i ==> !eq_ignore_ascii_case_spec(#[trigger] before[k].1, t@),
            decreases self.aliases.len() - i,
        {
            if eq_ignore_ascii_case(self.aliases[i].text.as_str(), t.as_str()) {
                assert(eq_ignore_ascii_case_spec(before[i as int].1, t@));
                return false;
            }
            i = i + 1;
        }
        self.aliases.push(AliasDraft { rowid: None, text: t });
        assert(drafts_view(self.aliases@) =~= before.push((None, trim_spec(text@))));
        true
    }

    /// Remove the staged alias at `index` (the row's remove button).
    pub fn remove_alias(&mut self, index: usize)
        requires
            index < old(self).aliases.len(),
        ensures
            drafts_view(final(self).aliases@) == drafts_view(old(self).aliases@).remove(
                index as int,
            ),
            final(self).name == old(self).name,
            final(self).original_name == old(self).original_name,
            final(self).original_rowids == old(self).original_rowids,
    {
        let ghost before = drafts_view(self.aliases@);
        self.aliases.remove(index);
        assert(drafts_view(self.aliases@) =~= before.remove(index as int));
    }

    /// What Save writes, or `None` when the name is empty (Save then
    /// refuses and flags the entry rather than erasing the entity).
    pub fn save_plan(&self) -> (r: Option<EntitySave>)
        ensures
            match r {
                None => self.name@.len() == 0,
                Some(plan) => {
                    &&& self.name@.len() > 0
                    &&& match plan.rename {
                        Some(n) => self.name@ != self.original_name@ && n@ == self.name@,
                        None => self.name@ == self.original_name@,
                    }
                    &&& plan.remove_rowids@ == unstaged_rowids(
                        self.original_rowids@,
                        drafts_view(self.aliases@),
                    )
                    &&& texts_view(plan.add_aliases@) == added_aliases(drafts_view(self.aliases@))
                },
            },
    {
        if self.name.as_str().is_empty() {
            return None;
        }
        let rename = if same_text(self.name.as_str(), self.original_name.as_str()) {
            None
        } else {
            Some(self.name.clone())
        };
        let ghost dv = drafts_view(self.aliases@);
        let ghost ov = self.original_rowids@;
        let mut remove_rowids: Vec<i64> = Vec::new();
        let mut i: usize = 0;
        while i < self.original_rowids.len()
            invariant
                i <= self.original_rowids.len(),
                dv == drafts_view(self.aliases@),
                ov == self.original_rowids@,
                remove_rowids@ == unstaged_rowids(ov.take(i as int), dv),
            decreases self.original_rowids.len() - i,
        {
            let r = self.original_rowids[i];
            let mut staged = false;
            let mut j: usize = 0;
            while j < self.aliases.len()
                invariant
                    j <= self.aliases.len(),
                    dv == drafts_view(self.aliases@),
                    staged == exists|k: int| 0 <= k < j && #[trigger] dv[k].0 == Some(r),
                decreases self.aliases.len() - j,
            {
                match self.aliases[j].rowid {
                    Some(x) => {
                        if x == r {
                            assert(dv[j as int].0 == Some(r));
                            staged = true;
                        }
                    },
                    None => {},
                }
                j = j + 1;
            }
            assert(ov.take(i + 1).drop_last() =~= ov.take(i as int));
            assert(ov.take(i + 1).last() == r);
            if !staged {
                remove_rowids.push(r);
            }
            i = i + 1;
        }
        assert(ov.take(ov.len() as int) =~= ov);
        let mut add_aliases: Vec<String> = Vec::new();
        let mut k: usize = 0;
        while k < self.aliases.len()
            invariant
                k <= self.aliases.len(),
                dv == drafts_view(self.aliases@),
                texts_view(add_aliases@) == added_aliases(dv.take(k as int)),
            decreases self.aliases.len() - k,
        {
            assert(dv.take(k + 1).drop_last() =~= dv.take(k as int));
            assert(dv.take(k + 1).last() == dv[k as int]);
            if self.aliases[k].rowid.is_none() {
                let ghost before = texts_view(add_aliases@);
                add_aliases.push(self.aliases[k].text.clone());
                assert(texts_view(add_aliases@) =~= before.push(dv[k as int].1));
            }
            k = k + 1;
        }
        assert(dv.take(dv.len() as int) =~= dv);
        Some(EntitySave { rename, remove_rowids, add_aliases })
    }
}

proof fn lemma_eq_ignore_case_reflexive(t: Seq<char>)
    ensures
        eq_ignore_ascii_case_spec(t, t),
{
}

/// Staging an alias twice is staging it once: the second time finds the
/// spelling already staged and changes nothing.
pub proof fn law_stage_alias_twice_is_once(drafts: Seq<(Option<i64>, Seq<char>)>, t: Seq<char>)
    requires
        t.len() > 0,
        !alias_staged(drafts, t),
    ensures
        alias_staged(drafts.push((None, t)), t),
{
    lemma_eq_ignore_case_reflexive(t);
    let pushed = drafts.push((None, t));
    assert(pushed[drafts.len() as int].1 == t);
}

proof fn lemma_loaded_rowids_staged(stored: Seq<(i64, Seq<char>)>, n: int)
    requires
        0 <= n <= stored.len(),
    ensures
        unstaged_rowids(
            stored.map_values(|p: (i64, Seq<char>)| p.0).take(n),
            stored.map_values(|p: (i64, Seq<char>)| (Some(p.0), p.1)),
        ) == Seq::<i64>::empty(),
    decreases n,
{
    let ids = stored.map_values(|p: (i64, Seq<char>)| p.0);
    let dv = stored.map_values(|p: (i64, Seq<char>)| (Some(p.0), p.1));
    if n > 0 {
        lemma_loaded_rowids_staged(stored, n - 1);
        assert(ids.take(n).drop_last() =~= ids.take(n - 1));
        assert(dv[n - 1].0 == Some(ids.take(n).last()));
    }
}

proof fn lemma_loaded_adds_nothing(stored: Seq<(i64, Seq<char>)>)
    ensures
        added_aliases(stored.map_values(|p: (i64, Seq<char>)| (Some(p.0), p.1))) == Seq::<
            Seq<char>,
        >::empty(),
    decreases stored.len(),
{
    if stored.len() > 0 {
        lemma_loaded_adds_nothing(stored.drop_last());
        assert(stored.map_values(|p: (i64, Seq<char>)| (Some(p.0), p.1)).drop_last()
            =~= stored.drop_last().map_values(|p: (i64, Seq<char>)| (Some(p.0), p.1)));
    }
}

/// A page saved right after it loaded writes nothing: no rename, no
/// alias removed, none added.
pub proof fn law_fresh_page_saves_nothing(name: Seq<char>, stored: Seq<(i64, Seq<char>)>)
    ensures
        unstaged_rowids(
            stored.map_values(|p: (i64, Seq<char>)| p.0),
            stored.map_values(|p: (i64, Seq<char>)| (Some(p.0), p.1)),
        ) == Seq::<i64>::empty(),
        added_aliases(stored.map_values(|p: (i64, Seq<char>)| (Some(p.0), p.1))) == Seq::<
            Seq<char>,
        >::empty(),
{
    lemma_loaded_rowids_staged(stored, stored.len() as int);
    assert(stored.map_values(|p: (i64, Seq<char>)| p.0).take(stored.len() as int)
        =~= stored.map_values(|p: (i64, Seq<char>)| p.0));
    lemma_loaded_adds_nothing(stored);
}

} // verus!
