//! The scraped metadata record of a game and the edits the metadata
//! editors apply to it: age ratings, synopses and the entity lists.

use vstd::prelude::*;
use crate::entities::{
    ScraperEntity, EntityView, entity_views, add_entity, add_entity_spec, remove_entity,
    remove_entity_spec,
};
use crate::text::{
    trim, trim_spec, to_uppercase, uppercase_of, chars_of, eq_ignore_ascii_case_spec,
    chars_eq_ignore_ascii_case,
};

verus! {

broadcast use vstd::string::group_string_axioms;

/// One age rating: the board (`PEGI`, `ESRB`, …) and its
/// rating.
#[derive(Clone, Debug)]
pub struct ScraperClassification {
    pub kind: String,
    pub value: String,
}

/// A rating as a pair of texts: (board, rating).
pub type ClassificationView = (Seq<char>, Seq<char>);

impl View for ScraperClassification {
    type V = ClassificationView;

    open spec fn view(&self) -> ClassificationView {
        (self.kind@, self.value@)
    }
}

/// The views of a list of ratings.
pub open spec fn classification_views(s: Seq<ScraperClassification>) -> Seq<ClassificationView> {
    s.map_values(|c: ScraperClassification| c@)
}

/// The metadata record a game's scraper page edits.
#[derive(Clone, Debug, Default)]
pub struct ScraperMetadata {
    /// The ScreenScraper id of the match, empty when unmatched.
    pub ss_id: String,
    pub release_date: String,
    /// The release date as a Unix timestamp, kept in step with
    /// `release_date` (0 when unknown).
    pub release_timestamp: i64,
    pub developers: Vec<ScraperEntity>,
    pub publishers: Vec<ScraperEntity>,
    pub genres: Vec<ScraperEntity>,
    pub families: Vec<ScraperEntity>,
    /// (language, text) pairs.
    pub synopses: Vec<(String, String)>,
    pub classifications: Vec<ScraperClassification>,
}

/// The index of the first rating whose board equals `kind` up to ASCII
/// case.
pub open spec fn find_board(s: Seq<ClassificationView>, kind: Seq<char>) -> Option<int>
    decreases s.len(),
{
    if s.len() == 0 {
        None
    } else {
        match find_board(s.drop_last(), kind) {
            Some(i) => Some(i),
            None => if eq_ignore_ascii_case_spec(s.last().0, kind) {
                Some(s.len() - 1)
            } else {
                None
            },
        }
    }
}

/// Insert or replace a board's rating, `kind` and `value` already
/// normalised: nothing when either is empty; otherwise the first rating of
/// the same board (up to ASCII case) gets the new value and keeps its
/// spelling, or the rating is appended.
pub open spec fn upsert_spec(
    s: Seq<ClassificationView>,
    kind: Seq<char>,
    value: Seq<char>,
) -> Seq<ClassificationView> {
    if kind.len() == 0 || value.len() == 0 {
        s
    } else {
        match find_board(s, kind) {
            Some(i) => s.update(i, (s[i].0, value)),
            None => s.push((kind, value)),
        }
    }
}

proof fn lemma_find_board(s: Seq<ClassificationView>, kind: Seq<char>)
    ensures
        match find_board(s, kind) {
            Some(i) => 0 <= i < s.len() && eq_ignore_ascii_case_spec(s[i].0, kind) && forall|k: int|
                0 <= k < i ==> !eq_ignore_ascii_case_spec(#[trigger] s[k].0, kind),
            None => forall|k: int|
                0 <= k < s.len() ==> !eq_ignore_ascii_case_spec(#[trigger] s[k].0, kind),
        },
    decreases s.len(),
{
    if s.len() > 0 {
        lemma_find_board(s.drop_last(), kind);
        assert forall|k: int| 0 <= k < s.len() - 1 implies s[k] == s.drop_last()[k] by {}
    }
}

/// Insert or replace a board's rating with the board and rating already
/// normalised (trimmed, the board upper-cased): the rating list's key is
/// the board, so a second rating of one board is an update.
pub fn upsert_normalized_classification(
    list: &mut Vec<ScraperClassification>,
    kind: &str,
    value: &str,
)
    ensures
        classification_views(final(list)@) == upsert_spec(
            classification_views(old(list)@),
            kind@,
            value@,
        ),
{
    let ghost old_v = classification_views(list@);
    if kind.is_empty() || value.is_empty() {
        return;
    }
    let kind_chars = chars_of(kind);
    let mut i: usize = 0;
    proof {
        lemma_find_board(old_v, kind@);
    }
    while i < list.len()
        invariant
            i <= list.len(),
            old_v == classification_views(list@),
            list@ == old(list)@,
            kind_chars@ == kind@,
            kind@.len() > 0,
            value@.len() > 0,
            match find_board(old_v, kind@) {
                Some(j) => 0 <= j < old_v.len() && eq_ignore_ascii_case_spec(old_v[j].0, kind@)
                    && forall|k: int| 0 <= k < j ==> !eq_ignore_ascii_case_spec(#[trigger] old_v[k].0, kind@),
                None => forall|k: int|
                    0 <= k < old_v.len() ==> !eq_ignore_ascii_case_spec(#[trigger] old_v[k].0, kind@),
            },
            forall|k: int| 0 <= k < i ==> !eq_ignore_ascii_case_spec(#[trigger] old_v[k].0, kind@),
        decreases list.len() - i,
    {
        let existing = chars_of(list[i].kind.as_str());
        assert(existing@ == old_v[i as int].0);
        if chars_eq_ignore_ascii_case(&existing, &kind_chars) {
            assert(find_board(old_v, kind@) == Some(i as int));
            let updated = ScraperClassification {
                kind: list[i].kind.clone(),
                value: value.to_string(),
            };
            list.set(i, updated);
            assert(classification_views(list@) =~= old_v.update(
                i as int,
                (old_v[i as int].0, value@),
            ));
            return;
        }
        i = i + 1;
    }
    assert(find_board(old_v, kind@) == None::<int>);
    list.push(ScraperClassification { kind: kind.to_string(), value: value.to_string() });
    assert(classification_views(list@) =~= old_v.push((kind@, value@)));
}

/// Insert or replace a board's rating: the board is trimmed and
/// upper-cased (the way the sources spell boards), the rating trimmed;
/// when either ends up empty nothing is stored.
pub fn upsert_classification(metadata: &mut ScraperMetadata, kind: &str, value: &str)
    ensures
        classification_views(final(metadata).classifications@) == upsert_spec(
            classification_views(old(metadata).classifications@),
            uppercase_of(trim_spec(kind@)),
            trim_spec(value@),
        ),
        final(metadata).synopses@ == old(metadata).synopses@,
        final(metadata).release_date@ == old(metadata).release_date@,
        final(metadata).release_timestamp == old(metadata).release_timestamp,
        final(metadata).developers@ == old(metadata).developers@,
        final(metadata).publishers@ == old(metadata).publishers@,
        final(metadata).genres@ == old(metadata).genres@,
        final(metadata).families@ == old(metadata).families@,
{
    let trimmed = trim(kind);
    let folded = to_uppercase(trimmed.as_str());
    let value = trim(value);
    upsert_normalized_classification(
        &mut metadata.classifications,
        folded.as_str(),
        value.as_str(),
    );
}

/// No two ratings of the list are of the same board, up to ASCII case.
pub open spec fn boards_distinct(s: Seq<ClassificationView>) -> bool {
    forall|i: int, j: int|
        0 <= i < j < s.len() ==> !eq_ignore_ascii_case_spec(#[trigger] s[i].0, #[trigger] s[j].0)
}

/// A rating list keyed by board stays keyed by board: upserting never
/// creates a second rating for one board.
pub proof fn law_upsert_keeps_boards_distinct(
    s: Seq<ClassificationView>,
    kind: Seq<char>,
    value: Seq<char>,
)
    requires
        boards_distinct(s),
    ensures
        boards_distinct(upsert_spec(s, kind, value)),
{
    lemma_find_board(s, kind);
    let r = upsert_spec(s, kind, value);
    if kind.len() > 0 && value.len() > 0 {
        match find_board(s, kind) {
            Some(i) => {
                assert forall|a: int, b: int| 0 <= a < b < r.len() implies !eq_ignore_ascii_case_spec(
                    #[trigger] r[a].0,
                    #[trigger] r[b].0,
                ) by {
                    assert(r[a].0 == s[a].0);
                    assert(r[b].0 == s[b].0);
                }
            },
            None => {
                assert forall|a: int, b: int| 0 <= a < b < r.len() implies !eq_ignore_ascii_case_spec(
                    #[trigger] r[a].0,
                    #[trigger] r[b].0,
                ) by {
                    if b == s.len() {
                        assert(r[a] == s[a]);
                        assert(r[b] == (kind, value));
                    } else {
                        assert(r[a] == s[a]);
                        assert(r[b] == s[b]);
                    }
                }
            },
        }
    }
}

/// After an upsert with a non-empty board and rating, the board's rating
/// is the new one.
pub proof fn law_upsert_then_lookup(s: Seq<ClassificationView>, kind: Seq<char>, value: Seq<char>)
    requires
        kind.len() > 0,
        value.len() > 0,
    ensures
        ({
            let r = upsert_spec(s, kind, value);
            match find_board(r, kind) {
                Some(i) => r[i].1 == value,
                None => false,
            }
        }),
{
    lemma_find_board(s, kind);
    let r = upsert_spec(s, kind, value);
    lemma_find_board(r, kind);
    match find_board(s, kind) {
        Some(i) => {
            assert forall|k: int| 0 <= k < i implies r[k] == s[k] by {}
            assert(r[i].0 == s[i].0);
        },
        None => {
            assert forall|k: int| 0 <= k < s.len() implies r[k] == s[k] by {}
            assert(r[s.len() as int] == (kind, value));
            assert forall|k: int| 0 <= k < kind.len() implies crate::text::ascii_lower(
                #[trigger] kind[k],
            ) == crate::text::ascii_lower(kind[k]) by {}
        },
    }
}


/// (language, text) pairs as texts.
pub open spec fn synopsis_views(s: Seq<(String, String)>) -> Seq<(Seq<char>, Seq<char>)> {
    s.map_values(|p: (String, String)| (p.0@, p.1@))
}

/// The index of the first synopsis in language `lang`.
pub open spec fn find_language(s: Seq<(Seq<char>, Seq<char>)>, lang: Seq<char>) -> Option<int>
    decreases s.len(),
{
    if s.len() == 0 {
        None
    } else {
        match find_language(s.drop_last(), lang) {
            Some(i) => Some(i),
            None => if s.last().0 == lang {
                Some(s.len() - 1)
            } else {
                None
            },
        }
    }
}

/// The synopses without those in language `lang`, order kept.
pub open spec fn drop_language(s: Seq<(Seq<char>, Seq<char>)>, lang: Seq<char>) -> Seq<
    (Seq<char>, Seq<char>),
>
    decreases s.len(),
{
    if s.len() == 0 {
        s
    } else {
        let kept = drop_language(s.drop_last(), lang);
        if s.last().0 != lang {
            kept.push(s.last())
        } else {
            kept
        }
    }
}

/// Storing an edited synopsis: the text trimmed; an empty text drops the
/// language's synopses, any other text replaces the language's first
/// synopsis or is appended.
pub open spec fn set_synopsis_spec(
    s: Seq<(Seq<char>, Seq<char>)>,
    lang: Seq<char>,
    text: Seq<char>,
) -> Seq<(Seq<char>, Seq<char>)> {
    let t = trim_spec(text);
    if t.len() == 0 {
        drop_language(s, lang)
    } else {
        match find_language(s, lang) {
            Some(i) => s.update(i, (lang, t)),
            None => s.push((lang, t)),
        }
    }
}

proof fn lemma_find_language(s: Seq<(Seq<char>, Seq<char>)>, lang: Seq<char>)
    ensures
        match find_language(s, lang) {
            Some(i) => 0 <= i < s.len() && s[i].0 == lang && forall|k: int|
                0 <= k < i ==> (#[trigger] s[k]).0 != lang,
            None => forall|k: int| 0 <= k < s.len() ==> (#[trigger] s[k]).0 != lang,
        },
    decreases s.len(),
{
    if s.len() > 0 {
        lemma_find_language(s.drop_last(), lang);
        assert forall|k: int| 0 <= k < s.len() - 1 implies s[k] == s.drop_last()[k] by {}
    }
}

/// Store the edited synopsis of one language.
pub fn set_synopsis(synopses: &mut Vec<(String, String)>, lang: &str, text: &str)
    ensures
        synopsis_views(final(synopses)@) == set_synopsis_spec(
            synopsis_views(old(synopses)@),
            lang@,
            text@,
        ),
{
    let ghost old_v = synopsis_views(synopses@);
    let trimmed = trim(text);
    let lang_owned = lang.to_string();
    if trimmed.as_str().is_empty() {
        let mut kept: Vec<(String, String)> = Vec::new();
        let mut i: usize = 0;
        while i < synopses.len()
            invariant
                i <= synopses.len(),
                old_v == synopsis_views(synopses@),
                lang_owned@ == lang@,
                synopsis_views(kept@) == drop_language(old_v.take(i as int), lang@),
            decreases synopses.len() - i,
        {
            let ghost before = synopsis_views(kept@);
            assert(old_v.take(i + 1).drop_last() =~= old_v.take(i as int));
            assert(old_v.take(i + 1).last() == old_v[i as int]);
            if synopses[i].0 != lang_owned {
                let pair = (synopses[i].0.clone(), synopses[i].1.clone());
                kept.push(pair);
                assert(synopsis_views(kept@) =~= before.push(old_v[i as int]));
            }
            i = i + 1;
        }
        assert(old_v.take(synopses.len() as int) =~= old_v);
        *synopses = kept;
        return;
    }
    proof {
        lemma_find_language(old_v, lang@);
    }
    let mut i: usize = 0;
    while i < synopses.len()
        invariant
            i <= synopses.len(),
            old_v == synopsis_views(synopses@),
            synopses@ == old(synopses)@,
            lang_owned@ == lang@,
            trimmed@ == trim_spec(text@),
            trimmed@.len() > 0,
            match find_language(old_v, lang@) {
                Some(j) => 0 <= j < old_v.len() && old_v[j].0 == lang@ && forall|k: int|
                    0 <= k < j ==> (#[trigger] old_v[k]).0 != lang@,
                None => forall|k: int| 0 <= k < old_v.len() ==> (#[trigger] old_v[k]).0 != lang@,
            },
            forall|k: int| 0 <= k < i ==> (#[trigger] old_v[k]).0 != lang@,
        decreases synopses.len() - i,
    {
        if synopses[i].0 == lang_owned {
            assert(old_v[i as int].0 == lang@);
            assert(find_language(old_v, lang@) == Some(i as int));
            synopses.set(i, (lang_owned, trimmed));
            assert(synopsis_views(synopses@) =~= old_v.update(i as int, (lang@, trimmed@)));
            return;
        }
        i = i + 1;
    }
    assert(find_language(old_v, lang@) == None::<int>);
    synopses.push((lang_owned, trimmed));
    assert(synopsis_views(synopses@) =~= old_v.push((lang@, trimmed@)));
}

/// Which metadata list a mass entity add targets.
#[derive(Clone, Copy, Debug, PartialEq, Eq, Structural)]
pub enum MassEntityList {
    Family,
    Genre,
    Developer,
    Publisher,
}

/// The entities of the targeted list.
pub open spec fn target_list(meta: ScraperMetadata, list: MassEntityList) -> Seq<ScraperEntity> {
    match list {
        MassEntityList::Family => meta.families@,
        MassEntityList::Genre => meta.genres@,
        MassEntityList::Developer => meta.developers@,
        MassEntityList::Publisher => meta.publishers@,
    }
}

/// The metadata lists other than the targeted one are unchanged.
pub open spec fn others_unchanged(a: ScraperMetadata, b: ScraperMetadata, list: MassEntityList) -> bool {
    &&& list != MassEntityList::Family ==> a.families@ == b.families@
    &&& list != MassEntityList::Genre ==> a.genres@ == b.genres@
    &&& list != MassEntityList::Developer ==> a.developers@ == b.developers@
    &&& list != MassEntityList::Publisher ==> a.publishers@ == b.publishers@
    &&& a.synopses@ == b.synopses@
    &&& a.classifications@ == b.classifications@
    &&& a.release_date@ == b.release_date@
    &&& a.release_timestamp == b.release_timestamp
}

impl MassEntityList {
    /// The menu action that opens the list's mass-add picker.
    pub fn add_action(self) -> (r: &'static str)
        ensures
            r@ == match self {
                MassEntityList::Family => "game.mass_family"@,
                MassEntityList::Genre => "game.mass_genre"@,
                MassEntityList::Developer => "game.mass_developer"@,
                MassEntityList::Publisher => "game.mass_publisher"@,
            },
    {
        match self {
            MassEntityList::Family => "game.mass_family",
            MassEntityList::Genre => "game.mass_genre",
            MassEntityList::Developer => "game.mass_developer",
            MassEntityList::Publisher => "game.mass_publisher",
        }
    }

    /// The picker dialog's title.
    pub fn add_dialog_title(self) -> (r: &'static str)
        ensures
            r@ == match self {
                MassEntityList::Family => "Add to family…"@,
                MassEntityList::Genre => "Add to genre…"@,
                MassEntityList::Developer => "Add to developer…"@,
                MassEntityList::Publisher => "Add to publisher…"@,
            },
    {
        match self {
            MassEntityList::Family => "Add to family…",
            MassEntityList::Genre => "Add to genre…",
            MassEntityList::Developer => "Add to developer…",
            MassEntityList::Publisher => "Add to publisher…",
        }
    }

    /// Add an entity to the targeted list of a game's metadata, unless it
    /// already holds one with its id. True when the record changed (and so
    /// needs storing).
    pub fn add(self, meta: &mut ScraperMetadata, entity: &ScraperEntity) -> (changed: bool)
        ensures
            entity_views(target_list(*final(meta), self)) == add_entity_spec(
                entity_views(target_list(*old(meta), self)),
                entity@,
            ),
            changed == (entity_views(target_list(*final(meta), self)) != entity_views(
                target_list(*old(meta), self),
            )),
            others_unchanged(*old(meta), *final(meta), self),
    {
        let ghost before = entity_views(target_list(*meta, self));
        let changed = match self {
            MassEntityList::Family => add_entity(&mut meta.families, entity),
            MassEntityList::Genre => add_entity(&mut meta.genres, entity),
            MassEntityList::Developer => add_entity(&mut meta.developers, entity),
            MassEntityList::Publisher => add_entity(&mut meta.publishers, entity),
        };
        proof {
            if changed {
                assert(entity_views(target_list(*meta, self)).len() == before.len() + 1);
            }
        }
        changed
    }

    /// Remove the entities with the id from the targeted list. True when
    /// the record changed.
    pub fn remove(self, meta: &mut ScraperMetadata, id: &String) -> (changed: bool)
        ensures
            entity_views(target_list(*final(meta), self)) == remove_entity_spec(
                entity_views(target_list(*old(meta), self)),
                id@,
            ),
            changed == crate::entities::has_id(entity_views(target_list(*old(meta), self)), id@),
            others_unchanged(*old(meta), *final(meta), self),
    {
        match self {
            MassEntityList::Family => remove_entity(&mut meta.families, id),
            MassEntityList::Genre => remove_entity(&mut meta.genres, id),
            MassEntityList::Developer => remove_entity(&mut meta.developers, id),
            MassEntityList::Publisher => remove_entity(&mut meta.publishers, id),
        }
    }
}

/// The release-date row's subtitle: the stored date, or `Unknown`.
pub fn release_subtitle(release_date: &str) -> (r: String)
    ensures
        r@ == if release_date@.len() == 0 {
            "Unknown"@
        } else {
            release_date@
        },
{
    if release_date.is_empty() {
        "Unknown".to_string()
    } else {
        release_date.to_string()
    }
}

/// The age-rating row's title: singular for exactly one rating.
pub fn ratings_title(count: usize) -> (r: &'static str)
    ensures
        r@ == if count == 1 {
            "Age rating"@
        } else {
            "Age ratings"@
        },
{
    if count == 1 {
        "Age rating"
    } else {
        "Age ratings"
    }
}

/// The text chip of a rating with no bundled mark or known display name:
/// the board and the rating, space-separated.
pub fn rating_chip(kind: &str, value: &str) -> (r: String)
    ensures
        r@ == kind@ + seq![' '] + value@,
{
    let mut v = chars_of(kind);
    v.push(' ');
    let w = chars_of(value);
    let ghost start = v@;
    let mut k: usize = 0;
    while k < w.len()
        invariant
            k <= w.len(),
            v@ == start + w@.take(k as int),
        decreases w.len() - k,
    {
        v.push(w[k]);
        k = k + 1;
        assert(v@ =~= start + w@.take(k as int));
    }
    assert(w@.take(w.len() as int) =~= w@);
    crate::text::string_of(&v)
}

} // verus!
