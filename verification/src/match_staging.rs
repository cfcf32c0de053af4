//! The settings dialog's staged metadata: the rows edit a draft of the
//! game's record, and a ScreenScraper pick or unmatch is staged on it the
//! same way — nothing reaches the database until Save, so half-finished
//! work never masquerades as saved state.

use vstd::prelude::*;
use crate::metadata::ScraperMetadata;
use crate::text::{same_text, trim, trim_spec};

verus! {

broadcast use vstd::string::group_string_axioms;

/// A staged service change waiting for Save; a pick keeps the whole
/// answer so a refresh of the rows can fold it in again.
pub enum SsPending<A> {
    /// Nothing staged.
    Idle,
    Match(A),
    Unmatch,
}

/// The draft the rows edit, the staged service change, and the draft as
/// it stood before a match was first staged this session (what the revert
/// buttons put back).
pub struct MatchStaging<A> {
    pub draft: ScraperMetadata,
    pub pending: SsPending<A>,
    pub pre_match: Option<ScraperMetadata>,
}

/// Two records agree on everything but the ScreenScraper id.
pub open spec fn same_but_ss_id(a: ScraperMetadata, b: ScraperMetadata) -> bool {
    &&& a.release_date@ == b.release_date@
    &&& a.release_timestamp == b.release_timestamp
    &&& a.developers@ == b.developers@
    &&& a.publishers@ == b.publishers@
    &&& a.genres@ == b.genres@
    &&& a.families@ == b.families@
    &&& a.synopses@ == b.synopses@
    &&& a.classifications@ == b.classifications@
}

/// What staging a pick does: the revert snapshot is taken once (the
/// first pick of the session keeps it), the folded answer becomes the
/// draft, and the pick is staged.
pub open spec fn staged_match<A>(
    before: MatchStaging<A>,
    after: MatchStaging<A>,
    picked: A,
    folded: ScraperMetadata,
) -> bool {
    &&& after.pre_match == (if before.pre_match is None {
        Some(before.draft)
    } else {
        before.pre_match
    })
    &&& after.draft == folded
    &&& after.pending == SsPending::Match(picked)
}

/// What staging an unmatch does. A game the database holds matched keeps
/// its draft, loses the id, and stages the unmatch. A match only staged
/// this session is undone whole: the snapshot (when there is one) comes
/// back without the id, and nothing stays staged.
pub open spec fn staged_unmatch<A>(before: MatchStaging<A>, after: MatchStaging<A>, db_matched: bool) -> bool {
    &&& after.draft.ss_id@.len() == 0
    &&& if db_matched {
        &&& same_but_ss_id(after.draft, before.draft)
        &&& after.pending is Unmatch
        &&& after.pre_match == before.pre_match
    } else {
        &&& same_but_ss_id(
            after.draft,
            match before.pre_match {
                Some(p) => p,
                None => before.draft,
            },
        )
        &&& after.pending is Idle
        &&& after.pre_match is None
    }
}

/// What Save does besides storing the draft.
#[derive(PartialEq, Eq, Debug)]
pub enum SaveAction {
    /// Nothing staged.
    Nothing,
    /// A pick: clear the miss marker and give the game the draft's id.
    ClearMiss(String),
    /// An unmatch: clear the match, mark the game manually unmatched,
    /// and clear its id.
    Unmatch,
}

impl<A> MatchStaging<A> {
    /// The staging a settings window opens with: the stored record (an
    /// empty one when there is none) and nothing staged.
    pub fn new(stored: ScraperMetadata) -> (s: Self)
        ensures
            s.draft == stored,
            s.pending is Idle,
            s.pre_match is None,
    {
        MatchStaging { draft: stored, pending: SsPending::Idle, pre_match: None }
    }

    /// Stage a pick whose answer, folded into the current draft, is
    /// `folded`.
    pub fn stage_match(&mut self, picked: A, folded: ScraperMetadata)
        ensures
            staged_match(*old(self), *final(self), picked, folded),
    {
        if self.pre_match.is_none() {
            let mut draft = folded;
            std::mem::swap(&mut self.draft, &mut draft);
            self.pre_match = Some(draft);
        } else {
            self.draft = folded;
        }
        self.pending = SsPending::Match(picked);
    }

    /// Stage an unmatch; `db_matched` tells whether the database holds
    /// the game matched.
    pub fn stage_unmatch(&mut self, db_matched: bool)
        ensures
            staged_unmatch(*old(self), *final(self), db_matched),
    {
        if db_matched {
            self.draft.ss_id = String::new();
            self.pending = SsPending::Unmatch;
        } else {
            let pre = self.pre_match.take();
            match pre {
                Some(p) => {
                    self.draft = p;
                },
                None => {},
            }
            self.draft.ss_id = String::new();
            self.pending = SsPending::Idle;
        }
    }

    /// Resync to the database after an outside change: the stored record
    /// becomes the draft and the snapshot is dropped — except that a pick
    /// staged this session survives, its answer folded into the stored
    /// record (`refolded`, given when a pick is staged).
    pub fn resync(&mut self, stored: ScraperMetadata, refolded: Option<ScraperMetadata>)
        ensures
            final(self).pre_match is None,
            final(self).pending == old(self).pending,
            final(self).draft == (match (old(self).pending, refolded) {
                (SsPending::Match(_), Some(f)) => f,
                _ => stored,
            }),
    {
        self.pre_match = None;
        let is_match = match &self.pending {
            SsPending::Match(_) => true,
            _ => false,
        };
        match refolded {
            Some(f) => {
                if is_match {
                    self.draft = f;
                } else {
                    self.draft = stored;
                }
            },
            None => {
                self.draft = stored;
            },
        }
    }

    /// What Save does for the staged service change.
    pub fn save_action(&self) -> (r: SaveAction)
        ensures
            match self.pending {
                SsPending::Idle => r == SaveAction::Nothing,
                SsPending::Match(_) => r matches SaveAction::ClearMiss(id) && id@ == self.draft.ss_id@,
                SsPending::Unmatch => r == SaveAction::Unmatch,
            },
    {
        match &self.pending {
            SsPending::Idle => SaveAction::Nothing,
            SsPending::Match(_) => SaveAction::ClearMiss(self.draft.ss_id.clone()),
            SsPending::Unmatch => SaveAction::Unmatch,
        }
    }
}

/// Unmatching a pick that was only staged this session undoes the
/// staging whole: however many picks were staged since the window opened
/// (with nothing snapshotted), the draft returns to what it was, without
/// an id, and nothing stays staged.
pub proof fn law_unmatch_undoes_staged_picks<A>(
    s0: MatchStaging<A>,
    s1: MatchStaging<A>,
    s2: MatchStaging<A>,
    s3: MatchStaging<A>,
    p1: A,
    f1: ScraperMetadata,
    p2: A,
    f2: ScraperMetadata,
)
    requires
        s0.pre_match is None,
        staged_match(s0, s1, p1, f1),
        staged_match(s1, s2, p2, f2),
        staged_unmatch(s2, s3, false),
    ensures
        same_but_ss_id(s3.draft, s0.draft),
        s3.draft.ss_id@.len() == 0,
        s3.pending is Idle,
        s3.pre_match is None,
{
}

/// The revert snapshot is taken once: a second pick keeps the draft as it
/// stood before the first.
pub proof fn law_snapshot_taken_once<A>(
    s0: MatchStaging<A>,
    s1: MatchStaging<A>,
    s2: MatchStaging<A>,
    p1: A,
    f1: ScraperMetadata,
    p2: A,
    f2: ScraperMetadata,
)
    requires
        s0.pre_match is None,
        staged_match(s0, s1, p1, f1),
        staged_match(s1, s2, p2, f2),
    ensures
        s2.pre_match == Some(s0.draft),
        s2.draft == f2,
{
}

/// A pick's name fills the title entry when the pick has a name, the
/// stored title came from a dump (not trusted; unknown counts as
/// trusted), and the entry still shows the game's current name,
/// untouched but for white space at its ends.
pub open spec fn fills_title_spec(
    picked_name: Seq<char>,
    title_trusted: Option<bool>,
    entry_text: Seq<char>,
    current_name: Seq<char>,
) -> bool {
    &&& picked_name.len() > 0
    &&& title_trusted == Some(false)
    &&& trim_spec(entry_text) == current_name
}

/// Whether a staged pick's name replaces the title entry's text.
pub fn fills_title(
    picked_name: &str,
    title_trusted: Option<bool>,
    entry_text: &str,
    current_name: &str,
) -> (r: bool)
    ensures
        r == fills_title_spec(picked_name@, title_trusted, entry_text@, current_name@),
{
    if picked_name.is_empty() {
        return false;
    }
    match title_trusted {
        Some(false) => {},
        _ => {
            return false;
        },
    }
    let shown = trim(entry_text);
    same_text(shown.as_str(), current_name)
}

} // verus!
