//! The mass metadata refetch on the sidebar strip: which games the Steam
//! pass reads, when a pass may start, the order and pace of a combined
//! pass, what a Steam re-read merges into a stored record, and the tally
//! the strip reports at the end.

use vstd::prelude::*;
use crate::entities::{ScraperEntity, entity_views};
use crate::metadata::{ScraperMetadata, ScraperClassification, classification_views, synopsis_views};
use crate::text::{
    decimal, parse_i64, parse_i64_spec, parse_u32, parse_u32_spec, push_decimal, string_of,
    u64_to_string,
};

verus! {

broadcast use vstd::string::group_string_axioms;

/// What the database holds for a game's scraped metadata.
pub enum StoredRecord {
    /// No record at all.
    Missing,
    /// A record, with whether its release date counts as broken (empty,
    /// or an epoch date an old bug wrote).
    Stored { meta: ScraperMetadata, release_date_broken: bool },
    /// The record could not be read.
    Unreadable,
}

/// One library game as the Steam refetch sees it.
pub struct RefetchCandidate {
    pub db_id: i64,
    /// The stored Steam link (a store app id), empty when none.
    pub steam_link_id: String,
    /// Whether the game is a PC game (its platform id may be the store app
    /// id).
    pub is_pc: bool,
    pub platform_id: String,
    pub record: StoredRecord,
}

/// The holes Steam's own sources can fill: the release date, the studios
/// (no developer and no publisher), the synopsis, the age boards.
pub open spec fn steam_gaps_spec(meta: ScraperMetadata, release_date_broken: bool) -> bool {
    ||| release_date_broken
    ||| (meta.developers@.len() == 0 && meta.publishers@.len() == 0)
    ||| meta.synopses@.len() == 0
    ||| meta.classifications@.len() == 0
}

/// Whether a stored record has holes Steam can fill.
pub fn steam_gaps(meta: &ScraperMetadata, release_date_broken: bool) -> (r: bool)
    ensures
        r == steam_gaps_spec(*meta, release_date_broken),
{
    release_date_broken || (meta.developers.len() == 0 && meta.publishers.len() == 0)
        || meta.synopses.len() == 0 || meta.classifications.len() == 0
}

/// The pass can read the game: a stored Steam link, or a PC game whose
/// platform id parses as a store app id.
pub open spec fn steam_readable(c: RefetchCandidate) -> bool {
    c.steam_link_id@.len() > 0 || (c.is_pc && parse_u32_spec(c.platform_id@) is Some)
}

/// The game goes into the Steam queue: readable, and (unless the pass is
/// forced) with no record or a record with holes; an unreadable record
/// keeps it out.
pub open spec fn steam_queued(c: RefetchCandidate, force: bool) -> bool {
    &&& steam_readable(c)
    &&& (force || match c.record {
        StoredRecord::Missing => true,
        StoredRecord::Stored { meta, release_date_broken } => steam_gaps_spec(
            meta,
            release_date_broken,
        ),
        StoredRecord::Unreadable => false,
    })
}

/// The ids of the queued games, in library order.
pub open spec fn steam_queue_spec(games: Seq<RefetchCandidate>, force: bool) -> Seq<i64>
    decreases games.len(),
{
    if games.len() == 0 {
        Seq::empty()
    } else {
        let prev = steam_queue_spec(games.drop_last(), force);
        if steam_queued(games.last(), force) {
            prev.push(games.last().db_id)
        } else {
            prev
        }
    }
}

fn candidate_queued(c: &RefetchCandidate, force: bool) -> (r: bool)
    ensures
        r == steam_queued(*c, force),
{
    let readable = !c.steam_link_id.as_str().is_empty() || (c.is_pc && parse_u32(
        c.platform_id.as_str(),
    ).is_some());
    if !readable {
        return false;
    }
    if force {
        return true;
    }
    match &c.record {
        StoredRecord::Missing => true,
        StoredRecord::Stored { meta, release_date_broken } => steam_gaps(meta, *release_date_broken),
        StoredRecord::Unreadable => false,
    }
}

/// The games the Steam pass re-reads: those it can read (a stored Steam
/// link, or a PC game whose platform id is the store app id) whose stored
/// metadata misses something Steam can give, or has no record at all. A
/// forced pass drops the gap filter.
pub fn steam_refetch_queue(games: &Vec<RefetchCandidate>, force: bool) -> (q: Vec<i64>)
    ensures
        q@ == steam_queue_spec(games@, force),
{
    let mut q: Vec<i64> = Vec::new();
    let mut i: usize = 0;
    while i < games.len()
        invariant
            i <= games.len(),
            q@ == steam_queue_spec(games@.take(i as int), force),
        decreases games.len() - i,
    {
        assert(games@.take(i + 1).drop_last() =~= games@.take(i as int));
        assert(games@.take(i + 1).last() == games@[i as int]);
        if candidate_queued(&games[i], force) {
            q.push(games[i].db_id);
        }
        i = i + 1;
    }
    assert(games@.take(games.len() as int) =~= games@);
    q
}

/// Start the Steam-only refetch: the queue to work through, or `None`
/// (nothing started) when no game qualifies or another job holds the
/// sidebar strip.
pub fn start_steam_refetch(games: &Vec<RefetchCandidate>, force: bool, strip_free: bool) -> (r:
    Option<Vec<i64>>)
    ensures
        match r {
            Some(q) => strip_free && q@ == steam_queue_spec(games@, force) && q@.len() > 0,
            None => !strip_free || steam_queue_spec(games@, force).len() == 0,
        },
{
    let q = steam_refetch_queue(games, force);
    if q.len() == 0 || !strip_free {
        return None;
    }
    Some(q)
}

/// The ScreenScraper gate: the quota is free and an account is set up.
pub open spec fn screenscraper_ready(busy: bool, enabled: bool, account: Seq<char>) -> bool {
    !busy && enabled && account.len() > 0
}

/// Start the ScreenScraper metadata refetch over `queue`: `None` when a
/// ScreenScraper job is running, ScreenScraper is off or has no account,
/// nothing has gaps, or the strip is taken.
pub fn start_metadata_refetch(
    busy: bool,
    enabled: bool,
    account: &str,
    queue: Vec<i64>,
    strip_free: bool,
) -> (r: Option<Vec<i64>>)
    ensures
        match r {
            Some(q) => screenscraper_ready(busy, enabled, account@) && strip_free && q@ == queue@
                && queue@.len() > 0,
            None => !screenscraper_ready(busy, enabled, account@) || !strip_free || queue@.len()
                == 0,
        },
{
    if busy || !enabled || account.is_empty() {
        return None;
    }
    if queue.len() == 0 || !strip_free {
        return None;
    }
    Some(queue)
}

/// Which source an item of a combined refetch comes from.
#[derive(Clone, Copy, PartialEq, Eq, Debug, Structural)]
pub enum RefetchSource {
    Steam,
    Ss,
    GenresTable,
}

/// The combined job list: every Steam game first (fast), then every
/// ScreenScraper game, then the genre table when it was never fetched
/// (with id 0).
pub open spec fn full_jobs_spec(steam: Seq<i64>, ss: Seq<i64>, genres_wanted: bool) -> Seq<
    (RefetchSource, i64),
> {
    steam.map_values(|id: i64| (RefetchSource::Steam, id)) + ss.map_values(
        |id: i64| (RefetchSource::Ss, id),
    ) + if genres_wanted {
        seq![(RefetchSource::GenresTable, 0i64)]
    } else {
        Seq::empty()
    }
}

/// Start the refetch over every source at once: the combined job list, or
/// `None` when ScreenScraper is not ready, there is nothing to do, or the
/// strip is taken.
pub fn start_full_refetch(
    busy: bool,
    enabled: bool,
    account: &str,
    ss_queue: &Vec<i64>,
    steam_queue: &Vec<i64>,
    genres_wanted: bool,
    strip_free: bool,
) -> (r: Option<Vec<(RefetchSource, i64)>>)
    ensures
        match r {
            Some(jobs) => screenscraper_ready(busy, enabled, account@) && strip_free && jobs@
                == full_jobs_spec(steam_queue@, ss_queue@, genres_wanted) && jobs@.len() > 0,
            None => !screenscraper_ready(busy, enabled, account@) || !strip_free || (
            ss_queue@.len() == 0 && steam_queue@.len() == 0 && !genres_wanted),
        },
{
    if busy || !enabled || account.is_empty() {
        return None;
    }
    if ss_queue.len() == 0 && steam_queue.len() == 0 && !genres_wanted {
        return None;
    }
    if !strip_free {
        return None;
    }
    let mut jobs: Vec<(RefetchSource, i64)> = Vec::new();
    let ghost steam_part = steam_queue@.map_values(|id: i64| (RefetchSource::Steam, id));
    let ghost ss_part = ss_queue@.map_values(|id: i64| (RefetchSource::Ss, id));
    let mut i: usize = 0;
    while i < steam_queue.len()
        invariant
            i <= steam_queue.len(),
            steam_part == steam_queue@.map_values(|id: i64| (RefetchSource::Steam, id)),
            jobs@ == steam_part.take(i as int),
        decreases steam_queue.len() - i,
    {
        jobs.push((RefetchSource::Steam, steam_queue[i]));
        i = i + 1;
        assert(jobs@ =~= steam_part.take(i as int));
    }
    assert(steam_part.take(steam_queue.len() as int) =~= steam_part);
    let mut k: usize = 0;
    while k < ss_queue.len()
        invariant
            k <= ss_queue.len(),
            ss_part == ss_queue@.map_values(|id: i64| (RefetchSource::Ss, id)),
            jobs@ == steam_part + ss_part.take(k as int),
        decreases ss_queue.len() - k,
    {
        jobs.push((RefetchSource::Ss, ss_queue[k]));
        k = k + 1;
        assert(jobs@ =~= steam_part + ss_part.take(k as int));
    }
    assert(ss_part.take(ss_queue.len() as int) =~= ss_part);
    if genres_wanted {
        jobs.push((RefetchSource::GenresTable, 0));
    }
    assert(jobs@ =~= full_jobs_spec(steam_queue@, ss_queue@, genres_wanted));
    assert(jobs@.len() > 0) by {
        if !genres_wanted {
            if steam_queue@.len() > 0 {
                assert(steam_part.len() > 0);
            } else {
                assert(ss_part.len() > 0);
            }
        }
    }
    Some(jobs)
}

/// The pause before a combined-queue item, in milliseconds: none before
/// the first; Steam answers and the genre table are cheap (250 ms),
/// ScreenScraper ones ride the quota (1000 ms).
pub fn refetch_pace_ms(source: RefetchSource, index: usize) -> (ms: u64)
    ensures
        ms == if index == 0 {
            0
        } else {
            match source {
                RefetchSource::Ss => 1000u64,
                _ => 250u64,
            }
        },
{
    if index == 0 {
        return 0;
    }
    match source {
        RefetchSource::Steam | RefetchSource::GenresTable => 250,
        RefetchSource::Ss => 1000,
    }
}

/// The store app id the Steam pass reads a game by: the stored Steam link
/// when there is one, else, for a PC game (whose platform is the store),
/// the platform id when it parses as an app id (in its canonical decimal
/// form).
pub open spec fn steam_app_id_spec(link: Seq<char>, is_pc: bool, platform_id: Seq<char>) -> Option<
    Seq<char>,
> {
    if link.len() > 0 {
        Some(link)
    } else if is_pc {
        match parse_u32_spec(platform_id) {
            Some(n) => Some(decimal(n as nat)),
            None => None,
        }
    } else {
        None
    }
}

/// The store app id for one game's Steam re-read, if it has one.
pub fn steam_app_id(link: &str, is_pc: bool, platform_id: &str) -> (r: Option<String>)
    ensures
        match r {
            Some(s) => steam_app_id_spec(link@, is_pc, platform_id@) == Some(s@),
            None => steam_app_id_spec(link@, is_pc, platform_id@) is None,
        },
{
    if !link.is_empty() {
        return Some(link.to_string());
    }
    if !is_pc {
        return None;
    }
    match parse_u32(platform_id) {
        Some(n) => Some(u64_to_string(n as u64)),
        None => None,
    }
}

/// The first step of one game's Steam re-read: a game missing from the
/// library fails with `"game not found"`; a game with no store app id
/// (see `steam_app_id_spec`) is left unchanged without asking Steam;
/// otherwise the app id to read.
pub fn steam_refetch_target(found: bool, link: &str, is_pc: bool, platform_id: &str) -> (r: Result<
    String,
    RefetchOutcome,
>)
    ensures
        match r {
            Ok(id) => found && steam_app_id_spec(link@, is_pc, platform_id@) == Some(id@),
            Err(RefetchOutcome::Failed(msg)) => !found && msg@ == "game not found"@,
            Err(RefetchOutcome::Unchanged) => found && steam_app_id_spec(
                link@,
                is_pc,
                platform_id@,
            ) is None,
            Err(RefetchOutcome::Filled) => false,
        },
{
    if !found {
        return Err(RefetchOutcome::Failed("game not found".to_string()));
    }
    match steam_app_id(link, is_pc, platform_id) {
        Some(id) => Ok(id),
        None => Err(RefetchOutcome::Unchanged),
    }
}

/// The step after Steam was asked: when neither SteamCMD nor the store
/// page answered, the re-read fails with `"steam answered nothing"`;
/// when the merge filled nothing it ends unchanged; otherwise (`None`)
/// the merged record is to be stored.
pub fn steam_read_outcome(answered: bool, changed: bool) -> (r: Option<RefetchOutcome>)
    ensures
        match r {
            Some(RefetchOutcome::Failed(msg)) => !answered && msg@ == "steam answered nothing"@,
            Some(RefetchOutcome::Unchanged) => answered && !changed,
            Some(RefetchOutcome::Filled) => false,
            None => answered && changed,
        },
{
    if !answered {
        return Some(RefetchOutcome::Failed("steam answered nothing".to_string()));
    }
    if !changed {
        return Some(RefetchOutcome::Unchanged);
    }
    None
}

/// How a Steam re-read that stored its merge ended: filled when the store
/// succeeded, else failed with the store's error.
pub fn steam_store_outcome(stored: Result<(), String>) -> (r: RefetchOutcome)
    ensures
        match stored {
            Ok(()) => r == RefetchOutcome::Filled,
            Err(e) => r matches RefetchOutcome::Failed(m) && m@ == e@,
        },
{
    match stored {
        Ok(()) => RefetchOutcome::Filled,
        Err(e) => RefetchOutcome::Failed(e),
    }
}

/// The extras a Steam store page provides.
pub struct StoreExtras {
    pub release_date: String,
    pub synopsis: String,
    /// (board, rating) pairs.
    pub ratings: Vec<(String, String)>,
}

/// The release date a Steam re-read stores: SteamCMD's date (given only
/// when its timestamp is positive) when non-empty, else the store page's
/// when non-empty.
pub open spec fn pick_release_date_spec(
    steamcmd_date: Option<Seq<char>>,
    store_date: Option<Seq<char>>,
) -> Option<Seq<char>> {
    match steamcmd_date {
        Some(d) if d.len() > 0 => Some(d),
        _ => match store_date {
            Some(d) if d.len() > 0 => Some(d),
            _ => None,
        },
    }
}

/// Choose the release date to store.
pub fn pick_release_date(steamcmd_date: Option<&str>, store_date: Option<&str>) -> (r: Option<
    String,
>)
    ensures
        match r {
            Some(s) => pick_release_date_spec(
                match steamcmd_date {
                    Some(d) => Some(d@),
                    None => None,
                },
                match store_date {
                    Some(d) => Some(d@),
                    None => None,
                },
            ) == Some(s@),
            None => pick_release_date_spec(
                match steamcmd_date {
                    Some(d) => Some(d@),
                    None => None,
                },
                match store_date {
                    Some(d) => Some(d@),
                    None => None,
                },
            ) is None,
        },
{
    if let Some(d) = steamcmd_date {
        if !d.is_empty() {
            return Some(d.to_string());
        }
    }
    if let Some(d) = store_date {
        if !d.is_empty() {
            return Some(d.to_string());
        }
    }
    None
}

/// Merge a store page's extras into a stored record, filling only holes:
/// the English synopsis when the record has no synopsis and the page has
/// one, the page's ratings when the record has none and the page has
/// some. True when something was filled.
pub fn merge_store_extras(meta: &mut ScraperMetadata, extras: &StoreExtras) -> (changed: bool)
    ensures
        synopsis_views(final(meta).synopses@) == if old(meta).synopses@.len() == 0
            && extras.synopsis@.len() > 0 {
            seq![("en"@, extras.synopsis@)]
        } else {
            synopsis_views(old(meta).synopses@)
        },
        classification_views(final(meta).classifications@) == if old(meta).classifications@.len()
            == 0 && extras.ratings@.len() > 0 {
            synopsis_views(extras.ratings@)
        } else {
            classification_views(old(meta).classifications@)
        },
        changed == ((old(meta).synopses@.len() == 0 && extras.synopsis@.len() > 0) || (
        old(meta).classifications@.len() == 0 && extras.ratings@.len() > 0)),
        final(meta).developers@ == old(meta).developers@,
        final(meta).publishers@ == old(meta).publishers@,
        final(meta).genres@ == old(meta).genres@,
        final(meta).families@ == old(meta).families@,
        final(meta).release_date@ == old(meta).release_date@,
        final(meta).release_timestamp == old(meta).release_timestamp,
        final(meta).ss_id@ == old(meta).ss_id@,
{
    let mut changed = false;
    if meta.synopses.len() == 0 && !extras.synopsis.as_str().is_empty() {
        meta.synopses.push(("en".to_string(), extras.synopsis.clone()));
        assert(synopsis_views(meta.synopses@) =~= seq![("en"@, extras.synopsis@)]);
        changed = true;
    }
    if meta.classifications.len() == 0 && extras.ratings.len() > 0 {
        let ghost mid = *meta;
        let mut i: usize = 0;
        while i < extras.ratings.len()
            invariant
                i <= extras.ratings.len(),
                meta.synopses@ == mid.synopses@,
                meta.developers@ == mid.developers@,
                meta.publishers@ == mid.publishers@,
                meta.genres@ == mid.genres@,
                meta.families@ == mid.families@,
                meta.release_date@ == mid.release_date@,
                meta.release_timestamp == mid.release_timestamp,
                meta.ss_id@ == mid.ss_id@,
                classification_views(meta.classifications@) == synopsis_views(
                    extras.ratings@.take(i as int),
                ),
            decreases extras.ratings.len() - i,
        {
            let ghost before = classification_views(meta.classifications@);
            meta.classifications.push(
                ScraperClassification {
                    kind: extras.ratings[i].0.clone(),
                    value: extras.ratings[i].1.clone(),
                },
            );
            assert(classification_views(meta.classifications@) =~= before.push(
                (extras.ratings@[i as int].0@, extras.ratings@[i as int].1@),
            ));
            assert(extras.ratings@.take(i + 1) =~= extras.ratings@.take(i as int).push(
                extras.ratings@[i as int],
            ));
            i = i + 1;
            assert(classification_views(meta.classifications@) =~= synopsis_views(
                extras.ratings@.take(i as int),
            ));
        }
        assert(extras.ratings@.take(extras.ratings.len() as int) =~= extras.ratings@);
        changed = true;
    }
    changed
}

/// How one game's refetch ended.
pub enum RefetchOutcome {
    Filled,
    Unchanged,
    Failed(String),
}

/// The running tally of a refetch job: games processed and games filled.
pub struct RefetchTally {
    pub filled: usize,
    pub processed: usize,
}

impl RefetchTally {
    /// A job that has processed nothing yet.
    pub fn new() -> (t: RefetchTally)
        ensures
            t.filled == 0,
            t.processed == 0,
    {
        RefetchTally { filled: 0, processed: 0 }
    }

    /// Count one game's outcome. True when the game was filled (its open
    /// scraper section wants a refresh).
    pub fn record(&mut self, outcome: &RefetchOutcome) -> (filled: bool)
        requires
            old(self).processed < usize::MAX,
            old(self).filled <= old(self).processed,
        ensures
            final(self).processed == old(self).processed + 1,
            final(self).filled == old(self).filled + if outcome is Filled {
                1usize
            } else {
                0usize
            },
            final(self).filled <= final(self).processed,
            filled == outcome is Filled,
    {
        self.processed = self.processed + 1;
        match outcome {
            RefetchOutcome::Filled => {
                self.filled = self.filled + 1;
                true
            },
            _ => false,
        }
    }

    /// The strip's closing line: `"<filled> of <processed> games updated"`.
    pub fn summary(&self) -> (s: String)
        ensures
            s@ == decimal(self.filled as nat) + " of "@ + decimal(self.processed as nat)
                + " games updated"@,
    {
        let mut v: Vec<char> = Vec::new();
        push_decimal(&mut v, self.filled as u64);
        let ghost a = v@;
        v.push(' ');
        v.push('o');
        v.push('f');
        v.push(' ');
        let ghost b = v@;
        push_decimal(&mut v, self.processed as u64);
        let ghost c = v@;
        v.push(' ');
        v.push('g');
        v.push('a');
        v.push('m');
        v.push('e');
        v.push('s');
        v.push(' ');
        v.push('u');
        v.push('p');
        v.push('d');
        v.push('a');
        v.push('t');
        v.push('e');
        v.push('d');
        proof {
            reveal_strlit(" of ");
            reveal_strlit(" games updated");
        }
        assert(v@ =~= decimal(self.filled as nat) + " of "@ + decimal(self.processed as nat)
            + " games updated"@);
        string_of(&v)
    }
}

/// The genre table's rows with a numeric id, as (id, name): rows whose id
/// does not parse as an `i64` are skipped.
pub open spec fn genre_entries_spec(rows: Seq<(Seq<char>, Seq<char>)>) -> Seq<(i64, Seq<char>)>
    decreases rows.len(),
{
    if rows.len() == 0 {
        Seq::empty()
    } else {
        let prev = genre_entries_spec(rows.drop_last());
        match parse_i64_spec(rows.last().0) {
            Some(id) => prev.push((id, rows.last().1)),
            None => prev,
        }
    }
}

/// The (id, name) entries a genre table warms the lookup cache with.
pub fn genre_entries(rows: &Vec<(String, String)>) -> (r: Vec<(i64, String)>)
    ensures
        r@.map_values(|p: (i64, String)| (p.0, p.1@)) == genre_entries_spec(synopsis_views(rows@)),
{
    let ghost rv = synopsis_views(rows@);
    let mut r: Vec<(i64, String)> = Vec::new();
    let mut i: usize = 0;
    while i < rows.len()
        invariant
            i <= rows.len(),
            rv == synopsis_views(rows@),
            r@.map_values(|p: (i64, String)| (p.0, p.1@)) == genre_entries_spec(rv.take(i as int)),
        decreases rows.len() - i,
    {
        assert(rv.take(i + 1).drop_last() =~= rv.take(i as int));
        assert(rv.take(i + 1).last() == rv[i as int]);
        let ghost before = r@.map_values(|p: (i64, String)| (p.0, p.1@));
        match parse_i64(rows[i].0.as_str()) {
            Some(id) => {
                r.push((id, rows[i].1.clone()));
                assert(r@.map_values(|p: (i64, String)| (p.0, p.1@)) =~= before.push(
                    (id, rows@[i as int].1@),
                ));
            },
            None => {},
        }
        i = i + 1;
    }
    assert(rv.take(rows.len() as int) =~= rv);
    r
}


/// Whether a stored record misses its studios (no developer and no
/// publisher) — the re-read then fills them from the SteamCMD entry.
pub fn needs_companies(meta: &ScraperMetadata) -> (r: bool)
    ensures
        r == (meta.developers@.len() == 0 && meta.publishers@.len() == 0),
{
    meta.developers.len() == 0 && meta.publishers.len() == 0
}

/// Merge a Steam re-read over a stored record, filling only holes: a
/// broken release date takes the chosen date (SteamCMD's, else the store
/// page's) when there is one, and the release timestamp then becomes
/// `picked_timestamp`, the timestamp of that chosen date (kept
/// otherwise); then the store page's extras fill a missing synopsis and
/// missing ratings. True when something was filled. (The studios are
/// filled separately, see `needs_companies`.)
pub fn steam_refetch_merge(
    meta: &mut ScraperMetadata,
    release_date_broken: bool,
    steamcmd_date: Option<&str>,
    extras: Option<&StoreExtras>,
    picked_timestamp: i64,
) -> (changed: bool)
    ensures
        ({
            let picked = pick_release_date_spec(
                match steamcmd_date {
                    Some(d) => Some(d@),
                    None => None,
                },
                match extras {
                    Some(x) => Some(x.release_date@),
                    None => None,
                },
            );
            let date_filled = release_date_broken && picked is Some;
            &&& final(meta).release_date@ == if date_filled {
                picked->0
            } else {
                old(meta).release_date@
            }
            &&& final(meta).release_timestamp == if date_filled {
                picked_timestamp
            } else {
                old(meta).release_timestamp
            }
            &&& match extras {
                Some(x) => {
                    &&& synopsis_views(final(meta).synopses@) == if old(meta).synopses@.len() == 0
                        && x.synopsis@.len() > 0 {
                        seq![("en"@, x.synopsis@)]
                    } else {
                        synopsis_views(old(meta).synopses@)
                    }
                    &&& classification_views(final(meta).classifications@) == if old(
                        meta,
                    ).classifications@.len() == 0 && x.ratings@.len() > 0 {
                        synopsis_views(x.ratings@)
                    } else {
                        classification_views(old(meta).classifications@)
                    }
                    &&& changed == (date_filled || (old(meta).synopses@.len() == 0
                        && x.synopsis@.len() > 0) || (old(meta).classifications@.len() == 0
                        && x.ratings@.len() > 0))
                },
                None => {
                    &&& final(meta).synopses@ == old(meta).synopses@
                    &&& final(meta).classifications@ == old(meta).classifications@
                    &&& changed == date_filled
                },
            }
            &&& final(meta).developers@ == old(meta).developers@
            &&& final(meta).publishers@ == old(meta).publishers@
            &&& final(meta).genres@ == old(meta).genres@
            &&& final(meta).families@ == old(meta).families@
            &&& final(meta).ss_id@ == old(meta).ss_id@
        }),
{
    let mut changed = false;
    if release_date_broken {
        let store_date = match extras {
            Some(x) => Some(x.release_date.as_str()),
            None => None,
        };
        match pick_release_date(steamcmd_date, store_date) {
            Some(date) => {
                meta.release_timestamp = picked_timestamp;
                meta.release_date = date;
                changed = true;
            },
            None => {},
        }
    }
    match extras {
        Some(x) => {
            let filled = merge_store_extras(meta, x);
            changed = changed || filled;
        },
        None => {},
    }
    changed
}


/// The ScreenScraper id a single-game "refetch missing" reads by: the id
/// staged in the settings draft when it is non-empty, else the stored
/// one.
pub open spec fn refetch_id_spec(staged: Option<Seq<char>>, stored: Seq<char>) -> Seq<char> {
    match staged {
        Some(id) if id.len() > 0 => id,
        _ => stored,
    }
}

/// Start a single-game "refetch missing": refused while another metadata
/// job runs, refused without a ScreenScraper id, else the id to read by.
pub fn start_refetch_missing(job_busy: bool, staged: Option<&str>, stored: &str) -> (r: Result<
    String,
    RefetchOutcome,
>)
    ensures
        ({
            let id = refetch_id_spec(
                match staged {
                    Some(s) => Some(s@),
                    None => None,
                },
                stored@,
            );
            match r {
                Ok(x) => !job_busy && id.len() > 0 && x@ == id,
                Err(RefetchOutcome::Failed(msg)) => if job_busy {
                    msg@ == "Another metadata job is running"@
                } else {
                    id.len() == 0 && msg@ == "no ScreenScraper id"@
                },
                Err(_) => false,
            }
        }),
{
    if job_busy {
        return Err(RefetchOutcome::Failed("Another metadata job is running".to_string()));
    }
    let id = match staged {
        Some(s) => {
            if s.is_empty() {
                stored
            } else {
                s
            }
        },
        None => stored,
    };
    if id.is_empty() {
        return Err(RefetchOutcome::Failed("no ScreenScraper id".to_string()));
    }
    Ok(id.to_string())
}

/// How a single-game refetch ended: the entry read and something filled,
/// read with nothing to fill, or the read's error.
pub fn refetch_missing_outcome(read: Result<bool, String>) -> (r: RefetchOutcome)
    ensures
        match read {
            Ok(true) => r == RefetchOutcome::Filled,
            Ok(false) => r == RefetchOutcome::Unchanged,
            Err(e) => r matches RefetchOutcome::Failed(m) && m@ == e@,
        },
{
    match read {
        Ok(filled) => {
            if filled {
                RefetchOutcome::Filled
            } else {
                RefetchOutcome::Unchanged
            }
        },
        Err(e) => RefetchOutcome::Failed(e),
    }
}

/// A forced Steam pass re-reads exactly the games it can read, and so
/// every game an unforced pass would.
pub proof fn law_forced_pass_reads_every_readable_game(c: RefetchCandidate)
    ensures
        steam_queued(c, true) == steam_readable(c),
        steam_queued(c, false) ==> steam_queued(c, true),
{
}

/// An unforced Steam pass queues exactly the readable games that have
/// something to gain: no stored record, or a stored record with a broken
/// release date, no studios (neither developer nor publisher), no
/// synopsis or no ratings. A record that could not be read keeps the
/// game out, and so does a game the pass cannot read.
pub proof fn law_unforced_pass_queues_every_gap(c: RefetchCandidate)
    ensures
        steam_queued(c, false) <==> {
            &&& (c.steam_link_id@.len() > 0 || (c.is_pc && parse_u32_spec(c.platform_id@) is Some))
            &&& match c.record {
                StoredRecord::Missing => true,
                StoredRecord::Stored { meta, release_date_broken } => {
                    ||| release_date_broken
                    ||| (meta.developers@.len() == 0 && meta.publishers@.len() == 0)
                    ||| meta.synopses@.len() == 0
                    ||| meta.classifications@.len() == 0
                },
                StoredRecord::Unreadable => false,
            }
        },
{
}

/// Some game of the list is queued and has this id.
pub open spec fn queues_id(games: Seq<RefetchCandidate>, force: bool, id: i64) -> bool {
    exists|i: int| 0 <= i < games.len() && #[trigger] queued_at(games, force, i) && games[i].db_id == id
}

/// The game at position `i` is queued.
pub open spec fn queued_at(games: Seq<RefetchCandidate>, force: bool, i: int) -> bool {
    steam_queued(games[i], force)
}

/// The Steam queue lists the ids of exactly the games the pass queues:
/// every queued game's id is in it, and every id in it is a queued
/// game's; no more entries than games.
pub proof fn law_queue_lists_the_queued_games(games: Seq<RefetchCandidate>, force: bool)
    ensures
        steam_queue_spec(games, force).len() <= games.len(),
        forall|i: int|
            0 <= i < games.len() && #[trigger] queued_at(games, force, i) ==> steam_queue_spec(
                games,
                force,
            ).contains(games[i].db_id),
        forall|k: int|
            0 <= k < steam_queue_spec(games, force).len() ==> queues_id(
                games,
                force,
                #[trigger] steam_queue_spec(games, force)[k],
            ),
    decreases games.len(),
{
    if games.len() > 0 {
        let rest = games.drop_last();
        law_queue_lists_the_queued_games(rest, force);
        let prev = steam_queue_spec(rest, force);
        let q = steam_queue_spec(games, force);
        assert forall|i: int|
            0 <= i < games.len() && #[trigger] queued_at(games, force, i) implies q.contains(
                games[i].db_id,
            ) by {
            if i < games.len() - 1 {
                assert(games[i] == rest[i]);
                assert(queued_at(rest, force, i));
                let k = choose|k: int| 0 <= k < prev.len() && prev[k] == rest[i].db_id;
                assert(q[k] == prev[k]);
            } else {
                assert(q[prev.len() as int] == games[i].db_id);
            }
        }
        assert forall|k: int| 0 <= k < q.len() implies queues_id(games, force, #[trigger] q[k]) by {
            if k < prev.len() {
                assert(q[k] == prev[k]);
                assert(queues_id(rest, force, prev[k]));
                let i = choose|i: int|
                    0 <= i < rest.len() && #[trigger] queued_at(rest, force, i) && rest[i].db_id == prev[k];
                assert(games[i] == rest[i]);
                assert(queued_at(games, force, i));
            } else {
                let i = games.len() - 1;
                assert(games[i] == games.last());
                assert(queued_at(games, force, i));
            }
        }
    }
}

/// The combined refetch runs every Steam game first, in queue order, then
/// every ScreenScraper game, in queue order, then the genre table (id 0)
/// when wanted, and nothing else.
pub proof fn law_full_refetch_runs_steam_then_screenscraper(
    steam: Seq<i64>,
    ss: Seq<i64>,
    genres_wanted: bool,
)
    ensures
        ({
            let jobs = full_jobs_spec(steam, ss, genres_wanted);
            &&& jobs.len() == steam.len() + ss.len() + if genres_wanted {
                1int
            } else {
                0int
            }
            &&& forall|i: int| 0 <= i < steam.len() ==> #[trigger] jobs[i] == (RefetchSource::Steam, steam[i])
            &&& forall|k: int|
                0 <= k < ss.len() ==> #[trigger] jobs[steam.len() + k] == (RefetchSource::Ss, ss[k])
            &&& genres_wanted ==> jobs.last() == (RefetchSource::GenresTable, 0i64)
        }),
{
    let jobs = full_jobs_spec(steam, ss, genres_wanted);
    let a = steam.map_values(|id: i64| (RefetchSource::Steam, id));
    let b = ss.map_values(|id: i64| (RefetchSource::Ss, id));
    assert forall|i: int| 0 <= i < steam.len() implies #[trigger] jobs[i] == (RefetchSource::Steam, steam[i]) by {
        assert(jobs[i] == (a + b)[i]);
        assert(a[i] == (RefetchSource::Steam, steam[i]));
    }
    assert forall|k: int| 0 <= k < ss.len() implies #[trigger] jobs[steam.len() + k] == (RefetchSource::Ss, ss[k]) by {
        assert(jobs[steam.len() + k] == (a + b)[steam.len() + k]);
        assert(b[k] == (RefetchSource::Ss, ss[k]));
    }
}

/// SteamCMD's date wins whenever it is non-empty; otherwise the store
/// page's non-empty date; otherwise no date.
pub proof fn law_steamcmd_date_wins(steamcmd_date: Option<Seq<char>>, store_date: Option<Seq<char>>)
    ensures
        steamcmd_date matches Some(d) && d.len() > 0 ==> pick_release_date_spec(steamcmd_date, store_date)
            == steamcmd_date,
        !(steamcmd_date matches Some(d) && d.len() > 0) ==> pick_release_date_spec(
            steamcmd_date,
            store_date,
        ) == (if store_date matches Some(d) && d.len() > 0 {
            store_date
        } else {
            None
        }),
{
}

} // verus!
