//! The missing-images pass and the sidebar strip it reports on: which
//! games the pass visits and how, and when a job may claim the strip.

use vstd::prelude::*;
use crate::text::{chars_of, string_of, lowercase_of, to_lowercase, same_text, push_decimal, decimal};

verus! {

broadcast use vstd::string::group_string_axioms;

/// A library game as the missing-images pass sees it.
pub struct ImageFetchCandidate {
    /// The SteamGridDB id, empty when unmatched.
    pub sgdb_id: String,
    /// A PS4 or Switch game (its ROM carries a native icon).
    pub native_square: bool,
    /// A Steam-enriched game with a store id.
    pub steam_enriched: bool,
    /// The ScreenScraper id, empty when unmatched.
    pub screenscraper_id: String,
}

/// What the pass does with one game.
#[derive(Clone, Copy, PartialEq, Eq, Debug, Structural)]
pub enum ImageFetchPlan {
    /// The full asset ensure: SGDB, Steam and ScreenScraper sources.
    Ensure,
    /// Import the ROM's native icon into the square slot.
    ImportNative,
    /// Nothing to fetch.
    Skip,
}

/// A matched (SGDB or ScreenScraper) or Steam-enriched game gets the full
/// ensure; an unmatched PS4 or Switch game gets its native icon; anything
/// else is skipped.
pub open spec fn image_fetch_plan_spec(c: ImageFetchCandidate) -> ImageFetchPlan {
    if c.sgdb_id@.len() > 0 || c.steam_enriched || c.screenscraper_id@.len() > 0 {
        ImageFetchPlan::Ensure
    } else if c.native_square {
        ImageFetchPlan::ImportNative
    } else {
        ImageFetchPlan::Skip
    }
}

/// What the pass does with one game.
pub fn image_fetch_plan(c: &ImageFetchCandidate) -> (r: ImageFetchPlan)
    ensures
        r == image_fetch_plan_spec(*c),
{
    if !c.sgdb_id.as_str().is_empty() || c.steam_enriched || !c.screenscraper_id.as_str().is_empty() {
        ImageFetchPlan::Ensure
    } else if c.native_square {
        ImageFetchPlan::ImportNative
    } else {
        ImageFetchPlan::Skip
    }
}

/// After the full ensure, a game still without a square gets the
/// ScreenScraper box — except PS4 and Switch games, whose squares the
/// ensure already covers (native, then SGDB).
pub fn needs_screenscraper_square(square_found: bool, native_square: bool) -> (r: bool)
    ensures
        r == (!square_found && !native_square),
{
    !square_found && !native_square
}

/// The positions of the games the pass visits, in library order.
pub open spec fn visited_spec(games: Seq<ImageFetchCandidate>) -> Seq<usize>
    decreases games.len(),
{
    if games.len() == 0 {
        Seq::empty()
    } else {
        let prev = visited_spec(games.drop_last());
        if image_fetch_plan_spec(games.last()) != ImageFetchPlan::Skip {
            prev.push((games.len() - 1) as usize)
        } else {
            prev
        }
    }
}

/// Why the missing-images pass did not start.
#[derive(Clone, Copy, PartialEq, Eq, Debug, Structural)]
pub enum ImageFetchRefusal {
    /// No strip to report on.
    NoStrip,
    /// Another job holds the strip.
    Busy,
    /// No game has anything to fetch.
    NothingToFetch,
}

impl ImageFetchRefusal {
    /// The message shown for the refusal.
    pub fn message(self) -> (r: &'static str)
        ensures
            r@ == match self {
                ImageFetchRefusal::NoStrip => "Nothing to fetch right now"@,
                ImageFetchRefusal::Busy => "A job is already running"@,
                ImageFetchRefusal::NothingToFetch => "No games to fetch images for"@,
            },
    {
        match self {
            ImageFetchRefusal::NoStrip => "Nothing to fetch right now",
            ImageFetchRefusal::Busy => "A job is already running",
            ImageFetchRefusal::NothingToFetch => "No games to fetch images for",
        }
    }
}

/// Start the missing-images pass: the positions of the games to visit,
/// or why the pass cannot start — no strip, a running job, or no game
/// with anything to fetch, checked in that order.
pub fn start_missing_images_fetch(
    strip_present: bool,
    strip_running: bool,
    games: &Vec<ImageFetchCandidate>,
) -> (r: Result<Vec<usize>, ImageFetchRefusal>)
    ensures
        match r {
            Ok(v) => strip_present && !strip_running && v@ == visited_spec(games@) && v@.len() > 0,
            Err(ImageFetchRefusal::NoStrip) => !strip_present,
            Err(ImageFetchRefusal::Busy) => strip_present && strip_running,
            Err(ImageFetchRefusal::NothingToFetch) => strip_present && !strip_running
                && visited_spec(games@).len() == 0,
        },
{
    if !strip_present {
        return Err(ImageFetchRefusal::NoStrip);
    }
    if strip_running {
        return Err(ImageFetchRefusal::Busy);
    }
    let mut v: Vec<usize> = Vec::new();
    let mut i: usize = 0;
    while i < games.len()
        invariant
            i <= games.len(),
            v@ == visited_spec(games@.take(i as int)),
        decreases games.len() - i,
    {
        assert(games@.take(i + 1).drop_last() =~= games@.take(i as int));
        assert(games@.take(i + 1).last() == games@[i as int]);
        if image_fetch_plan(&games[i]) != ImageFetchPlan::Skip {
            v.push(i);
        }
        i = i + 1;
    }
    assert(games@.take(games.len() as int) =~= games@);
    if v.len() == 0 {
        return Err(ImageFetchRefusal::NothingToFetch);
    }
    Ok(v)
}

/// Whether a job may claim the sidebar strip: the strip exists, is not
/// showing a job, and no strip job is registered as busy.
pub fn may_claim_strip(strip_present: bool, strip_running: bool, strip_job_busy: bool) -> (r:
    bool)
    ensures
        r == (strip_present && !strip_running && !strip_job_busy),
{
    strip_present && !strip_running && !strip_job_busy
}

/// The sidebar strip as jobs see it.
#[derive(Clone, Copy, PartialEq, Eq, Debug, Structural)]
pub struct StripState {
    /// The window has a strip.
    pub present: bool,
    /// The strip is showing a job.
    pub running: bool,
    /// A strip job is registered as busy.
    pub busy: bool,
    /// The showing job's stop button was clicked.
    pub cancelled: bool,
}

/// What claiming the strip does: when `may_claim_strip` allows it, the
/// strip runs a fresh, uncancelled job and is marked busy; otherwise
/// nothing changes. The flag says whether the job got the strip.
pub open spec fn begin_strip_spec(s: StripState) -> (StripState, bool) {
    if s.present && !s.running && !s.busy {
        (StripState { present: true, running: true, busy: true, cancelled: false }, true)
    } else {
        (s, false)
    }
}

/// What a job's end does: the busy mark is cleared, and a present strip
/// stops running. The flag says whether the end shows its summary (a
/// cancelled job keeps the labels the click froze).
pub open spec fn finish_strip_spec(s: StripState) -> (StripState, bool) {
    (
        StripState { busy: false, running: if s.present { false } else { s.running }, ..s },
        s.present && !s.cancelled,
    )
}

/// What an edit-save conversion's start does to the strip: a present
/// strip showing no job starts showing it (the busy mark is left as it
/// is, the conversion cannot be cancelled); otherwise nothing changes.
pub open spec fn begin_image_save_spec(s: StripState) -> (StripState, bool) {
    if s.present && !s.running {
        (StripState { running: true, ..s }, true)
    } else {
        (s, false)
    }
}

/// What a reporting conversion's end does: the strip shows no job.
pub open spec fn finish_image_save_spec(s: StripState) -> StripState {
    StripState { running: false, ..s }
}

impl StripState {
    /// Claim the strip for a job; true when it was claimed.
    pub fn begin(&mut self) -> (claimed: bool)
        ensures
            (*final(self), claimed) == begin_strip_spec(*old(self)),
    {
        if may_claim_strip(self.present, self.running, self.busy) {
            self.running = true;
            self.busy = true;
            self.cancelled = false;
            true
        } else {
            false
        }
    }

    /// The stop button was clicked: the job is cancelled.
    pub fn cancel(&mut self)
        ensures
            *final(self) == (StripState { cancelled: true, ..*old(self) }),
    {
        self.cancelled = true;
    }

    /// Whether a progress report still updates the labels: a cancelled
    /// job's labels stay frozen, and without a strip there is nothing to
    /// update.
    pub fn shows_progress(&self) -> (r: bool)
        ensures
            r == (self.present && !self.cancelled),
    {
        self.present && !self.cancelled
    }

    /// Reveal the strip for an edit-save image conversion: it takes the
    /// strip when a strip is present and no job is showing; the
    /// conversion runs either way. True when it reports on the strip.
    pub fn begin_image_save(&mut self) -> (reporting: bool)
        ensures
            (*final(self), reporting) == begin_image_save_spec(*old(self)),
    {
        if may_report_image_save(self.present, self.running) {
            self.running = true;
            true
        } else {
            false
        }
    }

    /// The conversion reporting on the strip finished and the strip slid
    /// away: no job is showing any more.
    pub fn finish_image_save(&mut self)
        ensures
            *final(self) == finish_image_save_spec(*old(self)),
    {
        self.running = false;
    }

    /// The job ended; true when the end shows its summary.
    pub fn finish(&mut self) -> (summary: bool)
        ensures
            (*final(self), summary) == finish_strip_spec(*old(self)),
    {
        self.busy = false;
        if self.present {
            self.running = false;
        }
        self.present && !self.cancelled
    }
}

/// One strip job at a time: once a job has claimed the strip, no other
/// job can claim it, and the strip stays as it is, until the job ends;
/// after the end a job can claim it again.
pub proof fn law_one_strip_job_at_a_time(s: StripState)
    ensures
        begin_strip_spec(s).1 ==> {
            let held = begin_strip_spec(s).0;
            &&& !begin_strip_spec(held).1
            &&& begin_strip_spec(held).0 == held
            &&& !begin_strip_spec(StripState { cancelled: true, ..held }).1
            &&& !begin_image_save_spec(held).1
            &&& begin_strip_spec(finish_strip_spec(held).0).1
        },
{
}

/// An edit-save conversion holds the strip only while it runs: while it
/// reports, no strip job can claim the strip; once it has finished and
/// the strip slid away, a strip job can claim it again (when no other
/// job is registered busy).
pub proof fn law_image_save_releases_the_strip(s: StripState)
    ensures
        begin_image_save_spec(s).1 ==> {
            let saving = begin_image_save_spec(s).0;
            &&& !begin_strip_spec(saving).1
            &&& !s.busy ==> begin_strip_spec(finish_image_save_spec(saving)).1
        },
{
}

/// The buttons an image section of the settings dialog offers besides
/// Browse.
#[derive(Clone, Debug)]
pub struct ImageButtons {
    /// Re-download the art from Steam.
    pub steam_art: bool,
    /// Fetch the Steam client icon.
    pub steam_icon: bool,
    /// The SteamGridDB picker: the id it searches by, and whether that id
    /// is a Steam app id.
    pub sgdb_picker: Option<(String, bool)>,
    /// Reset the PS4 icon.
    pub ps4_icon_reset: bool,
}

/// The buttons an image section offers: Steam art for a Steam-enriched
/// game's non-icon assets; the Steam client icon for a native Steam
/// game's icon; the SteamGridDB picker by the game's SGDB match, else by
/// its app id (then a Steam app id when the game is Steam-enriched),
/// none when both are empty; the icon reset for a PS4 game.
pub open spec fn image_section_buttons_spec(
    asset_type: Seq<char>,
    steam_enriched: bool,
    steam_native: bool,
    is_ps4: bool,
    sgdb_id: Seq<char>,
    app_id: Seq<char>,
) -> (bool, bool, Option<(Seq<char>, bool)>, bool) {
    let is_icon = asset_type == "icon"@;
    let picker_id = if sgdb_id.len() > 0 {
        sgdb_id
    } else {
        app_id
    };
    (
        steam_enriched && !is_icon,
        steam_enriched && is_icon && steam_native,
        if picker_id.len() > 0 {
            Some((picker_id, steam_enriched && sgdb_id.len() == 0))
        } else {
            None
        },
        is_icon && is_ps4,
    )
}

/// The view of the buttons.
pub open spec fn image_buttons_view(b: ImageButtons) -> (bool, bool, Option<(Seq<char>, bool)>, bool) {
    (
        b.steam_art,
        b.steam_icon,
        match b.sgdb_picker {
            Some((id, steam)) => Some((id@, steam)),
            None => None,
        },
        b.ps4_icon_reset,
    )
}

/// The extra buttons of one image section.
pub fn image_section_buttons(
    asset_type: &str,
    steam_enriched: bool,
    steam_native: bool,
    is_ps4: bool,
    sgdb_id: &str,
    app_id: &str,
) -> (b: ImageButtons)
    ensures
        image_buttons_view(b) == image_section_buttons_spec(
            asset_type@,
            steam_enriched,
            steam_native,
            is_ps4,
            sgdb_id@,
            app_id@,
        ),
{
    proof {
        reveal_strlit("icon");
    }
    let is_icon = same_text(asset_type, "icon");
    let picker_id = if !sgdb_id.is_empty() {
        sgdb_id
    } else {
        app_id
    };
    let sgdb_picker = if !picker_id.is_empty() {
        Some((picker_id.to_string(), steam_enriched && sgdb_id.is_empty()))
    } else {
        None
    };
    ImageButtons {
        steam_art: steam_enriched && !is_icon,
        steam_icon: steam_enriched && is_icon && steam_native,
        sgdb_picker,
        ps4_icon_reset: is_icon && is_ps4,
    }
}

/// Whether an edit-save image conversion may report on the strip: the
/// strip exists and is not showing a job (the conversion runs either
/// way).
pub fn may_report_image_save(strip_present: bool, strip_running: bool) -> (r: bool)
    ensures
        r == (strip_present && !strip_running),
{
    strip_present && !strip_running
}

/// What SteamGridDB serves a game's art by: its SGDB match, else (for a
/// Steam-enriched game without one) its store app id through the Steam
/// endpoints.
#[derive(PartialEq, Eq, Debug)]
pub enum SgdbIdentity {
    Game(String),
    Steam(String),
}

/// The SGDB identity of a game: the match id when it has one, else the
/// store id of a Steam-enriched game with a store id, else none (only the
/// ScreenScraper fallbacks then have anything to do).
pub fn sgdb_identity(sgdb_id: &str, steam_enriched: bool, store_id: &str) -> (r: Option<
    SgdbIdentity,
>)
    ensures
        match r {
            Some(SgdbIdentity::Game(id)) => sgdb_id@.len() > 0 && id@ == sgdb_id@,
            Some(SgdbIdentity::Steam(id)) => sgdb_id@.len() == 0 && steam_enriched && store_id@.len()
                > 0 && id@ == store_id@,
            None => sgdb_id@.len() == 0 && !(steam_enriched && store_id@.len() > 0),
        },
{
    if !sgdb_id.is_empty() {
        Some(SgdbIdentity::Game(sgdb_id.to_string()))
    } else if steam_enriched && !store_id.is_empty() {
        Some(SgdbIdentity::Steam(store_id.to_string()))
    } else {
        None
    }
}

/// A source the square slot is filled from.
#[derive(Clone, Copy, PartialEq, Eq, Debug, Structural)]
pub enum SquareSource {
    /// The ROM's native icon.
    NativeIcon,
    /// The SteamGridDB square of the match.
    SgdbSquare,
    /// The ScreenScraper 2D box (PS1 games with a ScreenScraper match,
    /// into an empty slot).
    ScreenScraperBox,
}

/// The order the square slot tries its sources in, the first that lands
/// a file winning: PS4 and Switch games take their ROM icon, then (when
/// matched) the SGDB square, never ScreenScraper; other matched games
/// the SGDB square, then the ScreenScraper box; unmatched games only the
/// box.
pub open spec fn square_sources_spec(native_square: bool, sgdb_matched: bool) -> Seq<SquareSource> {
    if native_square {
        if sgdb_matched {
            seq![SquareSource::NativeIcon, SquareSource::SgdbSquare]
        } else {
            seq![SquareSource::NativeIcon]
        }
    } else if sgdb_matched {
        seq![SquareSource::SgdbSquare, SquareSource::ScreenScraperBox]
    } else {
        seq![SquareSource::ScreenScraperBox]
    }
}

/// The square slot's sources, in the order they are tried.
pub fn square_sources(native_square: bool, sgdb_matched: bool) -> (r: Vec<SquareSource>)
    ensures
        r@ == square_sources_spec(native_square, sgdb_matched),
{
    let mut r: Vec<SquareSource> = Vec::new();
    if native_square {
        r.push(SquareSource::NativeIcon);
        if sgdb_matched {
            r.push(SquareSource::SgdbSquare);
        }
    } else {
        if sgdb_matched {
            r.push(SquareSource::SgdbSquare);
        }
        r.push(SquareSource::ScreenScraperBox);
    }
    proof {
        assert(r@ =~= square_sources_spec(native_square, sgdb_matched));
    }
    r
}

/// The path a chain of sources fills a slot with: the first non-empty
/// result, or empty when every source missed.
pub open spec fn first_landed(results: Seq<Seq<char>>) -> Seq<char>
    decreases results.len(),
{
    if results.len() == 0 {
        Seq::empty()
    } else if results[0].len() > 0 {
        results[0]
    } else {
        first_landed(results.drop_first())
    }
}

/// The first path that landed among the results tried so far.
pub fn first_landed_path(results: &Vec<String>) -> (r: String)
    ensures
        r@ == first_landed(results@.map_values(|s: String| s@)),
{
    let ghost rv = results@.map_values(|s: String| s@);
    assert(rv.skip(0) =~= rv);
    let mut i: usize = 0;
    while i < results.len()
        invariant
            i <= results.len(),
            rv == results@.map_values(|s: String| s@),
            first_landed(rv) == first_landed(rv.skip(i as int)),
            forall|k: int| 0 <= k < i ==> (#[trigger] rv[k]).len() == 0,
        decreases results.len() - i,
    {
        assert(rv.skip(i as int).drop_first() =~= rv.skip(i + 1));
        assert(rv.skip(i as int)[0] == rv[i as int]);
        if !results[i].as_str().is_empty() {
            assert(rv.skip(i as int)[0] == rv[i as int]);
            return results[i].clone();
        }
        i = i + 1;
    }
    assert(rv.skip(i as int).len() == 0);
    String::new()
}

/// PS4 and Switch squares never come from ScreenScraper, and their ROM
/// icon is always tried first.
pub proof fn law_native_square_first(sgdb_matched: bool)
    ensures
        square_sources_spec(true, sgdb_matched)[0] == SquareSource::NativeIcon,
        !square_sources_spec(true, sgdb_matched).contains(SquareSource::ScreenScraperBox),
{
    let s = square_sources_spec(true, sgdb_matched);
    assert(forall|k: int| 0 <= k < s.len() ==> s[k] != SquareSource::ScreenScraperBox);
}

/// The bytes start with the given prefix.
pub open spec fn starts_with_bytes(data: Seq<u8>, prefix: Seq<u8>) -> bool {
    prefix.len() <= data.len() && data.take(prefix.len() as int) == prefix
}

/// The file extension staged image bytes are written under: `ico` for
/// icon data, then by signature `png`, `jpg`, or `webp` (a RIFF file whose
/// bytes 8 to 11 read `WEBP`, more than 11 bytes long), and `png` for
/// anything else.
pub open spec fn sniffed_extension_spec(is_ico: bool, data: Seq<u8>) -> Seq<char> {
    if is_ico {
        "ico"@
    } else if starts_with_bytes(data, seq![0x89u8, 0x50u8, 0x4Eu8, 0x47u8]) {
        "png"@
    } else if starts_with_bytes(data, seq![0xFFu8, 0xD8u8, 0xFFu8]) {
        "jpg"@
    } else if starts_with_bytes(data, seq![0x52u8, 0x49u8, 0x46u8, 0x46u8]) && data.len() > 11
        && data.subrange(8, 12) == seq![0x57u8, 0x45u8, 0x42u8, 0x50u8] {
        "webp"@
    } else {
        "png"@
    }
}

fn bytes_at(data: &Vec<u8>, start: usize, expected: &[u8]) -> (r: bool)
    requires
        start + expected@.len() <= data.len(),
    ensures
        r == (data@.subrange(start as int, start + expected@.len()) == expected@),
{
    let mut i: usize = 0;
    while i < expected.len()
        invariant
            i <= expected@.len(),
            start + expected@.len() <= data.len(),
            forall|k: int| 0 <= k < i ==> data@[start + k] == expected@[k],
        decreases expected@.len() - i,
    {
        if data[start + i] != expected[i] {
            assert(data@.subrange(start as int, start + expected@.len())[i as int] != expected@[i as int]);
            return false;
        }
        i = i + 1;
    }
    assert(data@.subrange(start as int, start + expected@.len()) =~= expected@);
    true
}

/// The extension staged image bytes are written under; `is_ico` tells
/// whether the bytes are icon data.
pub fn sniffed_extension(is_ico: bool, data: &Vec<u8>) -> (r: &'static str)
    ensures
        r@ == sniffed_extension_spec(is_ico, data@),
{
    let png: [u8; 4] = [0x89, 0x50, 0x4E, 0x47];
    let jpg: [u8; 3] = [0xFF, 0xD8, 0xFF];
    let riff: [u8; 4] = [0x52, 0x49, 0x46, 0x46];
    let webp: [u8; 4] = [0x57, 0x45, 0x42, 0x50];
    assert(png@ =~= seq![0x89u8, 0x50u8, 0x4Eu8, 0x47u8]);
    assert(jpg@ =~= seq![0xFFu8, 0xD8u8, 0xFFu8]);
    assert(riff@ =~= seq![0x52u8, 0x49u8, 0x46u8, 0x46u8]);
    assert(webp@ =~= seq![0x57u8, 0x45u8, 0x42u8, 0x50u8]);
    if is_ico {
        return "ico";
    }
    if data.len() >= 4 && bytes_at(data, 0, &png) {
        assert(data@.subrange(0, 4) =~= data@.take(4));
        return "png";
    }
    assert(data.len() >= 4 ==> data@.subrange(0, 4) =~= data@.take(4));
    if data.len() >= 3 && bytes_at(data, 0, &jpg) {
        assert(data@.subrange(0, 3) =~= data@.take(3));
        return "jpg";
    }
    assert(data.len() >= 3 ==> data@.subrange(0, 3) =~= data@.take(3));
    if data.len() > 11 && bytes_at(data, 0, &riff) && bytes_at(data, 8, &webp) {
        return "webp";
    }
    "png"
}

/// A stored copy is converted to lossless WebP unless its extension
/// (compared lower-cased) is already `webp` or `jpg`.
pub fn converts_to_webp(extension: &str) -> (r: bool)
    ensures
        r == (lowercase_of(extension@) != "webp"@ && lowercase_of(extension@) != "jpg"@),
{
    let lower = to_lowercase(extension);
    !same_text(lower.as_str(), "webp") && !same_text(lower.as_str(), "jpg")
}

/// A staged draft is an image unless its key starts with `__` (the
/// unmatch requests ride the same drafts).
pub fn is_image_draft(key: &str) -> (r: bool)
    ensures
        r == !(key@.len() >= 2 && key@[0] == '_' && key@[1] == '_'),
{
    let v = chars_of(key);
    !(v.len() >= 2 && v[0] == '_' && v[1] == '_')
}

/// The files a converted image may have landed as, whose cached
/// textures are dropped: the art and its small copy, as WebP and as
/// JPEG.
pub fn landed_files(base: &str) -> (r: Vec<String>)
    ensures
        r@.map_values(|s: String| s@) == seq![
            base@ + ".webp"@,
            base@ + ".jpg"@,
            base@ + "_small.webp"@,
            base@ + "_small.jpg"@,
        ],
{
    let mut r: Vec<String> = Vec::new();
    r.push(join(base, ".webp"));
    r.push(join(base, ".jpg"));
    r.push(join(base, "_small.webp"));
    r.push(join(base, "_small.jpg"));
    assert(r@.map_values(|s: String| s@) =~= seq![
        base@ + ".webp"@,
        base@ + ".jpg"@,
        base@ + "_small.webp"@,
        base@ + "_small.jpg"@,
    ]);
    r
}

fn join(a: &str, b: &str) -> (r: String)
    ensures
        r@ == a@ + b@,
{
    let mut v = chars_of(a);
    let w = chars_of(b);
    let ghost start = v@;
    let mut k: usize = 0;
    while k < w.len()
        invariant
            k <= w.len(),
            v@ == start + w@.take(k as int),
        decreases w.len() - k,
    {
        v.push(w[k]);
        k = k + 1;
        assert(v@ =~= start + w@.take(k as int));
    }
    assert(w@.take(w.len() as int) =~= w@);
    string_of(&v)
}

/// The strip's details line: `<done> / <total>`, then ` · ` and the
/// current game (already escaped for markup) when there is one.
pub open spec fn details_line_spec(done: nat, total: nat, current: Seq<char>) -> Seq<char> {
    let counts = decimal(done) + " / "@ + decimal(total);
    if current.len() == 0 {
        counts
    } else {
        counts + " · "@ + current
    }
}

/// The strip's details line.
pub fn details_line(done: u64, total: u64, current: &str) -> (r: String)
    ensures
        r@ == details_line_spec(done as nat, total as nat, current@),
{
    let mut v: Vec<char> = Vec::new();
    push_decimal(&mut v, done);
    let sep = chars_of(" / ");
    let ghost a = v@;
    let mut k: usize = 0;
    while k < sep.len()
        invariant
            k <= sep.len(),
            v@ == a + sep@.take(k as int),
        decreases sep.len() - k,
    {
        v.push(sep[k]);
        k = k + 1;
        assert(v@ =~= a + sep@.take(k as int));
    }
    assert(sep@.take(sep.len() as int) =~= sep@);
    push_decimal(&mut v, total);
    let counts = string_of(&v);
    if current.is_empty() {
        counts
    } else {
        let tail = join(" · ", current);
        join(counts.as_str(), tail.as_str())
    }
}

/// The strip's summary after a missing-images pass:
/// `<fetched> games needed new art`.
pub fn fetched_summary(fetched: u64) -> (r: String)
    ensures
        r@ == decimal(fetched as nat) + " games needed new art"@,
{
    let mut v: Vec<char> = Vec::new();
    push_decimal(&mut v, fetched);
    let n = string_of(&v);
    join(n.as_str(), " games needed new art")
}

/// The missing-images pass gives every matched game the full asset
/// ensure (an SGDB match, a Steam enrichment or a ScreenScraper match),
/// whether or not its square comes from its ROM; only an unmatched game
/// with a native square gets the ROM icon import, and any other
/// unmatched game is skipped.
pub proof fn law_matched_games_get_the_full_ensure(c: ImageFetchCandidate)
    ensures
        (c.sgdb_id@.len() > 0 || c.steam_enriched || c.screenscraper_id@.len() > 0)
            ==> image_fetch_plan_spec(c) == ImageFetchPlan::Ensure,
        image_fetch_plan_spec(c) == ImageFetchPlan::ImportNative <==> (c.native_square
            && c.sgdb_id@.len() == 0 && !c.steam_enriched && c.screenscraper_id@.len() == 0),
        image_fetch_plan_spec(c) == ImageFetchPlan::Skip <==> (!c.native_square
            && c.sgdb_id@.len() == 0 && !c.steam_enriched && c.screenscraper_id@.len() == 0),
{
}

/// The pass visits exactly the games it has something to do for (every
/// game whose plan is not a skip), each once, in library order.
pub proof fn law_pass_visits_every_game_with_work(games: Seq<ImageFetchCandidate>)
    requires
        games.len() <= usize::MAX,
    ensures
        forall|i: int|
            0 <= i < games.len() ==> (visited_spec(games).contains(i as usize) <==> image_fetch_plan_spec(
                #[trigger] games[i],
            ) != ImageFetchPlan::Skip),
        forall|k: int| 0 <= k < visited_spec(games).len() ==> #[trigger] visited_spec(games)[k] < games.len(),
        forall|a: int, b: int|
            0 <= a < b < visited_spec(games).len() ==> #[trigger] visited_spec(games)[a] < #[trigger] visited_spec(games)[b],
    decreases games.len(),
{
    if games.len() > 0 {
        let rest = games.drop_last();
        law_pass_visits_every_game_with_work(rest);
        let prev = visited_spec(rest);
        let n = (games.len() - 1) as usize;
        assert forall|i: int|
            0 <= i < games.len() implies (visited_spec(games).contains(i as usize) <==> image_fetch_plan_spec(
                #[trigger] games[i],
            ) != ImageFetchPlan::Skip) by {
            let v = visited_spec(games);
            if i < games.len() - 1 {
                assert(games[i] == rest[i]);
                if prev.contains(i as usize) {
                    let k = choose|k: int| 0 <= k < prev.len() && prev[k] == i as usize;
                    assert(v[k] == i as usize);
                }
                if v.contains(i as usize) {
                    let k = choose|k: int| 0 <= k < v.len() && v[k] == i as usize;
                    if k < prev.len() {
                        assert(prev[k] == i as usize);
                    } else {
                        assert(v[k] == n);
                    }
                }
            } else {
                if image_fetch_plan_spec(games[i]) != ImageFetchPlan::Skip {
                    assert(v[prev.len() as int] == n);
                } else {
                    if v.contains(i as usize) {
                        let k = choose|k: int| 0 <= k < v.len() && v[k] == i as usize;
                        assert(prev[k] < rest.len());
                    }
                }
            }
        }
        let v = visited_spec(games);
        assert forall|a: int, b: int| 0 <= a < b < v.len() implies #[trigger] v[a] < #[trigger] v[b] by {
            if b == prev.len() {
                assert(prev[a] < rest.len());
            } else {
                assert(v[a] == prev[a] && v[b] == prev[b]);
            }
        }
        assert forall|k: int| 0 <= k < v.len() implies #[trigger] v[k] < games.len() by {
            if k < prev.len() {
                assert(v[k] == prev[k]);
            }
        }
    }
}

/// Where the square slot looks: a PS4 or Switch game tries its ROM icon
/// first and never ScreenScraper; any other game never the ROM icon and
/// always the ScreenScraper box, last; the SGDB square is tried exactly
/// when the game has an SGDB match; each source at most once.
pub proof fn law_square_sources_by_game(native_square: bool, sgdb_matched: bool)
    ensures
        ({
            let s = square_sources_spec(native_square, sgdb_matched);
            &&& native_square ==> s[0] == SquareSource::NativeIcon && !s.contains(
                SquareSource::ScreenScraperBox,
            )
            &&& !native_square ==> !s.contains(SquareSource::NativeIcon) && s.last()
                == SquareSource::ScreenScraperBox
            &&& s.contains(SquareSource::SgdbSquare) <==> sgdb_matched
            &&& s.no_duplicates()
        }),
{
    let s = square_sources_spec(native_square, sgdb_matched);
    assert(s.len() >= 1);
    if s.contains(SquareSource::SgdbSquare) {
        let k = choose|k: int| 0 <= k < s.len() && s[k] == SquareSource::SgdbSquare;
    }
    if !native_square {
        assert(forall|k: int| 0 <= k < s.len() ==> s[k] != SquareSource::NativeIcon);
    } else {
        assert(forall|k: int| 0 <= k < s.len() ==> s[k] != SquareSource::ScreenScraperBox);
    }
    if sgdb_matched {
        if native_square {
            assert(s[1] == SquareSource::SgdbSquare);
        } else {
            assert(s[0] == SquareSource::SgdbSquare);
        }
    }
}

} // verus!
