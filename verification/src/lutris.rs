//! Converting a Lutris-run game into an Ira-managed Wine game: the Wine
//! settings' defaults for what Lutris leaves blank, and the Wine profile
//! the game joins.

use vstd::prelude::*;
use crate::text::{chars_of, string_of, same_text};

verus! {

broadcast use vstd::string::group_string_axioms;

/// A Lutris setting, or its stand-in when Lutris leaves it blank.
pub open spec fn or_default(value: Seq<char>, fallback: Seq<char>) -> Seq<char> {
    if value.len() == 0 {
        fallback
    } else {
        value
    }
}

/// The Wine version, architecture and debug channels a converted game
/// keeps: Lutris's own, else `system`, `auto` and `-all`.
pub fn lutris_wine_settings(version: &str, arch: &str, show_debug: &str) -> (r: (String, String, String))
    ensures
        r.0@ == or_default(version@, "system"@),
        r.1@ == or_default(arch@, "auto"@),
        r.2@ == or_default(show_debug@, "-all"@),
{
    let v = if version.is_empty() {
        "system".to_string()
    } else {
        version.to_string()
    };
    let a = if arch.is_empty() {
        "auto".to_string()
    } else {
        arch.to_string()
    };
    let d = if show_debug.is_empty() {
        "-all".to_string()
    } else {
        show_debug.to_string()
    };
    (v, a, d)
}

/// The stored profile a converted game joins: the first whose prefix is
/// the game's (`profiles` holds id and prefix), else none (a new profile
/// is made).
pub fn matching_profile(profiles: &Vec<(i64, String)>, prefix: &str) -> (r: Option<i64>)
    ensures
        match r {
            Some(id) => exists|i: int|
                0 <= i < profiles.len() && #[trigger] profiles@[i].1@ == prefix@ && profiles@[i].0
                    == id && forall|j: int| 0 <= j < i ==> profiles@[j].1@ != prefix@,
            None => forall|i: int| 0 <= i < profiles.len() ==> #[trigger] profiles@[i].1@ != prefix@,
        },
{
    let mut i: usize = 0;
    while i < profiles.len()
        invariant
            i <= profiles.len(),
            forall|j: int| 0 <= j < i ==> #[trigger] profiles@[j].1@ != prefix@,
        decreases profiles.len() - i,
    {
        if same_text(profiles[i].1.as_str(), prefix) {
            return Some(profiles[i].0);
        }
        i = i + 1;
    }
    None
}

/// The name of the profile made for a converted game: `<game> (<Wine
/// version>)`.
pub fn new_profile_name(game_name: &str, version: &str) -> (r: String)
    ensures
        r@ == game_name@ + " ("@ + version@ + ")"@,
{
    let mut v = chars_of(game_name);
    let parts = chars_of(" (");
    let ver = chars_of(version);
    let close = chars_of(")");
    let ghost s0 = v@;
    let mut k: usize = 0;
    while k < parts.len()
        invariant
            k <= parts.len(),
            v@ == s0 + parts@.take(k as int),
        decreases parts.len() - k,
    {
        v.push(parts[k]);
        k = k + 1;
        assert(v@ =~= s0 + parts@.take(k as int));
    }
    assert(parts@.take(parts.len() as int) =~= parts@);
    let ghost s1 = v@;
    let mut k: usize = 0;
    while k < ver.len()
        invariant
            k <= ver.len(),
            v@ == s1 + ver@.take(k as int),
        decreases ver.len() - k,
    {
        v.push(ver[k]);
        k = k + 1;
        assert(v@ =~= s1 + ver@.take(k as int));
    }
    assert(ver@.take(ver.len() as int) =~= ver@);
    let ghost s2 = v@;
    let mut k: usize = 0;
    while k < close.len()
        invariant
            k <= close.len(),
            v@ == s2 + close@.take(k as int),
        decreases close.len() - k,
    {
        v.push(close[k]);
        k = k + 1;
        assert(v@ =~= s2 + close@.take(k as int));
    }
    assert(close@.take(close.len() as int) =~= close@);
    string_of(&v)
}

} // verus!
