//! The game settings' DLC page: one switch per DLC, listed by app id,
//! and what saving the switches writes back.

use vstd::prelude::*;
use crate::text::{chars_of, string_of, push_decimal, decimal};

verus! {

broadcast use vstd::string::group_string_axioms;

/// One DLC of a game's store details.
#[derive(Clone, Debug)]
pub struct DlcInfo {
    pub app_id: u64,
    pub name: String,
    pub enabled: bool,
}

/// The positions list the DLCs by ascending app id, equal ids keeping
/// the details' order.
pub open spec fn listed_by_app_id(dlcs: Seq<DlcInfo>, order: Seq<usize>) -> bool {
    &&& forall|i: int, j: int|
        #![trigger order[i], order[j]]
        0 <= i < j < order.len() ==> dlcs[order[i] as int].app_id <= dlcs[order[j] as int].app_id
    &&& forall|i: int, j: int|
        #![trigger order[i], order[j]]
        0 <= i < j < order.len() && dlcs[order[i] as int].app_id == dlcs[order[j] as int].app_id
            ==> order[i] < order[j]
}

/// The order the DLC page lists the DLCs in, as positions in the
/// details: every DLC once, sorted by app id, ties in the details' order.
pub fn dlc_rows(dlcs: &Vec<DlcInfo>) -> (order: Vec<usize>)
    ensures
        order.len() == dlcs.len(),
        forall|p: usize| order@.contains(p) <==> p < dlcs.len(),
        listed_by_app_id(dlcs@, order@),
{
    let mut order: Vec<usize> = Vec::new();
    let mut t: usize = 0;
    while t < dlcs.len()
        invariant
            t <= dlcs.len(),
            order.len() == t,
            forall|p: usize| order@.contains(p) <==> p < t,
            forall|k: int| 0 <= k < order.len() ==> #[trigger] order@[k] < t,
            listed_by_app_id(dlcs@, order@),
        decreases dlcs.len() - t,
    {
        let key = dlcs[t].app_id;
        let mut p: usize = 0;
        while p < order.len() && dlcs[order[p]].app_id <= key
            invariant
                p <= order.len(),
                t < dlcs.len(),
                key == dlcs@[t as int].app_id,
                forall|k: int| 0 <= k < order.len() ==> #[trigger] order@[k] < t,
                forall|k: int| 0 <= k < p ==> dlcs@[#[trigger] order@[k] as int].app_id <= key,
            decreases order.len() - p,
        {
            p = p + 1;
        }
        let ghost o = order@;
        order.insert(p, t);
        proof {
            let n = order@;
            assert(n == o.insert(p as int, t));
            assert forall|i: int, j: int| 0 <= i < j < n.len() implies (dlcs@[#[trigger] n[i] as int].app_id
                <= dlcs@[#[trigger] n[j] as int].app_id) && (dlcs@[n[i] as int].app_id
                == dlcs@[n[j] as int].app_id ==> n[i] < n[j]) by {
                if j < p {
                    assert(n[i] == o[i] && n[j] == o[j]);
                } else if j == p {
                    assert(n[i] == o[i] && n[j] == t);
                } else if i < p {
                    assert(n[i] == o[i] && n[j] == o[j - 1]);
                } else if i == p {
                    assert(n[i] == t && n[j] == o[j - 1]);
                    assert(dlcs@[o[p as int] as int].app_id > key);
                    if j - 1 > p {
                        assert(dlcs@[o[p as int] as int].app_id <= dlcs@[o[j - 1] as int].app_id);
                    }
                } else {
                    assert(n[i] == o[i - 1] && n[j] == o[j - 1]);
                }
            }
            assert forall|x: usize| n.contains(x) <==> x < t + 1 by {
                if n.contains(x) {
                    let k = choose|k: int| 0 <= k < n.len() && n[k] == x;
                    if k < p {
                        assert(o[k] == x);
                        assert(o.contains(x));
                    } else if k > p {
                        assert(o[k - 1] == x);
                        assert(o.contains(x));
                    }
                }
                if x < t + 1 {
                    if x < t {
                        assert(o.contains(x));
                        let k = choose|k: int| 0 <= k < o.len() && o[k] == x;
                        if k < p {
                            assert(n[k] == x);
                        } else {
                            assert(n[k + 1] == x);
                        }
                    } else {
                        assert(n[p as int] == x);
                    }
                }
            }
            assert forall|k: int| 0 <= k < n.len() implies #[trigger] n[k] < t + 1 by {
                if k < p {
                    assert(n[k] == o[k]);
                } else if k > p {
                    assert(n[k] == o[k - 1]);
                }
            }
        }
        t = t + 1;
    }
    order
}

/// The DLC group's title: `DLCs  ·  <count>`.
pub fn dlc_group_title(count: u64) -> (r: String)
    ensures
        r@ == "DLCs  \u{b7}  "@ + decimal(count as nat),
{
    let mut v = chars_of("DLCs  \u{b7}  ");
    push_decimal(&mut v, count);
    string_of(&v)
}

/// A DLC switch's subtitle: `App ID: <id>`.
pub fn dlc_subtitle(app_id: u64) -> (r: String)
    ensures
        r@ == "App ID: "@ + decimal(app_id as nat),
{
    let mut v = chars_of("App ID: ");
    push_decimal(&mut v, app_id);
    string_of(&v)
}

/// Saving the page: the `i`-th switch sets the `i`-th DLC of the details
/// (in the details' order); DLCs past the switches keep their state.
pub fn apply_dlc_switches(dlcs: &mut Vec<DlcInfo>, switches: &Vec<bool>)
    ensures
        final(dlcs).len() == old(dlcs).len(),
        forall|i: int|
            0 <= i < old(dlcs).len() ==> {
                &&& (#[trigger] final(dlcs)@[i]).app_id == old(dlcs)@[i].app_id
                &&& final(dlcs)@[i].name@ == old(dlcs)@[i].name@
                &&& final(dlcs)@[i].enabled == if i < switches.len() {
                    switches@[i]
                } else {
                    old(dlcs)@[i].enabled
                }
            },
{
    let mut i: usize = 0;
    while i < dlcs.len()
        invariant
            i <= dlcs.len(),
            dlcs.len() == old(dlcs).len(),
            forall|k: int|
                0 <= k < old(dlcs).len() ==> {
                    &&& (#[trigger] dlcs@[k]).app_id == old(dlcs)@[k].app_id
                    &&& dlcs@[k].name@ == old(dlcs)@[k].name@
                    &&& dlcs@[k].enabled == if k < i && k < switches.len() {
                        switches@[k]
                    } else {
                        old(dlcs)@[k].enabled
                    }
                },
        decreases dlcs.len() - i,
    {
        if i < switches.len() {
            let d = DlcInfo { app_id: dlcs[i].app_id, name: dlcs[i].name.clone(), enabled: switches[i] };
            dlcs.set(i, d);
        }
        i = i + 1;
    }
}

} // verus!
