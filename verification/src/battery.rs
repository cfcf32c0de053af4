//! The couch screen's battery indicator: which power supply entries are
//! batteries, which battery is worth showing, and its icon.

use vstd::prelude::*;
use crate::text::same_text;
use crate::text::{parse_u32, parse_u32_spec, trim, trim_spec, push_decimal, decimal, string_of};

verus! {

broadcast use vstd::string::group_string_axioms;

/// A laptop pack or a peripheral's (a gamepad's) battery.
#[derive(Clone, Copy, PartialEq, Eq, Debug, Structural)]
pub enum BatteryKind {
    System,
    Peripheral,
}

/// One battery: its charge in percent and its kind.
#[derive(Clone, Copy, PartialEq, Eq, Debug, Structural)]
pub struct Battery {
    pub capacity: u32,
    pub kind: BatteryKind,
}

/// The battery a power supply entry describes, from the contents of its
/// `type`, `scope` and `capacity` files (`None` for a file that could not
/// be read): only entries whose trimmed type is `Battery` are batteries;
/// a trimmed scope of `Device` makes it a peripheral, anything else (or
/// no scope file) a system battery; the trimmed capacity must parse as a
/// `u32`.
pub open spec fn battery_from_files_spec(
    type_text: Option<Seq<char>>,
    scope_text: Option<Seq<char>>,
    capacity_text: Option<Seq<char>>,
) -> Option<Battery> {
    match type_text {
        Some(t) if trim_spec(t) == "Battery"@ => {
            let kind = match scope_text {
                Some(s) if trim_spec(s) == "Device"@ => BatteryKind::Peripheral,
                _ => BatteryKind::System,
            };
            match capacity_text {
                Some(c) => match parse_u32_spec(trim_spec(c)) {
                    Some(capacity) => Some(Battery { capacity, kind }),
                    None => None,
                },
                None => None,
            }
        },
        _ => None,
    }
}

/// One power supply entry as a battery, if it is one and its capacity is
/// readable; the three arguments are the contents of its `type`, `scope`
/// and `capacity` files, `None` where a file could not be read.
pub fn read_battery(
    type_text: Option<&str>,
    scope_text: Option<&str>,
    capacity_text: Option<&str>,
) -> (r: Option<Battery>)
    ensures
        r == battery_from_files_spec(
            match type_text {
                Some(t) => Some(t@),
                None => None,
            },
            match scope_text {
                Some(s) => Some(s@),
                None => None,
            },
            match capacity_text {
                Some(c) => Some(c@),
                None => None,
            },
        ),
{
    let is_battery = match type_text {
        Some(t) => {
            let trimmed = trim(t);
            same_text(trimmed.as_str(), "Battery")
        },
        None => false,
    };
    if !is_battery {
        return None;
    }
    let kind = match scope_text {
        Some(s) => {
            let trimmed = trim(s);
            if same_text(trimmed.as_str(), "Device") {
                BatteryKind::Peripheral
            } else {
                BatteryKind::System
            }
        },
        None => BatteryKind::System,
    };
    match capacity_text {
        Some(c) => {
            let trimmed = trim(c);
            match parse_u32(trimmed.as_str()) {
                Some(capacity) => Some(Battery { capacity, kind }),
                None => None,
            }
        },
        None => None,
    }
}

/// The fullest battery of one kind: `Some` exactly when the list has one
/// of that kind, with the largest capacity among them.
pub open spec fn is_best_of(s: Seq<Battery>, kind: BatteryKind, r: Option<Battery>) -> bool {
    match r {
        Some(b) => {
            &&& b.kind == kind
            &&& s.contains(b)
            &&& forall|i: int| 0 <= i < s.len() && (#[trigger] s[i]).kind == kind ==> s[i].capacity
                <= b.capacity
        },
        None => forall|i: int| 0 <= i < s.len() ==> (#[trigger] s[i]).kind != kind,
    }
}

fn best_of(batteries: &Vec<Battery>, kind: BatteryKind) -> (r: Option<Battery>)
    ensures
        is_best_of(batteries@, kind, r),
{
    let mut best: Option<Battery> = None;
    let mut i: usize = 0;
    while i < batteries.len()
        invariant
            i <= batteries.len(),
            is_best_of(batteries@.take(i as int), kind, best),
        decreases batteries.len() - i,
    {
        let b = batteries[i];
        let ghost prev = batteries@.take(i as int);
        let ghost cur = batteries@.take(i + 1);
        assert(cur =~= prev.push(b));
        if b.kind == kind {
            let replace = match best {
                Some(cur_best) => cur_best.capacity <= b.capacity,
                None => true,
            };
            if replace {
                best = Some(b);
            }
        }
        proof {
            assert forall|k: int| 0 <= k < prev.len() implies cur[k] == prev[k] by {}
            assert(cur[i as int] == b);
            if let Some(x) = best {
                if prev.contains(x) {
                    let k = choose|k: int| 0 <= k < prev.len() && prev[k] == x;
                    assert(cur[k] == x);
                }
                assert(cur.contains(x));
            }
        }
        i = i + 1;
    }
    assert(batteries@.take(batteries.len() as int) =~= batteries@);
    best
}

/// The battery worth showing: the fullest system battery (a laptop pack)
/// wins; otherwise the fullest peripheral pack (a gamepad) is better than
/// nothing; `None` when there is no battery at all.
pub fn pick_battery(batteries: &Vec<Battery>) -> (r: Option<Battery>)
    ensures
        ({
            let s = batteries@;
            if exists|i: int| 0 <= i < s.len() && (#[trigger] s[i]).kind == BatteryKind::System {
                is_best_of(s, BatteryKind::System, r)
            } else {
                is_best_of(s, BatteryKind::Peripheral, r)
            }
        }),
{
    match best_of(batteries, BatteryKind::System) {
        Some(b) => {
            assert(batteries@.contains(b));
            Some(b)
        },
        None => best_of(batteries, BatteryKind::Peripheral),
    }
}

/// The symbolic icon for a charge level.
pub open spec fn battery_icon_spec(capacity: u32) -> Seq<char> {
    if capacity <= 9 {
        "battery-empty-symbolic"@
    } else if capacity <= 24 {
        "battery-caution-symbolic"@
    } else if capacity <= 59 {
        "battery-low-symbolic"@
    } else if capacity <= 94 {
        "battery-good-symbolic"@
    } else {
        "battery-full-symbolic"@
    }
}

/// The symbolic icon for a charge level: empty below 10%, caution below
/// 25%, low below 60%, good below 95%, full from there.
pub fn battery_icon_name(capacity: u32) -> (r: &'static str)
    ensures
        r@ == battery_icon_spec(capacity),
{
    if capacity <= 9 {
        "battery-empty-symbolic"
    } else if capacity <= 24 {
        "battery-caution-symbolic"
    } else if capacity <= 59 {
        "battery-low-symbolic"
    } else if capacity <= 94 {
        "battery-good-symbolic"
    } else {
        "battery-full-symbolic"
    }
}

/// What the couch status rail shows for a battery: its icon, its charge
/// (`<capacity>%`) and a tooltip naming its kind.
pub struct BatteryDisplay {
    pub icon: &'static str,
    pub label: String,
    pub tooltip: &'static str,
}

/// The status rail's battery item: hidden (`None`) without a battery.
pub fn battery_display(battery: Option<Battery>) -> (r: Option<BatteryDisplay>)
    ensures
        match battery {
            None => r is None,
            Some(b) => r matches Some(d) && {
                &&& d.icon@ == battery_icon_spec(b.capacity)
                &&& d.label@ == decimal(b.capacity as nat) + seq!['%']
                &&& d.tooltip@ == match b.kind {
                    BatteryKind::System => "System battery"@,
                    BatteryKind::Peripheral => "Controller battery"@,
                }
            },
        },
{
    match battery {
        None => None,
        Some(b) => {
            let mut v: Vec<char> = Vec::new();
            push_decimal(&mut v, b.capacity as u64);
            v.push('%');
            let tooltip = match b.kind {
                BatteryKind::System => "System battery",
                BatteryKind::Peripheral => "Controller battery",
            };
            Some(BatteryDisplay { icon: battery_icon_name(b.capacity), label: string_of(&v), tooltip })
        },
    }
}

/// The battery icon by charge: empty below 10%, caution below 25%, low
/// below 60%, good below 95%, full from 95% on; so a fuller battery
/// never shows an emptier icon than a less full one.
pub proof fn law_battery_icon_thresholds(capacity: u32)
    ensures
        capacity < 10 ==> battery_icon_spec(capacity) == "battery-empty-symbolic"@,
        10 <= capacity < 25 ==> battery_icon_spec(capacity) == "battery-caution-symbolic"@,
        25 <= capacity < 60 ==> battery_icon_spec(capacity) == "battery-low-symbolic"@,
        60 <= capacity < 95 ==> battery_icon_spec(capacity) == "battery-good-symbolic"@,
        95 <= capacity ==> battery_icon_spec(capacity) == "battery-full-symbolic"@,
{
}

} // verus!
