//! Free-space figures and human-readable sizes for the folder pickers.

use vstd::prelude::*;
use crate::text::{decimal, digit_char, push_decimal, string_of};
use vstd::arithmetic::power2::pow2;

verus! {

/// `n / d` rounded to the nearest whole number, a tie going to the even
/// one (IEEE 754's round-to-nearest).
pub open spec fn round_half_even(n: nat, d: nat) -> nat {
    let q = n / d;
    let r = n % d;
    if 2 * r < d {
        q
    } else if 2 * r > d {
        q + 1
    } else if q % 2 == 0 {
        q
    } else {
        q + 1
    }
}

/// A double of at least 1 is held here as the whole number of 2^-52 it
/// is worth; `UNIT` is that scale, the weight of 1.0.
pub open spec fn unit() -> nat {
    0x10_0000_0000_0000
}

/// The binade of `num / den` (in units of 2^-52), searched from `b`: the
/// least `b` (at most 63) with `num / den < 2^(b + 53)`. Within it a
/// double's spacing is `2^b` units.
pub open spec fn binade_from(num: nat, den: nat, b: nat) -> nat
    decreases 63 - b,
{
    if b < 63 && num >= pow2(b) * 0x20_0000_0000_0000 * den {
        binade_from(num, den, b + 1)
    } else {
        b
    }
}

/// The double nearest to `num / den` units, ties to even, as IEEE 754
/// rounds a result of at least 1 and below 2^64.
pub open spec fn nearest_double(num: nat, den: nat) -> nat {
    let b = binade_from(num, den, 0);
    pow2(b) * round_half_even(num, den * pow2(b))
}

/// A byte count converted to a double (`bytes as f64`), in units.
pub open spec fn double_of(bytes: nat) -> nat {
    nearest_double(bytes * unit(), 1)
}

/// The unit search from unit `k` with the value `n` (a double, in
/// units): while the value is at least 1000 and a larger unit exists,
/// divide it by 1000 in double arithmetic. Gives the final value and
/// unit.
pub open spec fn scale_from(n: nat, k: nat) -> (nat, nat)
    decreases 5 - k,
{
    if k < 5 && n >= 1000 * unit() {
        scale_from(nearest_double(n, 1000), k + 1)
    } else {
        (n, k)
    }
}

/// The names of the decimal units.
pub open spec fn unit_name(k: nat) -> Seq<char> {
    if k == 0 {
        seq!['B']
    } else if k == 1 {
        seq!['k', 'B']
    } else if k == 2 {
        seq!['M', 'B']
    } else if k == 3 {
        seq!['G', 'B']
    } else if k == 4 {
        seq!['T', 'B']
    } else {
        seq!['P', 'B']
    }
}

/// How a size reads. The size is taken as a double and divided by 1000
/// in double arithmetic while it is at least 1000 and a larger unit
/// (up to PB) exists. Whole bytes read `"<n> B"`; otherwise the value is
/// written with one decimal, the exact value of the double rounded to
/// the nearest tenth with ties to even: `"<whole>.<tenth> <unit>"`.
pub open spec fn format_size_spec(bytes: nat) -> Seq<char> {
    let (n, k) = scale_from(double_of(bytes), 0);
    if k == 0 {
        decimal(bytes) + seq![' '] + unit_name(0)
    } else {
        let t = round_half_even(n * 10, unit());
        decimal(t / 10) + seq!['.', digit_char((t % 10) as int), ' '] + unit_name(k)
    }
}

/// The rounding of `n / d`, and a bound on it.
fn round_half_even_exec(n: u128, d: u128) -> (r: u128)
    requires
        d > 0,
    ensures
        r == round_half_even(n as nat, d as nat),
        r <= n as nat / d as nat + 1,
{
    let q = n / d;
    let r = n % d;
    assert(q * d + r == n && r < d) by (nonlinear_arith)
        requires
            d > 0,
            q == n as int / d as int,
            r == n as int % d as int,
    ;
    if r < d - r {
        q
    } else if r > d - r {
        assert(q < u128::MAX) by (nonlinear_arith)
            requires
                q * d + r == n,
                r >= 1,
                r < d,
                n <= u128::MAX,
        ;
        q + 1
    } else if q % 2 == 0 {
        q
    } else {
        assert(q < u128::MAX) by (nonlinear_arith)
            requires
                q * d + r == n,
                r >= 1,
                r < d,
                n <= u128::MAX,
        ;
        q + 1
    }
}

proof fn lemma_scaled_quotient(num: nat, d: nat, p: nat)
    requires
        d > 0,
        p > 0,
    ensures
        p * (num / (d * p)) <= num / d,
{
    let q = num / (d * p);
    assert(d * p > 0) by (nonlinear_arith)
        requires
            d > 0,
            p > 0,
    ;
    vstd::arithmetic::div_mod::lemma_fundamental_div_mod(num as int, (d * p) as int);
    vstd::arithmetic::div_mod::lemma_fundamental_div_mod(num as int, d as int);
    assert(p * q <= num / d) by (nonlinear_arith)
        requires
            d > 0,
            p > 0,
            num == (d * p) * q + num % (d * p),
            num % (d * p) >= 0,
            num == d * (num / d) + num % d,
            num % d < d,
    ;
}

/// The double nearest to `num / den` units, and a bound on it.
fn nearest_double_exec(num: u128, den: u128) -> (r: u128)
    requires
        1 <= den <= 1000,
        num <= 0x20_0000_0000_0000_0000_0000_0000_0000,
    ensures
        r == nearest_double(num as nat, den as nat),
        r <= num as nat / den as nat + 0x8000_0000_0000_0000,
{
    proof {
        vstd::arithmetic::power2::lemma2_to64();
        vstd::arithmetic::power2::lemma2_to64_rest();
    }
    let mut b: u64 = 0;
    let mut p: u128 = 1;
    while b < 63 && num >= p * 0x20_0000_0000_0000 * den
        invariant
            b <= 63,
            p == pow2(b as nat),
            1 <= p <= 0x8000_0000_0000_0000,
            1 <= den <= 1000,
            p * 0x20_0000_0000_0000 * den <= 0x3e80_0000_0000_0000_0000_0000_0000_0000,
            binade_from(num as nat, den as nat, b as nat) == binade_from(num as nat, den as nat, 0),
        decreases 63 - b,
    {
        proof {
            vstd::arithmetic::power2::lemma2_to64_rest();
            vstd::arithmetic::power2::lemma_pow2_unfold((b + 1) as nat);
            if b + 1 < 63 {
                vstd::arithmetic::power2::lemma_pow2_strictly_increases((b + 1) as nat, 63);
            }
        }
        b = b + 1;
        p = p * 2;
        assert(p * 0x20_0000_0000_0000 * den <= 0x3e80_0000_0000_0000_0000_0000_0000_0000)
            by (nonlinear_arith)
            requires
                1 <= p <= 0x8000_0000_0000_0000,
                1 <= den <= 1000,
        ;
    }
    proof {
        vstd::arithmetic::power2::lemma_pow2_pos(b as nat);
    }
    assert(binade_from(num as nat, den as nat, b as nat) == b as nat);
    assert(1 <= den * p <= 0x8000_0000_0000_0000 * 1000) by (nonlinear_arith)
        requires
            1 <= p <= 0x8000_0000_0000_0000,
            1 <= den <= 1000,
    ;
    let q = round_half_even_exec(num, den * p);
    proof {
        lemma_scaled_quotient(num as nat, den as nat, p as nat);
        let x = num as nat / (den as nat * p as nat);
        let y = num as nat / den as nat;
        assert(y <= num as nat) by (nonlinear_arith)
            requires
                den >= 1,
                y == num as nat / den as nat,
        ;
        assert(p * q <= y + p) by (nonlinear_arith)
            requires
                q <= x + 1,
                p * x <= y,
                p > 0,
        ;
    }
    p * q
}

fn push_unit(out: &mut Vec<char>, k: u64)
    requires
        k <= 5,
    ensures
        final(out)@ == old(out)@ + unit_name(k as nat),
{
    if k == 0 {
        out.push('B');
    } else {
        if k == 1 {
            out.push('k');
        } else if k == 2 {
            out.push('M');
        } else if k == 3 {
            out.push('G');
        } else if k == 4 {
            out.push('T');
        } else {
            out.push('P');
        }
        out.push('B');
    }
    assert(final(out)@ =~= old(out)@ + unit_name(k as nat));
}

/// Human-readable size in decimal units with one decimal, e.g.
/// `"12.5 GB"`; sizes under 1000 bytes read as whole bytes (`"7 B"`).
/// The value is worked out in double arithmetic, as the size's display
/// has always been, so it reads exactly as `f64` arithmetic gives it.
pub fn format_size(bytes: u64) -> (s: String)
    ensures
        s@ == format_size_spec(bytes as nat),
{
    let unit_scale: u128 = 0x10_0000_0000_0000;
    assert(bytes as u128 * unit_scale <= 0x10_0000_0000_0000_0000_0000_0000_0000) by (nonlinear_arith)
        requires
            bytes <= u64::MAX,
            unit_scale == 0x10_0000_0000_0000,
    ;
    let mut n: u128 = nearest_double_exec(bytes as u128 * unit_scale, 1);
    let mut k: u64 = 0;
    while k < 5 && n >= 1000 * unit_scale
        invariant
            k <= 5,
            unit_scale == unit(),
            n <= 0x20_0000_0000_0000_0000_0000_0000_0000,
            k >= 1 ==> n <= 0x1000_0000_0000_0000_0000_0000_0000,
            scale_from(n as nat, k as nat) == scale_from(double_of(bytes as nat), 0),
        decreases 5 - k,
    {
        n = nearest_double_exec(n, 1000);
        k = k + 1;
    }
    assert(scale_from(n as nat, k as nat) == (n as nat, k as nat));
    let mut out: Vec<char> = Vec::new();
    if k == 0 {
        push_decimal(&mut out, bytes);
        out.push(' ');
        push_unit(&mut out, 0);
        assert(out@ =~= format_size_spec(bytes as nat));
    } else {
        let tenths = round_half_even_exec(n * 10, unit_scale);
        assert(tenths / 10 <= u64::MAX) by (nonlinear_arith)
            requires
                tenths <= (n * 10) as nat / unit_scale as nat + 1,
                n <= 0x1000_0000_0000_0000_0000_0000_0000,
                unit_scale == 0x10_0000_0000_0000,
        ;
        let whole: u64 = (tenths / 10) as u64;
        let tenth: u64 = (tenths % 10) as u64;
        push_decimal(&mut out, whole);
        out.push('.');
        out.push(crate::text::digit_of(tenth));
        out.push(' ');
        push_unit(&mut out, k);
        assert(out@ =~= format_size_spec(bytes as nat));
    }
    string_of(&out)
}


/// What `statvfs` reported for a directory: its status code, the
/// fragment size (`f_frsize`) and the blocks free to unprivileged users
/// (`f_bavail`).
#[derive(Clone, Copy, Debug, PartialEq, Eq)]
pub struct FsStats {
    pub status: i32,
    pub fragment_size: u64,
    pub blocks_available: u64,
}

/// Whether the byte count of a successful report fits in 64 bits.
pub open spec fn stats_fit(stats: FsStats) -> bool {
    stats.status == 0 && stats.fragment_size != 0 ==> stats.blocks_available
        * stats.fragment_size <= u64::MAX
}

/// The bytes available according to a `statvfs` report: `None` when the
/// call failed (non-zero status) or reported a zero fragment size.
pub open spec fn statvfs_available_spec(stats: FsStats) -> Option<u64> {
    if stats.status != 0 || stats.fragment_size == 0 {
        None
    } else {
        Some((stats.blocks_available * stats.fragment_size) as u64)
    }
}

/// Available bytes from one `statvfs` report.
pub fn statvfs_available(stats: FsStats) -> (r: Option<u64>)
    requires
        stats_fit(stats),
    ensures
        r == statvfs_available_spec(stats),
{
    if stats.status != 0 || stats.fragment_size == 0 {
        return None;
    }
    Some(stats.blocks_available * stats.fragment_size)
}

/// Entry `i` of an ancestor chain (the path first, then each parent in
/// turn) is the nearest one that exists.
pub open spec fn is_nearest_existing(exists: Seq<bool>, i: int) -> bool {
    &&& 0 <= i < exists.len()
    &&& exists[i]
    &&& forall|k: int| 0 <= k < i ==> !#[trigger] exists[k]
}

/// The position of the nearest existing entry of an ancestor chain.
pub fn nearest_existing(exists: &Vec<bool>) -> (r: Option<usize>)
    ensures
        match r {
            Some(i) => is_nearest_existing(exists@, i as int),
            None => forall|k: int| 0 <= k < exists@.len() ==> !#[trigger] exists@[k],
        },
{
    let mut i: usize = 0;
    while i < exists.len()
        invariant
            i <= exists.len(),
            forall|k: int| 0 <= k < i ==> !#[trigger] exists@[k],
        decreases exists.len() - i,
    {
        if exists[i] {
            return Some(i);
        }
        i = i + 1;
    }
    None
}

/// Available bytes on the filesystem holding a path. `exists` answers,
/// for the path and then each of its ancestors in turn, whether it
/// exists; `reports` holds the `statvfs` report of the entry at the same
/// place (`None` where none could be made). The nearest existing entry
/// answers; `None` when no entry exists or its report is missing or
/// unusable.
pub fn available_bytes(exists: &Vec<bool>, reports: &Vec<Option<FsStats>>) -> (r: Option<u64>)
    requires
        reports.len() == exists.len(),
        forall|i: int|
            #[trigger] is_nearest_existing(exists@, i) ==> (reports@[i] matches Some(stats)
                ==> stats_fit(stats)),
    ensures
        (forall|k: int| 0 <= k < exists@.len() ==> !#[trigger] exists@[k]) ==> r is None,
        forall|i: int|
            #[trigger] is_nearest_existing(exists@, i) ==> r == match reports@[i] {
                Some(stats) => statvfs_available_spec(stats),
                None => None,
            },
{
    match nearest_existing(exists) {
        Some(i) => {
            proof {
                assert forall|j: int| #[trigger] is_nearest_existing(exists@, j) implies j == i by {
                    if j < i {
                        assert(!exists@[j]);
                    } else if j > i {
                        assert(!exists@[i as int]);
                    }
                }
            }
            match reports[i] {
                Some(stats) => statvfs_available(stats),
                None => None,
            }
        },
        None => None,
    }
}

} // verus!
