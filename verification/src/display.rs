//! Text helpers for the progress display.

use vstd::prelude::*;
use crate::text::{push_repeated, string_of};

verus! {

/// `part / whole * scale`, rounded to the nearest integer with halves
/// rounded up; 0 when `whole` is 0.
pub open spec fn rounded_ratio(part: nat, whole: nat, scale: nat) -> nat {
    if whole == 0 {
        0
    } else {
        (2 * part * scale + whole) / (2 * whole)
    }
}

/// A bar of `filled` full blocks followed by empty blocks up to `width`.
pub open spec fn bar(filled: nat, width: nat) -> Seq<char> {
    Seq::new(filled, |_i: int| '█') + Seq::new(
        if width > filled { (width - filled) as nat } else { 0 },
        |_i: int| '░',
    )
}

proof fn lemma_round(prod: int, t: int, q: int, r: int)
    requires
        t > 0,
        0 <= r < t,
        prod == q * t + r,
    ensures
        (2 * prod + t) / (2 * t) == q + (if 2 * r >= t { 1int } else { 0int }),
{
    let b: int = if 2 * r >= t { 1 } else { 0 };
    let rr: int = 2 * r + t - 2 * t * b;
    assert(2 * prod + t == (q + b) * (2 * t) + rr) by (nonlinear_arith)
        requires
            prod == q * t + r,
            rr == 2 * r + t - 2 * t * b,
    ;
    vstd::arithmetic::div_mod::lemma_fundamental_div_mod_converse(2 * prod + t, 2 * t, q + b, rr);
}

/// Rounding to the nearest integer, halves up: the rounded value `r` of
/// `part / whole * scale` lies within half a unit of the exact value, at
/// most half a unit above it and less than half a unit below it.
pub proof fn law_rounded_nearest(part: nat, whole: nat, scale: nat)
    requires
        whole > 0,
    ensures
        ({
            let r = rounded_ratio(part, whole, scale) as int;
            &&& 2 * r * whole - 2 * part * scale <= whole
            &&& 2 * part * scale - 2 * r * whole < whole
        }),
{
    let n = (2 * part * scale + whole) as int;
    let d = (2 * whole) as int;
    let r = rounded_ratio(part, whole, scale) as int;
    vstd::arithmetic::div_mod::lemma_fundamental_div_mod(n, d);
    assert(r == n / d);
    let m = n % d;
    assert(0 <= m < d);
    assert(n == d * r + m);
    assert(2 * r * whole == d * r) by (nonlinear_arith)
        requires
            d == 2 * whole,
    ;
}

/// While no more than `total` are completed the bar is exactly `width`
/// cells wide; it is all empty cells when nothing is completed and all full
/// cells when everything is.
pub proof fn lemma_bar_fits(completed: nat, total: nat, width: nat)
    requires
        completed <= total,
    ensures
        rounded_ratio(completed, total, width) <= width,
        bar(rounded_ratio(completed, total, width), width).len() == width,
        completed == 0 ==> rounded_ratio(completed, total, width) == 0,
        0 < total && completed == total ==> rounded_ratio(completed, total, width) == width,
{
    if total > 0 {
        let full = 2 * total * width + total;
        assert(2 * completed * width + total <= full) by (nonlinear_arith)
            requires
                completed <= total,
                full == 2 * total * width + total,
        ;
        vstd::arithmetic::div_mod::lemma_fundamental_div_mod_converse(
            full as int,
            (2 * total) as int,
            width as int,
            total as int,
        );
        vstd::arithmetic::div_mod::lemma_div_is_ordered(
            (2 * completed * width + total) as int,
            full as int,
            (2 * total) as int,
        );
        if completed == 0 {
            assert(2 * completed * width == 0) by (nonlinear_arith)
                requires
                    completed == 0,
            ;
            vstd::arithmetic::div_mod::lemma_fundamental_div_mod_converse(
                total as int,
                (2 * total) as int,
                0,
                total as int,
            );
        }
    }
}

/// `completed / total * scale`, rounded to the nearest integer (halves up).
pub fn rounded_share(completed: usize, total: usize, scale: usize) -> (r: u128)
    ensures
        r as nat == rounded_ratio(completed as nat, total as nat, scale as nat),
{
    if total == 0 {
        return 0;
    }
    let c = completed as u128;
    let s = scale as u128;
    assert(c * s <= 0xFFFF_FFFF_FFFF_FFFE_0000_0000_0000_0001u128) by (nonlinear_arith)
        requires
            c <= 0xFFFF_FFFF_FFFF_FFFFu128,
            s <= 0xFFFF_FFFF_FFFF_FFFFu128,
    ;
    let prod: u128 = c * s;
    let t = total as u128;
    let q = prod / t;
    let r = prod % t;
    proof {
        vstd::arithmetic::div_mod::lemma_fundamental_div_mod(prod as int, t as int);
        lemma_round(prod as int, t as int, q as int, r as int);
        assert(2 * (completed as nat) * (scale as nat) == 2 * (prod as int)) by (nonlinear_arith)
            requires
                prod as int == (completed as int) * (scale as int),
        ;
        assert(q <= prod) by (nonlinear_arith)
            requires
                prod == q * t + r,
                t >= 1,
                r >= 0,
                q >= 0,
        ;
    }
    if r >= t - r {
        proof {
            assert(q < u128::MAX);
        }
        q + 1
    } else {
        q
    }
}

/// A bar of `width` cells showing `completed` out of `total`: the number of
/// full cells is `completed / total * width` rounded to the nearest integer
/// (0 when `total` is 0), the rest up to `width` are empty cells. The
/// fraction is rounded exactly (see [`crate::commands::progress::percent`]
/// on how this can differ from rounding a floating-point quotient).
pub fn progress_bar(completed: usize, total: usize, width: usize) -> (s: String)
    requires
        rounded_ratio(completed as nat, total as nat, width as nat) <= usize::MAX,
    ensures
        s@ == bar(rounded_ratio(completed as nat, total as nat, width as nat), width as nat),
{
    let filled = rounded_share(completed, total, width) as usize;
    let empty = width.saturating_sub(filled);
    let mut out: Vec<char> = Vec::new();
    push_repeated(&mut out, '█', filled);
    push_repeated(&mut out, '░', empty);
    string_of(&out)
}

} // verus!
