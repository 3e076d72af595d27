//! Byte-size arithmetic: alignment snapping and human-readable sizes.

use vstd::arithmetic::div_mod::{
    lemma_fundamental_div_mod, lemma_mod_decreases, lemma_mod_multiples_basic,
};
use vstd::prelude::*;
use crate::text::{decimal_digit, decimal_digits, decimal_text, push_char, push_decimal};

verus! {

/// `v` is a multiple of `a`.
pub open spec fn aligned(v: int, a: int) -> bool {
    v % a == 0
}

/// Snap `v` to a multiple of `a`, to the nearer side; a remainder of exactly
/// half the alignment snaps down.
pub open spec fn align_up_spec(v: int, a: int) -> int {
    let r = v % a;
    if r == 0 {
        v
    } else if r > a / 2 {
        v + (a - r)
    } else {
        v - r
    }
}

/// Snap `v` to a multiple of `a`, to the nearer side; a remainder of exactly
/// half the alignment snaps up.
pub open spec fn align_down_spec(v: int, a: int) -> int {
    let r = v % a;
    if r == 0 {
        v
    } else if r < a / 2 {
        v - r
    } else {
        v + (a - r)
    }
}

/// Both snapped neighbours of `v` are multiples of `a`.
pub proof fn lemma_snap_neighbours_aligned(v: int, a: int)
    requires
        a > 0,
    ensures
        aligned(v - v % a, a),
        aligned(v + (a - v % a), a),
{
    lemma_fundamental_div_mod(v, a);
    let q = v / a;
    assert(v - v % a == q * a) by (nonlinear_arith)
        requires
            v == a * q + v % a,
    ;
    lemma_mod_multiples_basic(q, a);
    assert(v + (a - v % a) == (q + 1) * a) by (nonlinear_arith)
        requires
            v == a * q + v % a,
    ;
    lemma_mod_multiples_basic(q + 1, a);
}

/// Snapping always yields a multiple of the alignment.
pub proof fn lemma_align_results_aligned(v: int, a: int)
    requires
        a > 0,
    ensures
        aligned(align_up_spec(v, a), a),
        aligned(align_down_spec(v, a), a),
{
    lemma_snap_neighbours_aligned(v, a);
}

/// Snapping up is idempotent, and snapping down an already snapped value
/// leaves it unchanged.
pub proof fn lemma_align_idempotent(v: int, a: int)
    requires
        a > 0,
    ensures
        align_up_spec(align_up_spec(v, a), a) == align_up_spec(v, a),
        align_down_spec(align_up_spec(v, a), a) == align_up_spec(v, a),
        align_down_spec(align_down_spec(v, a), a) == align_down_spec(v, a),
        align_up_spec(align_down_spec(v, a), a) == align_down_spec(v, a),
{
    lemma_align_results_aligned(v, a);
}

/// Snapping moves a value by less than one alignment unit.
pub proof fn lemma_align_distance(v: int, a: int)
    requires
        a > 0,
    ensures
        v - a < align_up_spec(v, a) < v + a,
        v - a < align_down_spec(v, a) < v + a,
{
}

/// Whether `value` is a multiple of `alignment`.
pub fn is_aligned(value: u64, alignment: u64) -> (r: bool)
    requires
        alignment > 0,
    ensures
        r == aligned(value as int, alignment as int),
{
    value % alignment == 0
}

/// Snap `value` to the nearer multiple of `alignment`, rounding down on a tie.
pub fn align_up(value: u64, alignment: u64) -> (r: u64)
    requires
        alignment > 0,
        align_up_spec(value as int, alignment as int) <= u64::MAX,
    ensures
        r == align_up_spec(value as int, alignment as int),
{
    let remainder = value % alignment;
    proof {
        lemma_mod_decreases(value as nat, alignment as nat);
    }
    if remainder == 0 {
        value
    } else if remainder > alignment / 2 {
        value + (alignment - remainder)
    } else {
        value - remainder
    }
}

/// Snap `value` to the nearer multiple of `alignment`, rounding up on a tie.
pub fn align_down(value: u64, alignment: u64) -> (r: u64)
    requires
        alignment > 0,
        align_down_spec(value as int, alignment as int) <= u64::MAX,
    ensures
        r == align_down_spec(value as int, alignment as int),
{
    let remainder = value % alignment;
    proof {
        lemma_mod_decreases(value as nat, alignment as nat);
    }
    if remainder == 0 {
        value
    } else if remainder < alignment / 2 {
        value - remainder
    } else {
        value + (alignment - remainder)
    }
}

/// One kibibyte.
pub const KIB: u64 = 1024;
/// One mebibyte.
pub const MIB: u64 = 1024 * 1024;
/// One gibibyte.
pub const GIB: u64 = 1024 * 1024 * 1024;
/// One tebibyte.
pub const TIB: u64 = 1024 * 1024 * 1024 * 1024;

/// `size / unit` in tenths, rounded to the nearest tenth, ties to even.
pub open spec fn rounded_tenths(size: nat, unit: nat) -> nat {
    let t = size * 10 / unit;
    let r = size * 10 % unit;
    if 2 * r > unit || (2 * r == unit && t % 2 == 1) {
        t + 1
    } else {
        t
    }
}

/// `size / unit` with one decimal, followed by the unit's suffix.
pub open spec fn scaled_text(size: nat, unit: nat, suffix: Seq<char>) -> Seq<char> {
    let t = rounded_tenths(size, unit);
    decimal_text(t / 10).push('.').push(decimal_digits()[(t % 10) as int]) + suffix
}

/// A byte count in the largest binary unit (up to TiB) that it reaches.
pub open spec fn size_text(size: nat) -> Seq<char> {
    if size >= TIB {
        scaled_text(size, TIB as nat, "TiB"@)
    } else if size >= GIB {
        scaled_text(size, GIB as nat, "GiB"@)
    } else if size >= MIB {
        scaled_text(size, MIB as nat, "MiB"@)
    } else if size >= KIB {
        scaled_text(size, KIB as nat, "KiB"@)
    } else {
        decimal_text(size) + "B"@
    }
}

/// The whole percentage that `pos` is of `total`, saturated to `u64`; an
/// empty total gives 0 for position 0 and the largest value otherwise.
pub open spec fn percent_of(pos: nat, total: nat) -> nat {
    if total == 0 {
        if pos == 0 { 0 } else { u64::MAX as nat }
    } else if pos * 100 / total > u64::MAX {
        u64::MAX as nat
    } else {
        pos * 100 / total
    }
}

/// A position rendered as a percentage of the total and as a size.
pub open spec fn position_text(pos: nat, total: nat) -> Seq<char> {
    decimal_text(percent_of(pos, total)) + "% ("@ + size_text(pos) + ")"@
}

fn push_scaled(s: &mut String, size: u64, unit: u64)
    requires
        unit >= KIB,
    ensures
        final(s)@ == old(s)@ + decimal_text(rounded_tenths(size as nat, unit as nat) / 10).push(
            '.',
        ).push(decimal_digits()[(rounded_tenths(size as nat, unit as nat) % 10) as int]),
{
    let wide: u128 = size as u128 * 10;
    let t: u128 = wide / unit as u128;
    let r: u128 = wide % unit as u128;
    let rounded: u128 = if 2 * r > unit as u128 || (2 * r == unit as u128 && t % 2 == 1) {
        t + 1
    } else {
        t
    };
    assert(rounded == rounded_tenths(size as nat, unit as nat));
    assert(t <= wide) by {
        vstd::arithmetic::div_mod::lemma_div_is_ordered_by_denominator(wide as int, 1, unit as int);
    }
    let whole: u64 = (rounded / 10) as u64;
    let tenth: u64 = (rounded % 10) as u64;
    push_decimal(s, whole);
    push_char(s, '.');
    push_char(s, decimal_digit(tenth));
    proof {
        assert(s@ =~= old(s)@ + decimal_text(rounded_tenths(size as nat, unit as nat) / 10).push(
            '.',
        ).push(decimal_digits()[(rounded_tenths(size as nat, unit as nat) % 10) as int]));
    }
}

/// Render a byte count for people: one decimal in the largest binary unit
/// (KiB, MiB, GiB, TiB) that the count reaches, or plain bytes below 1 KiB.
pub fn format_size(size: u64) -> (r: String)
    ensures
        r@ == size_text(size as nat),
{
    let mut s = String::new();
    if size >= TIB {
        push_scaled(&mut s, size, TIB);
        s.append("TiB");
    } else if size >= GIB {
        push_scaled(&mut s, size, GIB);
        s.append("GiB");
    } else if size >= MIB {
        push_scaled(&mut s, size, MIB);
        s.append("MiB");
    } else if size >= KIB {
        push_scaled(&mut s, size, KIB);
        s.append("KiB");
    } else {
        push_decimal(&mut s, size);
        s.append("B");
    }
    proof {
        assert(s@ =~= size_text(size as nat));
    }
    s
}

/// Render a position on a disk as a whole percentage of `total` followed by
/// the position as a size, as in `50% (500B)`.
pub fn format_position(pos: u64, total: u64) -> (r: String)
    ensures
        r@ == position_text(pos as nat, total as nat),
{
    let percent: u64 = if total == 0 {
        if pos == 0 { 0 } else { u64::MAX }
    } else {
        let p: u128 = pos as u128 * 100 / total as u128;
        if p > u64::MAX as u128 { u64::MAX } else { p as u64 }
    };
    let mut s = String::new();
    push_decimal(&mut s, percent);
    s.append("% (");
    let size = format_size(pos);
    s.append(size.as_str());
    s.append(")");
    proof {
        assert(s@ =~= position_text(pos as nat, total as nat));
    }
    s
}

} // verus!
