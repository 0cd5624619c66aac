//! Timestamp arithmetic.
//!
//! A stream expresses timestamps as integer ticks scaled by a rational
//! timebase (ticks * num / den seconds). Components exchange time in
//! canonical units of 1/2^20 second. Converting between two stream
//! timebases goes over the rationals directly, so it loses at most the
//! final truncation and is the exact identity between equal timebases;
//! the tick/canonical round trip is tight to one tick whenever a tick is
//! no finer than a canonical unit. Conversions truncate toward zero; all
//! inputs handled here are non-negative.

use vstd::prelude::*;
use vstd::arithmetic::div_mod::lemma_div_is_ordered;
use vstd::arithmetic::div_mod::lemma_div_multiples_vanish;
use vstd::arithmetic::div_mod::lemma_div_nonincreasing;
use vstd::arithmetic::div_mod::lemma_div_pos_is_pos;
use vstd::arithmetic::div_mod::lemma_fundamental_div_mod;
use vstd::arithmetic::div_mod::lemma_mod_bound;

verus! {

/// Canonical time units per second: 2^20.
pub const CANON_PER_SEC: i64 = 1048576;

/// A rational timebase: one tick lasts `num / den` seconds.
#[derive(Clone, Copy, PartialEq, Eq, Structural, Debug)]
pub struct Timebase {
    pub num: i64,
    pub den: i64,
}

impl Timebase {
    /// A usable timebase is a positive rational with components small
    /// enough that conversions cannot overflow a wide intermediate.
    pub open spec fn wf(self) -> bool {
        1 <= self.num <= 0x7fff_ffff && 1 <= self.den <= 0x7fff_ffff
    }
}

/// Canonical units equivalent to `t` ticks of timebase `tb`.
pub open spec fn ticks_to_canon(t: int, tb: Timebase) -> int {
    t * tb.num * CANON_PER_SEC as int / tb.den as int
}

/// Ticks of timebase `tb` equivalent to `canon` canonical units.
pub open spec fn canon_to_ticks(canon: int, tb: Timebase) -> int {
    canon * tb.den as int / (tb.num as int * CANON_PER_SEC as int)
}

proof fn lemma_mul_bounds(a: int, b: int, amax: int, bmax: int)
    by (nonlinear_arith)
    requires
        0 <= a <= amax,
        0 <= b <= bmax,
    ensures
        0 <= a * b <= amax * bmax,
{
}

/// Converts a tick count to canonical units, truncating.
pub fn t_to_secs(t: i64, tb: Timebase) -> (r: i64)
    requires
        t >= 0,
        tb.wf(),
        ticks_to_canon(t as int, tb) <= i64::MAX,
    ensures
        r == ticks_to_canon(t as int, tb),
        r >= 0,
{
    proof {
        lemma_mul_bounds(t as int, tb.num as int, i64::MAX as int, 0x7fff_ffff);
        lemma_mul_bounds(t as int * tb.num as int, CANON_PER_SEC as int,
            i64::MAX as int * 0x7fff_ffff, CANON_PER_SEC as int);
        lemma_div_pos_is_pos(t as int * tb.num as int * CANON_PER_SEC as int, tb.den as int);
        lemma_div_nonincreasing(t as int * tb.num as int * CANON_PER_SEC as int, tb.den as int);
    }
    let wide: i128 = t as i128 * tb.num as i128 * CANON_PER_SEC as i128 / tb.den as i128;
    wide as i64
}

/// Converts canonical units to a tick count of `tb`, truncating.
pub fn secs_to_ts(canon: i64, tb: Timebase) -> (r: i64)
    requires
        canon >= 0,
        tb.wf(),
        canon_to_ticks(canon as int, tb) <= i64::MAX,
    ensures
        r == canon_to_ticks(canon as int, tb),
        r >= 0,
{
    proof {
        lemma_mul_bounds(canon as int, tb.den as int, i64::MAX as int, 0x7fff_ffff);
        lemma_mul_bounds(tb.num as int, CANON_PER_SEC as int, 0x7fff_ffff, CANON_PER_SEC as int);
        lemma_div_pos_is_pos(canon as int * tb.den as int, tb.num as int * CANON_PER_SEC as int);
    }
    let wide: i128 = canon as i128 * tb.den as i128 / (tb.num as i128 * CANON_PER_SEC as i128);
    wide as i64
}

/// Ticks of `to` equivalent to `ts` ticks of `from`, over the rationals
/// directly with one truncation.
pub open spec fn convert_ticks(ts: int, from: Timebase, to: Timebase) -> int {
    ts * from.num * to.den / (from.den as int * to.num as int)
}

/// Re-expresses a tick count of `from` in ticks of `to` directly over
/// the rationals, truncating once; between equal timebases this is the
/// exact identity.
pub fn convert_timebase(ts: i64, from: Timebase, to: Timebase) -> (r: i64)
    requires
        ts >= 0,
        from.wf(),
        to.wf(),
        convert_ticks(ts as int, from, to) <= i64::MAX,
    ensures
        r == convert_ticks(ts as int, from, to),
        r >= 0,
{
    proof {
        lemma_mul_bounds(ts as int, from.num as int, i64::MAX as int, 0x7fff_ffff);
        lemma_mul_bounds(ts as int * from.num as int, to.den as int,
            i64::MAX as int * 0x7fff_ffff, 0x7fff_ffff);
        lemma_mul_bounds(from.den as int, to.num as int, 0x7fff_ffff, 0x7fff_ffff);
        assert(from.den as int * to.num as int >= 1) by (nonlinear_arith)
            requires
                from.den as int >= 1,
                to.num as int >= 1,
        ;
        lemma_div_pos_is_pos(ts as int * from.num as int * to.den as int,
            from.den as int * to.num as int);
    }
    let wide: i128 = ts as i128 * from.num as i128 * to.den as i128 / (from.den as i128
        * to.num as i128);
    wide as i64
}

/// Converting a tick count between equal timebases returns it unchanged.
pub proof fn lemma_convert_identity(ts: int, tb: Timebase)
    requires
        ts >= 0,
        tb.wf(),
    ensures
        convert_ticks(ts, tb, tb) == ts,
{
    let n = tb.num as int;
    let d = tb.den as int;
    let nd = d * n;
    assert(nd >= 1) by (nonlinear_arith)
        requires
            n >= 1,
            d >= 1,
            nd == d * n,
    ;
    assert(ts * n * d == nd * ts) by (nonlinear_arith)
        requires
            nd == d * n,
    ;
    lemma_div_multiples_vanish(ts, nd);
}

/// Converting ticks to canonical units and back loses at most one tick,
/// whenever one tick lasts at least one canonical unit (a timebase no
/// finer than 1/2^20 second).
pub proof fn lemma_tick_round_trip(t: int, tb: Timebase)
    requires
        t >= 0,
        tb.wf(),
        tb.den <= tb.num * CANON_PER_SEC,
    ensures
        t - 1 <= canon_to_ticks(ticks_to_canon(t, tb), tb) <= t,
{
    let n = tb.num as int;
    let d = tb.den as int;
    let big = n * CANON_PER_SEC as int;
    assert(1 <= d <= big && big >= 2) by (nonlinear_arith)
        requires
            1 <= d,
            d <= n * CANON_PER_SEC as int,
            big == n * CANON_PER_SEC as int,
            n >= 1,
    ;
    let c = ticks_to_canon(t, tb);
    let back = canon_to_ticks(c, tb);
    assert(t * n * CANON_PER_SEC as int == t * big) by (nonlinear_arith)
        requires
            big == n * CANON_PER_SEC as int,
    ;
    assert(c == t * big / d);
    lemma_fundamental_div_mod(t * big, d);
    lemma_mod_bound(t * big, d);
    // c * d lies within (t*big - d, t*big]
    let m = (t * big) % d;
    assert(c * d == t * big - m) by (nonlinear_arith)
        requires
            t * big == d * c + m,
    ;
    // upper bound: back == (c*d)/big <= (t*big)/big == t
    lemma_div_is_ordered(c * d, t * big, big);
    lemma_div_multiples_vanish(t, big);
    assert(big * t == t * big) by (nonlinear_arith);
    assert(back == c * d / big);
    // lower bound: c*d >= t*big - d + 1 >= big*(t-1) + 1, so back >= t - 1
    assert(big * (t - 1) == t * big - big) by (nonlinear_arith);
    assert(big * (t - 1) + 1 <= c * d) by (nonlinear_arith)
        requires
            c * d == t * big - m,
            m < d,
            d <= big,
            big * (t - 1) == t * big - big,
    ;
    lemma_div_is_ordered(big * (t - 1) + 1, c * d, big);
    assert(big * (t - 1) + 1 == (t - 1) * big + 1) by (nonlinear_arith);
    vstd::arithmetic::div_mod::lemma_fundamental_div_mod_converse(
        big * (t - 1) + 1,
        big,
        t - 1,
        1,
    );
}

/// The decimal digit character of `d`.
pub open spec fn digit_char(d: int) -> char {
    if d == 0 {
        '0'
    } else if d == 1 {
        '1'
    } else if d == 2 {
        '2'
    } else if d == 3 {
        '3'
    } else if d == 4 {
        '4'
    } else if d == 5 {
        '5'
    } else if d == 6 {
        '6'
    } else if d == 7 {
        '7'
    } else if d == 8 {
        '8'
    } else {
        '9'
    }
}

/// Decimal digits of `n`, most significant first.
pub open spec fn dec_chars(n: int) -> Seq<char>
    decreases n,
{
    if n < 10 {
        seq![digit_char(n)]
    } else {
        dec_chars(n / 10).push(digit_char(n % 10))
    }
}

/// Decimal digits, zero-padded on the left to at least two.
pub open spec fn padded2_chars(n: int) -> Seq<char> {
    if n < 10 {
        seq!['0'] + dec_chars(n)
    } else {
        dec_chars(n)
    }
}

/// A duration in whole seconds rendered as hours, minutes and seconds,
/// each zero-padded to at least two digits, separated by colons.
pub open spec fn format_seconds_spec(s: int) -> Seq<char> {
    padded2_chars(s / 3600) + seq![':'] + padded2_chars(s / 60 % 60) + seq![':'] + padded2_chars(
        s % 60,
    )
}

/// One decimal digit as a string slice.
fn digit_str(d: u64) -> (r: &'static str)
    requires
        d < 10,
    ensures
        r@ == seq![digit_char(d as int)],
{
    proof {
        reveal_strlit("0");
        reveal_strlit("1");
        reveal_strlit("2");
        reveal_strlit("3");
        reveal_strlit("4");
        reveal_strlit("5");
        reveal_strlit("6");
        reveal_strlit("7");
        reveal_strlit("8");
        reveal_strlit("9");
    }
    match d {
        0 => "0",
        1 => "1",
        2 => "2",
        3 => "3",
        4 => "4",
        5 => "5",
        6 => "6",
        7 => "7",
        8 => "8",
        _ => "9",
    }
}

/// Appends the decimal rendering of `n`.
fn append_decimal(s: &mut String, n: u64)
    ensures
        final(s)@ == old(s)@ + dec_chars(n as int),
    decreases n,
{
    if n >= 10 {
        append_decimal(s, n / 10);
    }
    s.append(digit_str(n % 10));
    proof {
        if n >= 10 {
            assert(s@ =~= old(s)@ + dec_chars(n as int));
        } else {
            assert(s@ =~= old(s)@ + dec_chars(n as int));
        }
    }
}

/// Appends a decimal rendering zero-padded to at least two digits.
fn append_padded2(s: &mut String, n: u64)
    ensures
        final(s)@ == old(s)@ + padded2_chars(n as int),
{
    if n < 10 {
        proof {
            reveal_strlit("0");
        }
        s.append("0");
    }
    append_decimal(s, n);
    proof {
        assert(s@ =~= old(s)@ + padded2_chars(n as int));
    }
}

/// Renders a non-negative duration in whole seconds as `hh:mm:ss`
/// (hours take more digits when they need them).
pub fn format_seconds(seconds: i64) -> (r: String)
    requires
        seconds >= 0,
    ensures
        r@ == format_seconds_spec(seconds as int),
{
    let total = seconds as u64;
    let hours = total / 3600;
    let minutes = total / 60 % 60;
    let secs = total % 60;
    proof {
        reveal_strlit("");
        reveal_strlit(":");
    }
    let mut out = String::from_str("");
    append_padded2(&mut out, hours);
    out.append(":");
    append_padded2(&mut out, minutes);
    out.append(":");
    append_padded2(&mut out, secs);
    proof {
        assert(out@ =~= format_seconds_spec(seconds as int));
    }
    out
}

} // verus!
