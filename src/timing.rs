//! Timestamps and the exact rational rescaling between timebases.
use vstd::prelude::*;

verus! {

/// A timebase: one tick lasts `num / den` seconds.
#[derive(Debug, Clone, Copy, PartialEq, Eq, Structural)]
pub struct Timebase {
    pub num: i32,
    pub den: i32,
}

impl Timebase {
    /// A tick of positive length.
    pub open spec fn valid(&self) -> bool {
        self.num > 0 && self.den > 0
    }
}

/// Timestamp `ts`, counted in ticks of `from`, counted in ticks of `to`,
/// rounded down.
pub open spec fn rescaled(ts: int, from: Timebase, to: Timebase) -> int {
    (ts * from.num * to.den) / (from.den * to.num)
}

/// Converts a timestamp from ticks of `from` to ticks of `to`, exactly and
/// rounded down; `None` when the result does not fit in an `i64`.
pub fn rescale_ts(ts: i64, from: Timebase, to: Timebase) -> (r: Option<i64>)
    requires
        from.valid(),
        to.valid(),
    ensures
        r is None <==> !(i64::MIN <= rescaled(ts as int, from, to) <= i64::MAX),
        r matches Some(v) ==> v == rescaled(ts as int, from, to),
{
    let ghost n = ts as int * from.num as int * to.den as int;
    let ghost d = from.den as int * to.num as int;
    assert(-0x8000_0000_0000_0000 * 0x8000_0000 * 0x8000_0000 <= n <= 0x8000_0000_0000_0000 * 0x8000_0000 * 0x8000_0000)
        by (nonlinear_arith)
        requires n == ts as int * from.num as int * to.den as int, -0x8000_0000_0000_0000 <= ts as int <= 0x8000_0000_0000_0000,
            0 < from.num as int <= 0x8000_0000, 0 < to.den as int <= 0x8000_0000;
    assert(0 < d <= 0x8000_0000 * 0x8000_0000) by (nonlinear_arith)
        requires d == from.den as int * to.num as int, 0 < from.den as int <= 0x8000_0000, 0 < to.num as int <= 0x8000_0000;
    assert(-0x8000_0000_0000_0000 * 0x8000_0000 <= ts as int * from.num as int <= 0x8000_0000_0000_0000 * 0x8000_0000)
        by (nonlinear_arith)
        requires -0x8000_0000_0000_0000 <= ts as int <= 0x8000_0000_0000_0000, 0 < from.num as int <= 0x8000_0000;
    let num: i128 = ts as i128 * from.num as i128 * to.den as i128;
    let den: i128 = from.den as i128 * to.num as i128;
    let q: i128 = if num >= 0 {
        (num as u128 / den as u128) as i128
    } else {
        let mag: u128 = (0 - num) as u128;
        let up: u128 = (mag + den as u128 - 1) / den as u128;
        proof {
            lemma_floor_of_negative(mag as int, den as int);
        }
        0 - up as i128
    };
    if q < i64::MIN as i128 || q > i64::MAX as i128 {
        None
    } else {
        Some(q as i64)
    }
}

/// Rounding `-mag / d` down is rounding `mag / d` up, negated.
proof fn lemma_floor_of_negative(mag: int, d: int)
    requires
        mag > 0,
        d > 0,
    ensures
        (0 - mag) / d == 0 - (mag + d - 1) / d,
        (mag + d - 1) / d <= mag,
{
    let u = (mag + d - 1) / d;
    let r = (mag + d - 1) % d;
    vstd::arithmetic::div_mod::lemma_fundamental_div_mod(mag + d - 1, d);
    assert(u * d == mag + d - 1 - r);
    assert(0 - mag == (0 - u) * d + (d - 1 - r)) by (nonlinear_arith)
        requires u * d == mag + d - 1 - r;
    vstd::arithmetic::div_mod::lemma_fundamental_div_mod_converse(0 - mag, d, 0 - u, d - 1 - r);
    assert(u <= mag) by (nonlinear_arith)
        requires u * d == mag + d - 1 - r, 0 <= r, d >= 1, mag >= 1;
}

/// Rescaling out and back never moves a timestamp later; and when the first
/// rescaling is exact (no rounding), the timestamp comes back unchanged, so
/// rounding happens in at most one of the two directions.
pub proof fn lemma_rescale_round_trip(ts: int, a: Timebase, b: Timebase)
    requires
        a.valid(),
        b.valid(),
    ensures
        rescaled(rescaled(ts, a, b), b, a) <= ts,
        (ts * a.num * b.den) % (a.den * b.num) == 0 ==> rescaled(rescaled(ts, a, b), b, a) == ts,
{
    let n = a.num * b.den;
    let d = a.den * b.num;
    assert(n > 0 && d > 0) by (nonlinear_arith)
        requires n == a.num * b.den, d == a.den * b.num, a.num > 0, a.den > 0, b.num > 0, b.den > 0;
    let f = rescaled(ts, a, b);
    assert(ts * a.num * b.den == ts * n) by (nonlinear_arith)
        requires n == a.num * b.den;
    assert(f == (ts * n) / d);
    vstd::arithmetic::div_mod::lemma_fundamental_div_mod(ts * n, d);
    assert(f * d <= ts * n);
    let g = rescaled(f, b, a);
    assert(f * b.num * a.den == f * d) by (nonlinear_arith)
        requires d == a.den * b.num;
    assert(b.den * a.num == n) by (nonlinear_arith)
        requires n == a.num * b.den;
    assert(g == (f * d) / n);
    assert((f * d) / n <= (ts * n) / n) by {
        vstd::arithmetic::div_mod::lemma_div_is_ordered(f * d, ts * n, n);
    }
    vstd::arithmetic::div_mod::lemma_div_multiples_vanish(ts, n);
    assert(ts * n == n * ts) by (nonlinear_arith);
    assert((ts * n) / n == ts);
    if (ts * a.num * b.den) % (a.den * b.num) == 0 {
        assert((ts * n) % d == 0);
        assert(f * d == ts * n) by (nonlinear_arith)
            requires ts * n == d * f + (ts * n) % d, (ts * n) % d == 0;
        assert(g == ts);
    }
}

/// The exact rescaling of every timestamp comes back unchanged when one tick
/// of `a` is a whole number of ticks of `b`.
pub proof fn lemma_rescale_round_trip_finer(ts: int, a: Timebase, b: Timebase)
    requires
        a.valid(),
        b.valid(),
        (a.num * b.den) % (a.den * b.num) == 0,
    ensures
        rescaled(rescaled(ts, a, b), b, a) == ts,
{
    let n = a.num * b.den;
    let d = a.den * b.num;
    assert(d > 0) by (nonlinear_arith)
        requires d == a.den * b.num, a.den > 0, b.num > 0;
    let k = n / d;
    vstd::arithmetic::div_mod::lemma_fundamental_div_mod(n, d);
    assert(ts * a.num * b.den == (ts * k) * d) by (nonlinear_arith)
        requires n == a.num * b.den, n == d * k;
    vstd::arithmetic::div_mod::lemma_mod_multiples_basic(ts * k, d);
    lemma_rescale_round_trip(ts, a, b);
}

/// The timestamps of one packet: presentation and decoding time, each
/// possibly unknown, and duration.
#[derive(Debug, Clone, Copy, PartialEq, Eq, Structural)]
pub struct PacketTiming {
    pub pts: Option<i64>,
    pub dts: Option<i64>,
    pub duration: i64,
}

/// `v` fits in an `i64`.
pub open spec fn fits_i64(v: int) -> bool {
    i64::MIN <= v <= i64::MAX
}

/// A timestamp that may be unknown, rescaled.
pub open spec fn opt_rescaled(o: Option<i64>, from: Timebase, to: Timebase) -> Option<i64> {
    match o {
        Some(v) => Some(rescaled(v as int, from, to) as i64),
        None => None,
    }
}

/// A timestamp that may be unknown still fits in an `i64` once rescaled.
pub open spec fn opt_fits(o: Option<i64>, from: Timebase, to: Timebase) -> bool {
    match o {
        Some(v) => fits_i64(rescaled(v as int, from, to)),
        None => true,
    }
}

/// Every timestamp of `t` fits in an `i64` once rescaled.
pub open spec fn timing_fits(t: PacketTiming, from: Timebase, to: Timebase) -> bool {
    &&& opt_fits(t.pts, from, to)
    &&& opt_fits(t.dts, from, to)
    &&& fits_i64(rescaled(t.duration as int, from, to))
}

/// `t` with every timestamp rescaled; unknown ones stay unknown.
pub open spec fn timing_rescaled(t: PacketTiming, from: Timebase, to: Timebase) -> PacketTiming {
    PacketTiming {
        pts: opt_rescaled(t.pts, from, to),
        dts: opt_rescaled(t.dts, from, to),
        duration: rescaled(t.duration as int, from, to) as i64,
    }
}

fn rescale_opt(o: Option<i64>, from: Timebase, to: Timebase) -> (r: Option<Option<i64>>)
    requires
        from.valid(),
        to.valid(),
    ensures
        r is Some <==> opt_fits(o, from, to),
        r matches Some(v) ==> v == opt_rescaled(o, from, to),
{
    match o {
        Some(v) => match rescale_ts(v, from, to) {
            Some(w) => Some(Some(w)),
            None => None,
        },
        None => Some(None),
    }
}

/// Rescales every timestamp of a packet from ticks of `from` to ticks of
/// `to`; `None` when one of them would not fit in an `i64`.
pub fn rescale_timing(t: PacketTiming, from: Timebase, to: Timebase) -> (r: Option<PacketTiming>)
    requires
        from.valid(),
        to.valid(),
    ensures
        r is Some <==> timing_fits(t, from, to),
        r matches Some(u) ==> u == timing_rescaled(t, from, to),
{
    let pts = rescale_opt(t.pts, from, to);
    let dts = rescale_opt(t.dts, from, to);
    let duration = rescale_ts(t.duration, from, to);
    match (pts, dts, duration) {
        (Some(p), Some(d), Some(u)) => Some(PacketTiming { pts: p, dts: d, duration: u }),
        _ => None,
    }
}

} // verus!
