use crate::beat_time::BeatTime;
use crate::decimal::FixedDecimal;
use crate::output_record::{MtxtOutputRecord, OutputView};
use crate::process::{insert_by_end, ir_views, sort_by_end, IntermediateRecord, IntermediateView};
use crate::transforms::offset::span_of_units;
use vstd::prelude::*;

verus! {

/// One in the fixed-point scale of fractions.
pub open spec fn unit() -> int {
    100000
}

/// Whether `r` is the integer square root of `x`.
pub open spec fn is_isqrt(x: int, r: int) -> bool {
    0 <= r && r * r <= x < (r + 1) * (r + 1)
}

/// The integer square root.
pub open spec fn isqrt(x: int) -> int {
    choose|r: int| #[trigger] is_isqrt(x, r)
}

proof fn lemma_isqrt_unique(x: int, a: int, b: int)
    requires
        is_isqrt(x, a),
        is_isqrt(x, b),
    ensures
        a == b,
{
    if a < b {
        assert((a + 1) * (a + 1) <= b * b) by (nonlinear_arith)
            requires
                0 <= a < b,
        ;
    } else if b < a {
        assert((b + 1) * (b + 1) <= a * a) by (nonlinear_arith)
            requires
                0 <= b < a,
        ;
    }
}

/// `u` (a fraction in 1/100000) raised to the power 2^n by squaring, each step
/// rounded down.
pub open spec fn square_n(u: int, n: nat) -> int
    decreases n,
{
    if n == 0 {
        u
    } else {
        square_n(u * u / unit(), (n - 1) as nat)
    }
}

/// `u` raised to the power 1/2^n by square roots, each step rounded down.
pub open spec fn root_n(u: int, n: nat) -> int
    decreases n,
{
    if n == 0 {
        u
    } else {
        root_n(isqrt(u * unit()), (n - 1) as nat)
    }
}

/// The whole-number exponent of a curve, truncated and kept within -8..=8.
pub open spec fn curve_steps(c: FixedDecimal) -> int {
    let e: int = if c.units >= 0 { (c.units as int) / unit() } else { -((-(c.units as int)) / unit()) };
    if e > 8 { 8 } else if e < -8 { -8 } else { e }
}

/// The curve shape `u^(2^c)` for a fraction `u` of the transition, with the
/// exponent `c` taken to a whole number (see `curve_steps`).
pub open spec fn shape(c: FixedDecimal, u: int) -> int {
    let e = curve_steps(c);
    if e >= 0 { square_n(u, e as nat) } else { root_n(u, (-e) as nat) }
}

fn isqrt_exec(x: u64) -> (r: u64)
    requires
        x <= 10_000_000_000,
    ensures
        is_isqrt(x as int, r as int),
        r <= 100000,
{
    let mut lo: u64 = 0;
    let mut hi: u64 = 100001;
    assert(100001 * 100001 > 10_000_000_000int);
    while hi - lo > 1
        invariant
            lo < hi <= 100001,
            lo * lo <= x,
            x < hi * hi,
        decreases hi - lo,
    {
        let mid = lo + (hi - lo) / 2;
        assert(mid * mid <= 100001 * 100001) by (nonlinear_arith)
            requires
                mid <= 100001,
        ;
        if mid * mid <= x {
            lo = mid;
        } else {
            hi = mid;
        }
    }
    assert(hi == lo + 1);
    lo
}

proof fn lemma_square_range(u: int)
    requires
        0 <= u <= unit(),
    ensures
        0 <= u * u / unit() <= unit(),
{
    assert(0 <= u * u <= unit() * unit()) by (nonlinear_arith)
        requires
            0 <= u <= unit(),
    ;
    vstd::arithmetic::div_mod::lemma_div_pos_is_pos(u * u, unit());
    vstd::arithmetic::div_mod::lemma_div_is_ordered(u * u, unit() * unit(), unit());
    vstd::arithmetic::div_mod::lemma_div_multiples_vanish(unit(), unit());
}

proof fn lemma_root_range(u: int, r: int)
    requires
        0 <= u <= unit(),
        is_isqrt(u * unit(), r),
    ensures
        0 <= r <= unit(),
{
    assert(r <= unit()) by (nonlinear_arith)
        requires
            r * r <= u * unit(),
            0 <= u <= unit(),
            r >= 0,
            unit() == 100000,
    ;
}

fn square_n_exec(u: u64, n: u32) -> (r: u64)
    requires
        u <= 100000,
    ensures
        r == square_n(u as int, n as nat),
        r <= 100000,
    decreases n,
{
    if n == 0 {
        u
    } else {
        proof {
            lemma_square_range(u as int);
        }
        square_n_exec(u * u / 100000, n - 1)
    }
}

fn root_n_exec(u: u64, n: u32) -> (r: u64)
    requires
        u <= 100000,
    ensures
        r == root_n(u as int, n as nat),
        r <= 100000,
    decreases n,
{
    if n == 0 {
        u
    } else {
        let s = isqrt_exec(u * 100000);
        proof {
            let c = isqrt(u * 100000);
            assert(is_isqrt(u * 100000, s as int));
            lemma_isqrt_unique(u * 100000, c, s as int);
            lemma_root_range(u as int, s as int);
        }
        root_n_exec(s, n - 1)
    }
}

/// The curve shape (see `shape`) of a fraction in 0..=100000.
pub fn shape_exec(c: FixedDecimal, u: u64) -> (r: u64)
    requires
        u <= 100000,
    ensures
        r == shape(c, u as int),
        r <= 100000,
{
    let e: i64 = if c.units >= 0 { c.units / 100000 } else { -((-(c.units as i128)) / 100000) as i64 };
    let e = if e > 8 { 8 } else if e < -8 { -8 } else { e };
    assert(e == curve_steps(c));
    if e >= 0 {
        square_n_exec(u, e as u32)
    } else {
        root_n_exec(u, (-e) as u32)
    }
}

/// The parameter a record moves: a controller of a channel, or the tempo.
pub open spec fn param_of(r: OutputView) -> Option<(int, Seq<char>)> {
    match r {
        OutputView::ControlChange { channel, controller, .. } => Some((channel as int, controller)),
        OutputView::Tempo { .. } => Some((-1, Seq::empty())),
        _ => None,
    }
}

pub open spec fn value_of(r: OutputView) -> FixedDecimal {
    match r {
        OutputView::ControlChange { value, .. } => value,
        OutputView::Tempo { bpm, .. } => bpm,
        _ => FixedDecimal { units: 0 },
    }
}

pub open spec fn with_value(r: OutputView, v: FixedDecimal) -> OutputView {
    match r {
        OutputView::ControlChange { time, note, controller, channel, .. } => OutputView::ControlChange { time, note, controller, value: v, channel },
        OutputView::Tempo { time, .. } => OutputView::Tempo { time, bpm: v },
        _ => r,
    }
}

/// The value `sh` (a fraction in 1/100000) of the way from `a` to `b`, rounded down.
pub open spec fn lerp(a: i64, b: i64, sh: int) -> i64 {
    (a + (b - a) * sh / unit()) as i64
}

/// Beat units between points of a transition.
pub open spec fn step_span(i: FixedDecimal) -> int {
    if i.units <= 0 { 0 } else { span_of_units(i.units as nat).repr as int }
}

/// Whether a record is densified: it moves a parameter over a positive time
/// at a positive interval, and the parameter had a value before.
pub open spec fn densified(ir: IntermediateView, prev: Option<FixedDecimal>) -> bool {
    ir.transition_time.repr > 0 && step_span(ir.interval) > 0 && param_of(ir.record) is Some && prev is Some
        && ir.start.repr + ir.transition_time.repr == ir.end.repr
}

/// The `k`-th step (from 1) of a densified transition.
pub open spec fn step_point(ir: IntermediateView, from: FixedDecimal, k: int) -> IntermediateView {
    point_at(ir, ir.start.repr + k * step_span(ir.interval), step_value(ir, from, k))
}

/// A point of a transition at beat `p` with value `v`.
pub open spec fn point_at(ir: IntermediateView, p: int, v: FixedDecimal) -> IntermediateView {
    IntermediateView {
        start: BeatTime { repr: p as u64 },
        end: BeatTime { repr: p as u64 },
        record: with_value(ir.record, v),
        curve: FixedDecimal { units: 0 },
        transition_time: BeatTime { repr: 0 },
        interval: FixedDecimal { units: 0 },
    }
}

/// Value of the transition after `k` steps, from `from`.
pub open spec fn step_value(ir: IntermediateView, from: FixedDecimal, k: int) -> FixedDecimal {
    let t = ir.transition_time.repr as int;
    let u = k * step_span(ir.interval) * unit() / t;
    FixedDecimal { units: lerp(from.units, value_of(ir.record).units, shape(ir.curve, u)) }
}

/// Steps strictly inside the transition before the cut.
pub open spec fn inner_steps(ir: IntermediateView, cut: Option<u64>) -> int {
    let n = ir.transition_time.repr as int / step_span(ir.interval);
    let all = if n >= 1 { n - 1 } else { 0 };
    match cut {
        None => all,
        Some(c) => {
            let room = c - ir.start.repr;
            if room <= 0 {
                0
            } else {
                let below = (room - 1) / step_span(ir.interval);
                if below < all { below } else { all }
            }
        },
    }
}

/// The points of one record: unchanged where it is not densified; else the
/// steps of its transition (before the cut, if a later change of the same
/// parameter starts inside it) and, where not cut, its end point.
pub open spec fn points_of(ir: IntermediateView, prev: Option<FixedDecimal>, cut: Option<u64>) -> Seq<IntermediateView> {
    if !densified(ir, prev) {
        seq![ir]
    } else {
        let from = prev->Some_0;
        let m = inner_steps(ir, cut);
        Seq::new(m as nat, |k: int| step_point(ir, from, k + 1))
            + if cut is None { seq![point_at(ir, ir.end.repr as int, value_of(ir.record))] } else { Seq::empty() }
    }
}

/// The value the parameter keeps after the record's points.
pub open spec fn last_value(ir: IntermediateView, prev: Option<FixedDecimal>, cut: Option<u64>) -> Option<FixedDecimal> {
    if !densified(ir, prev) {
        Some(value_of(ir.record))
    } else if cut is None {
        Some(value_of(ir.record))
    } else if inner_steps(ir, cut) > 0 {
        Some(step_value(ir, prev->Some_0, inner_steps(ir, cut)))
    } else {
        prev
    }
}

/// Start of the first later change of the same parameter that starts inside
/// the transition of `irs[i]`, searching from `j`.
pub open spec fn cut_from(irs: Seq<IntermediateView>, i: int, j: int) -> Option<u64>
    decreases irs.len() - j,
{
    if j < 0 || j >= irs.len() || i < 0 || i >= irs.len() {
        None
    } else if param_of(irs[j].record) == param_of(irs[i].record) && irs[i].start.repr < irs[j].start.repr
        && irs[j].start.repr < irs[i].end.repr {
        Some(irs[j].start.repr)
    } else {
        cut_from(irs, i, j + 1)
    }
}

pub type ParamValues = Seq<((int, Seq<char>), FixedDecimal)>;

pub open spec fn lookup_value(vals: ParamValues, p: (int, Seq<char>)) -> Option<FixedDecimal>
    decreases vals.len(),
{
    if vals.len() == 0 {
        None
    } else if vals.last().0 == p {
        Some(vals.last().1)
    } else {
        lookup_value(vals.drop_last(), p)
    }
}

pub open spec fn prev_of(vals: ParamValues, r: OutputView) -> Option<FixedDecimal> {
    match param_of(r) {
        Some(p) => lookup_value(vals, p),
        None => None,
    }
}

pub open spec fn next_values(vals: ParamValues, ir: IntermediateView, cut: Option<u64>) -> ParamValues {
    match (param_of(ir.record), last_value(ir, prev_of(vals, ir.record), cut)) {
        (Some(p), Some(v)) => vals.push((p, v)),
        _ => vals,
    }
}

/// The points of records `i..` in order.
pub open spec fn dense_from(irs: Seq<IntermediateView>, i: int, vals: ParamValues) -> Seq<IntermediateView>
    decreases irs.len() - i,
{
    if i < 0 || i >= irs.len() {
        Seq::empty()
    } else {
        let cut = cut_from(irs, i, i + 1);
        points_of(irs[i], prev_of(vals, irs[i].record), cut) + dense_from(irs, i + 1, next_values(vals, irs[i], cut))
    }
}

/// Transitions of records sorted by end time turned into points, then sorted
/// by end time again.
pub open spec fn densify_spec(irs: Seq<IntermediateView>) -> Seq<IntermediateView> {
    sort_by_end(dense_from(irs, 0, Seq::empty()))
}

/// A parameter a transition moves.
pub enum Param {
    Controller(u16, String),
    Tempo,
}

pub open spec fn param_view(p: Param) -> (int, Seq<char>) {
    match p {
        Param::Controller(c, s) => (c as int, s@),
        Param::Tempo => (-1, Seq::empty()),
    }
}

pub open spec fn opt_param_view(p: Option<Param>) -> Option<(int, Seq<char>)> {
    match p {
        Some(q) => Some(param_view(q)),
        None => None,
    }
}

fn param_exec(r: &MtxtOutputRecord) -> (p: Option<Param>)
    ensures
        match p {
            Some(q) => param_of(r@) == Some(param_view(q)),
            None => param_of(r@) is None,
        },
{
    match r {
        MtxtOutputRecord::ControlChange { channel, controller, .. } => Some(Param::Controller(*channel, controller.clone())),
        MtxtOutputRecord::Tempo { .. } => Some(Param::Tempo),
        _ => None,
    }
}

fn same_param(a: &Option<Param>, b: &Option<Param>) -> (r: bool)
    ensures
        r == (opt_param_view(*a) == opt_param_view(*b)),
{
    match (a, b) {
        (Some(Param::Controller(c1, s1)), Some(Param::Controller(c2, s2))) => *c1 == *c2 && *s1 == *s2,
        (Some(Param::Tempo), Some(Param::Tempo)) => true,
        (None, None) => true,
        (Some(Param::Controller(c, s)), Some(Param::Tempo)) => {
            assert((c as int) >= 0);
            false
        },
        (Some(Param::Tempo), Some(Param::Controller(c, s))) => {
            assert((c as int) >= 0);
            false
        },
        _ => false,
    }
}

fn with_value_exec(r: &MtxtOutputRecord, v: FixedDecimal) -> (o: MtxtOutputRecord)
    ensures
        o@ == with_value(r@, v),
{
    match r {
        MtxtOutputRecord::ControlChange { time, note, controller, channel, .. } => MtxtOutputRecord::ControlChange {
            time: *time,
            note: *note,
            controller: controller.clone(),
            value: v,
            channel: *channel,
        },
        MtxtOutputRecord::Tempo { time, .. } => MtxtOutputRecord::Tempo { time: *time, bpm: v },
        _ => r.copy(),
    }
}

fn value_exec(r: &MtxtOutputRecord) -> (v: FixedDecimal)
    ensures
        v == value_of(r@),
{
    match r {
        MtxtOutputRecord::ControlChange { value, .. } => *value,
        MtxtOutputRecord::Tempo { bpm, .. } => *bpm,
        _ => FixedDecimal { units: 0 },
    }
}

proof fn lemma_lerp_range(a: int, b: int, sh: int)
    requires
        0 <= sh <= unit(),
    ensures
        a <= b ==> a <= a + (b - a) * sh / unit() <= b,
        b < a ==> b <= a + (b - a) * sh / unit() <= a,
{
    let d = b - a;
    vstd::arithmetic::div_mod::lemma_div_multiples_vanish(d, unit());
    vstd::arithmetic::div_mod::lemma_div_multiples_vanish(0, unit());
    if d >= 0 {
        assert(0 <= d * sh <= d * unit()) by (nonlinear_arith)
            requires
                d >= 0,
                0 <= sh <= unit(),
        ;
        vstd::arithmetic::div_mod::lemma_div_is_ordered(0, d * sh, unit());
        vstd::arithmetic::div_mod::lemma_div_is_ordered(d * sh, d * unit(), unit());
        assert(d * unit() == unit() * d) by (nonlinear_arith);
    } else {
        assert(d * unit() <= d * sh <= 0) by (nonlinear_arith)
            requires
                d < 0,
                0 <= sh <= unit(),
        ;
        vstd::arithmetic::div_mod::lemma_div_is_ordered(d * sh, 0, unit());
        vstd::arithmetic::div_mod::lemma_div_is_ordered(d * unit(), d * sh, unit());
        assert(d * unit() == unit() * d) by (nonlinear_arith);
    }
}

fn lerp_exec(a: i64, b: i64, sh: u64) -> (r: i64)
    requires
        sh <= 100000,
    ensures
        r == lerp(a, b, sh as int),
{
    let diff: i128 = b as i128 - a as i128;
    assert(-0x1_0000_0000_0000_0000i128 * 100000 <= diff * sh <= 0x1_0000_0000_0000_0000i128 * 100000) by (nonlinear_arith)
        requires
            -0x1_0000_0000_0000_0000i128 <= diff <= 0x1_0000_0000_0000_0000i128,
            0 <= sh <= 100000,
    ;
    let d: i128 = diff * (sh as i128);
    let k: i128 = 0x2_0000_0000_0000_0000;
    let shifted: u128 = (d + 100000 * k) as u128;
    let q: i128 = (shifted / 100000) as i128 - k;
    proof {
        vstd::arithmetic::div_mod::lemma_fundamental_div_mod(shifted as int, 100000);
        let r = shifted as int % 100000;
        assert(d == 100000 * q + r);
        vstd::arithmetic::div_mod::lemma_div_multiples_vanish_fancy(q as int, r, 100000);
        lemma_lerp_range(a as int, b as int, sh as int);
    }
    (a as i128 + q) as i64
}

fn step_value_exec(ir: &IntermediateRecord, from: FixedDecimal, k: u64, span: u64) -> (v: FixedDecimal)
    requires
        span == step_span(ir.transition_interval),
        span > 0,
        ir.transition_time.repr > 0,
        k * span <= ir.transition_time.repr,
    ensures
        v == step_value(ir@, from, k as int),
{
    let t = ir.transition_time.repr as u128;
    let num: u128 = (k as u128) * (span as u128) * 100000;
    let u = num / t;
    assert(u <= 100000) by (nonlinear_arith)
        requires
            u == (num as int) / (t as int),
            num == k * span * 100000,
            k * span <= t,
            t > 0,
    ;
    let sh = shape_exec(ir.transition_curve, u as u64);
    FixedDecimal { units: lerp_exec(from.units, value_exec(&ir.record).units, sh) }
}

fn point_exec(ir: &IntermediateRecord, p: u64, v: FixedDecimal) -> (r: IntermediateRecord)
    ensures
        r@ == point_at(ir@, p as int, v),
{
    IntermediateRecord {
        start_beat_time: BeatTime { repr: p },
        end_beat_time: BeatTime { repr: p },
        record: with_value_exec(&ir.record, v),
        transition_curve: FixedDecimal { units: 0 },
        transition_time: BeatTime { repr: 0 },
        transition_interval: FixedDecimal { units: 0 },
    }
}

fn copy_ir(ir: &IntermediateRecord) -> (r: IntermediateRecord)
    ensures
        r@ == ir@,
{
    IntermediateRecord {
        start_beat_time: ir.start_beat_time,
        end_beat_time: ir.end_beat_time,
        record: ir.record.copy(),
        transition_curve: ir.transition_curve,
        transition_time: ir.transition_time,
        transition_interval: ir.transition_interval,
    }
}

fn step_span_exec(i: FixedDecimal) -> (r: u64)
    ensures
        r == step_span(i),
{
    if i.units <= 0 {
        0
    } else {
        crate::transforms::offset::span_of(i).repr
    }
}

/// Appends the points of one record (see `points_of`) and returns the value the
/// parameter keeps (see `last_value`).
fn points_for(ir: &IntermediateRecord, prev: Option<FixedDecimal>, cut: Option<u64>, out: &mut Vec<IntermediateRecord>) -> (last: Option<FixedDecimal>)
    requires
        cut matches Some(c) ==> c < ir.end_beat_time.repr,
    ensures
        ir_views(final(out)@) == ir_views(old(out)@) + points_of(ir@, prev, cut),
        last == last_value(ir@, prev, cut),
{
    let ghost start = ir_views(out@);
    let span = step_span_exec(ir.transition_interval);
    let is_param = match &ir.record {
        MtxtOutputRecord::ControlChange { .. } => true,
        MtxtOutputRecord::Tempo { .. } => true,
        _ => false,
    };
    if !(ir.transition_time.repr > 0 && span > 0 && is_param && prev.is_some()
        && ir.start_beat_time.repr as u128 + ir.transition_time.repr as u128 == ir.end_beat_time.repr as u128) {
        out.push(copy_ir(ir));
        assert(ir_views(out@) =~= start + seq![ir@]);
        return Some(value_exec(&ir.record));
    }
    let from = prev.unwrap();
    let t = ir.transition_time.repr;
    let n = t / span;
    let all = if n >= 1 { n - 1 } else { 0 };
    let m: u64 = match cut {
        None => all,
        Some(c) => {
            if c <= ir.start_beat_time.repr {
                0
            } else {
                let below = (c - ir.start_beat_time.repr - 1) / span;
                if below < all { below } else { all }
            }
        },
    };
    assert(m == inner_steps(ir@, cut));
    assert(m * span <= t) by (nonlinear_arith)
        requires
            m <= all,
            all <= n,
            n == t / span,
            span > 0,
    ;
    let mut k: u64 = 0;
    let mut last = from;
    while k < m
        invariant
            k <= m,
            m * span <= t,
            t == ir.transition_time.repr,
            span == step_span(ir.transition_interval),
            span > 0,
            t > 0,
            densified(ir@, prev),
            from == prev->Some_0,
            ir_views(out@) == start + Seq::new(k as nat, |j: int| step_point(ir@, from, j + 1)),
            k > 0 ==> last == step_value(ir@, from, k as int),
            k == 0 ==> last == from,
        decreases m - k,
    {
        assert((k + 1) * span <= m * span) by (nonlinear_arith)
            requires
                k < m,
                span > 0,
        ;
        let v = step_value_exec(ir, from, k + 1, span);
        assert(ir.start_beat_time.repr + (k + 1) * span <= ir.end_beat_time.repr);
        let p = ir.start_beat_time.repr + (k + 1) * span;
        let ghost before = ir_views(out@);
        let pt = point_exec(ir, p, v);
        assert(pt@ == step_point(ir@, from, k + 1));
        let ghost pv = pt@;
        out.push(pt);
        assert(ir_views(out@) =~= before.push(pv));
        assert(Seq::new((k + 1) as nat, |j: int| step_point(ir@, from, j + 1)) =~= Seq::new(k as nat, |j: int| step_point(ir@, from, j + 1)).push(step_point(ir@, from, k + 1)));
        assert(ir_views(out@) =~= start + Seq::new((k + 1) as nat, |j: int| step_point(ir@, from, j + 1)));
        last = v;
        k += 1;
    }
    if cut.is_none() {
        let ghost before = ir_views(out@);
        out.push(point_exec(ir, ir.end_beat_time.repr, value_exec(&ir.record)));
        assert(ir_views(out@) =~= before + seq![point_at(ir@, ir@.end.repr as int, value_of(ir@.record))]);
        Some(value_exec(&ir.record))
    } else {
        assert(ir_views(out@) =~= start + points_of(ir@, prev, cut));
        if m > 0 { Some(last) } else { prev }
    }
}

fn find_cut(irs: &Vec<IntermediateRecord>, i: usize) -> (r: Option<u64>)
    requires
        i < irs.len(),
    ensures
        r == cut_from(ir_views(irs@), i as int, i + 1),
        r matches Some(c) ==> c < irs@[i as int].end_beat_time.repr,
{
    let ghost iv = ir_views(irs@);
    let pi = param_exec(&irs[i].record);
    let s = irs[i].start_beat_time.repr;
    let e = irs[i].end_beat_time.repr;
    let mut j = i + 1;
    while j < irs.len()
        invariant
            i < j <= irs.len(),
            iv == ir_views(irs@),
            opt_param_view(pi) == param_of(iv[i as int].record),
            s == iv[i as int].start.repr,
            e == iv[i as int].end.repr,
            cut_from(iv, i as int, j as int) == cut_from(iv, i as int, i + 1),
        decreases irs.len() - j,
    {
        assert(iv[j as int] == irs@[j as int]@);
        let pj = param_exec(&irs[j].record);
        let sj = irs[j].start_beat_time.repr;
        if same_param(&pj, &pi) && s < sj && sj < e {
            return Some(sj);
        }
        j += 1;
    }
    None
}

pub open spec fn values_view(v: Seq<(Param, FixedDecimal)>) -> ParamValues {
    v.map_values(|e: (Param, FixedDecimal)| (param_view(e.0), e.1))
}

fn lookup_exec(vals: &Vec<(Param, FixedDecimal)>, p: &Param) -> (r: Option<FixedDecimal>)
    ensures
        r == lookup_value(values_view(vals@), param_view(*p)),
{
    let ghost vv = values_view(vals@);
    let mut j = vals.len();
    assert(vv.take(j as int) == vv);
    let sp = Some(p.copy());
    while j > 0
        invariant
            j <= vals.len(),
            vv == values_view(vals@),
            opt_param_view(sp) == Some(param_view(*p)),
            lookup_value(vv.take(j as int), param_view(*p)) == lookup_value(vv, param_view(*p)),
        decreases j,
    {
        assert(vv.take(j as int).drop_last() == vv.take(j - 1));
        assert(vv.take(j as int).last() == vv[j - 1]);
        let q = Some(vals[j - 1].0.copy());
        if same_param(&q, &sp) {
            return Some(vals[j - 1].1);
        }
        j -= 1;
    }
    None
}

impl Param {
    pub fn copy(&self) -> (r: Param)
        ensures
            param_view(r) == param_view(*self),
    {
        match self {
            Param::Controller(c, s) => Param::Controller(*c, s.clone()),
            Param::Tempo => Param::Tempo,
        }
    }
}

/// Turns the transitions of point events sorted by end time into points, and
/// sorts by end time again (see `densify_spec`).
pub fn densify(irs: &Vec<IntermediateRecord>) -> (r: Vec<IntermediateRecord>)
    ensures
        ir_views(r@) == densify_spec(ir_views(irs@)),
{
    let ghost iv = ir_views(irs@);
    let mut vals: Vec<(Param, FixedDecimal)> = Vec::new();
    let mut out: Vec<IntermediateRecord> = Vec::new();
    let mut i: usize = 0;
    assert(values_view(vals@) =~= Seq::<((int, Seq<char>), FixedDecimal)>::empty());
    assert(ir_views(out@) =~= Seq::<IntermediateView>::empty());
    while i < irs.len()
        invariant
            i <= irs.len(),
            iv == ir_views(irs@),
            ir_views(out@) + dense_from(iv, i as int, values_view(vals@)) == dense_from(iv, 0, Seq::empty()),
        decreases irs.len() - i,
    {
        let ir = &irs[i];
        assert(iv[i as int] == ir@);
        let cut = find_cut(irs, i);
        let p = param_exec(&ir.record);
        let prev = match &p {
            Some(q) => lookup_exec(&vals, q),
            None => None,
        };
        assert(prev == prev_of(values_view(vals@), ir@.record));
        let ghost before = ir_views(out@);
        let ghost vbefore = values_view(vals@);
        let last = points_for(ir, prev, cut, &mut out);
        match (p, last) {
            (Some(q), Some(v)) => {
                vals.push((q, v));
                assert(values_view(vals@) =~= vbefore.push((param_view(q), v)));
            },
            _ => {},
        }
        assert(values_view(vals@) == next_values(vbefore, ir@, cut));
        assert(ir_views(out@) + dense_from(iv, i + 1, values_view(vals@)) =~= before + dense_from(iv, i as int, vbefore));
        i += 1;
    }
    assert(ir_views(out@) + Seq::<IntermediateView>::empty() == ir_views(out@));
    let ghost all = ir_views(out@);
    let mut sorted: Vec<IntermediateRecord> = Vec::new();
    let mut rest = out;
    let mut k: usize = 0;
    let total = rest.len();
    assert(all.skip(0) == all);
    assert(ir_views(sorted@) =~= sort_by_end(all.take(0)));
    while rest.len() > 0
        invariant
            ir_views(rest@) == all.skip(k as int),
            k + rest.len() == all.len(),
            all.len() == total,
            ir_views(sorted@) == sort_by_end(all.take(k as int)),
        decreases rest.len(),
    {
        let ghost rv = rest@;
        let e = rest.remove(0);
        assert(e == rv[0]);
        assert(ir_views(rv)[0] == e@);
        assert(all.skip(k as int)[0] == all[k as int]);
        assert forall|j: int| 0 <= j < rest@.len() implies (#[trigger] rest@[j])@ == all.skip(k + 1)[j] by {
            assert(rest@[j] == rv[j + 1]);
            assert(ir_views(rv)[j + 1] == rv[j + 1]@);
        }
        assert(ir_views(rest@) =~= all.skip(k + 1));
        assert(all.take(k + 1).drop_last() == all.take(k as int));
        assert(all.take(k + 1).last() == e@);
        crate::process::insert_by_end_exec(&mut sorted, e);
        k += 1;
    }
    assert(all.take(all.len() as int) == all);
    sorted
}

} // verus!
