use crate::decimal::FixedDecimal;
use crate::text::{
    lemma_digits_prefix, parse_u32_digits, all_digits, digit_value, digits_value, is_digit, nat_text, padded_digits, pow10, trim_zeros,
};
use vstd::prelude::*;

verus! {

/// Number of sub-beat units in one beat.
pub const FRAC_BEAT_COUNT: u64 = 0x1_0000_0000;

/// Sub-beat precision kept from the fractional digits of a time's text.
pub const FRAC_DIGITS_KEPT: usize = 19;

/// Musical time in beats, as fixed point: whole beats in the upper 32 bits,
/// sub-beat units (1/2^32 of a beat) in the lower 32 bits.
#[derive(Clone, Copy, Debug, PartialEq, Eq, Structural, PartialOrd, Ord, Hash)]
pub struct BeatTime {
    pub repr: u64,
}

pub open spec fn frac_count() -> nat {
    0x1_0000_0000
}

/// Sub-beat units of the fraction `0.f`: the first digits of `f` (at most
/// `FRAC_DIGITS_KEPT` of them) scaled to 2^32 and rounded down.
pub open spec fn frac_units_of(f: Seq<char>) -> nat {
    let g = if f.len() <= FRAC_DIGITS_KEPT {
        f
    } else {
        f.take(FRAC_DIGITS_KEPT as int)
    };
    digits_value(g) * frac_count() / pow10(g.len())
}

/// `i` is the position of the first `.` in `s`.
pub open spec fn first_dot(s: Seq<char>, i: int) -> bool {
    &&& 0 <= i < s.len()
    &&& s[i] == '.'
    &&& forall|j: int| 0 <= j < i ==> s[j] != '.'
}

/// The time that the text `s` denotes: `<whole>`, `<whole>.` or `<whole>.<digits>`,
/// with `<whole>` a non-empty run of decimal digits whose value fits in 32 bits.
pub open spec fn parse_beat(s: Seq<char>) -> Option<BeatTime> {
    if exists|i: int| first_dot(s, i) {
        let i = choose|i: int| first_dot(s, i);
        let w = s.take(i);
        let f = s.skip(i + 1);
        if w.len() > 0 && all_digits(w) && all_digits(f) && digits_value(w) <= u32::MAX {
            Some(BeatTime { repr: (digits_value(w) * frac_count() + frac_units_of(f)) as u64 })
        } else {
            None
        }
    } else if s.len() > 0 && all_digits(s) && digits_value(s) <= u32::MAX {
        Some(BeatTime { repr: (digits_value(s) * frac_count()) as u64 })
    } else {
        None
    }
}

/// The time rounded to units of 1/100000 beat, half up.
pub open spec fn rounded_units(t: BeatTime) -> nat {
    (t.repr * 100000 + 0x8000_0000) as nat / frac_count()
}

/// Text of a time: whole beats, a dot, and the fraction rounded to five
/// decimals with trailing zeros dropped (one digit at least).
pub open spec fn beat_text(t: BeatTime) -> Seq<char> {
    let v = rounded_units(t);
    nat_text(v / 100000) + seq!['.'] + trim_zeros(padded_digits(v % 100000, 5))
}

impl BeatTime {
    pub open spec fn whole_spec(self) -> nat {
        self.repr as nat / frac_count()
    }

    pub open spec fn frac_spec(self) -> nat {
        self.repr as nat % frac_count()
    }

    pub fn zero() -> (r: BeatTime)
        ensures
            r.repr == 0,
    {
        BeatTime { repr: 0 }
    }

    pub fn from_units(units: u64) -> (r: BeatTime)
        ensures
            r.repr == units,
    {
        BeatTime { repr: units }
    }

    /// Whole beats and sub-beat units combined.
    pub fn from_parts(beat: u32, frac: u32) -> (r: BeatTime)
        ensures
            r.repr == beat * frac_count() + frac,
            r.whole_spec() == beat,
            r.frac_spec() == frac,
    {
        let r = BeatTime { repr: (beat as u64) * FRAC_BEAT_COUNT + (frac as u64) };
        assert(r.repr as nat / frac_count() == beat && r.repr as nat % frac_count() == frac)
            by (nonlinear_arith)
            requires
                r.repr == beat * frac_count() + frac,
                frac < frac_count(),
                frac_count() == 0x1_0000_0000,
        ;
        r
    }

    pub fn repr_beat(&self) -> (r: u64)
        ensures
            r == self.whole_spec(),
    {
        self.repr / FRAC_BEAT_COUNT
    }

    pub fn whole_beats(&self) -> (r: u64)
        ensures
            r == self.whole_spec(),
    {
        self.repr_beat()
    }

    pub fn repr_frac(&self) -> (r: u64)
        ensures
            r == self.frac_spec(),
    {
        self.repr % FRAC_BEAT_COUNT
    }

    /// Sum of two times; saturates at the largest representable time.
    pub fn add(self, other: BeatTime) -> (r: BeatTime)
        ensures
            r.repr == if self.repr + other.repr <= u64::MAX {
                self.repr + other.repr
            } else {
                u64::MAX as int
            },
    {
        BeatTime { repr: self.repr.saturating_add(other.repr) }
    }

    /// Difference of two times; saturates at zero.
    pub fn sub(self, other: BeatTime) -> (r: BeatTime)
        ensures
            r.repr == if self.repr >= other.repr {
                self.repr - other.repr
            } else {
                0
            },
    {
        BeatTime { repr: self.repr.saturating_sub(other.repr) }
    }

    pub fn lt(&self, other: &BeatTime) -> (r: bool)
        ensures
            r == (self.repr < other.repr),
    {
        self.repr < other.repr
    }
}

/// Sub-beat units of the fraction written by the digits `s[from..to]`, or `None`
/// where one of them is not a digit.
fn parse_frac_digits(s: &Vec<char>, from: usize, to: usize) -> (r: Option<u32>)
    requires
        from <= to <= s.len(),
    ensures
        ({
            let f = s@.subrange(from as int, to as int);
            match r {
                Some(v) => all_digits(f) && v == frac_units_of(f),
                None => !all_digits(f),
            }
        }),
{
    let ghost f = s@.subrange(from as int, to as int);
    let mut v: u128 = 0;
    let mut p: u128 = 1;
    let mut i = from;
    while i < to
        invariant
            from <= i <= to <= s.len(),
            f == s@.subrange(from as int, to as int),
            all_digits(f.take(i - from)),
            i - from <= FRAC_DIGITS_KEPT ==> v == digits_value(f.take(i - from)) && p == pow10(
                (i - from) as nat,
            ),
            i - from > FRAC_DIGITS_KEPT ==> v == digits_value(f.take(FRAC_DIGITS_KEPT as int))
                && p == pow10(FRAC_DIGITS_KEPT as nat),
            v < p,
            p <= 10_000_000_000_000_000_000u128,
        decreases to - i,
    {
        let c = s[i];
        if !('0' <= c && c <= '9') {
            assert(f[i - from] == c);
            return None;
        }
        if i - from < FRAC_DIGITS_KEPT {
            proof {
                lemma_digits_prefix(f, i - from);
                crate::text::lemma_pow10_mono((i - from) as nat, 18);
                crate::text::lemma_pow10_18();
            }
            assert(v * 10 + 9 < p * 10) by (nonlinear_arith)
                requires
                    v < p,
            ;
            v = v * 10 + (c as u128 - '0' as u128);
            p = p * 10;
            assert(p == pow10((i + 1 - from) as nat));
        }
        assert(all_digits(f.take(i + 1 - from))) by {
            assert forall|k: int| 0 <= k < i + 1 - from implies is_digit(
                #[trigger] f.take(i + 1 - from)[k],
            ) by {
                if k < i - from {
                    assert(f.take(i + 1 - from)[k] == f.take(i - from)[k]);
                }
            }
        }
        i += 1;
    }
    assert(f.take(to - from) == f);
    assert(v * 0x1_0000_0000 < 0x1_0000_0000 * 10_000_000_000_000_000_000u128) by (nonlinear_arith)
        requires
            v < p,
            p <= 10_000_000_000_000_000_000u128,
    ;
    let units = (v * (FRAC_BEAT_COUNT as u128)) / p;
    assert(units < FRAC_BEAT_COUNT) by (nonlinear_arith)
        requires
            units == (v * 0x1_0000_0000) / (p as int),
            v < p,
            p > 0,
    ;
    Some(units as u32)
}

impl BeatTime {
    /// Parses the text of a time (see `parse_beat`).
    pub fn parse_text(s: &Vec<char>) -> (r: Option<BeatTime>)
        ensures
            r == parse_beat(s@),
    {
        let n = s.len();
        let mut i: usize = 0;
        while i < n && s[i] != '.'
            invariant
                i <= n == s.len(),
                forall|j: int| 0 <= j < i ==> s@[j] != '.',
            decreases n - i,
        {
            i += 1;
        }
        if i < n {
            assert(first_dot(s@, i as int));
            let ghost k = choose|k: int| first_dot(s@, k);
            assert(k == i) by {
                if k < i {
                    assert(s@[k] != '.');
                } else if k > i {
                    assert(s@[i as int] != '.');
                }
            }
            assert(s@.take(i as int) == s@.subrange(0, i as int));
            assert(s@.skip(i + 1) == s@.subrange(i + 1, n as int));
            let w = parse_u32_digits(s, 0, i);
            let f = parse_frac_digits(s, i + 1, n);
            match (w, f) {
                (Some(w), Some(f)) => Some(BeatTime::from_parts(w, f)),
                _ => None,
            }
        } else {
            assert(!exists|k: int| first_dot(s@, k));
            assert(s@.subrange(0, n as int) == s@);
            match parse_u32_digits(s, 0, n) {
                Some(w) => Some(BeatTime::from_parts(w, 0)),
                None => None,
            }
        }
    }

    /// Appends the text of this time (see `beat_text`) to `out`.
    pub fn push_text(&self, out: &mut Vec<char>)
        ensures
            final(out)@ == old(out)@ + beat_text(*self),
    {
        let v128 = ((self.repr as u128) * 100000 + 0x8000_0000) / (FRAC_BEAT_COUNT as u128);
        assert(v128 <= 0x1_0000_0000 * 100000) by (nonlinear_arith)
            requires
                v128 == (self.repr * 100000 + 0x8000_0000) / 0x1_0000_0000,
                self.repr <= u64::MAX,
        ;
        let v = v128 as u64;
        assert(v == rounded_units(*self));
        crate::text::push_nat(out, v / 100000);
        out.push('.');
        let mut frac: Vec<char> = Vec::new();
        crate::text::push_padded(&mut frac, v % 100000, 5);
        assert(frac@ == padded_digits((v % 100000) as nat, 5));
        crate::text::trim_zeros_vec(&mut frac);
        let ghost before = out@;
        out.append(&mut frac);
        assert(out@ == old(out)@ + beat_text(*self));
    }

    /// The text of this time (see `beat_text`).
    pub fn to_text(&self) -> (r: String)
        ensures
            r@ == beat_text(*self),
    {
        let mut v: Vec<char> = Vec::new();
        self.push_text(&mut v);
        assert(v@ == beat_text(*self));
        crate::text::string_of(&v)
    }
}

/// Index of the grid step nearest to `t` on a grid of `grid` steps per beat (half up).
pub open spec fn grid_index(t: u64, grid: u32) -> int {
    (t * grid + 0x8000_0000) / frac_count() as int
}

/// `a / b` rounded half up.
pub open spec fn round_div(a: int, b: int) -> int {
    (2 * a + b) / (2 * b)
}

/// Snapped position times `6 * 100000 * grid`: the grid step, plus on odd steps
/// the swing shift of `swing / 6` of a step (`swing` in units of 1/100000).
pub open spec fn swung_numerator(t: u64, grid: u32, swing: int) -> int {
    let i = grid_index(t, grid);
    i * frac_count() * 600000 + if swing != 0 && i % 2 == 1 {
        frac_count() * swing
    } else {
        0
    }
}

/// Quantized position in sub-beat units before clamping: the swung grid position,
/// moved by the humanize offset `(2 * noise / 2^32 - 1) * step * humanize / 8`
/// where `humanize` is positive, rounded half up.
pub open spec fn quantized_value(t: u64, grid: u32, swing: int, humanize: int, noise: u32) -> int {
    let n = swung_numerator(t, grid, swing);
    if humanize > 0 {
        round_div(4 * n + 3 * ((2 * noise - frac_count()) * humanize), 2400000 * grid)
    } else {
        round_div(n, 600000 * grid)
    }
}

/// The quantized time: unchanged for a zero grid, else `quantized_value` clamped
/// to the representable times.
pub open spec fn quantized(t: BeatTime, grid: u32, swing: FixedDecimal, humanize: FixedDecimal, noise: u32) -> BeatTime {
    if grid == 0 {
        t
    } else {
        let v = quantized_value(t.repr, grid, swing.units as int, humanize.units as int, noise);
        BeatTime { repr: if v < 0 { 0 } else if v > u64::MAX { u64::MAX } else { v as u64 } }
    }
}

proof fn lemma_neg_div(x: int, d: int)
    requires
        x < 0,
        d > 0,
    ensures
        x / d < 0,
{
    vstd::arithmetic::div_mod::lemma_fundamental_div_mod(x, d);
    assert(x / d < 0) by (nonlinear_arith)
        requires
            x == d * (x / d) + x % d,
            0 <= x % d < d,
            x < 0,
            d > 0,
    ;
}

/// Swing and humanize amounts lie in [0, 1].
pub open spec fn valid_amount(d: FixedDecimal) -> bool {
    0 <= d.units <= 100000
}

impl BeatTime {
    /// Snaps the time to a grid of `grid` steps per beat. With `swing` (0 to 1)
    /// odd steps move later by up to a sixth of a step; with `humanize` (0 to 1)
    /// the position moves by up to an eighth of a step, earlier or later as `noise`
    /// (uniform over `u32`) says.
    pub fn quantize(&self, grid: u32, swing: FixedDecimal, humanize: FixedDecimal, noise: u32) -> (r: BeatTime)
        requires
            valid_amount(swing),
            valid_amount(humanize),
        ensures
            r == quantized(*self, grid, swing, humanize, noise),
    {
        if grid == 0 {
            return *self;
        }
        let t = self.repr as u128;
        let g = grid as u128;
        assert(t * g + 0x8000_0000 <= 0x1_0000_0000_0000_0000_0000_0000u128) by (nonlinear_arith)
            requires
                t <= u64::MAX,
                g <= u32::MAX,
        ;
        let i: u128 = (t * g + 0x8000_0000) / 0x1_0000_0000;
        assert(i <= 0x1_0000_0000_0000_0000u128);
        let sw = swing.units as u128;
        let base: u128 = i * 0x1_0000_0000 * 600000;
        assert(base <= 0x1_0000_0000_0000_0000u128 * 0x1_0000_0000 * 600000) by (nonlinear_arith)
            requires
                base == i * 0x1_0000_0000 * 600000,
                i <= 0x1_0000_0000_0000_0000u128,
        ;
        let n: u128 = if sw != 0 && i % 2 == 1 {
            base + 0x1_0000_0000 * sw
        } else {
            base
        };
        assert(i == grid_index(self.repr, grid));
        assert(n == swung_numerator(self.repr, grid, swing.units as int));
        let hu = humanize.units as i128;
        let v: i128;
        if hu > 0 {
            let e: i128 = 2400000 * (g as i128);
            let spread: i128 = 2 * (noise as i128) - 0x1_0000_0000;
            assert(-0x1_0000_0000 * 100000 <= spread * hu <= 0x1_0000_0000 * 100000) by (nonlinear_arith)
                requires
                    -0x1_0000_0000 <= spread <= 0x1_0000_0000,
                    0 < hu <= 100000,
            ;
            assert(n <= 0x1_0000_0000_0000_0000u128 * 0x1_0000_0000 * 600000 + 0x1_0000_0000 * 100000);
            let a: i128 = 4 * (n as i128) + 3 * (spread * hu);
            let top: i128 = 2 * a + e;
            assert(spread == 2 * noise - frac_count());
            assert(hu == humanize.units);
            assert(spread * hu == (2 * noise - frac_count()) * humanize.units);
            assert(a == 4 * swung_numerator(self.repr, grid, swing.units as int) + 3 * ((2 * noise
                - frac_count()) * humanize.units));
            if top < 0 {
                proof {
                    lemma_neg_div(top as int, 2 * e);
                }
                v = -1;
            } else {
                v = ((top as u128) / ((2 * e) as u128)) as i128;
            }
            assert(v < 0 <==> quantized_value(self.repr, grid, swing.units as int, humanize.units as int, noise) < 0);
            assert(v >= 0 ==> v == quantized_value(self.repr, grid, swing.units as int, humanize.units as int, noise));
        } else {
            let e: u128 = 600000 * g;
            v = ((2 * n + e) / (2 * e)) as i128;
            assert(v == quantized_value(self.repr, grid, swing.units as int, humanize.units as int, noise));
        }
        if v < 0 {
            BeatTime { repr: 0 }
        } else if v > 0xFFFF_FFFF_FFFF_FFFF {
            BeatTime { repr: u64::MAX }
        } else {
            BeatTime { repr: v as u64 }
        }
    }
}

proof fn lemma_round_div_bounds(a: int, b: int)
    requires
        b > 0,
    ensures
        2 * b * round_div(a, b) <= 2 * a + b < 2 * b * (round_div(a, b) + 1),
{
    let q = round_div(a, b);
    vstd::arithmetic::div_mod::lemma_fundamental_div_mod(2 * a + b, 2 * b);
    assert(2 * b * q <= 2 * a + b < 2 * b * (q + 1)) by (nonlinear_arith)
        requires
            2 * a + b == (2 * b) * q + (2 * a + b) % (2 * b),
            0 <= (2 * a + b) % (2 * b) < 2 * b,
    ;
}

proof fn lemma_floor_unique(x: int, d: int, q: int)
    requires
        d > 0,
        d * q <= x < d * (q + 1),
    ensures
        x / d == q,
{
    vstd::arithmetic::div_mod::lemma_fundamental_div_mod(x, d);
    let r = x / d;
    assert(r == q) by (nonlinear_arith)
        requires
            x == d * r + x % d,
            0 <= x % d < d,
            d * q <= x < d * (q + 1),
            d > 0,
    ;
}

/// Without humanize, quantizing a second time with the same grid and swing
/// changes nothing (for grids of at most 2^31 steps per beat, where the first
/// result did not saturate).
pub proof fn lemma_quantize_idempotent(t: BeatTime, grid: u32, swing: FixedDecimal, n1: u32, n2: u32)
    requires
        valid_amount(swing),
        grid <= 0x8000_0000,
        grid == 0 || quantized_value(t.repr, grid, swing.units as int, 0, n1) <= u64::MAX,
    ensures
        quantized(quantized(t, grid, swing, FixedDecimal { units: 0 }, n1), grid, swing, FixedDecimal { units: 0 }, n2)
            == quantized(t, grid, swing, FixedDecimal { units: 0 }, n1),
{
    if grid > 0 {
        let zero = FixedDecimal { units: 0 };
        let k = frac_count() as int;
        let g = grid as int;
        let sw = swing.units as int;
        let i = grid_index(t.repr, grid);
        let o: int = if sw != 0 && i % 2 == 1 { 1 } else { 0 };
        let n = swung_numerator(t.repr, grid, sw);
        if o == 1 {
            assert(o * k * sw == k * sw) by (nonlinear_arith)
                requires
                    o == 1,
            ;
        } else {
            assert(o * k * sw == 0) by (nonlinear_arith)
                requires
                    o == 0,
            ;
        }
        assert(n == i * k * 600000 + o * k * sw);
        let d = 600000 * g;
        let q = round_div(n, d);
        lemma_round_div_bounds(n, d);
        assert(q >= 0) by (nonlinear_arith)
            requires
                2 * d * (q + 1) > 2 * n + d,
                n == i * k * 600000 + o * k * sw,
                i >= 0,
                k > 0,
                o >= 0,
                sw >= 0,
                d > 0,
        ;
        assert(i >= 0) by {
            assert(t.repr * grid + 0x8000_0000 >= 0) by (nonlinear_arith);
        }
        let q1 = quantized(t, grid, swing, zero, n1);
        assert(q1.repr == q);
        // the grid index of the result is the same
        assert(i * k <= q * g + 0x8000_0000 < (i + 1) * k) by (nonlinear_arith)
            requires
                2 * d * q <= 2 * n + d,
                2 * n + d < 2 * d * (q + 1),
                n == i * k * 600000 + o * k * sw,
                d == 600000 * g,
                0 <= o <= 1,
                0 <= sw <= 100000,
                0 < g <= 0x8000_0000,
                k == 0x1_0000_0000,
        ;
        lemma_floor_unique(q * g + 0x8000_0000, k, i);
        assert(grid_index(q1.repr, grid) == i);
    }
}

/// Microseconds of the time at `bpm` beats per minute (`bpm` in units of
/// 1/100000), rounded half up, saturated at the largest value.
pub open spec fn micros_of(t: BeatTime, bpm: FixedDecimal) -> u64 {
    let num: int = t.repr * 6_000_000_000_000int;
    let den: int = bpm.units * frac_count();
    let v = (2 * num + den) / (2 * den);
    if v > u64::MAX {
        u64::MAX
    } else {
        v as u64
    }
}

/// The time `micros` microseconds after zero at `bpm` beats per minute,
/// rounded down to a sub-beat unit, saturated at the largest time.
pub open spec fn time_of_micros(micros: u64, bpm: FixedDecimal) -> BeatTime {
    let v = micros * bpm.units * frac_count() / 6_000_000_000_000int;
    BeatTime { repr: if v > u64::MAX { u64::MAX } else { v as u64 } }
}

impl BeatTime {
    /// Microseconds of this time at a tempo of `bpm` beats per minute.
    pub fn as_micros(&self, bpm: FixedDecimal) -> (r: u64)
        requires
            bpm.units > 0,
        ensures
            r == micros_of(*self, bpm),
    {
        let num: u128 = (self.repr as u128) * 6_000_000_000_000;
        assert((bpm.units as u128) * 0x1_0000_0000 <= 0x8000_0000_0000_0000u128 * 0x1_0000_0000) by (nonlinear_arith)
            requires
                0 < bpm.units <= i64::MAX,
        ;
        let den: u128 = (bpm.units as u128) * (FRAC_BEAT_COUNT as u128);
        assert(num <= 0xFFFF_FFFF_FFFF_FFFFu128 * 6_000_000_000_000) by (nonlinear_arith)
            requires
                num == self.repr * 6_000_000_000_000,
                self.repr <= u64::MAX,
        ;
        assert(den >= 1);
        let v = (2 * num + den) / (2 * den);
        if v > 0xFFFF_FFFF_FFFF_FFFF {
            u64::MAX
        } else {
            v as u64
        }
    }

    /// The time `micros` microseconds after zero at a tempo of `bpm` beats per minute.
    pub fn from_micros(micros: u64, bpm: FixedDecimal) -> (r: BeatTime)
        requires
            bpm.units > 0,
        ensures
            r == time_of_micros(micros, bpm),
    {
        let b = bpm.units as u128;
        let m = micros as u128;
        assert(m * b <= 0xFFFF_FFFF_FFFF_FFFFu128 * 0x7FFF_FFFF_FFFF_FFFFu128) by (nonlinear_arith)
            requires
                m <= u64::MAX,
                b <= i64::MAX,
        ;
        let mb = m * b;
        // split the product so that no intermediate value leaves 128 bits
        let q = mb / 6_000_000_000_000;
        let rem = mb % 6_000_000_000_000;
        let v_hi = q;
        proof {
            lemma_scaled_div(mb as int, v_hi as int, rem as int);
        }
        if v_hi >= 0x1_0000_0000 {
            assert(time_of_micros(micros, bpm).repr == u64::MAX) by {
                lemma_scaled_big(mb as int, v_hi as int, rem as int);
            }
            return BeatTime { repr: u64::MAX };
        }
        let v = v_hi * (FRAC_BEAT_COUNT as u128) + (rem * (FRAC_BEAT_COUNT as u128)) / 6_000_000_000_000;
        assert(v == (mb as int) * 0x1_0000_0000 / 6_000_000_000_000int);
        if v > 0xFFFF_FFFF_FFFF_FFFF {
            BeatTime { repr: u64::MAX }
        } else {
            BeatTime { repr: v as u64 }
        }
    }
}

proof fn lemma_scaled_div(mb: int, q: int, r: int)
    requires
        mb >= 0,
        q == mb / 6_000_000_000_000,
        r == mb % 6_000_000_000_000,
    ensures
        mb * 0x1_0000_0000 / 6_000_000_000_000 == q * 0x1_0000_0000 + r * 0x1_0000_0000 / 6_000_000_000_000,
{
    vstd::arithmetic::div_mod::lemma_fundamental_div_mod(mb, 6_000_000_000_000);
    let k = 0x1_0000_0000int;
    let d = 6_000_000_000_000int;
    assert(mb * k == d * (q * k) + r * k) by (nonlinear_arith)
        requires
            mb == d * q + r,
    ;
    let b = r * k;
    vstd::arithmetic::div_mod::lemma_fundamental_div_mod(b, d);
    assert(0 <= r);
    assert(b >= 0) by (nonlinear_arith)
        requires
            r >= 0,
            k > 0,
            b == r * k,
    ;
    assert(d * (q * k) + b == d * (q * k + b / d) + b % d) by (nonlinear_arith)
        requires
            b == d * (b / d) + b % d,
    ;
    vstd::arithmetic::div_mod::lemma_div_multiples_vanish_fancy(q * k + b / d, b % d, d);
}

proof fn lemma_scaled_big(mb: int, q: int, r: int)
    requires
        mb >= 0,
        q == mb / 6_000_000_000_000,
        r == mb % 6_000_000_000_000,
        q >= 0x1_0000_0000,
        mb * 0x1_0000_0000 / 6_000_000_000_000 == q * 0x1_0000_0000 + r * 0x1_0000_0000 / 6_000_000_000_000,
    ensures
        mb * 0x1_0000_0000 / 6_000_000_000_000 > u64::MAX,
{
    assert(r * 0x1_0000_0000 / 6_000_000_000_000 >= 0) by {
        vstd::arithmetic::div_mod::lemma_div_pos_is_pos(r * 0x1_0000_0000, 6_000_000_000_000);
    }
    assert(q * 0x1_0000_0000 >= 0x1_0000_0000 * 0x1_0000_0000) by (nonlinear_arith)
        requires
            q >= 0x1_0000_0000,
    ;
}

proof fn lemma_zeros_tail(s: Seq<char>, m: int)
    requires
        0 <= m <= s.len(),
        forall|i: int| m <= i < s.len() ==> s[i] == '0',
    ensures
        digits_value(s.take(m)) * pow10((s.len() - m) as nat) == digits_value(s),
    decreases s.len() - m,
{
    if m < s.len() {
        let d = s.drop_last();
        assert(d.take(m) == s.take(m));
        lemma_zeros_tail(d, m);
        assert(digit_value(s.last()) == 0);
        let big = pow10((s.len() - m) as nat);
        let small = pow10((d.len() - m) as nat);
        assert(big == 10 * small);
        let x = digits_value(s.take(m));
        assert(x * big == 10 * (x * small)) by (nonlinear_arith)
            requires
                big == 10 * small,
        ;
        assert(digits_value(s) == digits_value(d) * 10 + digit_value(s.last()));
        assert(digits_value(d) == x * small);
        assert(s[s.len() - 1] == '0');
        assert(s.last() == '0');
        assert(digit_value(s.last()) == 0);
        assert(digits_value(s) == 10 * (x * small));
        assert(x * big == digits_value(s));
    } else {
        assert(s.take(m) == s);
        let z = (s.len() - m) as nat;
        assert(z == 0);
        assert(pow10(z) == 1);
        let x = digits_value(s);
        assert(x * pow10(z) == x) by (nonlinear_arith)
            requires
                pow10(z) == 1,
        ;
    }
}

proof fn lemma_scale_floor(a: nat, c: nat, b: nat)
    requires
        b > 0,
        c > 0,
    ensures
        (a * c) / (b * c) == a / b,
{
    vstd::arithmetic::div_mod::lemma_fundamental_div_mod(a as int, b as int);
    let q = a / b;
    let r = a % b;
    assert(a * c == (b * c) * q + r * c) by (nonlinear_arith)
        requires
            a == b * q + r,
    ;
    assert(r * c < b * c) by (nonlinear_arith)
        requires
            r < b,
            c > 0,
    ;
    vstd::arithmetic::div_mod::lemma_div_multiples_vanish_fancy(q as int, (r * c) as int, (b * c) as int);
}

/// Reading back the text of a time and writing it again gives the same text:
/// the text is canonical (for times whose rounded whole part fits in 32 bits).
pub proof fn lemma_beat_text_canonical(t: BeatTime)
    requires
        rounded_units(t) / 100000 <= u32::MAX,
    ensures
        parse_beat(beat_text(t)) is Some,
        beat_text(parse_beat(beat_text(t))->Some_0) == beat_text(t),
{
    let v = rounded_units(t);
    let wn = v / 100000;
    let f = v % 100000;
    let w = crate::text::nat_text(wn);
    let p = padded_digits(f, 5);
    let tz = trim_zeros(p);
    crate::decimal::lemma_nat_text(wn);
    crate::decimal::lemma_padded(f, 5);
    crate::text::lemma_pow10_18();
    assert(f % 100000 == f);
    crate::decimal::lemma_trim_zeros_prefix(p);
    let m = tz.len() as int;
    assert(all_digits(tz)) by {
        assert forall|i: int| 0 <= i < tz.len() implies is_digit(#[trigger] tz[i]) by {
            assert(tz[i] == p[i]);
        }
    }
    lemma_zeros_tail(p, m);
    assert(p.take(m) == tz);
    let body = w + seq!['.'] + tz;
    assert(body == beat_text(t));
    assert(first_dot(body, w.len() as int)) by {
        assert forall|j: int| 0 <= j < w.len() implies body[j] != '.' by {
            assert(body[j] == w[j]);
            assert(is_digit(w[j]));
        }
    }
    let k = choose|k: int| first_dot(body, k);
    assert(k == w.len()) by {
        if k < w.len() {
            assert(body[k] == w[k]);
            assert(is_digit(w[k]));
        } else if k > w.len() {
            assert(body[w.len() as int] == '.');
        }
    }
    assert(body.take(k) =~= w);
    assert(body.skip(k + 1) =~= tz);
    // the fraction read back
    let dv = digits_value(tz);
    let sc = pow10((5 - m) as nat);
    crate::text::lemma_pow10_pos((5 - m) as nat);
    assert(dv * sc == f);
    assert(pow10(m as nat) * sc == 100000) by {
        lemma_pow10_add(m as nat, (5 - m) as nat);
    }
    lemma_scale_floor(dv * frac_count(), sc, pow10(m as nat));
    assert(dv * frac_count() * sc == f * frac_count()) by (nonlinear_arith)
        requires
            dv * sc == f,
    ;
    let fu = f * frac_count() / 100000;
    assert(frac_units_of(tz) == fu);
    let t2 = BeatTime { repr: (wn * frac_count() + fu) as u64 };
    assert(fu < frac_count()) by (nonlinear_arith)
        requires
            fu == f * frac_count() / 100000,
            f < 100000,
            frac_count() == 0x1_0000_0000,
    ;
    assert(wn * frac_count() + fu <= u64::MAX) by (nonlinear_arith)
        requires
            wn <= u32::MAX,
            fu < 0x1_0000_0000,
            frac_count() == 0x1_0000_0000,
    ;
    assert(parse_beat(body) == Some(t2));
    // the rounding gives the same units back
    vstd::arithmetic::div_mod::lemma_fundamental_div_mod((f * frac_count()) as int, 100000);
    vstd::arithmetic::div_mod::lemma_fundamental_div_mod(v as int, 100000);
    let x = t2.repr * 100000 + 0x8000_0000;
    assert(v * frac_count() <= x < (v + 1) * frac_count()) by (nonlinear_arith)
        requires
            t2.repr == wn * frac_count() + fu,
            100000 * fu <= f * frac_count(),
            f * frac_count() < 100000 * fu + 100000,
            v == 100000 * wn + f,
            frac_count() == 0x1_0000_0000,
            x == t2.repr * 100000 + 0x8000_0000,
    ;
    lemma_floor_div_nat(x as int, frac_count() as int, v as int);
    assert(rounded_units(t2) == v);
}

proof fn lemma_floor_div_nat(x: int, d: int, q: int)
    requires
        d > 0,
        d * q <= x < d * (q + 1),
        q >= 0,
    ensures
        x / d == q,
{
    vstd::arithmetic::div_mod::lemma_fundamental_div_mod(x, d);
    let r = x / d;
    assert(r == q) by (nonlinear_arith)
        requires
            x == d * r + x % d,
            0 <= x % d < d,
            d * q <= x < d * (q + 1),
            d > 0,
    ;
}

proof fn lemma_pow10_add(a: nat, b: nat)
    ensures
        pow10(a) * pow10(b) == pow10(a + b),
    decreases a,
{
    if a > 0 {
        lemma_pow10_add((a - 1) as nat, b);
        assert(pow10(a) == 10 * pow10((a - 1) as nat));
        assert(pow10(a + b) == 10 * pow10(((a - 1) + b) as nat));
        assert(pow10(a) * pow10(b) == 10 * (pow10((a - 1) as nat) * pow10(b))) by (nonlinear_arith)
            requires
                pow10(a) == 10 * pow10((a - 1) as nat),
        ;
    } else {
        assert(pow10(0) == 1);
    }
}

impl std::str::FromStr for BeatTime {
    type Err = String;

    /// Parses the text of a time, ignoring surrounding whitespace.
    fn from_str(s: &str) -> Result<BeatTime, String> {
        let v = crate::text::trim_vec(&crate::text::chars_of(s));
        match BeatTime::parse_text(&v) {
            Some(t) => Ok(t),
            None => Err("Invalid time".to_string()),
        }
    }
}

} // verus!
