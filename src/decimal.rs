use crate::text::{
    all_digits, digit_value, digits_value, is_digit, lemma_digits_prefix, nat_text, padded_digits,
    parse_u32_digits, trim_zeros,
};
use vstd::prelude::*;

verus! {

/// Number of units in one: a decimal holds five decimal places exactly.
pub const DECIMAL_SCALE: i64 = 100000;

/// A signed decimal number with five decimal places, held as an integer count
/// of 1/100000 units. Velocities, controller values, tempos, cents and
/// transition parameters are written in this form.
#[derive(Clone, Copy, Debug, PartialEq, Eq, Structural, PartialOrd, Ord, Hash)]
pub struct FixedDecimal {
    pub units: i64,
}

/// The first five fractional digits, padded with zeros on the right.
pub open spec fn pad5(f: Seq<char>) -> Seq<char> {
    if f.len() >= 5 {
        f.take(5)
    } else {
        f + Seq::new((5 - f.len()) as nat, |i: int| '0')
    }
}

/// Units of the fraction `0.f`, rounded half up at the fifth decimal.
pub open spec fn frac5_units(f: Seq<char>) -> nat {
    digits_value(pad5(f)) + if f.len() > 5 && digit_value(f[5]) >= 5 {
        1nat
    } else {
        0nat
    }
}

pub open spec fn dot_at(s: Seq<char>, i: int) -> bool {
    &&& 0 <= i < s.len()
    &&& s[i] == '.'
    &&& forall|j: int| 0 <= j < i ==> s[j] != '.'
}

/// Units of the unsigned decimal text `s`: `<whole>` or `<whole>.<digits>`,
/// with a non-empty `<whole>` whose value fits in 32 bits.
pub open spec fn parse_unsigned_units(s: Seq<char>) -> Option<nat> {
    if exists|i: int| dot_at(s, i) {
        let i = choose|i: int| dot_at(s, i);
        let w = s.take(i);
        let f = s.skip(i + 1);
        if w.len() > 0 && all_digits(w) && all_digits(f) && digits_value(w) <= u32::MAX {
            Some(digits_value(w) * 100000 + frac5_units(f))
        } else {
            None
        }
    } else if s.len() > 0 && all_digits(s) && digits_value(s) <= u32::MAX {
        Some(digits_value(s) * 100000)
    } else {
        None
    }
}

/// The decimal that the text `s` denotes: an optional sign, then an unsigned decimal.
pub open spec fn parse_decimal(s: Seq<char>) -> Option<FixedDecimal> {
    if s.len() > 0 && s[0] == '-' {
        match parse_unsigned_units(s.drop_first()) {
            Some(u) => Some(FixedDecimal { units: (-u) as i64 }),
            None => None,
        }
    } else {
        let t = if s.len() > 0 && s[0] == '+' {
            s.drop_first()
        } else {
            s
        };
        match parse_unsigned_units(t) {
            Some(u) => Some(FixedDecimal { units: u as i64 }),
            None => None,
        }
    }
}

pub open spec fn abs_units(d: FixedDecimal) -> nat {
    if d.units < 0 {
        (-d.units) as nat
    } else {
        d.units as nat
    }
}

/// Text of a decimal: an optional `-`, the whole part, a dot, and the five
/// decimals with trailing zeros dropped (one digit at least).
pub open spec fn decimal_text(d: FixedDecimal) -> Seq<char> {
    let a = abs_units(d);
    (if d.units < 0 {
        seq!['-']
    } else {
        Seq::<char>::empty()
    }) + nat_text(a / 100000) + seq!['.'] + trim_zeros(padded_digits(a % 100000, 5))
}

/// Units of the fractional digits `s[from..to]` (see `frac5_units`).
fn parse_frac5(s: &Vec<char>, from: usize, to: usize) -> (r: Option<u32>)
    requires
        from <= to <= s.len(),
    ensures
        ({
            let f = s@.subrange(from as int, to as int);
            match r {
                Some(v) => all_digits(f) && v == frac5_units(f) && v <= 100000,
                None => !all_digits(f),
            }
        }),
{
    let ghost f = s@.subrange(from as int, to as int);
    let mut i = from;
    while i < to
        invariant
            from <= i <= to <= s.len(),
            f == s@.subrange(from as int, to as int),
            forall|k: int| 0 <= k < i - from ==> is_digit(#[trigger] f[k]),
        decreases to - i,
    {
        if !('0' <= s[i] && s[i] <= '9') {
            assert(f[i - from] == s@[i as int]);
            return None;
        }
        i += 1;
    }
    assert(all_digits(f));
    let ghost p = pad5(f);
    assert(p.len() == 5);
    let mut v: u32 = 0;
    let mut k: usize = 0;
    while k < 5
        invariant
            k <= 5,
            from <= to <= s.len(),
            f == s@.subrange(from as int, to as int),
            all_digits(f),
            p == pad5(f),
            p.len() == 5,
            v == digits_value(p.take(k as int)),
            v < crate::text::pow10(k as nat),
        decreases 5 - k,
    {
        let d: u32 = if k < to - from {
            assert(p[k as int] == f[k as int]);
            (s[from + k] as u32) - ('0' as u32)
        } else {
            assert(p[k as int] == '0');
            0
        };
        proof {
            lemma_digits_prefix(p, k as int);
            assert(d == digit_value(p[k as int]));
            crate::text::lemma_pow10_mono(k as nat, 4);
            crate::text::lemma_pow10_18();
            reveal_with_fuel(crate::text::pow10, 5);
        }
        v = v * 10 + d;
        k += 1;
    }
    assert(p.take(5) == p);
    proof {
        crate::text::lemma_pow10_18();
    }
    if to - from > 5 && s[from + 5] >= '5' {
        assert(f[5] == s@[from + 5]);
        Some(v + 1)
    } else {
        Some(v)
    }
}

impl FixedDecimal {
    pub fn from_units(units: i64) -> (r: FixedDecimal)
        ensures
            r.units == units,
    {
        FixedDecimal { units }
    }

    pub fn zero() -> (r: FixedDecimal)
        ensures
            r.units == 0,
    {
        FixedDecimal { units: 0 }
    }

    pub(crate) fn parse_unsigned(s: &Vec<char>, from: usize) -> (r: Option<u64>)
        requires
            from <= s.len(),
        ensures
            ({
                let t = s@.skip(from as int);
                match r {
                    Some(u) => parse_unsigned_units(t) == Some(u as nat) && u <= 0x1_0000_0000
                        * 100000,
                    None => parse_unsigned_units(t) is None,
                }
            }),
    {
        let ghost t = s@.skip(from as int);
        let n = s.len();
        let mut i: usize = from;
        while i < n && s[i] != '.'
            invariant
                from <= i <= n == s.len(),
                forall|j: int| from <= j < i ==> s@[j] != '.',
            decreases n - i,
        {
            i += 1;
        }
        if i < n {
            let ghost di = i - from;
            assert(dot_at(t, di));
            let ghost k = choose|k: int| dot_at(t, k);
            assert(k == di) by {
                if k < di {
                    assert(t[k] == s@[from + k]);
                } else if k > di {
                    assert(t[di] == s@[i as int]);
                }
            }
            assert(t.take(di) == s@.subrange(from as int, i as int));
            assert(t.skip(di + 1) == s@.subrange(i + 1, n as int));
            let w = parse_u32_digits(s, from, i);
            let f = parse_frac5(s, i + 1, n);
            match (w, f) {
                (Some(w), Some(f)) => {
                    if (w as u64) > 0xFFFF_FFFF {
                        None
                    } else {
                        Some((w as u64) * 100000 + f as u64)
                    }
                },
                _ => None,
            }
        } else {
            assert forall|k: int| !dot_at(t, k) by {
                if 0 <= k < t.len() {
                    assert(t[k] == s@[from + k]);
                }
            }
            assert(s@.subrange(from as int, n as int) == t);
            match parse_u32_digits(s, from, n) {
                Some(w) => Some((w as u64) * 100000),
                None => None,
            }
        }
    }

    /// Parses the text of a decimal (see `parse_decimal`).
    pub fn parse_text(s: &Vec<char>) -> (r: Option<FixedDecimal>)
        ensures
            r == parse_decimal(s@),
    {
        if s.len() > 0 && s[0] == '-' {
            assert(s@.skip(1) == s@.drop_first());
            match FixedDecimal::parse_unsigned(s, 1) {
                Some(u) => Some(FixedDecimal { units: -(u as i64) }),
                None => None,
            }
        } else if s.len() > 0 && s[0] == '+' {
            assert(s@.skip(1) == s@.drop_first());
            match FixedDecimal::parse_unsigned(s, 1) {
                Some(u) => Some(FixedDecimal { units: u as i64 }),
                None => None,
            }
        } else {
            assert(s@.skip(0) == s@);
            match FixedDecimal::parse_unsigned(s, 0) {
                Some(u) => Some(FixedDecimal { units: u as i64 }),
                None => None,
            }
        }
    }

    /// Parses a decimal from text such as `0.5` or `-12.25`.
    pub fn parse(s: &str) -> (r: Option<FixedDecimal>)
        ensures
            r == parse_decimal(s@),
    {
        let v = crate::text::chars_of(s);
        FixedDecimal::parse_text(&v)
    }

    /// Appends the text of this decimal (see `decimal_text`) to `out`.
    pub fn push_text(&self, out: &mut Vec<char>)
        ensures
            final(out)@ == old(out)@ + decimal_text(*self),
    {
        let a: u64 = if self.units < 0 {
            (-(self.units as i128)) as u64
        } else {
            self.units as u64
        };
        if self.units < 0 {
            out.push('-');
        }
        let ghost mid = out@;
        crate::text::push_nat(out, a / 100000);
        out.push('.');
        let mut frac: Vec<char> = Vec::new();
        crate::text::push_padded(&mut frac, a % 100000, 5);
        crate::text::trim_zeros_vec(&mut frac);
        out.append(&mut frac);
        assert(out@ == old(out)@ + decimal_text(*self));
    }

    /// The text of this decimal (see `decimal_text`).
    pub fn to_text(&self) -> (r: String)
        ensures
            r@ == decimal_text(*self),
    {
        let mut v: Vec<char> = Vec::new();
        self.push_text(&mut v);
        assert(v@ == decimal_text(*self));
        crate::text::string_of(&v)
    }
}

proof fn lemma_digit_char(d: nat)
    requires
        d < 10,
    ensures
        is_digit(crate::text::digit_char(d)),
        digit_value(crate::text::digit_char(d)) == d,
{
}

pub proof fn lemma_nat_text(n: nat)
    ensures
        nat_text(n).len() > 0,
        all_digits(nat_text(n)),
        digits_value(nat_text(n)) == n,
    decreases n,
{
    if n < 10 {
        lemma_digit_char(n);
        assert(nat_text(n).drop_last() =~= Seq::<char>::empty());
        assert(digits_value(Seq::<char>::empty()) == 0);
        assert(nat_text(n).last() == crate::text::digit_char(n));
    } else {
        lemma_nat_text(n / 10);
        lemma_digit_char(n % 10);
        let t = nat_text(n);
        assert(t.drop_last() == nat_text(n / 10));
        assert(t.last() == crate::text::digit_char(n % 10));
        assert((n / 10) * 10 + n % 10 == n);
        assert forall|i: int| 0 <= i < t.len() implies is_digit(#[trigger] t[i]) by {
            if i < t.len() - 1 {
                assert(t[i] == nat_text(n / 10)[i]);
            }
        }
    }
}

pub proof fn lemma_padded(n: nat, w: nat)
    ensures
        padded_digits(n, w).len() == w,
        all_digits(padded_digits(n, w)),
        digits_value(padded_digits(n, w)) == n % crate::text::pow10(w),
    decreases w,
{
    if w > 0 {
        lemma_padded(n / 10, (w - 1) as nat);
        lemma_digit_char(n % 10);
        let p = padded_digits(n, w);
        assert(p.drop_last() == padded_digits(n / 10, (w - 1) as nat));
        assert forall|i: int| 0 <= i < p.len() implies is_digit(#[trigger] p[i]) by {
            if i < p.len() - 1 {
                assert(p[i] == padded_digits(n / 10, (w - 1) as nat)[i]);
            }
        }
        let q = crate::text::pow10((w - 1) as nat);
        crate::text::lemma_pow10_pos((w - 1) as nat);
        vstd::arithmetic::div_mod::lemma_fundamental_div_mod(n as int, 10);
        vstd::arithmetic::div_mod::lemma_fundamental_div_mod((n / 10) as int, q as int);
        vstd::arithmetic::div_mod::lemma_fundamental_div_mod(n as int, (10 * q) as int);
        let a = (n / 10) % q;
        assert(a * 10 + n % 10 == n % (10 * q)) by {
            vstd::arithmetic::div_mod::lemma_breakdown(n as int, 10, q as int);
        }
    } else {
        assert(crate::text::pow10(0) == 1);
    }
}

proof fn lemma_trim_zeros(p: Seq<char>)
    requires
        p.len() == 5,
        all_digits(p),
    ensures
        1 <= trim_zeros(p).len() <= 5,
        all_digits(trim_zeros(p)),
        pad5(trim_zeros(p)) == p,
{
    lemma_trim_zeros_prefix(p);
}

pub proof fn lemma_trim_zeros_prefix(p: Seq<char>)
    requires
        p.len() >= 1,
        all_digits(p),
    ensures
        1 <= trim_zeros(p).len() <= p.len(),
        trim_zeros(p) == p.take(trim_zeros(p).len() as int),
        forall|i: int| trim_zeros(p).len() <= i < p.len() ==> p[i] == '0',
    decreases p.len(),
{
    if p.len() > 1 && p.last() == '0' {
        let q = p.drop_last();
        assert forall|i: int| 0 <= i < q.len() implies is_digit(#[trigger] q[i]) by {
            assert(q[i] == p[i]);
        }
        lemma_trim_zeros_prefix(q);
        let t = trim_zeros(q);
        assert(t =~= p.take(t.len() as int));
        assert forall|i: int| t.len() <= i < p.len() implies p[i] == '0' by {
            if i < q.len() {
                assert(p[i] == q[i]);
            }
        }
    } else {
        assert(p.take(p.len() as int) == p);
    }
}

proof fn lemma_frac_round_trip(a: nat)
    ensures
        all_digits(trim_zeros(padded_digits(a % 100000, 5))),
        frac5_units(trim_zeros(padded_digits(a % 100000, 5))) == a % 100000,
{
    let p = padded_digits(a % 100000, 5);
    lemma_padded(a % 100000, 5);
    crate::text::lemma_pow10_18();
    assert((a % 100000) % 100000 == a % 100000);
    lemma_trim_zeros(p);
}

proof fn lemma_unsigned_round_trip(a: nat)
    requires
        a / 100000 <= u32::MAX,
    ensures
        parse_unsigned_units(nat_text(a / 100000) + seq!['.'] + trim_zeros(padded_digits(a % 100000, 5)))
            == Some(a),
        is_digit((nat_text(a / 100000) + seq!['.'] + trim_zeros(padded_digits(a % 100000, 5)))[0]),
{
    let w = nat_text(a / 100000);
    let f = trim_zeros(padded_digits(a % 100000, 5));
    lemma_nat_text(a / 100000);
    lemma_frac_round_trip(a);
    let body = w + seq!['.'] + f;
    assert(body[0] == w[0]);
    assert(dot_at(body, w.len() as int)) by {
        assert forall|j: int| 0 <= j < w.len() implies body[j] != '.' by {
            assert(body[j] == w[j]);
            assert(is_digit(w[j]));
        }
    }
    let k = choose|k: int| dot_at(body, k);
    assert(k == w.len()) by {
        if k < w.len() {
            assert(body[k] == w[k]);
            assert(is_digit(w[k]));
        } else if k > w.len() {
            assert(body[w.len() as int] == '.');
        }
    }
    assert(body.take(k) =~= w);
    assert(body.skip(k + 1) =~= f);
    assert((a / 100000) * 100000 + a % 100000 == a);
}

/// Reading back the text of a decimal gives the same decimal, for magnitudes
/// whose whole part fits in 32 bits.
pub proof fn lemma_decimal_round_trip(d: FixedDecimal)
    requires
        abs_units(d) / 100000 <= u32::MAX,
    ensures
        parse_decimal(decimal_text(d)) == Some(d),
{
    let a = abs_units(d);
    let body = nat_text(a / 100000) + seq!['.'] + trim_zeros(padded_digits(a % 100000, 5));
    lemma_unsigned_round_trip(a);
    if d.units < 0 {
        assert(decimal_text(d) =~= seq!['-'] + body);
        assert(decimal_text(d).drop_first() =~= body);
    } else {
        assert(decimal_text(d) =~= body);
    }
}

} // verus!
