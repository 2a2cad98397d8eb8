use crate::decimal::{decimal_text, parse_unsigned_units, FixedDecimal};
use crate::text::{all_digits, digits_value, is_digit, nat_text};
use vstd::prelude::*;

verus! {

/// The twelve pitch classes of the chromatic scale.
#[derive(Clone, Copy, Debug, PartialEq, Eq, Structural, Hash)]
pub enum PitchClass {
    C,
    CSharp,
    D,
    DSharp,
    E,
    F,
    FSharp,
    G,
    GSharp,
    A,
    ASharp,
    B,
}

pub open spec fn semitone_of(p: PitchClass) -> int {
    match p {
        PitchClass::C => 0,
        PitchClass::CSharp => 1,
        PitchClass::D => 2,
        PitchClass::DSharp => 3,
        PitchClass::E => 4,
        PitchClass::F => 5,
        PitchClass::FSharp => 6,
        PitchClass::G => 7,
        PitchClass::GSharp => 8,
        PitchClass::A => 9,
        PitchClass::ASharp => 10,
        PitchClass::B => 11,
    }
}

pub open spec fn pitch_of_semitone(s: int) -> PitchClass {
    if s == 0 {
        PitchClass::C
    } else if s == 1 {
        PitchClass::CSharp
    } else if s == 2 {
        PitchClass::D
    } else if s == 3 {
        PitchClass::DSharp
    } else if s == 4 {
        PitchClass::E
    } else if s == 5 {
        PitchClass::F
    } else if s == 6 {
        PitchClass::FSharp
    } else if s == 7 {
        PitchClass::G
    } else if s == 8 {
        PitchClass::GSharp
    } else if s == 9 {
        PitchClass::A
    } else if s == 10 {
        PitchClass::ASharp
    } else {
        PitchClass::B
    }
}

/// The name a pitch class is written with.
pub open spec fn pitch_name(p: PitchClass) -> Seq<char> {
    match p {
        PitchClass::C => seq!['C'],
        PitchClass::CSharp => seq!['C', '#'],
        PitchClass::D => seq!['D'],
        PitchClass::DSharp => seq!['E', 'b'],
        PitchClass::E => seq!['E'],
        PitchClass::F => seq!['F'],
        PitchClass::FSharp => seq!['F', '#'],
        PitchClass::G => seq!['G'],
        PitchClass::GSharp => seq!['G', '#'],
        PitchClass::A => seq!['A'],
        PitchClass::ASharp => seq!['B', 'b'],
        PitchClass::B => seq!['B'],
    }
}

/// Semitone of a natural note letter `A`..`G`.
pub open spec fn letter_semitone(c: char) -> Option<int> {
    if c == 'C' {
        Some(0)
    } else if c == 'D' {
        Some(2)
    } else if c == 'E' {
        Some(4)
    } else if c == 'F' {
        Some(5)
    } else if c == 'G' {
        Some(7)
    } else if c == 'A' {
        Some(9)
    } else if c == 'B' {
        Some(11)
    } else {
        None
    }
}

impl PitchClass {
    pub fn semitone(&self) -> (r: u8)
        ensures
            r == semitone_of(*self),
            r < 12,
    {
        match self {
            PitchClass::C => 0,
            PitchClass::CSharp => 1,
            PitchClass::D => 2,
            PitchClass::DSharp => 3,
            PitchClass::E => 4,
            PitchClass::F => 5,
            PitchClass::FSharp => 6,
            PitchClass::G => 7,
            PitchClass::GSharp => 8,
            PitchClass::A => 9,
            PitchClass::ASharp => 10,
            PitchClass::B => 11,
        }
    }

    pub fn from_semitone(s: u8) -> (r: PitchClass)
        requires
            s < 12,
        ensures
            r == pitch_of_semitone(s as int),
            semitone_of(r) == s,
    {
        if s == 0 {
            PitchClass::C
        } else if s == 1 {
            PitchClass::CSharp
        } else if s == 2 {
            PitchClass::D
        } else if s == 3 {
            PitchClass::DSharp
        } else if s == 4 {
            PitchClass::E
        } else if s == 5 {
            PitchClass::F
        } else if s == 6 {
            PitchClass::FSharp
        } else if s == 7 {
            PitchClass::G
        } else if s == 8 {
            PitchClass::GSharp
        } else if s == 9 {
            PitchClass::A
        } else if s == 10 {
            PitchClass::ASharp
        } else {
            PitchClass::B
        }
    }

    pub fn push_name(&self, out: &mut Vec<char>)
        ensures
            final(out)@ == old(out)@ + pitch_name(*self),
    {
        match self {
            PitchClass::C => out.push('C'),
            PitchClass::CSharp => {
                out.push('C');
                out.push('#');
            },
            PitchClass::D => out.push('D'),
            PitchClass::DSharp => {
                out.push('E');
                out.push('b');
            },
            PitchClass::E => out.push('E'),
            PitchClass::F => out.push('F'),
            PitchClass::FSharp => {
                out.push('F');
                out.push('#');
            },
            PitchClass::G => out.push('G'),
            PitchClass::GSharp => {
                out.push('G');
                out.push('#');
            },
            PitchClass::A => out.push('A'),
            PitchClass::ASharp => {
                out.push('B');
                out.push('b');
            },
            PitchClass::B => out.push('B'),
        }
        assert(final(out)@ == old(out)@ + pitch_name(*self));
    }
}

/// A pitch: pitch class, octave, and a detuning in cents.
#[derive(Clone, Copy, Debug, PartialEq, Eq, Structural)]
pub struct Note {
    pub pitch_class: PitchClass,
    pub octave: i32,
    pub cents: FixedDecimal,
}

/// Semitone number of a note, counted as MIDI keys are (`C-1` is 0).
pub open spec fn note_key(n: Note) -> int {
    (n.octave + 1) * 12 + semitone_of(n.pitch_class)
}

/// Whether the note moved by `amount` semitones still has an octave that fits in 32 bits.
pub open spec fn transposable(n: Note, amount: int) -> bool {
    let k = note_key(n) + amount;
    i32::MIN <= k / 12 - 1 <= i32::MAX
}

/// The note moved by `amount` semitones; the cents are kept.
pub open spec fn transposed(n: Note, amount: int) -> Note {
    let k = note_key(n) + amount;
    Note { pitch_class: pitch_of_semitone(k % 12), octave: (k / 12 - 1) as i32, cents: n.cents }
}

pub open spec fn int_text(i: int) -> Seq<char> {
    if i < 0 {
        seq!['-'] + nat_text((-i) as nat)
    } else {
        nat_text(i as nat)
    }
}

/// Text of a note: name, octave, and the cents with their sign where they are not zero.
pub open spec fn note_text(n: Note) -> Seq<char> {
    pitch_name(n.pitch_class) + int_text(n.octave as int) + if n.cents.units > 0 {
        seq!['+'] + decimal_text(n.cents)
    } else if n.cents.units < 0 {
        decimal_text(n.cents)
    } else {
        Seq::<char>::empty()
    }
}

/// End of the run of digits that starts at `i`.
pub open spec fn digits_end(s: Seq<char>, i: int) -> int
    decreases s.len() - i,
{
    if 0 <= i < s.len() && is_digit(s[i]) {
        digits_end(s, i + 1)
    } else {
        i
    }
}

/// Pitch class and length of the note name that starts `s`.
pub open spec fn parse_pitch_prefix(s: Seq<char>) -> Option<(PitchClass, int)> {
    if s.len() == 0 {
        None
    } else {
        match letter_semitone(s[0]) {
            None => None,
            Some(b) => if s.len() >= 2 && s[1] == '#' {
                Some((pitch_of_semitone((b + 1) % 12), 2))
            } else if s.len() >= 2 && s[1] == 'b' {
                Some((pitch_of_semitone((b + 11) % 12), 2))
            } else {
                Some((pitch_of_semitone(b), 1))
            },
        }
    }
}

/// The cents suffix of a note: empty, or a sign followed by an unsigned decimal.
pub open spec fn parse_cents(r: Seq<char>) -> Option<FixedDecimal> {
    if r.len() == 0 {
        Some(FixedDecimal { units: 0 })
    } else if r[0] == '+' || r[0] == '-' {
        match parse_unsigned_units(r.drop_first()) {
            Some(u) => Some(FixedDecimal { units: (if r[0] == '-' { -u } else { u as int }) as i64 }),
            None => None,
        }
    } else {
        None
    }
}

/// The note that the text `s` denotes: a letter `A`..`G`, an optional `#` or `b`,
/// an octave (optionally negative, -128..127), and optional cents such as `+25`.
pub open spec fn parse_note(s: Seq<char>) -> Option<Note> {
    match parse_pitch_prefix(s) {
        None => None,
        Some((pc, i)) => {
            let neg = i < s.len() && s[i] == '-';
            let j = if neg {
                i + 1
            } else {
                i
            };
            let e = digits_end(s, j);
            let v = digits_value(s.subrange(j, e));
            if e == j || v > 128 || (!neg && v > 127) {
                None
            } else {
                match parse_cents(s.skip(e)) {
                    None => None,
                    Some(c) => Some(
                        Note {
                            pitch_class: pc,
                            octave: (if neg {
                                -v
                            } else {
                                v as int
                            }) as i32,
                            cents: c,
                        },
                    ),
                }
            }
        },
    }
}

proof fn lemma_digits_end(s: Seq<char>, i: int, k: int)
    requires
        0 <= i <= k <= s.len(),
        forall|j: int| i <= j < k ==> is_digit(#[trigger] s[j]),
    ensures
        digits_end(s, i) == digits_end(s, k),
    decreases k - i,
{
    if i < k {
        lemma_digits_end(s, i + 1, k);
    }
}

pub fn parse_pitch_prefix_exec(s: &Vec<char>) -> (r: Option<(PitchClass, usize)>)
    ensures
        match r {
            Some((pc, i)) => parse_pitch_prefix(s@) == Some((pc, i as int)) && 1 <= i <= 2 && i
                <= s.len(),
            None => parse_pitch_prefix(s@) is None,
        },
{
    let n = s.len();
    if n == 0 {
        return None;
    }
    let c0 = s[0];
    let b: u8 = if c0 == 'C' {
        0
    } else if c0 == 'D' {
        2
    } else if c0 == 'E' {
        4
    } else if c0 == 'F' {
        5
    } else if c0 == 'G' {
        7
    } else if c0 == 'A' {
        9
    } else if c0 == 'B' {
        11
    } else {
        return None;
    };
    assert(letter_semitone(s@[0]) == Some(b as int));
    if n >= 2 && s[1] == '#' {
        Some((PitchClass::from_semitone((b + 1) % 12), 2))
    } else if n >= 2 && s[1] == 'b' {
        Some((PitchClass::from_semitone((b + 11) % 12), 2))
    } else {
        Some((PitchClass::from_semitone(b), 1))
    }
}

impl Note {
    /// Parses the text of a note (see `parse_note`).
    pub fn parse_text(s: &Vec<char>) -> (r: Option<Note>)
        ensures
            r == parse_note(s@),
    {
        let n = s.len();
        if n == 0 {
            return None;
        }
        let (pc, i) = match parse_pitch_prefix_exec(s) {
            Some(p) => p,
            None => {
                return None;
            },
        };
        let neg = i < n && s[i] == '-';
        let j = if neg {
            i + 1
        } else {
            i
        };
        let mut e = j;
        while e < n && '0' <= s[e] && s[e] <= '9'
            invariant
                j <= e <= n == s.len(),
                forall|k: int| j <= k < e ==> is_digit(#[trigger] s@[k]),
            decreases n - e,
        {
            e += 1;
        }
        proof {
            lemma_digits_end(s@, j as int, e as int);
        }
        assert(digits_end(s@, j as int) == e);
        if e == j {
            return None;
        }
        let v = match crate::text::parse_u32_digits(s, j, e) {
            Some(v) => v,
            None => {
                assert(all_digits(s@.subrange(j as int, e as int)));
                return None;
            },
        };
        if v > 128 || (!neg && v > 127) {
            return None;
        }
        let octave: i32 = if neg {
            -(v as i32)
        } else {
            v as i32
        };
        let cents = if e == n {
            assert(s@.skip(e as int).len() == 0);
            FixedDecimal::zero()
        } else if s[e] == '+' || s[e] == '-' {
            assert(s@.skip(e as int).drop_first() == s@.skip(e + 1));
            match FixedDecimal::parse_unsigned(s, e + 1) {
                Some(u) => if s[e] == '-' {
                    FixedDecimal::from_units(-(u as i64))
                } else {
                    FixedDecimal::from_units(u as i64)
                },
                None => {
                    return None;
                },
            }
        } else {
            return None;
        };
        Some(Note { pitch_class: pc, octave, cents })
    }
}

/// Appends the text of a signed integer.
pub fn push_int(out: &mut Vec<char>, i: i32)
    ensures
        final(out)@ == old(out)@ + int_text(i as int),
{
    if i < 0 {
        out.push('-');
        crate::text::push_nat(out, (-(i as i64)) as u64);
    } else {
        crate::text::push_nat(out, i as u64);
    }
    assert(final(out)@ == old(out)@ + int_text(i as int));
}

proof fn lemma_floor_div(k: int, q: int, r: int)
    requires
        k == 12 * q + r,
        0 <= r < 12,
    ensures
        k / 12 == q,
        k % 12 == r,
{
    vstd::arithmetic::div_mod::lemma_div_multiples_vanish_fancy(q, r, 12);
    vstd::arithmetic::div_mod::lemma_mod_multiples_vanish(q, r, 12);
    vstd::arithmetic::div_mod::lemma_small_mod(r as nat, 12);
}

impl Note {
    /// Appends the text of this note (see `note_text`).
    pub fn push_text(&self, out: &mut Vec<char>)
        ensures
            final(out)@ == old(out)@ + note_text(*self),
    {
        self.pitch_class.push_name(out);
        push_int(out, self.octave);
        if self.cents.units > 0 {
            out.push('+');
            self.cents.push_text(out);
        } else if self.cents.units < 0 {
            self.cents.push_text(out);
        }
        assert(final(out)@ == old(out)@ + note_text(*self));
    }

    /// The MIDI key number of the note, where it lies in 0..=127.
    pub fn midi_key(&self) -> (r: Option<u8>)
        ensures
            match r {
                Some(k) => k == note_key(*self) && k <= 127,
                None => !(0 <= note_key(*self) <= 127),
            },
    {
        let k: i64 = (self.octave as i64 + 1) * 12 + self.pitch_class.semitone() as i64;
        if 0 <= k && k <= 127 {
            Some(k as u8)
        } else {
            None
        }
    }

    /// Whether the note moved by `amount` semitones keeps a representable octave.
    pub fn can_transpose(&self, amount: i32) -> (b: bool)
        ensures
            b == transposable(*self, amount as int),
    {
        let k: i64 = (self.octave as i64 + 1) * 12 + self.pitch_class.semitone() as i64
            + amount as i64;
        let shifted: u64 = (k + 0x10_0000_0000 * 12) as u64;
        let q: i64 = (shifted / 12) as i64 - 0x10_0000_0000;
        proof {
            lemma_floor_div(k as int, q as int, (shifted % 12) as int);
        }
        i32::MIN as i64 <= q - 1 && q - 1 <= i32::MAX as i64
    }

    /// The note moved by `amount` semitones (see `transposed`).
    pub fn transpose(&self, amount: i32) -> (r: Note)
        requires
            transposable(*self, amount as int),
        ensures
            r == transposed(*self, amount as int),
            note_key(r) == note_key(*self) + amount,
    {
        let k: i64 = (self.octave as i64 + 1) * 12 + self.pitch_class.semitone() as i64
            + amount as i64;
        let shifted: u64 = (k + 0x10_0000_0000 * 12) as u64;
        let q: i64 = (shifted / 12) as i64 - 0x10_0000_0000;
        let r: u8 = (shifted % 12) as u8;
        proof {
            lemma_floor_div(k as int, q as int, r as int);
        }
        let pc = PitchClass::from_semitone(r);
        Note { pitch_class: pc, octave: (q - 1) as i32, cents: self.cents }
    }
}

/// Transposition composes by adding the amounts.
pub proof fn lemma_transpose_additive(n: Note, a: int, b: int)
    requires
        transposable(n, a),
    ensures
        note_key(transposed(n, a)) == note_key(n) + a,
        transposable(transposed(n, a), b) == transposable(n, a + b),
        transposed(transposed(n, a), b) == transposed(n, a + b),
{
    let k = note_key(n) + a;
    lemma_floor_div(k, k / 12, k % 12);
    assert(semitone_of(pitch_of_semitone(k % 12)) == k % 12);
    assert(note_key(transposed(n, a)) == k);
}

/// Transposing by zero leaves a note as it is.
pub proof fn lemma_transpose_zero(n: Note)
    ensures
        transposable(n, 0),
        transposed(n, 0) == n,
{
    let k = note_key(n);
    let s = semitone_of(n.pitch_class);
    lemma_floor_div(k, n.octave + 1, s);
    assert(pitch_of_semitone(s) == n.pitch_class);
}

/// A chord or drum group that alias references expand to.
#[derive(Clone, Debug, PartialEq)]
pub struct AliasDefinition {
    pub name: String,
    pub notes: Vec<Note>,
}

pub ghost struct AliasView {
    pub name: Seq<char>,
    pub notes: Seq<Note>,
}

impl View for AliasDefinition {
    type V = AliasView;

    open spec fn view(&self) -> AliasView {
        AliasView { name: self.name@, notes: self.notes@ }
    }
}

/// Copies a list of notes.
pub fn copy_notes(v: &Vec<Note>) -> (r: Vec<Note>)
    ensures
        r@ == v@,
{
    let mut out: Vec<Note> = Vec::new();
    let mut i: usize = 0;
    while i < v.len()
        invariant
            i <= v.len(),
            out@ == v@.take(i as int),
        decreases v.len() - i,
    {
        out.push(v[i]);
        i += 1;
    }
    assert(v@.take(v.len() as int) == v@);
    out
}

impl AliasDefinition {
    pub fn copy(&self) -> (r: AliasDefinition)
        ensures
            r@ == self@,
    {
        AliasDefinition { name: self.name.clone(), notes: copy_notes(&self.notes) }
    }
}

/// What a note event plays: a note, the name of an alias, or an alias definition.
#[derive(Clone, Debug, PartialEq)]
pub enum NoteTarget {
    Note(Note),
    AliasKey(String),
    Alias(AliasDefinition),
}

pub ghost enum TargetView {
    Note(Note),
    AliasKey(Seq<char>),
    Alias(AliasView),
}

impl View for NoteTarget {
    type V = TargetView;

    open spec fn view(&self) -> TargetView {
        match self {
            NoteTarget::Note(n) => TargetView::Note(*n),
            NoteTarget::AliasKey(k) => TargetView::AliasKey(k@),
            NoteTarget::Alias(d) => TargetView::Alias(d@),
        }
    }
}

/// The target that the text `s` denotes: a note where it reads as one, else an alias name.
pub open spec fn parse_target(s: Seq<char>) -> TargetView {
    match parse_note(s) {
        Some(n) => TargetView::Note(n),
        None => TargetView::AliasKey(s),
    }
}

/// Text of a target: the note, or the alias name.
pub open spec fn target_text(t: TargetView) -> Seq<char> {
    match t {
        TargetView::Note(n) => note_text(n),
        TargetView::AliasKey(k) => k,
        TargetView::Alias(d) => d.name,
    }
}

impl NoteTarget {
    pub fn copy(&self) -> (r: NoteTarget)
        ensures
            r@ == self@,
    {
        match self {
            NoteTarget::Note(n) => NoteTarget::Note(*n),
            NoteTarget::AliasKey(k) => NoteTarget::AliasKey(k.clone()),
            NoteTarget::Alias(d) => NoteTarget::Alias(d.copy()),
        }
    }

    /// Parses a target (see `parse_target`).
    pub fn parse_text(s: &Vec<char>) -> (r: NoteTarget)
        ensures
            r@ == parse_target(s@),
    {
        match Note::parse_text(s) {
            Some(n) => NoteTarget::Note(n),
            None => NoteTarget::AliasKey(crate::text::string_of(s)),
        }
    }

    /// Appends the text of this target (see `target_text`).
    pub fn push_text(&self, out: &mut Vec<char>)
        ensures
            final(out)@ == old(out)@ + target_text(self@),
    {
        match self {
            NoteTarget::Note(n) => n.push_text(out),
            NoteTarget::AliasKey(k) => crate::text::push_str(out, k.as_str()),
            NoteTarget::Alias(d) => crate::text::push_str(out, d.name.as_str()),
        }
    }
}

} // verus!
