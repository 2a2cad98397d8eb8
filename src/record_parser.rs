use crate::beat_time::{first_dot, parse_beat, BeatTime};
use crate::decimal::{parse_decimal, FixedDecimal};
use crate::note::{parse_note, parse_target, AliasDefinition, AliasView, Note, NoteTarget};
use crate::record::{
    opt_string_view, LineView, MtxtRecord, MtxtRecordLine, RecordView, TimeSignature, Version, VoiceList,
};
use crate::text::{all_digits, digits_value, is_space, string_of, trim, trim_vec};
use vstd::prelude::*;

verus! {

/// A `key=value` attribute of a line.
pub enum ParsedDirective {
    Channel { channel: u16 },
    Velocity { velocity: FixedDecimal },
    OffVelocity { off_velocity: FixedDecimal },
    Duration { duration: BeatTime },
    TransitionCurve { curve: FixedDecimal },
    TransitionTime { duration: BeatTime },
    TransitionInterval { interval: FixedDecimal },
}

/// Velocities lie in [0, 1].
pub open spec fn velocity_ok(v: FixedDecimal) -> bool {
    0 <= v.units <= 100000
}

pub open spec fn opt_velocity_ok(v: Option<FixedDecimal>) -> bool {
    match v {
        Some(v) => velocity_ok(v),
        None => true,
    }
}

pub open spec fn opt_interval_ok(v: Option<FixedDecimal>) -> bool {
    match v {
        Some(v) => v.units >= 0,
        None => true,
    }
}

pub open spec fn directive_ok(d: ParsedDirective) -> bool {
    match d {
        ParsedDirective::Velocity { velocity } => velocity_ok(velocity),
        ParsedDirective::OffVelocity { off_velocity } => velocity_ok(off_velocity),
        ParsedDirective::TransitionInterval { interval } => interval.units >= 0,
        _ => true,
    }
}

/// The range rules on attribute values: velocities in [0, 1], transition intervals
/// not negative.
pub open spec fn record_ok(r: RecordView) -> bool {
    match r {
        RecordView::VelocityDirective { velocity } => velocity_ok(velocity),
        RecordView::OffVelocityDirective { off_velocity } => velocity_ok(off_velocity),
        RecordView::TransitionIntervalDirective { interval } => interval.units >= 0,
        RecordView::Note { velocity, off_velocity, .. } => opt_velocity_ok(velocity)
            && opt_velocity_ok(off_velocity),
        RecordView::NoteOn { velocity, .. } => opt_velocity_ok(velocity),
        RecordView::NoteOff { off_velocity, .. } => opt_velocity_ok(off_velocity),
        RecordView::ControlChange { transition_interval, .. } => opt_interval_ok(
            transition_interval,
        ),
        RecordView::Tempo { transition_interval, .. } => opt_interval_ok(transition_interval),
        _ => true,
    }
}

/// Whether `s[i..i+2]` opens a comment: `//` not right after a `:` (so that
/// `http://` stays text).
pub open spec fn comment_at(s: Seq<char>, i: int) -> bool {
    &&& 0 <= i
    &&& i + 1 < s.len()
    &&& s[i] == '/'
    &&& s[i + 1] == '/'
    &&& (i == 0 || s[i - 1] != ':')
}

/// Error text.
fn err<T>(msg: &str) -> (r: Result<T, String>)
    ensures
        r is Err,
{
    Err(msg.to_string())
}

/// Whether the characters of `t` are those of `w`.
pub fn is_word(t: &Vec<char>, w: &str) -> (b: bool)
    ensures
        b == (t@ == w@),
{
    let wv = crate::text::chars_of(w);
    if t.len() != wv.len() {
        return false;
    }
    let mut i: usize = 0;
    while i < t.len()
        invariant
            i <= t.len() == wv.len(),
            wv@ == w@,
            forall|j: int| 0 <= j < i ==> t@[j] == wv@[j],
        decreases t.len() - i,
    {
        if t[i] != wv[i] {
            return false;
        }
        i += 1;
    }
    assert(t@ =~= wv@);
    true
}

/// Position of the first `//` that opens a comment (see `comment_at`).
pub fn find_inline_comment_index(line: &Vec<char>) -> (r: Option<usize>)
    ensures
        match r {
            Some(i) => comment_at(line@, i as int) && forall|j: int|
                0 <= j < i ==> !comment_at(line@, j),
            None => forall|j: int| !comment_at(line@, j),
        },
{
    let n = line.len();
    let mut i: usize = 0;
    while i < n && i + 1 < n
        invariant
            n == line.len(),
            forall|j: int| 0 <= j < i ==> !comment_at(line@, j),
        decreases n - i,
    {
        if line[i] == '/' && line[i + 1] == '/' && (i == 0 || line[i - 1] != ':') {
            return Some(i);
        }
        i += 1;
    }
    None
}

pub open spec fn vviews(v: Seq<Vec<char>>) -> Seq<Seq<char>> {
    v.map_values(|t: Vec<char>| t@)
}

/// Tokens found and the token being read after the first `i` characters.
pub open spec fn ws_fold(s: Seq<char>, i: int) -> (Seq<Seq<char>>, Seq<char>)
    decreases i,
{
    if i <= 0 || i > s.len() {
        (Seq::empty(), Seq::empty())
    } else {
        let (acc, cur) = ws_fold(s, i - 1);
        if is_space(s[i - 1]) {
            if cur.len() > 0 {
                (acc.push(cur), Seq::empty())
            } else {
                (acc, cur)
            }
        } else {
            (acc, cur.push(s[i - 1]))
        }
    }
}

/// The runs of non-whitespace characters of `s`, in order.
pub open spec fn tokens_of(s: Seq<char>) -> Seq<Seq<char>> {
    let (acc, cur) = ws_fold(s, s.len() as int);
    if cur.len() > 0 {
        acc.push(cur)
    } else {
        acc
    }
}

/// The runs of non-whitespace characters of `s` (see `tokens_of`).
fn split_ws(s: &Vec<char>) -> (r: Vec<Vec<char>>)
    ensures
        vviews(r@) == tokens_of(s@),
{
    let mut out: Vec<Vec<char>> = Vec::new();
    let mut cur: Vec<char> = Vec::new();
    let mut i: usize = 0;
    assert(vviews(out@) =~= Seq::<Seq<char>>::empty());
    while i < s.len()
        invariant
            i <= s.len(),
            (vviews(out@), cur@) == ws_fold(s@, i as int),
        decreases s.len() - i,
    {
        let c = s[i];
        let ghost before = vviews(out@);
        if c == ' ' || c == '\t' || c == '\n' || c == '\r' || c == '\x0C' {
            if cur.len() > 0 {
                let ghost cv = cur@;
                out.push(cur);
                cur = Vec::new();
                assert(vviews(out@) =~= before.push(cv));
            }
        } else {
            cur.push(c);
        }
        i += 1;
    }
    if cur.len() > 0 {
        let ghost before = vviews(out@);
        let ghost cv = cur@;
        out.push(cur);
        assert(vviews(out@) =~= before.push(cv));
    }
    out
}

/// Tokens joined by single spaces.
pub open spec fn join_tokens(p: Seq<Seq<char>>) -> Seq<char>
    decreases p.len(),
{
    if p.len() == 0 {
        Seq::empty()
    } else if p.len() == 1 {
        p[0]
    } else {
        join_tokens(p.drop_last()) + seq![' '] + p.last()
    }
}

/// The tokens `parts[from..]` joined by single spaces.
fn join_from(parts: &Vec<Vec<char>>, from: usize) -> (r: Vec<char>)
    requires
        from <= parts.len(),
    ensures
        r@ == join_tokens(vviews(parts@).skip(from as int)),
{
    let ghost pv = vviews(parts@);
    let mut out: Vec<char> = Vec::new();
    let mut i = from;
    while i < parts.len()
        invariant
            from <= i <= parts.len(),
            pv == vviews(parts@),
            out@ == join_tokens(pv.subrange(from as int, i as int)),
        decreases parts.len() - i,
    {
        let ghost before = out@;
        if i > from {
            out.push(' ');
        }
        let mut j: usize = 0;
        while j < parts[i].len()
            invariant
                i < parts.len(),
                j <= parts[i as int].len(),
                out@ == (if i > from { before.push(' ') } else { before }) + parts[i as int]@.take(j as int),
            decreases parts[i as int].len() - j,
        {
            out.push(parts[i][j]);
            j += 1;
        }
        proof {
            let q = pv.subrange(from as int, i + 1);
            assert(q.drop_last() == pv.subrange(from as int, i as int));
            assert(q.last() == parts[i as int]@);
            assert(parts[i as int]@.take(parts[i as int]@.len() as int) == parts[i as int]@);
            if i == from {
                assert(q.len() == 1);
                assert(before == Seq::<char>::empty());
                assert(out@ =~= q[0]);
            } else {
                assert(out@ =~= join_tokens(q.drop_last()) + seq![' '] + q.last());
            }
        }
        i += 1;
    }
    assert(pv.subrange(from as int, parts.len() as int) == pv.skip(from as int));
    out
}

/// Pieces found and the piece being read after the first `i` characters.
pub open spec fn comma_fold(s: Seq<char>, i: int) -> (Seq<Seq<char>>, Seq<char>)
    decreases i,
{
    if i <= 0 || i > s.len() {
        (Seq::empty(), Seq::empty())
    } else {
        let (acc, cur) = comma_fold(s, i - 1);
        if s[i - 1] == ',' {
            (acc.push(trim(cur)), Seq::empty())
        } else {
            (acc, cur.push(s[i - 1]))
        }
    }
}

/// The pieces of `s` between commas, each trimmed.
pub open spec fn comma_pieces(s: Seq<char>) -> Seq<Seq<char>> {
    let (acc, cur) = comma_fold(s, s.len() as int);
    acc.push(trim(cur))
}

/// The pieces of `s` between commas, trimmed (see `comma_pieces`).
fn split_commas(s: &Vec<char>) -> (r: Vec<Vec<char>>)
    ensures
        vviews(r@) == comma_pieces(s@),
{
    let mut out: Vec<Vec<char>> = Vec::new();
    let mut cur: Vec<char> = Vec::new();
    let mut i: usize = 0;
    assert(vviews(out@) =~= Seq::<Seq<char>>::empty());
    while i < s.len()
        invariant
            i <= s.len(),
            (vviews(out@), cur@) == comma_fold(s@, i as int),
        decreases s.len() - i,
    {
        let ghost before = vviews(out@);
        if s[i] == ',' {
            let t = trim_vec(&cur);
            out.push(t);
            cur = Vec::new();
            assert(vviews(out@) =~= before.push(t@));
        } else {
            cur.push(s[i]);
        }
        i += 1;
    }
    let ghost before = vviews(out@);
    let t = trim_vec(&cur);
    out.push(t);
    assert(vviews(out@) =~= before.push(t@));
    out
}

/// A channel number: decimal digits with a value below 65536.
pub open spec fn parse_u16_spec(v: Seq<char>) -> Option<u16> {
    if v.len() > 0 && all_digits(v) && digits_value(v) <= 0xFFFF {
        Some(digits_value(v) as u16)
    } else {
        None
    }
}

fn parse_u16(s: &Vec<char>) -> (r: Option<u16>)
    ensures
        r == parse_u16_spec(s@),
{
    assert(s@.subrange(0, s@.len() as int) == s@);
    match crate::text::parse_u32_digits(s, 0, s.len()) {
        Some(v) => if v <= 0xFFFF {
            Some(v as u16)
        } else {
            None
        },
        None => None,
    }
}

pub open spec fn eq_at(s: Seq<char>, i: int) -> bool {
    &&& 0 <= i < s.len()
    &&& s[i] == '='
    &&& forall|j: int| 0 <= j < i ==> s[j] != '='
}

pub open spec fn decimal_directive(
    value: Seq<char>,
    make: spec_fn(FixedDecimal) -> ParsedDirective,
    ok: spec_fn(FixedDecimal) -> bool,
) -> Option<Option<ParsedDirective>> {
    match parse_decimal(value) {
        Some(v) => if ok(v) {
            Some(Some(make(v)))
        } else {
            None
        },
        None => None,
    }
}

/// A `key=value` attribute: `Some(None)` where the token holds no `=`, `None`
/// for an unknown key or a value out of range.
pub open spec fn parse_directive_spec(part: Seq<char>) -> Option<Option<ParsedDirective>> {
    if exists|i: int| eq_at(part, i) {
        let i = choose|i: int| eq_at(part, i);
        let key = part.take(i);
        let value = part.skip(i + 1);
        if key == "ch"@ {
            match parse_u16_spec(value) {
                Some(c) => Some(Some(ParsedDirective::Channel { channel: c })),
                None => None,
            }
        } else if key == "vel"@ {
            decimal_directive(value, |v: FixedDecimal| ParsedDirective::Velocity { velocity: v }, |v: FixedDecimal| velocity_ok(v))
        } else if key == "offvel"@ {
            decimal_directive(value, |v: FixedDecimal| ParsedDirective::OffVelocity { off_velocity: v }, |v: FixedDecimal| velocity_ok(v))
        } else if key == "dur"@ {
            match parse_beat(value) {
                Some(d) => Some(Some(ParsedDirective::Duration { duration: d })),
                None => None,
            }
        } else if key == "transition_curve"@ {
            decimal_directive(value, |v: FixedDecimal| ParsedDirective::TransitionCurve { curve: v }, |v: FixedDecimal| true)
        } else if key == "transition_time"@ {
            match parse_beat(value) {
                Some(d) => Some(Some(ParsedDirective::TransitionTime { duration: d })),
                None => None,
            }
        } else if key == "transition_interval"@ {
            decimal_directive(value, |v: FixedDecimal| ParsedDirective::TransitionInterval { interval: v }, |v: FixedDecimal| v.units >= 0)
        } else {
            None
        }
    } else {
        Some(None)
    }
}

/// Parses a `key=value` attribute; `Ok(None)` where the token holds no `=`
/// (see `parse_directive_spec`).
fn try_parse_directive(part: &Vec<char>) -> (r: Result<Option<ParsedDirective>, String>)
    ensures
        r matches Ok(Some(d)) ==> directive_ok(d),
        match r {
            Ok(d) => parse_directive_spec(part@) == Some(d),
            Err(_) => parse_directive_spec(part@) is None,
        },
{
    let n = part.len();
    let mut i: usize = 0;
    while i < n && part[i] != '='
        invariant
            i <= n == part.len(),
            forall|j: int| 0 <= j < i ==> part@[j] != '=',
        decreases n - i,
    {
        i += 1;
    }
    if i == n {
        assert(!exists|k: int| eq_at(part@, k));
        return Ok(None);
    }
    assert(eq_at(part@, i as int));
    let ghost k = choose|k: int| eq_at(part@, k);
    assert(k == i) by {
        if k < i {
            assert(part@[k] != '=');
        } else if k > i {
            assert(part@[i as int] != '=');
        }
    }
    let key = crate::text::slice_of(part, 0, i);
    let value = crate::text::slice_of(part, i + 1, n);
    assert(key@ == part@.take(i as int));
    assert(value@ == part@.skip(i + 1));
    if is_word(&key, "ch") {
        match parse_u16(&value) {
            Some(c) => Ok(Some(ParsedDirective::Channel { channel: c })),
            None => err("Invalid channel number"),
        }
    } else if is_word(&key, "vel") {
        match FixedDecimal::parse_text(&value) {
            Some(v) => if 0 <= v.units && v.units <= 100000 {
                Ok(Some(ParsedDirective::Velocity { velocity: v }))
            } else {
                err("Velocity must be 0.0-1.0")
            },
            None => err("Invalid velocity value"),
        }
    } else if is_word(&key, "offvel") {
        match FixedDecimal::parse_text(&value) {
            Some(v) => if 0 <= v.units && v.units <= 100000 {
                Ok(Some(ParsedDirective::OffVelocity { off_velocity: v }))
            } else {
                err("Off velocity must be 0.0-1.0")
            },
            None => err("Invalid off velocity value"),
        }
    } else if is_word(&key, "dur") {
        match BeatTime::parse_text(&value) {
            Some(d) => Ok(Some(ParsedDirective::Duration { duration: d })),
            None => err("Invalid duration value"),
        }
    } else if is_word(&key, "transition_curve") {
        match FixedDecimal::parse_text(&value) {
            Some(c) => Ok(Some(ParsedDirective::TransitionCurve { curve: c })),
            None => err("Invalid transition_curve value"),
        }
    } else if is_word(&key, "transition_time") {
        match BeatTime::parse_text(&value) {
            Some(d) => Ok(Some(ParsedDirective::TransitionTime { duration: d })),
            None => err("Invalid transition_time value"),
        }
    } else if is_word(&key, "transition_interval") {
        match FixedDecimal::parse_text(&value) {
            Some(v) => if v.units >= 0 {
                Ok(Some(ParsedDirective::TransitionInterval { interval: v }))
            } else {
                err("Transition interval must be >= 0.0")
            },
            None => err("Invalid transition_interval value"),
        }
    } else {
        err("Invalid directive")
    }
}

/// The record of a standalone directive.
pub open spec fn directive_record(d: ParsedDirective) -> Option<RecordView> {
    match d {
        ParsedDirective::Channel { channel } => Some(RecordView::ChannelDirective { channel }),
        ParsedDirective::Velocity { velocity } => Some(RecordView::VelocityDirective { velocity }),
        ParsedDirective::OffVelocity { off_velocity } => Some(
            RecordView::OffVelocityDirective { off_velocity },
        ),
        ParsedDirective::Duration { duration } => Some(RecordView::DurationDirective { duration }),
        ParsedDirective::TransitionCurve { curve } => Some(
            RecordView::TransitionCurveDirective { curve },
        ),
        ParsedDirective::TransitionInterval { interval } => Some(
            RecordView::TransitionIntervalDirective { interval },
        ),
        ParsedDirective::TransitionTime { .. } => None,
    }
}

/// A directive standing alone on a line: `Some(None)` where the token is no
/// `key=value`, `None` where it is one that cannot stand alone.
pub open spec fn global_directive_spec(part: Seq<char>) -> Option<Option<RecordView>> {
    match parse_directive_spec(part) {
        None => None,
        Some(None) => Some(None),
        Some(Some(d)) => match directive_record(d) {
            Some(r) => Some(Some(r)),
            None => None,
        },
    }
}

/// A directive standing alone on a line (see `global_directive_spec`).
fn try_parse_global_directive(part: &Vec<char>) -> (r: Result<Option<MtxtRecord>, String>)
    ensures
        r matches Ok(Some(rec)) ==> record_ok(rec@),
        match r {
            Ok(Some(rec)) => global_directive_spec(part@) == Some(Some(rec@)),
            Ok(None) => global_directive_spec(part@) == Some(None::<RecordView>),
            Err(_) => global_directive_spec(part@) is None,
        },
{
    match try_parse_directive(part) {
        Err(e) => Err(e),
        Ok(None) => Ok(None),
        Ok(Some(d)) => match d {
            ParsedDirective::Channel { channel } => Ok(
                Some(MtxtRecord::ChannelDirective { channel }),
            ),
            ParsedDirective::Velocity { velocity } => Ok(
                Some(MtxtRecord::VelocityDirective { velocity }),
            ),
            ParsedDirective::OffVelocity { off_velocity } => Ok(
                Some(MtxtRecord::OffVelocityDirective { off_velocity }),
            ),
            ParsedDirective::Duration { duration } => Ok(
                Some(MtxtRecord::DurationDirective { duration }),
            ),
            ParsedDirective::TransitionCurve { curve } => Ok(
                Some(MtxtRecord::TransitionCurveDirective { curve }),
            ),
            ParsedDirective::TransitionInterval { interval } => Ok(
                Some(MtxtRecord::TransitionIntervalDirective { interval }),
            ),
            ParsedDirective::TransitionTime { .. } => err(
                "transition_time= is not supported here",
            ),
        },
    }
}

/// Attribute values given on an event line.
#[derive(Clone, Copy)]
pub struct Attrs {
    pub duration: Option<BeatTime>,
    pub velocity: Option<FixedDecimal>,
    pub off_velocity: Option<FixedDecimal>,
    pub channel: Option<u16>,
    pub transition_curve: Option<FixedDecimal>,
    pub transition_time: Option<BeatTime>,
    pub transition_interval: Option<FixedDecimal>,
}

/// The kinds of event lines, by the attributes they accept.
#[derive(Clone, Copy, PartialEq, Eq, Structural)]
pub enum EventKind {
    Note,
    NoteOn,
    NoteOff,
    Tempo,
    ControlChange,
}

pub open spec fn no_attrs() -> Attrs {
    Attrs {
        duration: None,
        velocity: None,
        off_velocity: None,
        channel: None,
        transition_curve: None,
        transition_time: None,
        transition_interval: None,
    }
}

pub open spec fn attrs_ok(a: Attrs) -> bool {
    opt_velocity_ok(a.velocity) && opt_velocity_ok(a.off_velocity) && opt_interval_ok(
        a.transition_interval,
    )
}

/// The attributes after `d`, where an event of kind `k` accepts it.
pub open spec fn accept(k: EventKind, d: ParsedDirective, acc: Attrs) -> Option<Attrs> {
    match d {
        ParsedDirective::Duration { duration } => if k == EventKind::Note {
            Some(Attrs { duration: Some(duration), ..acc })
        } else {
            None
        },
        ParsedDirective::Velocity { velocity } => if k == EventKind::Note || k == EventKind::NoteOn {
            Some(Attrs { velocity: Some(velocity), ..acc })
        } else {
            None
        },
        ParsedDirective::OffVelocity { off_velocity } => if k == EventKind::Note || k
            == EventKind::NoteOff {
            Some(Attrs { off_velocity: Some(off_velocity), ..acc })
        } else {
            None
        },
        ParsedDirective::Channel { channel } => if k != EventKind::Tempo {
            Some(Attrs { channel: Some(channel), ..acc })
        } else {
            None
        },
        ParsedDirective::TransitionCurve { curve } => if k == EventKind::Tempo || k
            == EventKind::ControlChange {
            Some(Attrs { transition_curve: Some(curve), ..acc })
        } else {
            None
        },
        ParsedDirective::TransitionTime { duration } => if k == EventKind::Tempo || k
            == EventKind::ControlChange {
            Some(Attrs { transition_time: Some(duration), ..acc })
        } else {
            None
        },
        ParsedDirective::TransitionInterval { interval } => if k == EventKind::Tempo || k
            == EventKind::ControlChange {
            Some(Attrs { transition_interval: Some(interval), ..acc })
        } else {
            None
        },
    }
}

/// The attributes of `parts[i..]`, each of which must be one the event accepts.
pub open spec fn attrs_from(parts: Seq<Seq<char>>, i: int, k: EventKind, acc: Attrs) -> Option<Attrs>
    decreases parts.len() - i,
{
    if i < 0 || i >= parts.len() {
        Some(acc)
    } else {
        match parse_directive_spec(parts[i]) {
            Some(Some(d)) => match accept(k, d, acc) {
                Some(a) => attrs_from(parts, i + 1, k, a),
                None => None,
            },
            _ => None,
        }
    }
}

fn accept_exec(k: EventKind, d: ParsedDirective, acc: Attrs) -> (r: Option<Attrs>)
    requires
        directive_ok(d),
        attrs_ok(acc),
    ensures
        r == accept(k, d, acc),
        r matches Some(a) ==> attrs_ok(a),
{
    match d {
        ParsedDirective::Duration { duration } => if k == EventKind::Note {
            Some(Attrs { duration: Some(duration), ..acc })
        } else {
            None
        },
        ParsedDirective::Velocity { velocity } => if k == EventKind::Note || k == EventKind::NoteOn {
            Some(Attrs { velocity: Some(velocity), ..acc })
        } else {
            None
        },
        ParsedDirective::OffVelocity { off_velocity } => if k == EventKind::Note || k
            == EventKind::NoteOff {
            Some(Attrs { off_velocity: Some(off_velocity), ..acc })
        } else {
            None
        },
        ParsedDirective::Channel { channel } => if k != EventKind::Tempo {
            Some(Attrs { channel: Some(channel), ..acc })
        } else {
            None
        },
        ParsedDirective::TransitionCurve { curve } => if k == EventKind::Tempo || k
            == EventKind::ControlChange {
            Some(Attrs { transition_curve: Some(curve), ..acc })
        } else {
            None
        },
        ParsedDirective::TransitionTime { duration } => if k == EventKind::Tempo || k
            == EventKind::ControlChange {
            Some(Attrs { transition_time: Some(duration), ..acc })
        } else {
            None
        },
        ParsedDirective::TransitionInterval { interval } => if k == EventKind::Tempo || k
            == EventKind::ControlChange {
            Some(Attrs { transition_interval: Some(interval), ..acc })
        } else {
            None
        },
    }
}

/// Reads the attributes `parts[from..]` of an event of kind `k` (see `attrs_from`).
fn parse_attrs(parts: &Vec<Vec<char>>, from: usize, k: EventKind) -> (r: Result<Attrs, String>)
    requires
        from <= parts.len(),
    ensures
        match r {
            Ok(a) => attrs_from(vviews(parts@), from as int, k, no_attrs()) == Some(a) && attrs_ok(a),
            Err(_) => attrs_from(vviews(parts@), from as int, k, no_attrs()) is None,
        },
{
    let ghost pv = vviews(parts@);
    let mut acc = Attrs {
        duration: None,
        velocity: None,
        off_velocity: None,
        channel: None,
        transition_curve: None,
        transition_time: None,
        transition_interval: None,
    };
    let mut i = from;
    while i < parts.len()
        invariant
            from <= i <= parts.len(),
            pv == vviews(parts@),
            attrs_ok(acc),
            attrs_from(pv, i as int, k, acc) == attrs_from(pv, from as int, k, no_attrs()),
        decreases parts.len() - i,
    {
        assert(pv[i as int] == parts@[i as int]@);
        match try_parse_directive(&parts[i]) {
            Ok(Some(d)) => match accept_exec(k, d, acc) {
                Some(a) => acc = a,
                None => return err("Unsupported directive"),
            },
            Ok(None) => return err("Unsupported token"),
            Err(e) => return Err(e),
        }
        i += 1;
    }
    Ok(acc)
}

/// `note <target> [attributes]`.
pub open spec fn note_event_spec(time: BeatTime, parts: Seq<Seq<char>>, from: int) -> Option<RecordView> {
    if from >= parts.len() {
        None
    } else {
        match attrs_from(parts, from + 1, EventKind::Note, no_attrs()) {
            Some(a) => Some(
                RecordView::Note {
                    time,
                    note: parse_target(parts[from]),
                    duration: a.duration,
                    velocity: a.velocity,
                    off_velocity: a.off_velocity,
                    channel: a.channel,
                },
            ),
            None => None,
        }
    }
}

/// `on <target> [attributes]`.
pub open spec fn note_on_event_spec(time: BeatTime, parts: Seq<Seq<char>>, from: int) -> Option<RecordView> {
    if from >= parts.len() {
        None
    } else {
        match attrs_from(parts, from + 1, EventKind::NoteOn, no_attrs()) {
            Some(a) => Some(
                RecordView::NoteOn {
                    time,
                    note: parse_target(parts[from]),
                    velocity: a.velocity,
                    channel: a.channel,
                },
            ),
            None => None,
        }
    }
}

/// `off <target> [attributes]`.
pub open spec fn note_off_event_spec(time: BeatTime, parts: Seq<Seq<char>>, from: int) -> Option<RecordView> {
    if from >= parts.len() {
        None
    } else {
        match attrs_from(parts, from + 1, EventKind::NoteOff, no_attrs()) {
            Some(a) => Some(
                RecordView::NoteOff {
                    time,
                    note: parse_target(parts[from]),
                    off_velocity: a.off_velocity,
                    channel: a.channel,
                },
            ),
            None => None,
        }
    }
}

/// `tempo <bpm> [transition attributes]`.
pub open spec fn tempo_event_spec(time: BeatTime, parts: Seq<Seq<char>>, from: int) -> Option<RecordView> {
    if from >= parts.len() {
        None
    } else {
        match (parse_decimal(parts[from]), attrs_from(parts, from + 1, EventKind::Tempo, no_attrs())) {
            (Some(bpm), Some(a)) => Some(
                RecordView::Tempo {
                    time,
                    bpm,
                    transition_curve: a.transition_curve,
                    transition_time: a.transition_time,
                    transition_interval: a.transition_interval,
                },
            ),
            _ => None,
        }
    }
}

fn parse_note_event(time: BeatTime, parts: &Vec<Vec<char>>, from: usize) -> (r: Result<
    MtxtRecord,
    String,
>)
    requires
        from <= parts.len(),
    ensures
        r matches Ok(rec) ==> record_ok(rec@),
        match r {
            Ok(rec) => note_event_spec(time, vviews(parts@), from as int) == Some(rec@),
            Err(_) => note_event_spec(time, vviews(parts@), from as int) is None,
        },
{
    if from >= parts.len() {
        return err("Note event requires note name");
    }
    assert(vviews(parts@)[from as int] == parts@[from as int]@);
    let note = NoteTarget::parse_text(&parts[from]);
    match parse_attrs(parts, from + 1, EventKind::Note) {
        Ok(a) => Ok(
            MtxtRecord::Note {
                time,
                note,
                duration: a.duration,
                velocity: a.velocity,
                off_velocity: a.off_velocity,
                channel: a.channel,
            },
        ),
        Err(e) => Err(e),
    }
}

fn parse_note_on_event(time: BeatTime, parts: &Vec<Vec<char>>, from: usize) -> (r: Result<
    MtxtRecord,
    String,
>)
    requires
        from <= parts.len(),
    ensures
        r matches Ok(rec) ==> record_ok(rec@),
        match r {
            Ok(rec) => note_on_event_spec(time, vviews(parts@), from as int) == Some(rec@),
            Err(_) => note_on_event_spec(time, vviews(parts@), from as int) is None,
        },
{
    if from >= parts.len() {
        return err("Note on event requires note name");
    }
    assert(vviews(parts@)[from as int] == parts@[from as int]@);
    let note = NoteTarget::parse_text(&parts[from]);
    match parse_attrs(parts, from + 1, EventKind::NoteOn) {
        Ok(a) => Ok(MtxtRecord::NoteOn { time, note, velocity: a.velocity, channel: a.channel }),
        Err(e) => Err(e),
    }
}

fn parse_note_off_event(time: BeatTime, parts: &Vec<Vec<char>>, from: usize) -> (r: Result<
    MtxtRecord,
    String,
>)
    requires
        from <= parts.len(),
    ensures
        r matches Ok(rec) ==> record_ok(rec@),
        match r {
            Ok(rec) => note_off_event_spec(time, vviews(parts@), from as int) == Some(rec@),
            Err(_) => note_off_event_spec(time, vviews(parts@), from as int) is None,
        },
{
    if from >= parts.len() {
        return err("Note off event requires note name");
    }
    assert(vviews(parts@)[from as int] == parts@[from as int]@);
    let note = NoteTarget::parse_text(&parts[from]);
    match parse_attrs(parts, from + 1, EventKind::NoteOff) {
        Ok(a) => Ok(
            MtxtRecord::NoteOff { time, note, off_velocity: a.off_velocity, channel: a.channel },
        ),
        Err(e) => Err(e),
    }
}

/// Whether a token holds a `=`.
pub open spec fn has_eq(t: Seq<char>) -> bool {
    exists|j: int| 0 <= j < t.len() && t[j] == '='
}

fn has_equals(t: &Vec<char>) -> (b: bool)
    ensures
        b == has_eq(t@),
{
    let mut i: usize = 0;
    while i < t.len()
        invariant
            i <= t.len(),
            forall|j: int| 0 <= j < i ==> t@[j] != '=',
        decreases t.len() - i,
    {
        if t[i] == '=' {
            return true;
        }
        i += 1;
    }
    false
}

/// Attributes and positional token indices of a controller change from `i` on.
pub open spec fn cc_fold(parts: Seq<Seq<char>>, i: int, acc: Attrs, pos: Seq<int>) -> Option<(Attrs, Seq<int>)>
    decreases parts.len() - i,
{
    if i < 0 || i >= parts.len() {
        Some((acc, pos))
    } else if has_eq(parts[i]) {
        match parse_directive_spec(parts[i]) {
            Some(Some(d)) => match accept(EventKind::ControlChange, d, acc) {
                Some(a) => cc_fold(parts, i + 1, a, pos),
                None => None,
            },
            _ => None,
        }
    } else {
        cc_fold(parts, i + 1, acc, pos.push(i))
    }
}

/// `cc [target] <controller> <value>` with attributes anywhere after `cc`.
pub open spec fn cc_event_spec(time: BeatTime, parts: Seq<Seq<char>>, from: int) -> Option<RecordView> {
    match cc_fold(parts, from, no_attrs(), Seq::empty()) {
        None => None,
        Some((a, pos)) => if pos.len() == 3 {
            match parse_decimal(parts[pos[2]]) {
                Some(v) => Some(
                    RecordView::ControlChange {
                        time,
                        note: Some(parse_target(parts[pos[0]])),
                        controller: parts[pos[1]],
                        value: v,
                        channel: a.channel,
                        transition_curve: a.transition_curve,
                        transition_time: a.transition_time,
                        transition_interval: a.transition_interval,
                    },
                ),
                None => None,
            }
        } else if pos.len() == 2 {
            match parse_decimal(parts[pos[1]]) {
                Some(v) => Some(
                    RecordView::ControlChange {
                        time,
                        note: None,
                        controller: parts[pos[0]],
                        value: v,
                        channel: a.channel,
                        transition_curve: a.transition_curve,
                        transition_time: a.transition_time,
                        transition_interval: a.transition_interval,
                    },
                ),
                None => None,
            }
        } else {
            None
        },
    }
}

fn parse_control_change_event(time: BeatTime, parts: &Vec<Vec<char>>, from: usize) -> (r: Result<
    MtxtRecord,
    String,
>)
    requires
        from <= parts.len(),
    ensures
        r matches Ok(rec) ==> record_ok(rec@),
        match r {
            Ok(rec) => cc_event_spec(time, vviews(parts@), from as int) == Some(rec@),
            Err(_) => cc_event_spec(time, vviews(parts@), from as int) is None,
        },
{
    let ghost pv = vviews(parts@);
    let mut positional: Vec<usize> = Vec::new();
    let mut acc = Attrs {
        duration: None,
        velocity: None,
        off_velocity: None,
        channel: None,
        transition_curve: None,
        transition_time: None,
        transition_interval: None,
    };
    let mut i = from;
    assert(positional@.map_values(|x: usize| x as int) =~= Seq::<int>::empty());
    while i < parts.len()
        invariant
            from <= i <= parts.len(),
            pv == vviews(parts@),
            attrs_ok(acc),
            forall|k: int| 0 <= k < positional.len() ==> #[trigger] positional@[k] < parts.len(),
            cc_fold(pv, i as int, acc, positional@.map_values(|x: usize| x as int)) == cc_fold(
                pv,
                from as int,
                no_attrs(),
                Seq::empty(),
            ),
        decreases parts.len() - i,
    {
        assert(pv[i as int] == parts@[i as int]@);
        if has_equals(&parts[i]) {
            match try_parse_directive(&parts[i]) {
                Ok(Some(d)) => match accept_exec(EventKind::ControlChange, d, acc) {
                    Some(a) => acc = a,
                    None => return err("Unsupported directive"),
                },
                Ok(None) => return err("Unsupported token"),
                Err(e) => return Err(e),
            }
        } else {
            let ghost before = positional@.map_values(|x: usize| x as int);
            positional.push(i);
            assert(positional@.map_values(|x: usize| x as int) =~= before.push(i as int));
        }
        i += 1;
    }
    let ghost posv = positional@.map_values(|x: usize| x as int);
    let np = positional.len();
    if np == 3 {
        assert(pv[posv[2]] == parts@[positional@[2] as int]@);
        assert(pv[posv[1]] == parts@[positional@[1] as int]@);
        assert(pv[posv[0]] == parts@[positional@[0] as int]@);
        match FixedDecimal::parse_text(&parts[positional[2]]) {
            Some(value) => Ok(
                MtxtRecord::ControlChange {
                    time,
                    note: Some(NoteTarget::parse_text(&parts[positional[0]])),
                    controller: string_of(&parts[positional[1]]),
                    value,
                    channel: acc.channel,
                    transition_curve: acc.transition_curve,
                    transition_time: acc.transition_time,
                    transition_interval: acc.transition_interval,
                },
            ),
            None => err("CC event requires controller and value (float)"),
        }
    } else if np == 2 {
        assert(pv[posv[1]] == parts@[positional@[1] as int]@);
        assert(pv[posv[0]] == parts@[positional@[0] as int]@);
        match FixedDecimal::parse_text(&parts[positional[1]]) {
            Some(value) => Ok(
                MtxtRecord::ControlChange {
                    time,
                    note: None,
                    controller: string_of(&parts[positional[0]]),
                    value,
                    channel: acc.channel,
                    transition_curve: acc.transition_curve,
                    transition_time: acc.transition_time,
                    transition_interval: acc.transition_interval,
                },
            ),
            None => err("CC event requires controller and value (float)"),
        }
    } else {
        err("CC event requires controller and value (float)")
    }
}

/// The non-empty pieces, in order.
pub open spec fn nonempty_pieces(p: Seq<Seq<char>>) -> Seq<Seq<char>>
    decreases p.len(),
{
    if p.len() == 0 {
        p
    } else if p.last().len() > 0 {
        nonempty_pieces(p.drop_last()).push(p.last())
    } else {
        nonempty_pieces(p.drop_last())
    }
}

/// The names of a voice list: the comma-separated pieces, trimmed, without empty ones.
pub open spec fn voice_names(s: Seq<char>) -> Seq<Seq<char>> {
    nonempty_pieces(comma_pieces(s))
}

impl VoiceList {
    /// The comma-separated names of `s`, trimmed, without empty ones.
    pub fn parse(s: &str) -> (r: VoiceList)
        ensures
            r@ == voice_names(s@),
    {
        let v = crate::text::chars_of(s);
        VoiceList::parse_chars(&v)
    }

    fn parse_chars(s: &Vec<char>) -> (r: VoiceList)
        ensures
            r@ == voice_names(s@),
    {
        let pieces = split_commas(s);
        let ghost pv = vviews(pieces@);
        let mut voices: Vec<String> = Vec::new();
        let mut i: usize = 0;
        assert(voices@.map_values(|v: String| v@) =~= nonempty_pieces(pv.take(0)));
        while i < pieces.len()
            invariant
                i <= pieces.len(),
                pv == vviews(pieces@),
                voices@.map_values(|v: String| v@) == nonempty_pieces(pv.take(i as int)),
            decreases pieces.len() - i,
        {
            let ghost before = voices@.map_values(|v: String| v@);
            assert(pv.take(i + 1).drop_last() == pv.take(i as int));
            assert(pv.take(i + 1).last() == pieces@[i as int]@);
            if pieces[i].len() > 0 {
                voices.push(string_of(&pieces[i]));
                assert(voices@.map_values(|v: String| v@) =~= before.push(pieces@[i as int]@));
            }
            i += 1;
        }
        assert(pv.take(pieces.len() as int) == pv);
        VoiceList { voices }
    }
}

/// `voice [ch=<n>] <names>`.
pub open spec fn voice_event_spec(time: BeatTime, parts: Seq<Seq<char>>, from: int) -> Option<RecordView> {
    let head = if from < parts.len() {
        match parse_directive_spec(parts[from]) {
            Some(Some(ParsedDirective::Channel { channel })) => Some((Some(channel), from + 1)),
            Some(None) => Some((None, from)),
            _ => None,
        }
    } else {
        Some((None, from))
    };
    match head {
        None => None,
        Some((channel, idx)) => if idx >= parts.len() {
            None
        } else {
            Some(RecordView::Voice { time, voices: voice_names(join_tokens(parts.skip(idx))), channel })
        },
    }
}

fn parse_voice_event(time: BeatTime, parts: &Vec<Vec<char>>, from: usize) -> (r: Result<
    MtxtRecord,
    String,
>)
    requires
        from <= parts.len(),
    ensures
        r matches Ok(rec) ==> record_ok(rec@),
        match r {
            Ok(rec) => voice_event_spec(time, vviews(parts@), from as int) == Some(rec@),
            Err(_) => voice_event_spec(time, vviews(parts@), from as int) is None,
        },
{
    let mut channel: Option<u16> = None;
    let mut idx = from;
    if idx < parts.len() {
        assert(vviews(parts@)[from as int] == parts@[from as int]@);
        match try_parse_directive(&parts[idx]) {
            Ok(Some(ParsedDirective::Channel { channel: c })) => {
                channel = Some(c);
                idx += 1;
            },
            Ok(None) => {},
            Err(e) => return Err(e),
            _ => return err("Unsupported directive"),
        }
    }
    if idx >= parts.len() {
        return err("Voice event requires voice list");
    }
    let joined = join_from(parts, idx);
    Ok(MtxtRecord::Voice { time, voices: VoiceList::parse_chars(&joined), channel })
}

/// `tuning <target> <cents>`.
pub open spec fn tuning_event_spec(time: BeatTime, parts: Seq<Seq<char>>, from: int) -> Option<RecordView> {
    if parts.len() - from != 2 {
        None
    } else {
        match parse_decimal(parts[from + 1]) {
            Some(cents) => Some(RecordView::Tuning { time, target: parts[from], cents }),
            None => None,
        }
    }
}

fn parse_tuning_event(time: BeatTime, parts: &Vec<Vec<char>>, from: usize) -> (r: Result<
    MtxtRecord,
    String,
>)
    requires
        from <= parts.len(),
    ensures
        r matches Ok(rec) ==> record_ok(rec@),
        match r {
            Ok(rec) => tuning_event_spec(time, vviews(parts@), from as int) == Some(rec@),
            Err(_) => tuning_event_spec(time, vviews(parts@), from as int) is None,
        },
{
    if parts.len() - from != 2 {
        return err("Tuning event requires target and cents");
    }
    assert(vviews(parts@)[from as int] == parts@[from as int]@);
    assert(vviews(parts@)[from + 1] == parts@[from + 1]@);
    match FixedDecimal::parse_text(&parts[from + 1]) {
        Some(cents) => Ok(MtxtRecord::Tuning { time, target: string_of(&parts[from]), cents }),
        None => err("Invalid cents value"),
    }
}

/// `reset <target>`.
pub open spec fn reset_event_spec(time: BeatTime, parts: Seq<Seq<char>>, from: int) -> Option<RecordView> {
    if parts.len() - from != 1 {
        None
    } else {
        Some(RecordView::Reset { time, target: parts[from] })
    }
}

fn parse_reset_event(time: BeatTime, parts: &Vec<Vec<char>>, from: usize) -> (r: Result<
    MtxtRecord,
    String,
>)
    requires
        from <= parts.len(),
    ensures
        r matches Ok(rec) ==> record_ok(rec@),
        match r {
            Ok(rec) => reset_event_spec(time, vviews(parts@), from as int) == Some(rec@),
            Err(_) => reset_event_spec(time, vviews(parts@), from as int) is None,
        },
{
    if parts.len() - from != 1 {
        return err("Reset event requires target");
    }
    assert(vviews(parts@)[from as int] == parts@[from as int]@);
    Ok(MtxtRecord::Reset { time, target: string_of(&parts[from]) })
}

fn parse_tempo_event(time: BeatTime, parts: &Vec<Vec<char>>, from: usize) -> (r: Result<
    MtxtRecord,
    String,
>)
    requires
        from <= parts.len(),
    ensures
        r matches Ok(rec) ==> record_ok(rec@),
        match r {
            Ok(rec) => tempo_event_spec(time, vviews(parts@), from as int) == Some(rec@),
            Err(_) => tempo_event_spec(time, vviews(parts@), from as int) is None,
        },
{
    if from >= parts.len() {
        return err("Tempo event requires a BPM value");
    }
    assert(vviews(parts@)[from as int] == parts@[from as int]@);
    let bpm = FixedDecimal::parse_text(&parts[from]);
    let attrs = parse_attrs(parts, from + 1, EventKind::Tempo);
    match (bpm, attrs) {
        (Some(bpm), Ok(a)) => Ok(
            MtxtRecord::Tempo {
                time,
                bpm,
                transition_curve: a.transition_curve,
                transition_time: a.transition_time,
                transition_interval: a.transition_interval,
            },
        ),
        (None, _) => err("Invalid BPM value"),
        (_, Err(e)) => Err(e),
    }
}

/// A run of decimal digits whose value fits in 32 bits.
pub open spec fn u32_digits(w: Seq<char>) -> Option<u32> {
    if w.len() > 0 && all_digits(w) && digits_value(w) <= u32::MAX {
        Some(digits_value(w) as u32)
    } else {
        None
    }
}

pub open spec fn slash_at(s: Seq<char>, i: int) -> bool {
    &&& 0 <= i < s.len()
    &&& s[i] == '/'
    &&& forall|j: int| 0 <= j < i ==> s[j] != '/'
}

/// `N/D` with two decimal numbers.
pub open spec fn time_signature_spec(s: Seq<char>) -> Option<TimeSignature> {
    if exists|i: int| slash_at(s, i) {
        let i = choose|i: int| slash_at(s, i);
        match (u32_digits(s.take(i)), u32_digits(s.skip(i + 1))) {
            (Some(a), Some(b)) => Some(TimeSignature { numerator: a, denominator: b }),
            _ => None,
        }
    } else {
        None
    }
}

fn u32_digits_exec(s: &Vec<char>, from: usize, to: usize) -> (r: Option<u32>)
    requires
        from <= to <= s.len(),
    ensures
        r == u32_digits(s@.subrange(from as int, to as int)),
{
    crate::text::parse_u32_digits(s, from, to)
}

fn parse_time_signature(s: &Vec<char>) -> (r: Option<TimeSignature>)
    ensures
        r == time_signature_spec(s@),
{
    let n = s.len();
    let mut i: usize = 0;
    while i < n && s[i] != '/'
        invariant
            i <= n == s.len(),
            forall|j: int| 0 <= j < i ==> s@[j] != '/',
        decreases n - i,
    {
        i += 1;
    }
    if i == n {
        assert(!exists|k: int| slash_at(s@, k));
        return None;
    }
    assert(slash_at(s@, i as int));
    let ghost k = choose|k: int| slash_at(s@, k);
    assert(k == i) by {
        if k < i {
            assert(s@[k] != '/');
        } else if k > i {
            assert(s@[i as int] != '/');
        }
    }
    assert(s@.take(i as int) == s@.subrange(0, i as int));
    assert(s@.skip(i + 1) == s@.subrange(i + 1, n as int));
    match (u32_digits_exec(s, 0, i), u32_digits_exec(s, i + 1, n)) {
        (Some(a), Some(b)) => Some(TimeSignature { numerator: a, denominator: b }),
        _ => None,
    }
}

/// `timesig <N/D>`.
pub open spec fn timesig_event_spec(time: BeatTime, parts: Seq<Seq<char>>, from: int) -> Option<RecordView> {
    if parts.len() - from != 1 {
        None
    } else {
        match time_signature_spec(parts[from]) {
            Some(signature) => Some(RecordView::TimeSignature { time, signature }),
            None => None,
        }
    }
}

fn parse_time_signature_event(time: BeatTime, parts: &Vec<Vec<char>>, from: usize) -> (r: Result<
    MtxtRecord,
    String,
>)
    requires
        from <= parts.len(),
    ensures
        r matches Ok(rec) ==> record_ok(rec@),
        match r {
            Ok(rec) => timesig_event_spec(time, vviews(parts@), from as int) == Some(rec@),
            Err(_) => timesig_event_spec(time, vviews(parts@), from as int) is None,
        },
{
    if parts.len() - from != 1 {
        return err("Time signature event requires signature");
    }
    assert(vviews(parts@)[from as int] == parts@[from as int]@);
    match parse_time_signature(&parts[from]) {
        Some(signature) => Ok(MtxtRecord::TimeSignature { time, signature }),
        None => err("Invalid time signature"),
    }
}

/// `meta global <type> <value...>`, or `meta [ch=<n>] <type> <value...>`.
pub open spec fn meta_event_spec(time: Option<BeatTime>, parts: Seq<Seq<char>>, from: int) -> Option<RecordView> {
    if from >= parts.len() {
        None
    } else if parts[from] == "global"@ {
        if parts.len() - from < 3 {
            None
        } else {
            Some(RecordView::GlobalMeta { meta_type: parts[from + 1], value: join_tokens(parts.skip(from + 2)) })
        }
    } else {
        let (channel, index) = match parse_directive_spec(parts[from]) {
            Some(Some(ParsedDirective::Channel { channel })) => (Some(channel), from + 1),
            _ => (None, from),
        };
        if parts.len() - index < 2 {
            None
        } else {
            Some(RecordView::Meta { time, channel, meta_type: parts[index], value: join_tokens(parts.skip(index + 1)) })
        }
    }
}

fn parse_meta_event(time: Option<BeatTime>, parts: &Vec<Vec<char>>, from: usize) -> (r: Result<
    MtxtRecord,
    String,
>)
    requires
        from <= parts.len(),
    ensures
        r matches Ok(rec) ==> record_ok(rec@),
        match r {
            Ok(rec) => meta_event_spec(time, vviews(parts@), from as int) == Some(rec@),
            Err(_) => meta_event_spec(time, vviews(parts@), from as int) is None,
        },
{
    if from >= parts.len() {
        return err("Meta event requires type and value");
    }
    assert(vviews(parts@)[from as int] == parts@[from as int]@);
    if is_word(&parts[from], "global") {
        if parts.len() - from < 3 {
            return err("Global meta event requires type and value");
        }
        assert(vviews(parts@)[from + 1] == parts@[from + 1]@);
        let meta_type = string_of(&parts[from + 1]);
        let value = string_of(&join_from(parts, from + 2));
        return Ok(MtxtRecord::GlobalMeta { meta_type, value });
    }
    let mut channel: Option<u16> = None;
    let mut index = from;
    if let Ok(Some(ParsedDirective::Channel { channel: c })) = try_parse_directive(&parts[index]) {
        channel = Some(c);
        index += 1;
    }
    if parts.len() - index < 2 {
        return err("Meta event requires type and value");
    }
    assert(vviews(parts@)[index as int] == parts@[index as int]@);
    let meta_type = string_of(&parts[index]);
    let value = string_of(&join_from(parts, index + 1));
    Ok(MtxtRecord::Meta { time, channel, meta_type, value })
}

pub open spec fn hex_value(c: char) -> Option<nat> {
    if '0' <= c && c <= '9' {
        Some((c as int - '0' as int) as nat)
    } else if 'a' <= c && c <= 'f' {
        Some((c as int - 'a' as int + 10) as nat)
    } else if 'A' <= c && c <= 'F' {
        Some((c as int - 'A' as int + 10) as nat)
    } else {
        None
    }
}

/// A byte written as one or two hexadecimal digits.
pub open spec fn hex_byte(t: Seq<char>) -> Option<u8> {
    if t.len() == 1 {
        match hex_value(t[0]) {
            Some(v) => Some(v as u8),
            None => None,
        }
    } else if t.len() == 2 {
        match (hex_value(t[0]), hex_value(t[1])) {
            (Some(a), Some(b)) => Some((a * 16 + b) as u8),
            _ => None,
        }
    } else {
        None
    }
}

/// The bytes of a list of tokens, each of which must be a hexadecimal byte.
pub open spec fn hex_bytes(p: Seq<Seq<char>>) -> Option<Seq<u8>>
    decreases p.len(),
{
    if p.len() == 0 {
        Some(Seq::empty())
    } else {
        match (hex_bytes(p.drop_last()), hex_byte(p.last())) {
            (Some(bs), Some(b)) => Some(bs.push(b)),
            _ => None,
        }
    }
}

pub fn hex_digit(c: char) -> (r: Option<u8>)
    ensures
        match r {
            Some(v) => hex_value(c) == Some(v as nat) && v < 16,
            None => hex_value(c) is None,
        },
{
    if '0' <= c && c <= '9' {
        Some((c as u32 - '0' as u32) as u8)
    } else if 'a' <= c && c <= 'f' {
        Some((c as u32 - 'a' as u32 + 10) as u8)
    } else if 'A' <= c && c <= 'F' {
        Some((c as u32 - 'A' as u32 + 10) as u8)
    } else {
        None
    }
}

fn parse_hex_byte(t: &Vec<char>) -> (r: Option<u8>)
    ensures
        r == hex_byte(t@),
{
    if t.len() == 1 {
        hex_digit(t[0])
    } else if t.len() == 2 {
        match (hex_digit(t[0]), hex_digit(t[1])) {
            (Some(a), Some(b)) => Some(a * 16 + b),
            _ => None,
        }
    } else {
        None
    }
}

/// `sysex <byte> ...`.
pub open spec fn sysex_event_spec(time: BeatTime, parts: Seq<Seq<char>>, from: int) -> Option<RecordView> {
    match hex_bytes(parts.skip(from)) {
        Some(data) => Some(RecordView::SysEx { time, data }),
        None => None,
    }
}

fn parse_sysex_event(time: BeatTime, parts: &Vec<Vec<char>>, from: usize) -> (r: Result<
    MtxtRecord,
    String,
>)
    requires
        from <= parts.len(),
    ensures
        r matches Ok(rec) ==> record_ok(rec@),
        match r {
            Ok(rec) => sysex_event_spec(time, vviews(parts@), from as int) == Some(rec@),
            Err(_) => sysex_event_spec(time, vviews(parts@), from as int) is None,
        },
{
    let ghost pv = vviews(parts@);
    let mut data: Vec<u8> = Vec::new();
    let mut i = from;
    assert(pv.subrange(from as int, from as int) =~= Seq::<Seq<char>>::empty());
    while i < parts.len()
        invariant
            from <= i <= parts.len(),
            pv == vviews(parts@),
            hex_bytes(pv.subrange(from as int, i as int)) == Some(data@),
        decreases parts.len() - i,
    {
        let ghost q = pv.subrange(from as int, i + 1);
        assert(q.drop_last() == pv.subrange(from as int, i as int));
        assert(q.last() == parts@[i as int]@);
        match parse_hex_byte(&parts[i]) {
            Some(b) => data.push(b),
            None => {
                proof {
                    lemma_hex_bytes_prefix_fail(pv.skip(from as int), i - from);
                    assert(pv.skip(from as int).take(i + 1 - from) == q);
                }
                return err("Invalid hex byte");
            },
        }
        i += 1;
    }
    assert(pv.subrange(from as int, parts.len() as int) == pv.skip(from as int));
    Ok(MtxtRecord::SysEx { time, data })
}

proof fn lemma_hex_bytes_prefix_fail(p: Seq<Seq<char>>, k: int)
    requires
        0 <= k < p.len(),
        hex_bytes(p.take(k + 1)) is None,
    ensures
        hex_bytes(p) is None,
    decreases p.len(),
{
    if k + 1 < p.len() {
        assert(p.drop_last().take(k + 1) == p.take(k + 1));
        lemma_hex_bytes_prefix_fail(p.drop_last(), k);
    } else {
        assert(p.take(k + 1) == p);
    }
}

/// The record of a timed event line `<time> <kind> ...`: `Some(None)` where
/// the first token is no time, `None` where the line does not parse.
pub open spec fn time_event_spec(parts: Seq<Seq<char>>) -> Option<Option<RecordView>> {
    if parts.len() < 2 {
        Some(None)
    } else {
        match parse_beat(parts[0]) {
            None => Some(None),
            Some(t) => {
                let kind = parts[1];
                let r = if kind == "note"@ {
                    note_event_spec(t, parts, 2)
                } else if kind == "on"@ {
                    note_on_event_spec(t, parts, 2)
                } else if kind == "off"@ {
                    note_off_event_spec(t, parts, 2)
                } else if kind == "cc"@ {
                    cc_event_spec(t, parts, 2)
                } else if kind == "voice"@ {
                    voice_event_spec(t, parts, 2)
                } else if kind == "tempo"@ {
                    tempo_event_spec(t, parts, 2)
                } else if kind == "timesig"@ {
                    timesig_event_spec(t, parts, 2)
                } else if kind == "tuning"@ {
                    tuning_event_spec(t, parts, 2)
                } else if kind == "reset"@ {
                    reset_event_spec(t, parts, 2)
                } else if kind == "meta"@ {
                    meta_event_spec(Some(t), parts, 2)
                } else if kind == "sysex"@ {
                    sysex_event_spec(t, parts, 2)
                } else {
                    None
                };
                match r {
                    Some(x) => Some(Some(x)),
                    None => None,
                }
            },
        }
    }
}

/// A timed event `<time> <kind> ...` (see `time_event_spec`).
fn try_parse_time_event(parts: &Vec<Vec<char>>) -> (r: Result<Option<MtxtRecord>, String>)
    ensures
        r matches Ok(Some(rec)) ==> record_ok(rec@),
        match r {
            Ok(Some(rec)) => time_event_spec(vviews(parts@)) == Some(Some(rec@)),
            Ok(None) => time_event_spec(vviews(parts@)) == Some(None::<RecordView>),
            Err(_) => time_event_spec(vviews(parts@)) is None,
        },
{
    if parts.len() < 2 {
        return Ok(None);
    }
    assert(vviews(parts@)[0] == parts@[0]@);
    assert(vviews(parts@)[1] == parts@[1]@);
    let time = match BeatTime::parse_text(&parts[0]) {
        Some(t) => t,
        None => return Ok(None),
    };
    let kind = &parts[1];
    let res = if is_word(kind, "note") {
        parse_note_event(time, parts, 2)
    } else if is_word(kind, "on") {
        parse_note_on_event(time, parts, 2)
    } else if is_word(kind, "off") {
        parse_note_off_event(time, parts, 2)
    } else if is_word(kind, "cc") {
        parse_control_change_event(time, parts, 2)
    } else if is_word(kind, "voice") {
        parse_voice_event(time, parts, 2)
    } else if is_word(kind, "tempo") {
        parse_tempo_event(time, parts, 2)
    } else if is_word(kind, "timesig") {
        parse_time_signature_event(time, parts, 2)
    } else if is_word(kind, "tuning") {
        parse_tuning_event(time, parts, 2)
    } else if is_word(kind, "reset") {
        parse_reset_event(time, parts, 2)
    } else if is_word(kind, "meta") {
        parse_meta_event(Some(time), parts, 2)
    } else if is_word(kind, "sysex") {
        parse_sysex_event(time, parts, 2)
    } else {
        err("Unknown event type")
    };
    match res {
        Ok(rec) => Ok(Some(rec)),
        Err(e) => Err(e),
    }
}

/// `<major>.<minor>` with major version 1.
pub open spec fn version_spec(s: Seq<char>) -> Option<Version> {
    if exists|i: int| first_dot(s, i) {
        let i = choose|i: int| first_dot(s, i);
        match (u32_digits(s.take(i)), u32_digits(s.skip(i + 1))) {
            (Some(major), Some(minor)) => if major == 1 {
                Some(Version { major, minor })
            } else {
                None
            },
            _ => None,
        }
    } else {
        None
    }
}

fn parse_version(s: &Vec<char>) -> (r: Result<Version, String>)
    ensures
        match r {
            Ok(v) => version_spec(s@) == Some(v),
            Err(_) => version_spec(s@) is None,
        },
{
    let n = s.len();
    let mut i: usize = 0;
    while i < n && s[i] != '.'
        invariant
            i <= n == s.len(),
            forall|j: int| 0 <= j < i ==> s@[j] != '.',
        decreases n - i,
    {
        i += 1;
    }
    if i == n {
        assert(!exists|k: int| first_dot(s@, k));
        return err("Invalid version");
    }
    assert(first_dot(s@, i as int));
    let ghost k = choose|k: int| first_dot(s@, k);
    assert(k == i) by {
        if k < i {
            assert(s@[k] != '.');
        } else if k > i {
            assert(s@[i as int] != '.');
        }
    }
    assert(s@.take(i as int) == s@.subrange(0, i as int));
    assert(s@.skip(i + 1) == s@.subrange(i + 1, n as int));
    match (u32_digits_exec(s, 0, i), u32_digits_exec(s, i + 1, n)) {
        (Some(major), Some(minor)) => if major == 1 {
            Ok(Version { major, minor })
        } else {
            err("Unsupported version")
        },
        _ => err("Invalid version"),
    }
}

/// The notes of a list of pieces, each of which must be a note.
pub open spec fn notes_of(p: Seq<Seq<char>>) -> Option<Seq<Note>>
    decreases p.len(),
{
    if p.len() == 0 {
        Some(Seq::empty())
    } else {
        match (notes_of(p.drop_last()), parse_note(p.last())) {
            (Some(ns), Some(n)) => Some(ns.push(n)),
            _ => None,
        }
    }
}

/// `alias <name> <note>, <note>, ...` where the name is no note.
pub open spec fn alias_spec(parts: Seq<Seq<char>>) -> Option<RecordView> {
    if parts.len() < 3 || parse_note(parts[1]) is Some {
        None
    } else {
        match notes_of(comma_pieces(join_tokens(parts.skip(2)))) {
            Some(notes) => Some(RecordView::AliasDef { value: AliasView { name: parts[1], notes } }),
            None => None,
        }
    }
}

proof fn lemma_notes_prefix_fail(p: Seq<Seq<char>>, k: int)
    requires
        0 <= k < p.len(),
        notes_of(p.take(k + 1)) is None,
    ensures
        notes_of(p) is None,
    decreases p.len(),
{
    if k + 1 < p.len() {
        assert(p.drop_last().take(k + 1) == p.take(k + 1));
        lemma_notes_prefix_fail(p.drop_last(), k);
    } else {
        assert(p.take(k + 1) == p);
    }
}

fn parse_notes(pieces: &Vec<Vec<char>>) -> (r: Option<Vec<Note>>)
    ensures
        match r {
            Some(v) => notes_of(vviews(pieces@)) == Some(v@),
            None => notes_of(vviews(pieces@)) is None,
        },
{
    let ghost pv = vviews(pieces@);
    let mut notes: Vec<Note> = Vec::new();
    let mut i: usize = 0;
    assert(pv.take(0) =~= Seq::<Seq<char>>::empty());
    while i < pieces.len()
        invariant
            i <= pieces.len(),
            pv == vviews(pieces@),
            notes_of(pv.take(i as int)) == Some(notes@),
        decreases pieces.len() - i,
    {
        let ghost before = notes@;
        let ghost q = pv.take(i + 1);
        assert(q.drop_last() == pv.take(i as int));
        assert(q.last() == pieces@[i as int]@);
        let parsed = Note::parse_text(&pieces[i]);
        match parsed {
            Some(n) => {
                notes.push(n);
                assert(notes_of(q) == Some(before.push(n)));
            },
            None => {
                assert(notes_of(q) is None);
                proof {
                    lemma_notes_prefix_fail(pv, i as int);
                }
                return None;
            },
        }
        i += 1;
    }
    assert(pv.take(pieces.len() as int) == pv);
    Some(notes)
}

fn parse_alias(parts: &Vec<Vec<char>>) -> (r: Result<MtxtRecord, String>)
    requires
        parts.len() >= 1,
    ensures
        r matches Ok(rec) ==> record_ok(rec@),
        match r {
            Ok(rec) => alias_spec(vviews(parts@)) == Some(rec@),
            Err(_) => alias_spec(vviews(parts@)) is None,
        },
{
    if parts.len() < 3 {
        return err("alias requires name and at least one note");
    }
    assert(vviews(parts@)[1] == parts@[1]@);
    if Note::parse_text(&parts[1]).is_some() {
        return err("Cannot redefine note as alias");
    }
    let merged = join_from(parts, 2);
    let pieces = split_commas(&merged);
    let notes = match parse_notes(&pieces) {
        Some(n) => n,
        None => return err("Invalid note in alias"),
    };
    Ok(MtxtRecord::AliasDef { value: AliasDefinition { name: string_of(&parts[1]), notes } })
}

/// The first position of `s` that opens a comment.
pub open spec fn first_comment(s: Seq<char>, i: int) -> bool {
    comment_at(s, i) && forall|j: int| 0 <= j < i ==> !comment_at(s, j)
}

/// The inline comment of a trimmed line: the trimmed text after its first `//`
/// that opens a comment (see `comment_at`).
pub open spec fn inline_comment(t: Seq<char>) -> Option<Seq<char>> {
    if exists|i: int| first_comment(t, i) {
        let i = choose|i: int| first_comment(t, i);
        Some(trim(t.skip(i + 2)))
    } else {
        None
    }
}

/// Whether a line's text starts with `//`.
pub open spec fn is_comment_line(t: Seq<char>) -> bool {
    t.len() >= 2 && t[0] == '/' && t[1] == '/'
}

/// The text of a line before its inline comment, trimmed.
pub open spec fn line_content(t: Seq<char>) -> Seq<char> {
    if exists|i: int| first_comment(t, i) {
        let i = choose|i: int| first_comment(t, i);
        trim(t.take(i))
    } else {
        t
    }
}

/// The record of a line's tokens: a header, a meta line, an alias, a
/// standalone directive or a timed event; `None` where they do not parse.
pub open spec fn line_record_spec(parts: Seq<Seq<char>>) -> Option<RecordView> {
    if parts[0] == "mtxt"@ {
        if parts.len() != 2 {
            None
        } else {
            match version_spec(parts[1]) {
                Some(v) => Some(RecordView::Header { version: v }),
                None => None,
            }
        }
    } else if parts[0] == "meta"@ {
        meta_event_spec(None, parts, 1)
    } else if parts[0] == "alias"@ {
        alias_spec(parts)
    } else {
        match global_directive_spec(parts[0]) {
            None => None,
            Some(Some(r)) => if parts.len() > 1 {
                None
            } else {
                Some(r)
            },
            Some(None) => match time_event_spec(parts) {
                Some(Some(r)) => Some(r),
                _ => None,
            },
        }
    }
}

/// The line that the text `raw` denotes: blank text is an empty line, text that
/// starts with `//` an empty line with that comment, anything else the record of
/// its tokens with its inline comment; `None` where it does not parse.
pub open spec fn parse_line_spec(raw: Seq<char>) -> Option<LineView> {
    let t = trim(raw);
    if t.len() == 0 {
        Some(LineView { record: RecordView::EmptyLine, comment: None })
    } else if is_comment_line(t) {
        Some(LineView { record: RecordView::EmptyLine, comment: Some(trim(t.skip(2))) })
    } else {
        let parts = tokens_of(line_content(t));
        if parts.len() == 0 {
            None
        } else {
            match line_record_spec(parts) {
                Some(r) => Some(LineView { record: r, comment: inline_comment(t) }),
                None => None,
            }
        }
    }
}

fn parse_line_record(parts: &Vec<Vec<char>>) -> (r: Result<MtxtRecord, String>)
    requires
        parts.len() >= 1,
    ensures
        r matches Ok(rec) ==> record_ok(rec@),
        match r {
            Ok(rec) => line_record_spec(vviews(parts@)) == Some(rec@),
            Err(_) => line_record_spec(vviews(parts@)) is None,
        },
{
    assert(vviews(parts@)[0] == parts@[0]@);
    if is_word(&parts[0], "mtxt") {
        if parts.len() != 2 {
            return err("Invalid file version. Expected \"mtxt 1.0\".");
        }
        assert(vviews(parts@)[1] == parts@[1]@);
        match parse_version(&parts[1]) {
            Ok(version) => Ok(MtxtRecord::Header { version }),
            Err(e) => Err(e),
        }
    } else if is_word(&parts[0], "meta") {
        parse_meta_event(None, parts, 1)
    } else if is_word(&parts[0], "alias") {
        parse_alias(parts)
    } else {
        match try_parse_global_directive(&parts[0]) {
            Err(e) => Err(e),
            Ok(Some(r)) => {
                if parts.len() > 1 {
                    return err("Cannot parse global directive");
                }
                Ok(r)
            },
            Ok(None) => match try_parse_time_event(parts) {
                Err(e) => Err(e),
                Ok(Some(r)) => Ok(r),
                Ok(None) => err("Cannot parse line"),
            },
        }
    }
}

/// Parses one line of text (see `parse_line_spec`). A blank line is an empty
/// line; a line that starts with `//` is an empty line carrying that comment;
/// otherwise a trailing `//` comment (see `comment_at`) is split off and the
/// rest read as a header, meta, alias, directive or timed event. Attribute
/// values obey `record_ok`.
pub fn parse_mtxt_line(line: &str) -> (r: Result<MtxtRecordLine, String>)
    ensures
        match r {
            Ok(l) => parse_line_spec(line@) == Some(l@),
            Err(_) => parse_line_spec(line@) is None,
        },
        r matches Ok(l) ==> record_ok(l@.record),
{
    let raw = crate::text::chars_of(line);
    parse_line_chars(&raw)
}

/// Parses one line given as characters (see `parse_line_spec`).
pub fn parse_line_chars(raw: &Vec<char>) -> (r: Result<MtxtRecordLine, String>)
    ensures
        match r {
            Ok(l) => parse_line_spec(raw@) == Some(l@),
            Err(_) => parse_line_spec(raw@) is None,
        },
        r matches Ok(l) ==> record_ok(l@.record),
{
    let t = trim_vec(raw);
    if t.len() == 0 {
        return Ok(MtxtRecordLine::new(MtxtRecord::EmptyLine));
    }
    if t.len() >= 2 && t[0] == '/' && t[1] == '/' {
        let rest = crate::text::slice_of(&t, 2, t.len());
        assert(rest@ == t@.skip(2));
        let c = trim_vec(&rest);
        return Ok(MtxtRecordLine::with_comment(MtxtRecord::EmptyLine, string_of(&c)));
    }
    let (content, comment) = match find_inline_comment_index(&t) {
        Some(idx) => {
            let ghost k = choose|i: int| first_comment(t@, i);
            assert(first_comment(t@, idx as int));
            assert(k == idx) by {
                if k < idx {
                    assert(!comment_at(t@, k));
                } else if k > idx {
                    assert(!comment_at(t@, idx as int));
                }
            }
            let before = crate::text::slice_of(&t, 0, idx);
            let after = crate::text::slice_of(&t, idx + 2, t.len());
            assert(after@ == t@.skip(idx + 2));
            assert(before@ == t@.take(idx as int));
            (trim_vec(&before), Some(string_of(&trim_vec(&after))))
        },
        None => {
            assert(!exists|i: int| first_comment(t@, i));
            (t, None)
        },
    };
    assert(opt_string_view(comment) == inline_comment(t@));
    assert(content@ == line_content(t@));
    let parts = split_ws(&content);
    if parts.len() == 0 {
        return err("Empty line content");
    }
    let record = match parse_line_record(&parts) {
        Ok(r) => r,
        Err(e) => return Err(e),
    };
    match comment {
        Some(c) => Ok(MtxtRecordLine::with_comment(record, c)),
        None => Ok(MtxtRecordLine::new(record)),
    }
}

} // verus!
