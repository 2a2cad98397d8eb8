use crate::beat_time::BeatTime;
use crate::decimal::FixedDecimal;
use crate::record::{lines_view, LineView, MtxtRecord, MtxtRecordLine, RecordView};
use crate::transforms::apply::{self, apply_spec};
use vstd::prelude::*;

verus! {

/// The attributes that directives can carry.
#[derive(Clone, Copy, Debug, PartialEq, Eq, Structural)]
pub enum Attr {
    Channel,
    Velocity,
    OffVelocity,
    Duration,
    TransitionCurve,
    TransitionInterval,
}

/// A value of an attribute.
#[derive(Clone, Copy, Debug, PartialEq, Eq, Structural)]
pub enum AttrValue {
    Channel(u16),
    Amount(FixedDecimal),
    Time(BeatTime),
}

pub open spec fn ch_value(v: Option<u16>) -> Option<AttrValue> {
    match v {
        Some(c) => Some(AttrValue::Channel(c)),
        None => None,
    }
}

pub open spec fn amount_value(v: Option<FixedDecimal>) -> Option<AttrValue> {
    match v {
        Some(d) => Some(AttrValue::Amount(d)),
        None => None,
    }
}

pub open spec fn time_value(v: Option<BeatTime>) -> Option<AttrValue> {
    match v {
        Some(t) => Some(AttrValue::Time(t)),
        None => None,
    }
}

/// The inline value of attribute `a` on record `r`, where it is set. Controller
/// changes carry their channel on their own and do not count for channels.
pub open spec fn get_attr(a: Attr, r: RecordView) -> Option<AttrValue> {
    match (a, r) {
        (Attr::Channel, RecordView::Note { channel, .. }) => ch_value(channel),
        (Attr::Channel, RecordView::NoteOn { channel, .. }) => ch_value(channel),
        (Attr::Channel, RecordView::NoteOff { channel, .. }) => ch_value(channel),
        (Attr::Channel, RecordView::Voice { channel, .. }) => ch_value(channel),
        (Attr::Velocity, RecordView::Note { velocity, .. }) => amount_value(velocity),
        (Attr::Velocity, RecordView::NoteOn { velocity, .. }) => amount_value(velocity),
        (Attr::OffVelocity, RecordView::Note { off_velocity, .. }) => amount_value(off_velocity),
        (Attr::OffVelocity, RecordView::NoteOff { off_velocity, .. }) => amount_value(off_velocity),
        (Attr::Duration, RecordView::Note { duration, .. }) => time_value(duration),
        (Attr::TransitionCurve, RecordView::ControlChange { transition_curve, .. }) =>
            amount_value(transition_curve),
        (Attr::TransitionCurve, RecordView::Tempo { transition_curve, .. }) => amount_value(
            transition_curve,
        ),
        (Attr::TransitionInterval, RecordView::ControlChange { transition_interval, .. }) =>
            amount_value(transition_interval),
        (Attr::TransitionInterval, RecordView::Tempo { transition_interval, .. }) => amount_value(
            transition_interval,
        ),
        _ => None,
    }
}

/// Record `r` with attribute `a` unset.
pub open spec fn erase_attr(a: Attr, r: RecordView) -> RecordView {
    match (a, r) {
        (Attr::Channel, RecordView::Note { time, note, duration, velocity, off_velocity, .. }) =>
            RecordView::Note { time, note, duration, velocity, off_velocity, channel: None },
        (Attr::Channel, RecordView::NoteOn { time, note, velocity, .. }) => RecordView::NoteOn {
            time,
            note,
            velocity,
            channel: None,
        },
        (Attr::Channel, RecordView::NoteOff { time, note, off_velocity, .. }) =>
            RecordView::NoteOff { time, note, off_velocity, channel: None },
        (Attr::Channel, RecordView::Voice { time, voices, .. }) => RecordView::Voice {
            time,
            voices,
            channel: None,
        },
        (Attr::Velocity, RecordView::Note { time, note, duration, off_velocity, channel, .. }) =>
            RecordView::Note { time, note, duration, velocity: None, off_velocity, channel },
        (Attr::Velocity, RecordView::NoteOn { time, note, channel, .. }) => RecordView::NoteOn {
            time,
            note,
            velocity: None,
            channel,
        },
        (Attr::OffVelocity, RecordView::Note { time, note, duration, velocity, channel, .. }) =>
            RecordView::Note { time, note, duration, velocity, off_velocity: None, channel },
        (Attr::OffVelocity, RecordView::NoteOff { time, note, channel, .. }) =>
            RecordView::NoteOff { time, note, off_velocity: None, channel },
        (Attr::Duration, RecordView::Note { time, note, velocity, off_velocity, channel, .. }) =>
            RecordView::Note { time, note, duration: None, velocity, off_velocity, channel },
        (
            Attr::TransitionCurve,
            RecordView::ControlChange {
                time,
                note,
                controller,
                value,
                channel,
                transition_time,
                transition_interval,
                ..
            },
        ) => RecordView::ControlChange {
            time,
            note,
            controller,
            value,
            channel,
            transition_curve: None,
            transition_time,
            transition_interval,
        },
        (
            Attr::TransitionCurve,
            RecordView::Tempo { time, bpm, transition_time, transition_interval, .. },
        ) => RecordView::Tempo {
            time,
            bpm,
            transition_curve: None,
            transition_time,
            transition_interval,
        },
        (
            Attr::TransitionInterval,
            RecordView::ControlChange {
                time,
                note,
                controller,
                value,
                channel,
                transition_curve,
                transition_time,
                ..
            },
        ) => RecordView::ControlChange {
            time,
            note,
            controller,
            value,
            channel,
            transition_curve,
            transition_time,
            transition_interval: None,
        },
        (
            Attr::TransitionInterval,
            RecordView::Tempo { time, bpm, transition_curve, transition_time, .. },
        ) => RecordView::Tempo {
            time,
            bpm,
            transition_curve,
            transition_time,
            transition_interval: None,
        },
        _ => r,
    }
}

/// The directive that sets attribute `a` to `v`.
pub open spec fn attr_directive(a: Attr, v: AttrValue) -> RecordView {
    match (a, v) {
        (Attr::Channel, AttrValue::Channel(c)) => RecordView::ChannelDirective { channel: c },
        (Attr::Velocity, AttrValue::Amount(d)) => RecordView::VelocityDirective { velocity: d },
        (Attr::OffVelocity, AttrValue::Amount(d)) => RecordView::OffVelocityDirective {
            off_velocity: d,
        },
        (Attr::Duration, AttrValue::Time(t)) => RecordView::DurationDirective { duration: t },
        (Attr::TransitionCurve, AttrValue::Amount(d)) => RecordView::TransitionCurveDirective {
            curve: d,
        },
        (Attr::TransitionInterval, AttrValue::Amount(d)) =>
            RecordView::TransitionIntervalDirective { interval: d },
        _ => RecordView::EmptyLine,
    }
}

pub open spec fn erase_line(a: Attr, l: LineView) -> LineView {
    LineView { record: erase_attr(a, l.record), comment: l.comment }
}

/// First position from `j` whose line sets attribute `a` to a value other than `v`.
pub open spec fn run_end(a: Attr, s: Seq<LineView>, j: int, v: AttrValue) -> int
    decreases s.len() - j,
{
    if j < 0 || j >= s.len() {
        s.len() as int
    } else {
        match get_attr(a, s[j].record) {
            Some(w) => if w != v {
                j
            } else {
                run_end(a, s, j + 1, v)
            },
            None => run_end(a, s, j + 1, v),
        }
    }
}

/// Number of lines in `s[i..j]` that set attribute `a`.
pub open spec fn set_count(a: Attr, s: Seq<LineView>, i: int, j: int) -> nat
    decreases j - i,
{
    if j <= i {
        0
    } else {
        set_count(a, s, i, j - 1) + if get_attr(a, s[j - 1].record) is Some {
            1nat
        } else {
            0nat
        }
    }
}

/// Extraction of attribute `a` from position `i`, with `current` the value of
/// the last directive inserted. A line whose value equals `current` loses it; a
/// line that starts a run of at least three lines with the same value (lines
/// without the attribute do not break a run) gets a directive before it, and
/// the run loses the value; other lines stay.
pub open spec fn extract_from(a: Attr, s: Seq<LineView>, i: int, current: Option<AttrValue>) -> Seq<
    LineView,
>
    decreases s.len() - i,
{
    if i < 0 || i >= s.len() {
        Seq::empty()
    } else {
        match get_attr(a, s[i].record) {
            None => seq![s[i]] + extract_from(a, s, i + 1, current),
            Some(v) => if current == Some(v) {
                seq![erase_line(a, s[i])] + extract_from(a, s, i + 1, current)
            } else {
                let j = run_end(a, s, i + 1, v);
                if i < j <= s.len() && set_count(a, s, i, j) >= 3 {
                    seq![LineView { record: attr_directive(a, v), comment: None }] + s.subrange(
                        i,
                        j,
                    ).map_values(|l: LineView| erase_line(a, l)) + extract_from(a, s, j, Some(v))
                } else {
                    seq![s[i]] + extract_from(a, s, i + 1, current)
                }
            },
        }
    }
}

pub open spec fn extract_attr(a: Attr, s: Seq<LineView>) -> Seq<LineView> {
    extract_from(a, s, 0, None)
}

/// Directives folded in, then each attribute extracted in turn: channel,
/// velocity, off velocity, duration, transition curve, transition interval.
pub open spec fn extract_spec(s: Seq<LineView>) -> Seq<LineView> {
    extract_attr(
        Attr::TransitionInterval,
        extract_attr(
            Attr::TransitionCurve,
            extract_attr(
                Attr::Duration,
                extract_attr(
                    Attr::OffVelocity,
                    extract_attr(Attr::Velocity, extract_attr(Attr::Channel, apply_spec(s))),
                ),
            ),
        ),
    )
}

fn get_value(a: Attr, r: &MtxtRecord) -> (v: Option<AttrValue>)
    ensures
        v == get_attr(a, r@),
{
    match (a, r) {
        (Attr::Channel, MtxtRecord::Note { channel, .. }) => match channel {
            Some(c) => Some(AttrValue::Channel(*c)),
            None => None,
        },
        (Attr::Channel, MtxtRecord::NoteOn { channel, .. }) => match channel {
            Some(c) => Some(AttrValue::Channel(*c)),
            None => None,
        },
        (Attr::Channel, MtxtRecord::NoteOff { channel, .. }) => match channel {
            Some(c) => Some(AttrValue::Channel(*c)),
            None => None,
        },
        (Attr::Channel, MtxtRecord::Voice { channel, .. }) => match channel {
            Some(c) => Some(AttrValue::Channel(*c)),
            None => None,
        },
        (Attr::Velocity, MtxtRecord::Note { velocity, .. }) => match velocity {
            Some(d) => Some(AttrValue::Amount(*d)),
            None => None,
        },
        (Attr::Velocity, MtxtRecord::NoteOn { velocity, .. }) => match velocity {
            Some(d) => Some(AttrValue::Amount(*d)),
            None => None,
        },
        (Attr::OffVelocity, MtxtRecord::Note { off_velocity, .. }) => match off_velocity {
            Some(d) => Some(AttrValue::Amount(*d)),
            None => None,
        },
        (Attr::OffVelocity, MtxtRecord::NoteOff { off_velocity, .. }) => match off_velocity {
            Some(d) => Some(AttrValue::Amount(*d)),
            None => None,
        },
        (Attr::Duration, MtxtRecord::Note { duration, .. }) => match duration {
            Some(t) => Some(AttrValue::Time(*t)),
            None => None,
        },
        (Attr::TransitionCurve, MtxtRecord::ControlChange { transition_curve, .. }) =>
            match transition_curve {
            Some(d) => Some(AttrValue::Amount(*d)),
            None => None,
        },
        (Attr::TransitionCurve, MtxtRecord::Tempo { transition_curve, .. }) =>
            match transition_curve {
            Some(d) => Some(AttrValue::Amount(*d)),
            None => None,
        },
        (Attr::TransitionInterval, MtxtRecord::ControlChange { transition_interval, .. }) =>
            match transition_interval {
            Some(d) => Some(AttrValue::Amount(*d)),
            None => None,
        },
        (Attr::TransitionInterval, MtxtRecord::Tempo { transition_interval, .. }) =>
            match transition_interval {
            Some(d) => Some(AttrValue::Amount(*d)),
            None => None,
        },
        _ => None,
    }
}

fn erase_value(a: Attr, r: &mut MtxtRecord)
    ensures
        final(r)@ == erase_attr(a, old(r)@),
{
    match (a, r) {
        (Attr::Channel, MtxtRecord::Note { channel, .. }) => *channel = None,
        (Attr::Channel, MtxtRecord::NoteOn { channel, .. }) => *channel = None,
        (Attr::Channel, MtxtRecord::NoteOff { channel, .. }) => *channel = None,
        (Attr::Channel, MtxtRecord::Voice { channel, .. }) => *channel = None,
        (Attr::Velocity, MtxtRecord::Note { velocity, .. }) => *velocity = None,
        (Attr::Velocity, MtxtRecord::NoteOn { velocity, .. }) => *velocity = None,
        (Attr::OffVelocity, MtxtRecord::Note { off_velocity, .. }) => *off_velocity = None,
        (Attr::OffVelocity, MtxtRecord::NoteOff { off_velocity, .. }) => *off_velocity = None,
        (Attr::Duration, MtxtRecord::Note { duration, .. }) => *duration = None,
        (Attr::TransitionCurve, MtxtRecord::ControlChange { transition_curve, .. }) =>
            *transition_curve = None,
        (Attr::TransitionCurve, MtxtRecord::Tempo { transition_curve, .. }) => *transition_curve
            = None,
        (Attr::TransitionInterval, MtxtRecord::ControlChange { transition_interval, .. }) =>
            *transition_interval = None,
        (Attr::TransitionInterval, MtxtRecord::Tempo { transition_interval, .. }) =>
            *transition_interval = None,
        _ => {},
    }
}

fn directive_of(a: Attr, v: AttrValue) -> (r: MtxtRecord)
    ensures
        r@ == attr_directive(a, v),
{
    match (a, v) {
        (Attr::Channel, AttrValue::Channel(c)) => MtxtRecord::ChannelDirective { channel: c },
        (Attr::Velocity, AttrValue::Amount(d)) => MtxtRecord::VelocityDirective { velocity: d },
        (Attr::OffVelocity, AttrValue::Amount(d)) => MtxtRecord::OffVelocityDirective {
            off_velocity: d,
        },
        (Attr::Duration, AttrValue::Time(t)) => MtxtRecord::DurationDirective { duration: t },
        (Attr::TransitionCurve, AttrValue::Amount(d)) => MtxtRecord::TransitionCurveDirective {
            curve: d,
        },
        (Attr::TransitionInterval, AttrValue::Amount(d)) =>
            MtxtRecord::TransitionIntervalDirective { interval: d },
        _ => MtxtRecord::EmptyLine,
    }
}

fn erased_copy(a: Attr, l: &MtxtRecordLine) -> (r: MtxtRecordLine)
    ensures
        r@ == erase_line(a, l@),
{
    let mut c = l.copy();
    erase_value(a, &mut c.record);
    c
}

proof fn lemma_run_end_bounds(a: Attr, s: Seq<LineView>, j: int, v: AttrValue)
    requires
        0 <= j <= s.len(),
    ensures
        j <= run_end(a, s, j, v) <= s.len(),
    decreases s.len() - j,
{
    if j < s.len() {
        lemma_run_end_bounds(a, s, j + 1, v);
    }
}

/// Extracts attribute `a` (see `extract_from`).
fn extract_property(records: &Vec<MtxtRecordLine>, a: Attr) -> (r: Vec<MtxtRecordLine>)
    ensures
        lines_view(r@) == extract_attr(a, lines_view(records@)),
{
    let ghost sv = lines_view(records@);
    let n = records.len();
    let mut out: Vec<MtxtRecordLine> = Vec::new();
    let mut current: Option<AttrValue> = None;
    let mut i: usize = 0;
    while i < n
        invariant
            i <= n == records.len(),
            sv == lines_view(records@),
            sv.len() == n,
            lines_view(out@) + extract_from(a, sv, i as int, current) == extract_attr(a, sv),
        decreases n - i,
    {
        let ghost old_out = lines_view(out@);
        let ghost old_cur = current;
        let ghost old_i = i as int;
        assert(sv[i as int] == records@[i as int]@);
        match get_value(a, &records[i].record) {
            None => {
                out.push(records[i].copy());
                i += 1;
                assert(lines_view(out@) =~= old_out.push(sv[old_i]));
                assert(lines_view(out@) + extract_from(a, sv, i as int, current) =~= old_out
                    + extract_from(a, sv, old_i, old_cur));
            },
            Some(v) => {
                if current == Some(v) {
                    out.push(erased_copy(a, &records[i]));
                    i += 1;
                    assert(lines_view(out@) =~= old_out.push(erase_line(a, sv[old_i])));
                    assert(lines_view(out@) + extract_from(a, sv, i as int, current) =~= old_out
                        + extract_from(a, sv, old_i, old_cur));
                } else {
                    let mut j = i + 1;
                    let mut count: usize = 1;
                    proof {
                        lemma_run_end_bounds(a, sv, old_i + 1, v);
                    }
                    assert(set_count(a, sv, old_i, old_i + 1) == 1) by {
                        assert(set_count(a, sv, old_i, old_i) == 0);
                    }
                    let mut stop = false;
                    while j < n && !stop
                        invariant
                            0 <= old_i < j <= n == records.len(),
                            sv == lines_view(records@),
                            sv.len() == n,
                            run_end(a, sv, j as int, v) == run_end(a, sv, old_i + 1, v),
                            stop ==> run_end(a, sv, j as int, v) == j,
                            count == set_count(a, sv, old_i, j as int),
                            count <= j - old_i,
                        decreases n - j + (if stop { 0int } else { 1int }),
                    {
                        assert(sv[j as int] == records@[j as int]@);
                        match get_value(a, &records[j].record) {
                            Some(w) => {
                                if w != v {
                                    stop = true;
                                } else {
                                    count += 1;
                                    j += 1;
                                }
                            },
                            None => {
                                j += 1;
                            },
                        }
                    }
                    assert(run_end(a, sv, j as int, v) == j as int);
                    if count >= 3 {
                        let ghost before = lines_view(out@);
                        out.push(MtxtRecordLine::new(directive_of(a, v)));
                        let mut k = i;
                        while k < j
                            invariant
                                0 <= old_i <= k <= j <= n == records.len(),
                                sv == lines_view(records@),
                                sv.len() == n,
                                lines_view(out@) == before.push(
                                    LineView { record: attr_directive(a, v), comment: None },
                                ) + sv.subrange(old_i, k as int).map_values(
                                    |l: LineView| erase_line(a, l),
                                ),
                            decreases j - k,
                        {
                            let ghost prev = lines_view(out@);
                            out.push(erased_copy(a, &records[k]));
                            assert(sv.subrange(old_i, k + 1).map_values(|l: LineView| erase_line(a, l))
                                =~= sv.subrange(old_i, k as int).map_values(
                                |l: LineView| erase_line(a, l),
                            ).push(erase_line(a, sv[k as int])));
                            assert(lines_view(out@) =~= prev.push(erase_line(a, sv[k as int])));
                            k += 1;
                        }
                        current = Some(v);
                        i = j;
                        assert(lines_view(out@) + extract_from(a, sv, i as int, current) =~= old_out
                            + extract_from(a, sv, old_i, old_cur));
                    } else {
                        out.push(records[i].copy());
                        i += 1;
                        assert(lines_view(out@) =~= old_out.push(sv[old_i]));
                        assert(lines_view(out@) + extract_from(a, sv, i as int, current) =~= old_out
                            + extract_from(a, sv, old_i, old_cur));
                    }
                }
            },
        }
    }
    assert(extract_from(a, sv, i as int, current) == Seq::<LineView>::empty());
    assert(lines_view(out@) =~= lines_view(out@) + Seq::<LineView>::empty());
    out
}

/// Folds all directives in, then turns runs of at least three events with the
/// same attribute value into a directive followed by the events without it, for
/// each attribute in turn (see `extract_spec`).
pub fn transform(records: &[MtxtRecordLine]) -> (r: Vec<MtxtRecordLine>)
    ensures
        lines_view(r@) == extract_spec(lines_view(records@)),
{
    let mut current = apply::transform(records);
    current = extract_property(&current, Attr::Channel);
    current = extract_property(&current, Attr::Velocity);
    current = extract_property(&current, Attr::OffVelocity);
    current = extract_property(&current, Attr::Duration);
    current = extract_property(&current, Attr::TransitionCurve);
    current = extract_property(&current, Attr::TransitionInterval);
    current
}

} // verus!
