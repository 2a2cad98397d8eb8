use crate::beat_time::BeatTime;
use crate::decimal::FixedDecimal;
use crate::record::{lines_view, LineView, MtxtRecord, MtxtRecordLine, RecordView};
use vstd::prelude::*;

verus! {

/// The running values that directives set.
#[derive(Clone, Copy, Debug, PartialEq, Eq, Structural)]
pub struct DirectiveState {
    pub channel: Option<u16>,
    pub velocity: Option<FixedDecimal>,
    pub off_velocity: Option<FixedDecimal>,
    pub duration: Option<BeatTime>,
    pub transition_curve: Option<FixedDecimal>,
    pub transition_interval: Option<FixedDecimal>,
}

pub open spec fn opt_or<T>(a: Option<T>, b: Option<T>) -> Option<T> {
    match a {
        Some(x) => Some(x),
        None => b,
    }
}

pub fn or_default<T: Copy>(a: Option<T>, b: Option<T>) -> (r: Option<T>)
    ensures
        r == opt_or(a, b),
{
    match a {
        Some(x) => Some(x),
        None => b,
    }
}

/// No directive seen yet.
pub open spec fn empty_state() -> DirectiveState {
    DirectiveState {
        channel: None,
        velocity: None,
        off_velocity: None,
        duration: None,
        transition_curve: None,
        transition_interval: None,
    }
}

/// The running values after the record `r`.
pub open spec fn step_state(st: DirectiveState, r: RecordView) -> DirectiveState {
    match r {
        RecordView::ChannelDirective { channel } => DirectiveState { channel: Some(channel), ..st },
        RecordView::VelocityDirective { velocity } => DirectiveState {
            velocity: Some(velocity),
            ..st
        },
        RecordView::OffVelocityDirective { off_velocity } => DirectiveState {
            off_velocity: Some(off_velocity),
            ..st
        },
        RecordView::DurationDirective { duration } => DirectiveState {
            duration: Some(duration),
            ..st
        },
        RecordView::TransitionCurveDirective { curve } => DirectiveState {
            transition_curve: Some(curve),
            ..st
        },
        RecordView::TransitionIntervalDirective { interval } => DirectiveState {
            transition_interval: Some(interval),
            ..st
        },
        _ => st,
    }
}

pub open spec fn is_directive(r: RecordView) -> bool {
    match r {
        RecordView::ChannelDirective { .. } => true,
        RecordView::VelocityDirective { .. } => true,
        RecordView::OffVelocityDirective { .. } => true,
        RecordView::DurationDirective { .. } => true,
        RecordView::TransitionCurveDirective { .. } => true,
        RecordView::TransitionIntervalDirective { .. } => true,
        _ => false,
    }
}

/// The record with each unset attribute taken from the running values.
pub open spec fn fill(r: RecordView, st: DirectiveState) -> RecordView {
    match r {
        RecordView::Note { time, note, duration, velocity, off_velocity, channel } =>
            RecordView::Note {
            time,
            note,
            duration: opt_or(duration, st.duration),
            velocity: opt_or(velocity, st.velocity),
            off_velocity: opt_or(off_velocity, st.off_velocity),
            channel: opt_or(channel, st.channel),
        },
        RecordView::NoteOn { time, note, velocity, channel } => RecordView::NoteOn {
            time,
            note,
            velocity: opt_or(velocity, st.velocity),
            channel: opt_or(channel, st.channel),
        },
        RecordView::NoteOff { time, note, off_velocity, channel } => RecordView::NoteOff {
            time,
            note,
            off_velocity: opt_or(off_velocity, st.off_velocity),
            channel: opt_or(channel, st.channel),
        },
        RecordView::ControlChange {
            time,
            note,
            controller,
            value,
            channel,
            transition_curve,
            transition_time,
            transition_interval,
        } => RecordView::ControlChange {
            time,
            note,
            controller,
            value,
            channel,
            transition_curve: opt_or(transition_curve, st.transition_curve),
            transition_time,
            transition_interval: opt_or(transition_interval, st.transition_interval),
        },
        RecordView::Voice { time, voices, channel } => RecordView::Voice {
            time,
            voices,
            channel: opt_or(channel, st.channel),
        },
        RecordView::Tempo { time, bpm, transition_curve, transition_time, transition_interval } =>
            RecordView::Tempo {
            time,
            bpm,
            transition_curve: opt_or(transition_curve, st.transition_curve),
            transition_time,
            transition_interval: opt_or(transition_interval, st.transition_interval),
        },
        _ => r,
    }
}

/// Directive folding from running values `st`: directives are dropped and every
/// other line has its unset attributes filled from the directives before it.
pub open spec fn apply_from(s: Seq<LineView>, st: DirectiveState) -> Seq<LineView>
    decreases s.len(),
{
    if s.len() == 0 {
        Seq::empty()
    } else {
        let l = s[0];
        let rest = apply_from(s.drop_first(), step_state(st, l.record));
        if is_directive(l.record) {
            rest
        } else {
            seq![LineView { record: fill(l.record, st), comment: l.comment }] + rest
        }
    }
}

/// Folding of all directives into the events that follow them.
pub open spec fn apply_spec(s: Seq<LineView>) -> Seq<LineView> {
    apply_from(s, empty_state())
}

fn step(st: &mut DirectiveState, r: &MtxtRecord)
    ensures
        *final(st) == step_state(*old(st), r@),
{
    match r {
        MtxtRecord::ChannelDirective { channel } => st.channel = Some(*channel),
        MtxtRecord::VelocityDirective { velocity } => st.velocity = Some(*velocity),
        MtxtRecord::OffVelocityDirective { off_velocity } => st.off_velocity = Some(*off_velocity),
        MtxtRecord::DurationDirective { duration } => st.duration = Some(*duration),
        MtxtRecord::TransitionCurveDirective { curve } => st.transition_curve = Some(*curve),
        MtxtRecord::TransitionIntervalDirective { interval } => st.transition_interval = Some(
            *interval,
        ),
        _ => {},
    }
}

fn fill_record(r: &MtxtRecord, st: &DirectiveState) -> (o: MtxtRecord)
    ensures
        o@ == fill(r@, *st),
{
    match r {
        MtxtRecord::Note { time, note, duration, velocity, off_velocity, channel } =>
            MtxtRecord::Note {
            time: *time,
            note: note.copy(),
            duration: or_default(*duration, st.duration),
            velocity: or_default(*velocity, st.velocity),
            off_velocity: or_default(*off_velocity, st.off_velocity),
            channel: or_default(*channel, st.channel),
        },
        MtxtRecord::NoteOn { time, note, velocity, channel } => MtxtRecord::NoteOn {
            time: *time,
            note: note.copy(),
            velocity: or_default(*velocity, st.velocity),
            channel: or_default(*channel, st.channel),
        },
        MtxtRecord::NoteOff { time, note, off_velocity, channel } => MtxtRecord::NoteOff {
            time: *time,
            note: note.copy(),
            off_velocity: or_default(*off_velocity, st.off_velocity),
            channel: or_default(*channel, st.channel),
        },
        MtxtRecord::ControlChange {
            time,
            note,
            controller,
            value,
            channel,
            transition_curve,
            transition_time,
            transition_interval,
        } => MtxtRecord::ControlChange {
            time: *time,
            note: match note {
                Some(n) => Some(n.copy()),
                None => None,
            },
            controller: controller.clone(),
            value: *value,
            channel: *channel,
            transition_curve: or_default(*transition_curve, st.transition_curve),
            transition_time: *transition_time,
            transition_interval: or_default(*transition_interval, st.transition_interval),
        },
        MtxtRecord::Voice { time, voices, channel } => MtxtRecord::Voice {
            time: *time,
            voices: voices.copy(),
            channel: or_default(*channel, st.channel),
        },
        MtxtRecord::Tempo { time, bpm, transition_curve, transition_time, transition_interval } =>
            MtxtRecord::Tempo {
            time: *time,
            bpm: *bpm,
            transition_curve: or_default(*transition_curve, st.transition_curve),
            transition_time: *transition_time,
            transition_interval: or_default(*transition_interval, st.transition_interval),
        },
        _ => r.copy(),
    }
}

pub fn is_directive_record(r: &MtxtRecord) -> (b: bool)
    ensures
        b == is_directive(r@),
{
    match r {
        MtxtRecord::ChannelDirective { .. } => true,
        MtxtRecord::VelocityDirective { .. } => true,
        MtxtRecord::OffVelocityDirective { .. } => true,
        MtxtRecord::DurationDirective { .. } => true,
        MtxtRecord::TransitionCurveDirective { .. } => true,
        MtxtRecord::TransitionIntervalDirective { .. } => true,
        _ => false,
    }
}

pub proof fn lemma_skip_step(s: Seq<LineView>, i: int)
    requires
        0 <= i < s.len(),
    ensures
        s.skip(i).drop_first() == s.skip(i + 1),
        s.skip(i)[0] == s[i],
        s.skip(i).len() > 0,
{
    assert(s.skip(i).drop_first() =~= s.skip(i + 1));
}

/// Folds all directives into the events: each event gets its unset attributes
/// from the last directive of each kind before it, and directives are removed.
pub fn transform(records: &[MtxtRecordLine]) -> (r: Vec<MtxtRecordLine>)
    ensures
        lines_view(r@) == apply_spec(lines_view(records@)),
{
    let ghost sv = lines_view(records@);
    let mut st = DirectiveState {
        channel: None,
        velocity: None,
        off_velocity: None,
        duration: None,
        transition_curve: None,
        transition_interval: None,
    };
    let mut out: Vec<MtxtRecordLine> = Vec::new();
    let mut i: usize = 0;
    assert(sv.skip(0) == sv);
    while i < records.len()
        invariant
            i <= records.len(),
            sv == lines_view(records@),
            lines_view(out@) + apply_from(sv.skip(i as int), st) == apply_spec(sv),
        decreases records.len() - i,
    {
        let line = &records[i];
        proof {
            lemma_skip_step(sv, i as int);
        }
        let ghost old_out = out@;
        let ghost old_st = st;
        if !is_directive_record(&line.record) {
            let rec = fill_record(&line.record, &st);
            let comment = match &line.comment {
                Some(c) => Some(c.clone()),
                None => None,
            };
            out.push(MtxtRecordLine { record: rec, comment });
            assert(lines_view(out@) =~= lines_view(old_out).push(out@[out@.len() - 1]@));
        }
        step(&mut st, &line.record);
        proof {
            assert(lines_view(out@) + apply_from(sv.skip(i + 1), st) =~= lines_view(old_out)
                + apply_from(sv.skip(i as int), old_st));
        }
        i += 1;
    }
    assert(apply_from(sv.skip(i as int), st) == Seq::<LineView>::empty());
    assert(lines_view(out@) == lines_view(out@) + Seq::<LineView>::empty());
    out
}

} // verus!
