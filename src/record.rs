use crate::beat_time::{beat_text, BeatTime};
use crate::decimal::{decimal_text, FixedDecimal};
use crate::note::{note_text, target_text, AliasDefinition, AliasView, NoteTarget, TargetView};
use crate::text::nat_text;
use vstd::prelude::*;

verus! {

/// Version of the format named in a file's header.
#[derive(Clone, Copy, Debug, PartialEq, Eq, Structural)]
pub struct Version {
    pub major: u32,
    pub minor: u32,
}

/// A time signature such as `3/4`.
#[derive(Clone, Copy, Debug, PartialEq, Eq, Structural)]
pub struct TimeSignature {
    pub numerator: u32,
    pub denominator: u32,
}

/// The ordered instrument names of a voice change.
#[derive(Clone, Debug, PartialEq)]
pub struct VoiceList {
    pub voices: Vec<String>,
}

impl View for VoiceList {
    type V = Seq<Seq<char>>;

    open spec fn view(&self) -> Seq<Seq<char>> {
        self.voices@.map_values(|v: String| v@)
    }
}

impl VoiceList {
    pub fn copy(&self) -> (r: VoiceList)
        ensures
            r@ == self@,
    {
        let mut out: Vec<String> = Vec::new();
        let mut i: usize = 0;
        while i < self.voices.len()
            invariant
                i <= self.voices.len(),
                out.len() == i,
                forall|j: int| 0 <= j < i ==> (#[trigger] out@[j])@ == self.voices@[j]@,
            decreases self.voices.len() - i,
        {
            out.push(self.voices[i].clone());
            i += 1;
        }
        let r = VoiceList { voices: out };
        assert(r@ =~= self@);
        r
    }
}

/// One line of a file: an event, a directive, a declaration or an empty line.
#[derive(Clone, Debug, PartialEq)]
#[allow(inconsistent_fields)]
pub enum MtxtRecord {
    Header { version: Version },
    GlobalMeta { meta_type: String, value: String },
    Meta { time: Option<BeatTime>, channel: Option<u16>, meta_type: String, value: String },
    DurationDirective { duration: BeatTime },
    ChannelDirective { channel: u16 },
    VelocityDirective { velocity: FixedDecimal },
    OffVelocityDirective { off_velocity: FixedDecimal },
    TransitionCurveDirective { curve: FixedDecimal },
    TransitionIntervalDirective { interval: FixedDecimal },
    AliasDef { value: AliasDefinition },
    Note {
        time: BeatTime,
        note: NoteTarget,
        duration: Option<BeatTime>,
        velocity: Option<FixedDecimal>,
        off_velocity: Option<FixedDecimal>,
        channel: Option<u16>,
    },
    NoteOn { time: BeatTime, note: NoteTarget, velocity: Option<FixedDecimal>, channel: Option<u16> },
    NoteOff {
        time: BeatTime,
        note: NoteTarget,
        off_velocity: Option<FixedDecimal>,
        channel: Option<u16>,
    },
    ControlChange {
        time: BeatTime,
        note: Option<NoteTarget>,
        controller: String,
        value: FixedDecimal,
        channel: Option<u16>,
        transition_curve: Option<FixedDecimal>,
        transition_time: Option<BeatTime>,
        transition_interval: Option<FixedDecimal>,
    },
    Voice { time: BeatTime, voices: VoiceList, channel: Option<u16> },
    Tempo {
        time: BeatTime,
        bpm: FixedDecimal,
        transition_curve: Option<FixedDecimal>,
        transition_time: Option<BeatTime>,
        transition_interval: Option<FixedDecimal>,
    },
    TimeSignature { time: BeatTime, signature: TimeSignature },
    Tuning { time: BeatTime, target: String, cents: FixedDecimal },
    Reset { time: BeatTime, target: String },
    SysEx { time: BeatTime, data: Vec<u8> },
    EmptyLine,
    Comment { text: String },
}

/// The mathematical value of a record: its strings as character sequences.
#[allow(inconsistent_fields)]
pub ghost enum RecordView {
    Header { version: Version },
    GlobalMeta { meta_type: Seq<char>, value: Seq<char> },
    Meta {
        time: Option<BeatTime>,
        channel: Option<u16>,
        meta_type: Seq<char>,
        value: Seq<char>,
    },
    DurationDirective { duration: BeatTime },
    ChannelDirective { channel: u16 },
    VelocityDirective { velocity: FixedDecimal },
    OffVelocityDirective { off_velocity: FixedDecimal },
    TransitionCurveDirective { curve: FixedDecimal },
    TransitionIntervalDirective { interval: FixedDecimal },
    AliasDef { value: AliasView },
    Note {
        time: BeatTime,
        note: TargetView,
        duration: Option<BeatTime>,
        velocity: Option<FixedDecimal>,
        off_velocity: Option<FixedDecimal>,
        channel: Option<u16>,
    },
    NoteOn { time: BeatTime, note: TargetView, velocity: Option<FixedDecimal>, channel: Option<u16> },
    NoteOff {
        time: BeatTime,
        note: TargetView,
        off_velocity: Option<FixedDecimal>,
        channel: Option<u16>,
    },
    ControlChange {
        time: BeatTime,
        note: Option<TargetView>,
        controller: Seq<char>,
        value: FixedDecimal,
        channel: Option<u16>,
        transition_curve: Option<FixedDecimal>,
        transition_time: Option<BeatTime>,
        transition_interval: Option<FixedDecimal>,
    },
    Voice { time: BeatTime, voices: Seq<Seq<char>>, channel: Option<u16> },
    Tempo {
        time: BeatTime,
        bpm: FixedDecimal,
        transition_curve: Option<FixedDecimal>,
        transition_time: Option<BeatTime>,
        transition_interval: Option<FixedDecimal>,
    },
    TimeSignature { time: BeatTime, signature: TimeSignature },
    Tuning { time: BeatTime, target: Seq<char>, cents: FixedDecimal },
    Reset { time: BeatTime, target: Seq<char> },
    SysEx { time: BeatTime, data: Seq<u8> },
    EmptyLine,
    Comment { text: Seq<char> },
}

pub open spec fn opt_target_view(t: Option<NoteTarget>) -> Option<TargetView> {
    match t {
        Some(t) => Some(t@),
        None => None,
    }
}

impl View for MtxtRecord {
    type V = RecordView;

    open spec fn view(&self) -> RecordView {
        match self {
            MtxtRecord::Header { version } => RecordView::Header { version: *version },
            MtxtRecord::GlobalMeta { meta_type, value } => RecordView::GlobalMeta {
                meta_type: meta_type@,
                value: value@,
            },
            MtxtRecord::Meta { time, channel, meta_type, value } => RecordView::Meta {
                time: *time,
                channel: *channel,
                meta_type: meta_type@,
                value: value@,
            },
            MtxtRecord::DurationDirective { duration } => RecordView::DurationDirective {
                duration: *duration,
            },
            MtxtRecord::ChannelDirective { channel } => RecordView::ChannelDirective {
                channel: *channel,
            },
            MtxtRecord::VelocityDirective { velocity } => RecordView::VelocityDirective {
                velocity: *velocity,
            },
            MtxtRecord::OffVelocityDirective { off_velocity } => RecordView::OffVelocityDirective {
                off_velocity: *off_velocity,
            },
            MtxtRecord::TransitionCurveDirective { curve } => RecordView::TransitionCurveDirective {
                curve: *curve,
            },
            MtxtRecord::TransitionIntervalDirective { interval } =>
                RecordView::TransitionIntervalDirective { interval: *interval },
            MtxtRecord::AliasDef { value } => RecordView::AliasDef { value: value@ },
            MtxtRecord::Note { time, note, duration, velocity, off_velocity, channel } =>
                RecordView::Note {
                time: *time,
                note: note@,
                duration: *duration,
                velocity: *velocity,
                off_velocity: *off_velocity,
                channel: *channel,
            },
            MtxtRecord::NoteOn { time, note, velocity, channel } => RecordView::NoteOn {
                time: *time,
                note: note@,
                velocity: *velocity,
                channel: *channel,
            },
            MtxtRecord::NoteOff { time, note, off_velocity, channel } => RecordView::NoteOff {
                time: *time,
                note: note@,
                off_velocity: *off_velocity,
                channel: *channel,
            },
            MtxtRecord::ControlChange {
                time,
                note,
                controller,
                value,
                channel,
                transition_curve,
                transition_time,
                transition_interval,
            } => RecordView::ControlChange {
                time: *time,
                note: opt_target_view(*note),
                controller: controller@,
                value: *value,
                channel: *channel,
                transition_curve: *transition_curve,
                transition_time: *transition_time,
                transition_interval: *transition_interval,
            },
            MtxtRecord::Voice { time, voices, channel } => RecordView::Voice {
                time: *time,
                voices: voices@,
                channel: *channel,
            },
            MtxtRecord::Tempo {
                time,
                bpm,
                transition_curve,
                transition_time,
                transition_interval,
            } => RecordView::Tempo {
                time: *time,
                bpm: *bpm,
                transition_curve: *transition_curve,
                transition_time: *transition_time,
                transition_interval: *transition_interval,
            },
            MtxtRecord::TimeSignature { time, signature } => RecordView::TimeSignature {
                time: *time,
                signature: *signature,
            },
            MtxtRecord::Tuning { time, target, cents } => RecordView::Tuning {
                time: *time,
                target: target@,
                cents: *cents,
            },
            MtxtRecord::Reset { time, target } => RecordView::Reset {
                time: *time,
                target: target@,
            },
            MtxtRecord::SysEx { time, data } => RecordView::SysEx { time: *time, data: data@ },
            MtxtRecord::EmptyLine => RecordView::EmptyLine,
            MtxtRecord::Comment { text } => RecordView::Comment { text: text@ },
        }
    }
}

/// A record with the inline comment that follows it on its line.
#[derive(Clone, Debug, PartialEq)]
pub struct MtxtRecordLine {
    pub record: MtxtRecord,
    pub comment: Option<String>,
}

pub ghost struct LineView {
    pub record: RecordView,
    pub comment: Option<Seq<char>>,
}

pub open spec fn opt_string_view(s: Option<String>) -> Option<Seq<char>> {
    match s {
        Some(s) => Some(s@),
        None => None,
    }
}

impl View for MtxtRecordLine {
    type V = LineView;

    open spec fn view(&self) -> LineView {
        LineView { record: self.record@, comment: opt_string_view(self.comment) }
    }
}

/// The views of a list of lines.
pub open spec fn lines_view(v: Seq<MtxtRecordLine>) -> Seq<LineView> {
    v.map_values(|l: MtxtRecordLine| l@)
}

/// The time of a record, where it has one.
pub open spec fn record_time(r: RecordView) -> Option<BeatTime> {
    match r {
        RecordView::Note { time, .. } => Some(time),
        RecordView::NoteOn { time, .. } => Some(time),
        RecordView::NoteOff { time, .. } => Some(time),
        RecordView::ControlChange { time, .. } => Some(time),
        RecordView::Tempo { time, .. } => Some(time),
        RecordView::TimeSignature { time, .. } => Some(time),
        RecordView::Voice { time, .. } => Some(time),
        RecordView::Tuning { time, .. } => Some(time),
        RecordView::Reset { time, .. } => Some(time),
        RecordView::SysEx { time, .. } => Some(time),
        RecordView::Meta { time, .. } => time,
        _ => None,
    }
}

/// The record with its time replaced, where it has a time field.
pub open spec fn with_time(r: RecordView, t: BeatTime) -> RecordView {
    match r {
        RecordView::Note { time, note, duration, velocity, off_velocity, channel } =>
            RecordView::Note { time: t, note, duration, velocity, off_velocity, channel },
        RecordView::NoteOn { time, note, velocity, channel } => RecordView::NoteOn {
            time: t,
            note,
            velocity,
            channel,
        },
        RecordView::NoteOff { time, note, off_velocity, channel } => RecordView::NoteOff {
            time: t,
            note,
            off_velocity,
            channel,
        },
        RecordView::ControlChange {
            time,
            note,
            controller,
            value,
            channel,
            transition_curve,
            transition_time,
            transition_interval,
        } => RecordView::ControlChange {
            time: t,
            note,
            controller,
            value,
            channel,
            transition_curve,
            transition_time,
            transition_interval,
        },
        RecordView::Tempo { time, bpm, transition_curve, transition_time, transition_interval } =>
            RecordView::Tempo {
            time: t,
            bpm,
            transition_curve,
            transition_time,
            transition_interval,
        },
        RecordView::TimeSignature { time, signature } => RecordView::TimeSignature {
            time: t,
            signature,
        },
        RecordView::Voice { time, voices, channel } => RecordView::Voice {
            time: t,
            voices,
            channel,
        },
        RecordView::Tuning { time, target, cents } => RecordView::Tuning { time: t, target, cents },
        RecordView::Reset { time, target } => RecordView::Reset { time: t, target },
        RecordView::SysEx { time, data } => RecordView::SysEx { time: t, data },
        RecordView::Meta { time, channel, meta_type, value } => RecordView::Meta {
            time: Some(t),
            channel,
            meta_type,
            value,
        },
        _ => r,
    }
}

impl MtxtRecordLine {
    pub fn new(record: MtxtRecord) -> (r: MtxtRecordLine)
        ensures
            r@ == (LineView { record: record@, comment: None }),
    {
        MtxtRecordLine { record, comment: None }
    }

    pub fn with_comment(record: MtxtRecord, comment: String) -> (r: MtxtRecordLine)
        ensures
            r@ == (LineView { record: record@, comment: Some(comment@) }),
    {
        MtxtRecordLine { record, comment: Some(comment) }
    }

    pub fn copy(&self) -> (r: MtxtRecordLine)
        ensures
            r@ == self@,
    {
        let comment = match &self.comment {
            Some(c) => Some(c.clone()),
            None => None,
        };
        MtxtRecordLine { record: self.record.copy(), comment }
    }
}

/// Copies a list of lines.
pub fn copy_lines(v: &[MtxtRecordLine]) -> (r: Vec<MtxtRecordLine>)
    ensures
        lines_view(r@) == lines_view(v@),
{
    let mut out: Vec<MtxtRecordLine> = Vec::new();
    let mut i: usize = 0;
    while i < v.len()
        invariant
            i <= v.len(),
            out.len() == i,
            forall|j: int| 0 <= j < i ==> (#[trigger] out@[j])@ == v@[j]@,
        decreases v.len() - i,
    {
        out.push(v[i].copy());
        i += 1;
    }
    assert(lines_view(out@) =~= lines_view(v@));
    out
}

impl MtxtRecord {
    pub fn copy(&self) -> (r: MtxtRecord)
        ensures
            r@ == self@,
    {
        match self {
            MtxtRecord::Header { version } => MtxtRecord::Header { version: *version },
            MtxtRecord::GlobalMeta { meta_type, value } => MtxtRecord::GlobalMeta {
                meta_type: meta_type.clone(),
                value: value.clone(),
            },
            MtxtRecord::Meta { time, channel, meta_type, value } => MtxtRecord::Meta {
                time: *time,
                channel: *channel,
                meta_type: meta_type.clone(),
                value: value.clone(),
            },
            MtxtRecord::DurationDirective { duration } => MtxtRecord::DurationDirective {
                duration: *duration,
            },
            MtxtRecord::ChannelDirective { channel } => MtxtRecord::ChannelDirective {
                channel: *channel,
            },
            MtxtRecord::VelocityDirective { velocity } => MtxtRecord::VelocityDirective {
                velocity: *velocity,
            },
            MtxtRecord::OffVelocityDirective { off_velocity } => MtxtRecord::OffVelocityDirective {
                off_velocity: *off_velocity,
            },
            MtxtRecord::TransitionCurveDirective { curve } => MtxtRecord::TransitionCurveDirective {
                curve: *curve,
            },
            MtxtRecord::TransitionIntervalDirective { interval } =>
                MtxtRecord::TransitionIntervalDirective { interval: *interval },
            MtxtRecord::AliasDef { value } => MtxtRecord::AliasDef { value: value.copy() },
            MtxtRecord::Note { time, note, duration, velocity, off_velocity, channel } =>
                MtxtRecord::Note {
                time: *time,
                note: note.copy(),
                duration: *duration,
                velocity: *velocity,
                off_velocity: *off_velocity,
                channel: *channel,
            },
            MtxtRecord::NoteOn { time, note, velocity, channel } => MtxtRecord::NoteOn {
                time: *time,
                note: note.copy(),
                velocity: *velocity,
                channel: *channel,
            },
            MtxtRecord::NoteOff { time, note, off_velocity, channel } => MtxtRecord::NoteOff {
                time: *time,
                note: note.copy(),
                off_velocity: *off_velocity,
                channel: *channel,
            },
            MtxtRecord::ControlChange {
                time,
                note,
                controller,
                value,
                channel,
                transition_curve,
                transition_time,
                transition_interval,
            } => MtxtRecord::ControlChange {
                time: *time,
                note: match note {
                    Some(n) => Some(n.copy()),
                    None => None,
                },
                controller: controller.clone(),
                value: *value,
                channel: *channel,
                transition_curve: *transition_curve,
                transition_time: *transition_time,
                transition_interval: *transition_interval,
            },
            MtxtRecord::Voice { time, voices, channel } => MtxtRecord::Voice {
                time: *time,
                voices: voices.copy(),
                channel: *channel,
            },
            MtxtRecord::Tempo {
                time,
                bpm,
                transition_curve,
                transition_time,
                transition_interval,
            } => MtxtRecord::Tempo {
                time: *time,
                bpm: *bpm,
                transition_curve: *transition_curve,
                transition_time: *transition_time,
                transition_interval: *transition_interval,
            },
            MtxtRecord::TimeSignature { time, signature } => MtxtRecord::TimeSignature {
                time: *time,
                signature: *signature,
            },
            MtxtRecord::Tuning { time, target, cents } => MtxtRecord::Tuning {
                time: *time,
                target: target.clone(),
                cents: *cents,
            },
            MtxtRecord::Reset { time, target } => MtxtRecord::Reset {
                time: *time,
                target: target.clone(),
            },
            MtxtRecord::SysEx { time, data } => MtxtRecord::SysEx {
                time: *time,
                data: copy_bytes(data),
            },
            MtxtRecord::EmptyLine => MtxtRecord::EmptyLine,
            MtxtRecord::Comment { text } => MtxtRecord::Comment { text: text.clone() },
        }
    }

    /// The time of this record, where it has one.
    pub fn time(&self) -> (r: Option<BeatTime>)
        ensures
            r == record_time(self@),
    {
        match self {
            MtxtRecord::Note { time, .. } => Some(*time),
            MtxtRecord::NoteOn { time, .. } => Some(*time),
            MtxtRecord::NoteOff { time, .. } => Some(*time),
            MtxtRecord::ControlChange { time, .. } => Some(*time),
            MtxtRecord::Tempo { time, .. } => Some(*time),
            MtxtRecord::TimeSignature { time, .. } => Some(*time),
            MtxtRecord::Voice { time, .. } => Some(*time),
            MtxtRecord::Tuning { time, .. } => Some(*time),
            MtxtRecord::Reset { time, .. } => Some(*time),
            MtxtRecord::SysEx { time, .. } => Some(*time),
            MtxtRecord::Meta { time, .. } => *time,
            _ => None,
        }
    }

    /// Replaces the time of this record, where it has a time field.
    pub fn set_time(&mut self, t: BeatTime)
        ensures
            final(self)@ == with_time(old(self)@, t),
    {
        match self {
            MtxtRecord::Note { time, .. } => *time = t,
            MtxtRecord::NoteOn { time, .. } => *time = t,
            MtxtRecord::NoteOff { time, .. } => *time = t,
            MtxtRecord::ControlChange { time, .. } => *time = t,
            MtxtRecord::Tempo { time, .. } => *time = t,
            MtxtRecord::TimeSignature { time, .. } => *time = t,
            MtxtRecord::Voice { time, .. } => *time = t,
            MtxtRecord::Tuning { time, .. } => *time = t,
            MtxtRecord::Reset { time, .. } => *time = t,
            MtxtRecord::SysEx { time, .. } => *time = t,
            MtxtRecord::Meta { time, .. } => *time = Some(t),
            _ => {},
        }
    }
}

/// Copies a list of bytes.
pub fn copy_bytes(v: &Vec<u8>) -> (r: Vec<u8>)
    ensures
        r@ == v@,
{
    let mut out: Vec<u8> = Vec::new();
    let mut i: usize = 0;
    while i < v.len()
        invariant
            i <= v.len(),
            out@ == v@.take(i as int),
        decreases v.len() - i,
    {
        out.push(v[i]);
        i += 1;
    }
    assert(v@.take(v.len() as int) == v@);
    out
}

} // verus!
