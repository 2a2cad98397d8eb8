use crate::decimal::FixedDecimal;
use crate::note::Note;
use crate::record::{TimeSignature, VoiceList};
use vstd::prelude::*;

verus! {

/// A point event with concrete values, at a time in microseconds.
#[derive(Clone, Debug, PartialEq)]
#[allow(inconsistent_fields)]
pub enum MtxtOutputRecord {
    NoteOn { time: u64, note: Note, velocity: FixedDecimal, channel: u16 },
    NoteOff { time: u64, note: Note, off_velocity: FixedDecimal, channel: u16 },
    ControlChange {
        time: u64,
        note: Option<Note>,
        controller: String,
        value: FixedDecimal,
        channel: u16,
    },
    Voice { time: u64, voices: VoiceList, channel: u16 },
    Tempo { time: u64, bpm: FixedDecimal },
    TimeSignature { time: u64, signature: TimeSignature },
    Reset { time: u64, target: String },
    GlobalMeta { time: u64, meta_type: String, value: String },
    ChannelMeta { time: u64, channel: u16, meta_type: String, value: String },
    Beat { time: u64, beat: u64 },
    SysEx { time: u64, data: Vec<u8> },
}

#[allow(inconsistent_fields)]
pub ghost enum OutputView {
    NoteOn { time: u64, note: Note, velocity: FixedDecimal, channel: u16 },
    NoteOff { time: u64, note: Note, off_velocity: FixedDecimal, channel: u16 },
    ControlChange {
        time: u64,
        note: Option<Note>,
        controller: Seq<char>,
        value: FixedDecimal,
        channel: u16,
    },
    Voice { time: u64, voices: Seq<Seq<char>>, channel: u16 },
    Tempo { time: u64, bpm: FixedDecimal },
    TimeSignature { time: u64, signature: TimeSignature },
    Reset { time: u64, target: Seq<char> },
    GlobalMeta { time: u64, meta_type: Seq<char>, value: Seq<char> },
    ChannelMeta { time: u64, channel: u16, meta_type: Seq<char>, value: Seq<char> },
    Beat { time: u64, beat: u64 },
    SysEx { time: u64, data: Seq<u8> },
}

impl View for MtxtOutputRecord {
    type V = OutputView;

    open spec fn view(&self) -> OutputView {
        match self {
            MtxtOutputRecord::NoteOn { time, note, velocity, channel } => OutputView::NoteOn {
                time: *time,
                note: *note,
                velocity: *velocity,
                channel: *channel,
            },
            MtxtOutputRecord::NoteOff { time, note, off_velocity, channel } => OutputView::NoteOff {
                time: *time,
                note: *note,
                off_velocity: *off_velocity,
                channel: *channel,
            },
            MtxtOutputRecord::ControlChange { time, note, controller, value, channel } =>
                OutputView::ControlChange {
                time: *time,
                note: *note,
                controller: controller@,
                value: *value,
                channel: *channel,
            },
            MtxtOutputRecord::Voice { time, voices, channel } => OutputView::Voice {
                time: *time,
                voices: voices@,
                channel: *channel,
            },
            MtxtOutputRecord::Tempo { time, bpm } => OutputView::Tempo { time: *time, bpm: *bpm },
            MtxtOutputRecord::TimeSignature { time, signature } => OutputView::TimeSignature {
                time: *time,
                signature: *signature,
            },
            MtxtOutputRecord::Reset { time, target } => OutputView::Reset {
                time: *time,
                target: target@,
            },
            MtxtOutputRecord::GlobalMeta { time, meta_type, value } => OutputView::GlobalMeta {
                time: *time,
                meta_type: meta_type@,
                value: value@,
            },
            MtxtOutputRecord::ChannelMeta { time, channel, meta_type, value } =>
                OutputView::ChannelMeta {
                time: *time,
                channel: *channel,
                meta_type: meta_type@,
                value: value@,
            },
            MtxtOutputRecord::Beat { time, beat } => OutputView::Beat { time: *time, beat: *beat },
            MtxtOutputRecord::SysEx { time, data } => OutputView::SysEx { time: *time, data: data@ },
        }
    }
}

pub open spec fn output_time(r: OutputView) -> u64 {
    match r {
        OutputView::NoteOn { time, .. } => time,
        OutputView::NoteOff { time, .. } => time,
        OutputView::ControlChange { time, .. } => time,
        OutputView::Voice { time, .. } => time,
        OutputView::Tempo { time, .. } => time,
        OutputView::TimeSignature { time, .. } => time,
        OutputView::Reset { time, .. } => time,
        OutputView::GlobalMeta { time, .. } => time,
        OutputView::ChannelMeta { time, .. } => time,
        OutputView::Beat { time, .. } => time,
        OutputView::SysEx { time, .. } => time,
    }
}

/// The event with its time replaced and every other field kept.
pub open spec fn with_output_time(r: OutputView, t: u64) -> OutputView {
    match r {
        OutputView::NoteOn { note, velocity, channel, .. } => OutputView::NoteOn { time: t, note, velocity, channel },
        OutputView::NoteOff { note, off_velocity, channel, .. } => OutputView::NoteOff { time: t, note, off_velocity, channel },
        OutputView::ControlChange { note, controller, value, channel, .. } => OutputView::ControlChange { time: t, note, controller, value, channel },
        OutputView::Voice { voices, channel, .. } => OutputView::Voice { time: t, voices, channel },
        OutputView::Tempo { bpm, .. } => OutputView::Tempo { time: t, bpm },
        OutputView::TimeSignature { signature, .. } => OutputView::TimeSignature { time: t, signature },
        OutputView::Reset { target, .. } => OutputView::Reset { time: t, target },
        OutputView::GlobalMeta { meta_type, value, .. } => OutputView::GlobalMeta { time: t, meta_type, value },
        OutputView::ChannelMeta { channel, meta_type, value, .. } => OutputView::ChannelMeta { time: t, channel, meta_type, value },
        OutputView::Beat { beat, .. } => OutputView::Beat { time: t, beat },
        OutputView::SysEx { data, .. } => OutputView::SysEx { time: t, data },
    }
}

/// The parameter that a transition moves: a controller of a channel, or the tempo.
pub open spec fn param_key(r: OutputView) -> Option<Seq<char>> {
    match r {
        OutputView::ControlChange { channel, controller, .. } => Some(
            "cc:"@ + crate::text::nat_text(channel as nat) + ":"@ + controller,
        ),
        OutputView::Tempo { .. } => Some("tempo"@),
        _ => None,
    }
}

impl MtxtOutputRecord {
    pub fn copy(&self) -> (r: MtxtOutputRecord)
        ensures
            r@ == self@,
    {
        match self {
            MtxtOutputRecord::NoteOn { time, note, velocity, channel } => MtxtOutputRecord::NoteOn { time: *time, note: *note, velocity: *velocity, channel: *channel },
            MtxtOutputRecord::NoteOff { time, note, off_velocity, channel } => MtxtOutputRecord::NoteOff { time: *time, note: *note, off_velocity: *off_velocity, channel: *channel },
            MtxtOutputRecord::ControlChange { time, note, controller, value, channel } => MtxtOutputRecord::ControlChange { time: *time, note: *note, controller: controller.clone(), value: *value, channel: *channel },
            MtxtOutputRecord::Voice { time, voices, channel } => MtxtOutputRecord::Voice { time: *time, voices: voices.copy(), channel: *channel },
            MtxtOutputRecord::Tempo { time, bpm } => MtxtOutputRecord::Tempo { time: *time, bpm: *bpm },
            MtxtOutputRecord::TimeSignature { time, signature } => MtxtOutputRecord::TimeSignature { time: *time, signature: *signature },
            MtxtOutputRecord::Reset { time, target } => MtxtOutputRecord::Reset { time: *time, target: target.clone() },
            MtxtOutputRecord::GlobalMeta { time, meta_type, value } => MtxtOutputRecord::GlobalMeta { time: *time, meta_type: meta_type.clone(), value: value.clone() },
            MtxtOutputRecord::ChannelMeta { time, channel, meta_type, value } => MtxtOutputRecord::ChannelMeta { time: *time, channel: *channel, meta_type: meta_type.clone(), value: value.clone() },
            MtxtOutputRecord::Beat { time, beat } => MtxtOutputRecord::Beat { time: *time, beat: *beat },
            MtxtOutputRecord::SysEx { time, data } => MtxtOutputRecord::SysEx { time: *time, data: crate::record::copy_bytes(data) },
        }
    }

    /// The time of the event, in microseconds.
    pub fn time(&self) -> (r: u64)
        ensures
            r == output_time(self@),
    {
        match self {
            MtxtOutputRecord::NoteOn { time, .. } => *time,
            MtxtOutputRecord::NoteOff { time, .. } => *time,
            MtxtOutputRecord::ControlChange { time, .. } => *time,
            MtxtOutputRecord::Voice { time, .. } => *time,
            MtxtOutputRecord::Tempo { time, .. } => *time,
            MtxtOutputRecord::TimeSignature { time, .. } => *time,
            MtxtOutputRecord::Reset { time, .. } => *time,
            MtxtOutputRecord::GlobalMeta { time, .. } => *time,
            MtxtOutputRecord::ChannelMeta { time, .. } => *time,
            MtxtOutputRecord::Beat { time, .. } => *time,
            MtxtOutputRecord::SysEx { time, .. } => *time,
        }
    }

    /// Replaces the time of the event.
    pub fn set_time(&mut self, micros: u64)
        ensures
            final(self)@ == with_output_time(old(self)@, micros),
            output_time(final(self)@) == micros,
    {
        match self {
            MtxtOutputRecord::NoteOn { time, .. } => *time = micros,
            MtxtOutputRecord::NoteOff { time, .. } => *time = micros,
            MtxtOutputRecord::ControlChange { time, .. } => *time = micros,
            MtxtOutputRecord::Voice { time, .. } => *time = micros,
            MtxtOutputRecord::Tempo { time, .. } => *time = micros,
            MtxtOutputRecord::TimeSignature { time, .. } => *time = micros,
            MtxtOutputRecord::Reset { time, .. } => *time = micros,
            MtxtOutputRecord::GlobalMeta { time, .. } => *time = micros,
            MtxtOutputRecord::ChannelMeta { time, .. } => *time = micros,
            MtxtOutputRecord::Beat { time, .. } => *time = micros,
            MtxtOutputRecord::SysEx { time, .. } => *time = micros,
        }
    }

    /// The value that a transition moves: a controller value or a tempo.
    pub fn get_parameter_value(&self) -> (r: Option<FixedDecimal>)
        ensures
            r == match self@ {
                OutputView::ControlChange { value, .. } => Some(value),
                OutputView::Tempo { bpm, .. } => Some(bpm),
                _ => None,
            },
    {
        match self {
            MtxtOutputRecord::ControlChange { value, .. } => Some(*value),
            MtxtOutputRecord::Tempo { bpm, .. } => Some(*bpm),
            _ => None,
        }
    }

    /// The name of the parameter that a transition moves (see `param_key`).
    pub fn get_param_key(&self) -> (r: Option<String>)
        ensures
            match r {
                Some(k) => param_key(self@) == Some(k@),
                None => param_key(self@) is None,
            },
    {
        match self {
            MtxtOutputRecord::ControlChange { channel, controller, .. } => {
                let mut v: Vec<char> = Vec::new();
                crate::text::push_str(&mut v, "cc:");
                crate::text::push_nat(&mut v, *channel as u64);
                crate::text::push_str(&mut v, ":");
                crate::text::push_str(&mut v, controller.as_str());
                Some(crate::text::string_of(&v))
            },
            MtxtOutputRecord::Tempo { .. } => Some("tempo".to_string()),
            _ => None,
        }
    }

    /// Whether two events move the same parameter: the same controller, channel
    /// and note, or both the tempo.
    pub fn is_same_parameter(&self, other: &MtxtOutputRecord) -> (r: bool)
        ensures
            r == match (self@, other@) {
                (
                    OutputView::ControlChange { channel: c1, controller: k1, note: n1, .. },
                    OutputView::ControlChange { channel: c2, controller: k2, note: n2, .. },
                ) => c1 == c2 && k1 == k2 && n1 == n2,
                (OutputView::Tempo { .. }, OutputView::Tempo { .. }) => true,
                _ => false,
            },
    {
        match (self, other) {
            (
                MtxtOutputRecord::ControlChange { channel: c1, controller: k1, note: n1, .. },
                MtxtOutputRecord::ControlChange { channel: c2, controller: k2, note: n2, .. },
            ) => *c1 == *c2 && *k1 == *k2 && *n1 == *n2,
            (MtxtOutputRecord::Tempo { .. }, MtxtOutputRecord::Tempo { .. }) => true,
            _ => false,
        }
    }
}

} // verus!
