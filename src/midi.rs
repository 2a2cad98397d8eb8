use crate::beat_time::BeatTime;
use crate::decimal::FixedDecimal;
use crate::midi_tables::{controller_name, controller_name_spec, drum_slug, drum_slug_spec};
use crate::note::{pitch_of_semitone, Note, NoteTarget, PitchClass, TargetView};
use crate::record::{MtxtRecord, RecordView, VoiceList};
use crate::text::{nat_text, push_nat, string_of};
use vstd::prelude::*;

verus! {

/// A channel message of a standard MIDI file.
#[derive(Clone, Copy, Debug, PartialEq, Eq, Structural)]
pub enum MidiMessage {
    NoteOff { key: u8, vel: u8 },
    NoteOn { key: u8, vel: u8 },
    Aftertouch { key: u8, vel: u8 },
    Controller { controller: u8, value: u8 },
    ProgramChange { program: u8 },
    ChannelAftertouch { vel: u8 },
    PitchBend { bend: u16 },
}

/// Rounds `n / d` half up, for `d > 0`.
pub open spec fn round_ratio(n: int, d: int) -> int {
    (2 * n + d) / (2 * d)
}

/// A 7-bit value as a fraction of 127, to five decimals.
pub open spec fn unit_of(v: u8) -> FixedDecimal {
    FixedDecimal { units: round_ratio(v * 100000, 127) as i64 }
}

/// Semitones of a 14-bit pitch bend, 8192 being none and 8192 steps twelve semitones.
pub open spec fn bend_semitones(b: u16) -> FixedDecimal {
    FixedDecimal { units: round_ratio((b - 8192) * 1200000, 8192) as i64 }
}

/// The note of a MIDI key number.
pub open spec fn note_of_key(k: u8) -> Note {
    Note {
        pitch_class: pitch_of_semitone(k as int % 12),
        octave: (k as int / 12 - 1) as i32,
        cents: FixedDecimal { units: 0 },
    }
}

/// The target of a key: on the percussion channel 9 a drum alias where the key
/// has one, else the note.
pub open spec fn key_target(channel: u16, k: u8) -> TargetView {
    if channel == 9 && drum_slug_spec(k) is Some {
        TargetView::AliasKey(drum_slug_spec(k)->Some_0)
    } else {
        TargetView::Note(note_of_key(k))
    }
}

/// The record of a channel message at time `t`.
pub open spec fn midi_record(msg: MidiMessage, channel: u16, t: BeatTime) -> RecordView {
    match msg {
        MidiMessage::NoteOn { key, vel } => if vel == 0 {
            RecordView::NoteOff {
                time: t,
                note: key_target(channel, key),
                off_velocity: Some(FixedDecimal { units: 0 }),
                channel: Some(channel),
            }
        } else {
            RecordView::NoteOn {
                time: t,
                note: key_target(channel, key),
                velocity: Some(unit_of(vel)),
                channel: Some(channel),
            }
        },
        MidiMessage::NoteOff { key, vel } => RecordView::NoteOff {
            time: t,
            note: key_target(channel, key),
            off_velocity: Some(unit_of(vel)),
            channel: Some(channel),
        },
        MidiMessage::Aftertouch { key, vel } => RecordView::ControlChange {
            time: t,
            note: None,
            controller: "aftertouch"@,
            value: unit_of(vel),
            channel: Some(channel),
            transition_curve: None,
            transition_time: None,
            transition_interval: None,
        },
        MidiMessage::ChannelAftertouch { vel } => RecordView::ControlChange {
            time: t,
            note: None,
            controller: "aftertouch"@,
            value: unit_of(vel),
            channel: Some(channel),
            transition_curve: None,
            transition_time: None,
            transition_interval: None,
        },
        MidiMessage::Controller { controller, value } => RecordView::ControlChange {
            time: t,
            note: None,
            controller: match controller_name_spec(controller) {
                Some(n) => n,
                None => nat_text(controller as nat),
            },
            value: unit_of(value),
            channel: Some(channel),
            transition_curve: None,
            transition_time: None,
            transition_interval: None,
        },
        MidiMessage::PitchBend { bend } => RecordView::ControlChange {
            time: t,
            note: None,
            controller: "pitch"@,
            value: bend_semitones(bend),
            channel: Some(channel),
            transition_curve: None,
            transition_time: None,
            transition_interval: None,
        },
        MidiMessage::ProgramChange { program } => RecordView::Voice {
            time: t,
            voices: seq![nat_text(program as nat)],
            channel: Some(channel),
        },
    }
}

fn unit_of_exec(v: u8) -> (r: FixedDecimal)
    ensures
        r == unit_of(v),
{
    FixedDecimal { units: ((2 * (v as u64) * 100000 + 127) / 254) as i64 }
}

fn bend_exec(b: u16) -> (r: FixedDecimal)
    ensures
        r == bend_semitones(b),
{
    // shifted by a multiple of the divisor so that the division is on naturals
    let x: i64 = 2 * ((b as i64) - 8192) * 1200000 + 8192;
    let shifted: u64 = (x + 16384 * 0x20_0000) as u64;
    let q: i64 = (shifted / 16384) as i64 - 0x20_0000;
    proof {
        vstd::arithmetic::div_mod::lemma_fundamental_div_mod(shifted as int, 16384);
        let r = shifted as int % 16384;
        assert(x == 16384 * q + r);
        vstd::arithmetic::div_mod::lemma_div_multiples_vanish_fancy(q as int, r, 16384);
    }
    FixedDecimal { units: q }
}

pub fn note_of_key_exec(k: u8) -> (r: Note)
    ensures
        r == note_of_key(k),
{
    Note {
        pitch_class: PitchClass::from_semitone(k % 12),
        octave: (k / 12) as i32 - 1,
        cents: FixedDecimal { units: 0 },
    }
}

fn key_target_exec(channel: u16, k: u8) -> (r: NoteTarget)
    ensures
        r@ == key_target(channel, k),
{
    if channel == 9 {
        if let Some(s) = drum_slug(k) {
            return NoteTarget::AliasKey(s.to_string());
        }
    }
    NoteTarget::Note(note_of_key_exec(k))
}

fn cc_record(t: BeatTime, note: Option<NoteTarget>, controller: String, value: FixedDecimal, channel: u16) -> (r: MtxtRecord)
    ensures
        r@ == (RecordView::ControlChange {
            time: t,
            note: crate::record::opt_target_view(note),
            controller: controller@,
            value,
            channel: Some(channel),
            transition_curve: None,
            transition_time: None,
            transition_interval: None,
        }),
{
    MtxtRecord::ControlChange {
        time: t,
        note,
        controller,
        value,
        channel: Some(channel),
        transition_curve: None,
        transition_time: None,
        transition_interval: None,
    }
}

/// The record of a channel message at `beat_time` (see `midi_record`).
pub fn convert_midi_message_to_record(msg: &MidiMessage, channel: u16, beat_time: BeatTime) -> (r: Result<MtxtRecord, String>)
    requires
        channel <= 15,
    ensures
        r is Ok,
        r matches Ok(x) ==> x@ == midi_record(*msg, channel, beat_time),
{
    let t = beat_time;
    let rec = match *msg {
        MidiMessage::NoteOn { key, vel } => if vel == 0 {
            MtxtRecord::NoteOff {
                time: t,
                note: key_target_exec(channel, key),
                off_velocity: Some(FixedDecimal { units: 0 }),
                channel: Some(channel),
            }
        } else {
            MtxtRecord::NoteOn {
                time: t,
                note: key_target_exec(channel, key),
                velocity: Some(unit_of_exec(vel)),
                channel: Some(channel),
            }
        },
        MidiMessage::NoteOff { key, vel } => MtxtRecord::NoteOff {
            time: t,
            note: key_target_exec(channel, key),
            off_velocity: Some(unit_of_exec(vel)),
            channel: Some(channel),
        },
        MidiMessage::Aftertouch { key, vel } => cc_record(t, None, "aftertouch".to_string(), unit_of_exec(vel), channel),
        MidiMessage::ChannelAftertouch { vel } => cc_record(t, None, "aftertouch".to_string(), unit_of_exec(vel), channel),
        MidiMessage::Controller { controller, value } => {
            let name = match controller_name(controller) {
                Some(n) => n.to_string(),
                None => {
                    let mut v: Vec<char> = Vec::new();
                    push_nat(&mut v, controller as u64);
                    string_of(&v)
                },
            };
            cc_record(t, None, name, unit_of_exec(value), channel)
        },
        MidiMessage::PitchBend { bend } => cc_record(t, None, "pitch".to_string(), bend_exec(bend), channel),
        MidiMessage::ProgramChange { program } => {
            let mut v: Vec<char> = Vec::new();
            push_nat(&mut v, program as u64);
            let voices = VoiceList { voices: vec![string_of(&v)] };
            assert(voices@ =~= seq![nat_text(program as nat)]);
            MtxtRecord::Voice { time: t, voices, channel: Some(channel) }
        },
    };
    Ok(rec)
}

/// The kinds of text meta events.
#[derive(Clone, Copy, Debug, PartialEq, Eq, Structural)]
pub enum TextKind {
    Text,
    Copyright,
    TrackName,
    InstrumentName,
    Lyric,
    Marker,
    CuePoint,
    ProgramName,
    DeviceName,
}

/// A meta event of a standard MIDI file.
#[derive(Clone, Debug, PartialEq)]
pub enum MetaMessage {
    TextEvent { kind: TextKind, data: Vec<u8> },
    TrackNumber(Option<u16>),
    MidiChannel(u8),
    MidiPort(u8),
    EndOfTrack,
    Tempo(u32),
    SmpteOffset { hour: u8, minute: u8, second: u8, frame: u8, subframe: u8, fps: u8 },
    TimeSignature(u8, u8, u8, u8),
    KeySignature(i8, bool),
    SequencerSpecific(Vec<u8>),
    Unknown(u8, Vec<u8>),
}

pub ghost enum MetaView {
    TextEvent { kind: TextKind, data: Seq<u8> },
    TrackNumber(Option<u16>),
    MidiChannel(u8),
    MidiPort(u8),
    EndOfTrack,
    Tempo(u32),
    SmpteOffset { hour: u8, minute: u8, second: u8, frame: u8, subframe: u8, fps: u8 },
    TimeSignature(u8, u8, u8, u8),
    KeySignature(i8, bool),
    SequencerSpecific(Seq<u8>),
    Unknown(u8, Seq<u8>),
}

impl View for MetaMessage {
    type V = MetaView;

    open spec fn view(&self) -> MetaView {
        match self {
            MetaMessage::TextEvent { kind, data } => MetaView::TextEvent { kind: *kind, data: data@ },
            MetaMessage::TrackNumber(n) => MetaView::TrackNumber(*n),
            MetaMessage::MidiChannel(c) => MetaView::MidiChannel(*c),
            MetaMessage::MidiPort(p) => MetaView::MidiPort(*p),
            MetaMessage::EndOfTrack => MetaView::EndOfTrack,
            MetaMessage::Tempo(t) => MetaView::Tempo(*t),
            MetaMessage::SmpteOffset { hour, minute, second, frame, subframe, fps } => MetaView::SmpteOffset {
                hour: *hour,
                minute: *minute,
                second: *second,
                frame: *frame,
                subframe: *subframe,
                fps: *fps,
            },
            MetaMessage::TimeSignature(a, b, c, d) => MetaView::TimeSignature(*a, *b, *c, *d),
            MetaMessage::KeySignature(a, b) => MetaView::KeySignature(*a, *b),
            MetaMessage::SequencerSpecific(d) => MetaView::SequencerSpecific(d@),
            MetaMessage::Unknown(k, d) => MetaView::Unknown(*k, d@),
        }
    }
}

/// One byte as text: printable ASCII as itself, a backslash doubled, any other
/// byte as `\x` and two lower-case hexadecimal digits.
pub open spec fn escaped_byte(x: u8) -> Seq<char> {
    if x == 92 {
        seq!['\\', '\\']
    } else if 32 <= x <= 126 {
        seq![x as char]
    } else {
        seq!['\\', 'x', crate::format::hex_char(x as nat / 16), crate::format::hex_char(x as nat % 16)]
    }
}

/// Bytes of a text event as one line of text (see `escaped_byte`).
pub open spec fn escape_text(b: Seq<u8>) -> Seq<char>
    decreases b.len(),
{
    if b.len() == 0 {
        Seq::empty()
    } else {
        escape_text(b.drop_last()) + escaped_byte(b.last())
    }
}

fn hex_lower(d: u8) -> (c: char)
    requires
        d < 16,
    ensures
        c == crate::format::hex_char(d as nat),
{
    if d < 10 {
        (d + 48) as char
    } else {
        (d + 87) as char
    }
}

/// Bytes of a text event as one line of text (see `escape_text`).
pub fn escape_bytes(b: &Vec<u8>) -> (r: String)
    ensures
        r@ == escape_text(b@),
{
    let mut out: Vec<char> = Vec::new();
    let mut i: usize = 0;
    while i < b.len()
        invariant
            i <= b.len(),
            out@ == escape_text(b@.take(i as int)),
        decreases b.len() - i,
    {
        let ghost before = out@;
        let x = b[i];
        if x == 92 {
            out.push('\\');
            out.push('\\');
        } else if 32 <= x && x <= 126 {
            out.push(x as char);
        } else {
            out.push('\\');
            out.push('x');
            out.push(hex_lower(x / 16));
            out.push(hex_lower(x % 16));
        }
        proof {
            assert(b@.take(i + 1).drop_last() == b@.take(i as int));
            assert(b@.take(i + 1).last() == x);
        }
        assert(out@ =~= before + escaped_byte(x));
        i += 1;
    }
    assert(b@.take(b.len() as int) == b@);
    string_of(&out)
}

pub open spec fn opt_channel16(c: Option<u8>) -> Option<u16> {
    match c {
        Some(c) => Some(c as u16),
        None => None,
    }
}

pub open spec fn timed_meta(t: BeatTime, channel: Option<u16>, meta_type: Seq<char>, value: Seq<char>) -> Option<Option<RecordView>> {
    Some(Some(RecordView::Meta { time: Some(t), channel, meta_type, value }))
}

pub open spec fn global_meta(meta_type: Seq<char>, value: Seq<char>) -> Option<Option<RecordView>> {
    Some(Some(RecordView::GlobalMeta { meta_type, value }))
}

/// Upper-case hexadecimal digit.
pub open spec fn hex_upper(d: nat) -> char {
    if d < 10 {
        ((d + 48) as u8) as char
    } else {
        ((d + 55) as u8) as char
    }
}

/// Bytes as upper-case hexadecimal, two digits each, without separators.
pub open spec fn hex_text(b: Seq<u8>) -> Seq<char>
    decreases b.len(),
{
    if b.len() == 0 {
        Seq::empty()
    } else {
        hex_text(b.drop_last()) + seq![hex_upper(b.last() as nat / 16), hex_upper(b.last() as nat % 16)]
    }
}

/// A number with at least two digits.
pub open spec fn two_digits(n: u8) -> Seq<char> {
    if n < 10 {
        seq!['0'] + nat_text(n as nat)
    } else {
        nat_text(n as nat)
    }
}

/// The name of a key signature: sharps (positive) or flats (negative) and mode.
pub open spec fn key_name(sf: i8, minor: bool) -> Seq<char> {
    let majors = seq!["Cb"@, "Gb"@, "Db"@, "Ab"@, "Eb"@, "Bb"@, "F"@, "C"@, "G"@, "D"@, "A"@, "E"@, "B"@, "F#"@, "C#"@];
    let minors = seq!["Abm"@, "Ebm"@, "Bbm"@, "Fm"@, "Cm"@, "Gm"@, "Dm"@, "Am"@, "Em"@, "Bm"@, "F#m"@, "C#m"@, "G#m"@, "D#m"@, "A#m"@];
    if -7 <= sf <= 7 {
        if minor { minors[sf + 7] } else { majors[sf + 7] }
    } else {
        crate::note::int_text(sf as int) + if minor { "m"@ } else { Seq::empty() }
    }
}

pub open spec fn pow2(k: nat) -> nat
    decreases k,
{
    if k == 0 {
        1
    } else {
        2 * pow2((k - 1) as nat)
    }
}

/// The record of a meta event at time `t` of a track with guessed channel
/// `track_channel`: `None` for a tempo of zero or a denominator beyond 2^31,
/// `Some(None)` for events that give no record. Track names and text are global
/// on tracks without a channel (a track name on the first track is the title)
/// and channel metas otherwise; copyright, program and device names are
/// global; instrument names, lyrics, markers and cue points are timed metas on
/// the track channel; a key signature at time zero is the global key.
pub open spec fn meta_record(msg: MetaView, t: BeatTime, first_track: bool, track_channel: Option<u8>) -> Option<Option<RecordView>> {
    let tc = opt_channel16(track_channel);
    match msg {
        MetaView::TextEvent { kind, data } => {
            let v = escape_text(data);
            match kind {
                TextKind::TrackName => if track_channel is None {
                    if first_track { global_meta("title"@, v) } else { global_meta("text"@, v) }
                } else {
                    timed_meta(t, tc, "name"@, v)
                },
                TextKind::Text => if track_channel is None {
                    global_meta("text"@, v)
                } else {
                    timed_meta(t, tc, "text"@, v)
                },
                TextKind::Copyright => global_meta("copyright"@, v),
                TextKind::InstrumentName => timed_meta(t, tc, "instrument"@, v),
                TextKind::Lyric => timed_meta(t, tc, "lyric"@, v),
                TextKind::Marker => timed_meta(t, tc, "marker"@, v),
                TextKind::CuePoint => timed_meta(t, tc, "cue"@, v),
                TextKind::ProgramName => global_meta("program"@, v),
                TextKind::DeviceName => global_meta("device"@, v),
            }
        },
        MetaView::Tempo(us) => if us == 0 {
            None
        } else {
            Some(Some(RecordView::Tempo {
                time: t,
                bpm: FixedDecimal { units: round_ratio(6_000_000_000_000, us as int) as i64 },
                transition_curve: None,
                transition_time: None,
                transition_interval: None,
            }))
        },
        MetaView::TimeSignature(n, d, _, _) => if d > 31 {
            None
        } else {
            Some(Some(RecordView::TimeSignature {
                time: t,
                signature: crate::record::TimeSignature { numerator: n as u32, denominator: pow2(d as nat) as u32 },
            }))
        },
        MetaView::KeySignature(sf, minor) => if t.repr == 0 {
            global_meta("key"@, key_name(sf, minor))
        } else {
            timed_meta(t, None, "keysignature"@, key_name(sf, minor))
        },
        MetaView::SmpteOffset { hour, minute, second, frame, .. } => global_meta(
            "smpte"@,
            two_digits(hour) + ":"@ + two_digits(minute) + ":"@ + two_digits(second) + ":"@ + two_digits(frame),
        ),
        MetaView::TrackNumber(Some(n)) => timed_meta(t, None, "tracknumber"@, nat_text(n as nat)),
        MetaView::MidiChannel(c) => timed_meta(t, None, "midichannel"@, nat_text(c as nat)),
        MetaView::MidiPort(p) => timed_meta(t, None, "midiport"@, nat_text(p as nat)),
        MetaView::SequencerSpecific(d) => timed_meta(t, None, "sequencerspecific"@, hex_text(d)),
        MetaView::Unknown(k, d) => timed_meta(t, None, "unknown_"@ + hex_text(seq![k]), hex_text(d)),
        _ => Some(None),
    }
}

fn meta_line(t: BeatTime, channel: Option<u16>, meta_type: String, value: String) -> (r: Result<Option<MtxtRecord>, String>)
    ensures
        match r {
            Ok(Some(x)) => timed_meta(t, channel, meta_type@, value@) == Some(Some(x@)),
            _ => false,
        },
{
    Ok(Some(MtxtRecord::Meta { time: Some(t), channel, meta_type, value }))
}

fn global_line(meta_type: &str, value: String) -> (r: Result<Option<MtxtRecord>, String>)
    ensures
        match r {
            Ok(Some(x)) => global_meta(meta_type@, value@) == Some(Some(x@)),
            _ => false,
        },
{
    Ok(Some(MtxtRecord::GlobalMeta { meta_type: meta_type.to_string(), value }))
}

fn nat_string(n: u64) -> (r: String)
    ensures
        r@ == nat_text(n as nat),
{
    let mut v: Vec<char> = Vec::new();
    push_nat(&mut v, n);
    string_of(&v)
}

fn hex_upper_exec(d: u8) -> (c: char)
    requires
        d < 16,
    ensures
        c == hex_upper(d as nat),
{
    if d < 10 {
        (d + 48) as char
    } else {
        (d + 55) as char
    }
}

fn push_hex(out: &mut Vec<char>, b: &Vec<u8>)
    ensures
        final(out)@ == old(out)@ + hex_text(b@),
{
    let ghost start = out@;
    let mut i: usize = 0;
    while i < b.len()
        invariant
            i <= b.len(),
            out@ == start + hex_text(b@.take(i as int)),
        decreases b.len() - i,
    {
        let x = b[i];
        out.push(hex_upper_exec(x / 16));
        out.push(hex_upper_exec(x % 16));
        proof {
            assert(b@.take(i + 1).drop_last() == b@.take(i as int));
            assert(b@.take(i + 1).last() == x);
        }
        assert(out@ =~= start + hex_text(b@.take(i + 1)));
        i += 1;
    }
    assert(b@.take(b.len() as int) == b@);
}

fn push_two_digits(out: &mut Vec<char>, n: u8)
    ensures
        final(out)@ == old(out)@ + two_digits(n),
{
    let ghost start = out@;
    if n < 10 {
        out.push('0');
    }
    push_nat(out, n as u64);
    assert(out@ =~= start + two_digits(n));
}

fn key_name_exec(sf: i8, minor: bool) -> (r: String)
    ensures
        r@ == key_name(sf, minor),
{
    let majors = ["Cb", "Gb", "Db", "Ab", "Eb", "Bb", "F", "C", "G", "D", "A", "E", "B", "F#", "C#"];
    let minors = ["Abm", "Ebm", "Bbm", "Fm", "Cm", "Gm", "Dm", "Am", "Em", "Bm", "F#m", "C#m", "G#m", "D#m", "A#m"];
    if -7 <= sf && sf <= 7 {
        let i = (sf + 7) as usize;
        let name: &str = if minor { minors[i] } else { majors[i] };
        assert(name@ == key_name(sf, minor)) by {
            reveal_strlit("Cb");
        }
        name.to_string()
    } else {
        let mut v: Vec<char> = Vec::new();
        crate::note::push_int(&mut v, sf as i32);
        if minor {
            crate::text::push_str(&mut v, "m");
        }
        assert(v@ =~= key_name(sf, minor));
        string_of(&v)
    }
}

/// The record of a meta event (see `meta_record`).
pub fn convert_meta_message(msg: &MetaMessage, beat_time: BeatTime, first_track: bool, track_channel: Option<u8>) -> (r: Result<Option<MtxtRecord>, String>)
    ensures
        match r {
            Ok(Some(x)) => meta_record(msg@, beat_time, first_track, track_channel) == Some(Some(x@)),
            Ok(None) => meta_record(msg@, beat_time, first_track, track_channel) == Some(None::<RecordView>),
            Err(_) => meta_record(msg@, beat_time, first_track, track_channel) is None,
        },
{
    let t = beat_time;
    let tc: Option<u16> = match track_channel {
        Some(c) => Some(c as u16),
        None => None,
    };
    match msg {
        MetaMessage::TextEvent { kind, data } => {
            let v = escape_bytes(data);
            match kind {
                TextKind::TrackName => if track_channel.is_none() {
                    if first_track { global_line("title", v) } else { global_line("text", v) }
                } else {
                    meta_line(t, tc, "name".to_string(), v)
                },
                TextKind::Text => if track_channel.is_none() {
                    global_line("text", v)
                } else {
                    meta_line(t, tc, "text".to_string(), v)
                },
                TextKind::Copyright => global_line("copyright", v),
                TextKind::InstrumentName => meta_line(t, tc, "instrument".to_string(), v),
                TextKind::Lyric => meta_line(t, tc, "lyric".to_string(), v),
                TextKind::Marker => meta_line(t, tc, "marker".to_string(), v),
                TextKind::CuePoint => meta_line(t, tc, "cue".to_string(), v),
                TextKind::ProgramName => global_line("program", v),
                TextKind::DeviceName => global_line("device", v),
            }
        },
        MetaMessage::Tempo(us) => {
            if *us == 0 {
                return Err("Tempo of zero microseconds per beat".to_string());
            }
            let units = (12_000_000_000_000u64 + *us as u64) / (2 * (*us as u64));
            Ok(Some(MtxtRecord::Tempo {
                time: t,
                bpm: FixedDecimal { units: units as i64 },
                transition_curve: None,
                transition_time: None,
                transition_interval: None,
            }))
        },
        MetaMessage::TimeSignature(n, d, _, _) => {
            if *d > 31 {
                return Err("Time signature denominator out of range".to_string());
            }
            let den = pow2_exec(*d as u32);
            Ok(Some(MtxtRecord::TimeSignature {
                time: t,
                signature: crate::record::TimeSignature { numerator: *n as u32, denominator: den },
            }))
        },
        MetaMessage::KeySignature(sf, minor) => {
            let name = key_name_exec(*sf, *minor);
            if t.repr == 0 {
                global_line("key", name)
            } else {
                meta_line(t, None, "keysignature".to_string(), name)
            }
        },
        MetaMessage::SmpteOffset { hour, minute, second, frame, .. } => {
            let mut v: Vec<char> = Vec::new();
            push_two_digits(&mut v, *hour);
            crate::text::push_str(&mut v, ":");
            push_two_digits(&mut v, *minute);
            crate::text::push_str(&mut v, ":");
            push_two_digits(&mut v, *second);
            crate::text::push_str(&mut v, ":");
            push_two_digits(&mut v, *frame);
            global_line("smpte", string_of(&v))
        },
        MetaMessage::TrackNumber(Some(n)) => meta_line(t, None, "tracknumber".to_string(), nat_string(*n as u64)),
        MetaMessage::MidiChannel(c) => meta_line(t, None, "midichannel".to_string(), nat_string(*c as u64)),
        MetaMessage::MidiPort(p) => meta_line(t, None, "midiport".to_string(), nat_string(*p as u64)),
        MetaMessage::SequencerSpecific(d) => {
            let mut v: Vec<char> = Vec::new();
            push_hex(&mut v, d);
            meta_line(t, None, "sequencerspecific".to_string(), string_of(&v))
        },
        MetaMessage::Unknown(k, d) => {
            let mut name: Vec<char> = Vec::new();
            crate::text::push_str(&mut name, "unknown_");
            let kv = vec![*k];
            push_hex(&mut name, &kv);
            assert(kv@ =~= seq![*k]);
            let mut v: Vec<char> = Vec::new();
            push_hex(&mut v, d);
            meta_line(t, None, string_of(&name), string_of(&v))
        },
        _ => Ok(None),
    }
}

proof fn lemma_pow2_mono(a: nat, b: nat)
    requires
        a <= b,
    ensures
        pow2(a) <= pow2(b),
    decreases b - a,
{
    if a < b {
        lemma_pow2_mono(a, (b - 1) as nat);
    }
}

pub fn pow2_exec(d: u32) -> (r: u32)
    requires
        d <= 31,
    ensures
        r == pow2(d as nat),
{
    let mut r: u32 = 1;
    let mut i: u32 = 0;
    while i < d
        invariant
            i <= d <= 31,
            r == pow2(i as nat),
        decreases d - i,
    {
        proof {
            lemma_pow2_mono((i + 1) as nat, 31);
            reveal_with_fuel(pow2, 32);
        }
        r = r * 2;
        i += 1;
    }
    r
}

} // verus!
