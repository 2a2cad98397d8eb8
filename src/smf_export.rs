use crate::decimal::FixedDecimal;
use crate::midi::{pow2, MetaMessage, MetaView, MidiMessage, TextKind};
use crate::midi_tables::{controller_number, controller_number_spec};
use crate::note::note_key;
use crate::output_record::{output_time, MtxtOutputRecord, OutputView};
use crate::record_parser::{hex_digit, hex_value, u32_digits};
use crate::beat_time::{micros_of, BeatTime};
use crate::process::{create_intermediate_records, intermediates_spec, records_view, IntermediateRecord, IntermediateView};
use crate::record::{MtxtRecord, VoiceList};
use crate::smf_import::{track_view, tracks_view, EventView, KindView, MidiTrackEvent, TrackEventKind};
use crate::ticks::{schedule_spec, schedule_ticks, TickEvent, TimedEvent, MAX_DELTA, MAX_BPM_UNITS};
use crate::output_record::with_output_time;
use vstd::prelude::*;

verus! {

/// UTF-8 bytes of a character.
pub open spec fn utf8(c: char) -> Seq<u8> {
    let n = c as int;
    if n < 0x80 {
        seq![n as u8]
    } else if n < 0x800 {
        seq![(0xC0 + (n / 64) % 32) as u8, (0x80 + n % 64) as u8]
    } else if n < 0x10000 {
        seq![(0xE0 + (n / 4096) % 16) as u8, (0x80 + (n / 64) % 64) as u8, (0x80 + n % 64) as u8]
    } else {
        seq![
            (0xF0 + (n / 262144) % 8) as u8,
            (0x80 + (n / 4096) % 64) as u8,
            (0x80 + (n / 64) % 64) as u8,
            (0x80 + n % 64) as u8,
        ]
    }
}

/// Bytes of meta text from position `i`: `\\` is a backslash, `\xHH` the byte
/// HH, any other character its UTF-8 bytes.
pub open spec fn unescape_from(s: Seq<char>, i: int) -> Seq<u8>
    decreases s.len() - i,
{
    if i < 0 || i >= s.len() {
        Seq::empty()
    } else if s[i] == '\\' && i + 1 < s.len() && s[i + 1] == '\\' {
        seq![92u8] + unescape_from(s, i + 2)
    } else if s[i] == '\\' && i + 3 < s.len() && s[i + 1] == 'x' && hex_value(s[i + 2]) is Some
        && hex_value(s[i + 3]) is Some {
        seq![(hex_value(s[i + 2])->Some_0 * 16 + hex_value(s[i + 3])->Some_0) as u8] + unescape_from(s, i + 4)
    } else {
        utf8(s[i]) + unescape_from(s, i + 1)
    }
}

fn utf8_exec(c: char, out: &mut Vec<u8>)
    ensures
        final(out)@ == old(out)@ + utf8(c),
{
    let n = c as u32;
    let ghost start = out@;
    if n < 0x80 {
        out.push(n as u8);
    } else if n < 0x800 {
        out.push((0xC0 + (n / 64) % 32) as u8);
        out.push((0x80 + n % 64) as u8);
    } else if n < 0x10000 {
        out.push((0xE0 + (n / 4096) % 16) as u8);
        out.push((0x80 + (n / 64) % 64) as u8);
        out.push((0x80 + n % 64) as u8);
    } else {
        out.push((0xF0 + (n / 262144) % 8) as u8);
        out.push((0x80 + (n / 4096) % 64) as u8);
        out.push((0x80 + (n / 64) % 64) as u8);
        out.push((0x80 + n % 64) as u8);
    }
    assert(out@ =~= start + utf8(c));
}

/// Bytes of meta text (see `unescape_from`).
pub fn unescape_text(s: &str) -> (r: Vec<u8>)
    ensures
        r@ == unescape_from(s@, 0),
{
    let v = crate::text::chars_of(s);
    let n = v.len();
    let mut out: Vec<u8> = Vec::new();
    let mut i: usize = 0;
    while i < n
        invariant
            i <= n == v.len(),
            v@ == s@,
            out@ + unescape_from(v@, i as int) == unescape_from(v@, 0),
        decreases n - i,
    {
        let ghost before = out@;
        let ghost oi = i as int;
        if v[i] == '\\' && i + 1 < n && v[i + 1] == '\\' {
            out.push(92);
            i += 2;
            assert(out@ + unescape_from(v@, i as int) =~= before + unescape_from(v@, oi));
        } else if v[i] == '\\' && n - i > 3 && v[i + 1] == 'x' && hex_digit(v[i + 2]).is_some() && hex_digit(v[i + 3]).is_some() {
            let hi = hex_digit(v[i + 2]).unwrap();
            let lo = hex_digit(v[i + 3]).unwrap();
            out.push(hi * 16 + lo);
            i += 4;
            assert(out@ + unescape_from(v@, i as int) =~= before + unescape_from(v@, oi));
        } else {
            utf8_exec(v[i], &mut out);
            i += 1;
            assert(out@ + unescape_from(v@, i as int) =~= before + unescape_from(v@, oi));
        }
    }
    assert(out@ + unescape_from(v@, i as int) =~= out@);
    out
}

/// A fraction of one (in units of 1/100000) times 127 as a 7-bit value,
/// truncated and clamped.
pub open spec fn seven_bit(d: FixedDecimal) -> u8 {
    if d.units <= 0 {
        0
    } else if d.units >= 100000 {
        127
    } else {
        (d.units * 127 / 100000) as u8
    }
}

/// A pitch bend in semitones as a 14-bit value (8192 is none, twelve semitones
/// 8192 steps), rounded and clamped.
pub open spec fn bend_of(d: FixedDecimal) -> u16 {
    if d.units >= 1200000 {
        16383
    } else if d.units <= -1200000 {
        0
    } else {
        let v = (2 * d.units * 8192 + 1200000) / 2400000 + 8192;
        if v > 16383 { 16383 } else if v < 0 { 0 } else { v as u16 }
    }
}

/// The program of a voice list: the last name that is a number below 256, else 0.
pub open spec fn voice_program(v: Seq<Seq<char>>) -> int
    decreases v.len(),
{
    if v.len() == 0 {
        0
    } else {
        match u32_digits(v.last()) {
            Some(n) => if n <= 255 { n as int } else { voice_program(v.drop_last()) },
            None => voice_program(v.drop_last()),
        }
    }
}

/// The text event kind of a meta type.
pub open spec fn text_kind(t: Seq<char>) -> TextKind {
    if t == "copyright"@ {
        TextKind::Copyright
    } else if t == "title"@ || t == "trackname"@ || t == "name"@ {
        TextKind::TrackName
    } else if t == "instrument"@ {
        TextKind::InstrumentName
    } else if t == "lyric"@ {
        TextKind::Lyric
    } else if t == "marker"@ {
        TextKind::Marker
    } else if t == "cue"@ {
        TextKind::CuePoint
    } else if t == "program"@ {
        TextKind::ProgramName
    } else if t == "device"@ {
        TextKind::DeviceName
    } else {
        TextKind::Text
    }
}

/// The controller message of a named controller value.
pub open spec fn controller_message(name: Seq<char>, value: FixedDecimal) -> Option<MidiMessage> {
    if name == "pitch"@ {
        Some(MidiMessage::PitchBend { bend: bend_of(value) })
    } else if name == "aftertouch"@ {
        Some(MidiMessage::ChannelAftertouch { vel: seven_bit(value) })
    } else {
        match controller_number_spec(name) {
            Some(n) => Some(MidiMessage::Controller { controller: n, value: seven_bit(value) }),
            None => match u32_digits(name) {
                Some(n) => if n <= 127 {
                    Some(MidiMessage::Controller { controller: n as u8, value: seven_bit(value) })
                } else {
                    None
                },
                None => None,
            },
        }
    }
}

pub open spec fn midi_event(delta: u32, channel: u16, m: MidiMessage) -> Option<Option<EventView>> {
    Some(Some(EventView { delta, kind: KindView::Midi { channel: channel as u8, message: m } }))
}

pub open spec fn meta_event(delta: u32, m: MetaView) -> Option<Option<EventView>> {
    Some(Some(EventView { delta, kind: KindView::Meta(m) }))
}

/// The track event of an output event: `None` for a channel above 15, a note
/// outside 0..=127, an unknown controller, a program above 127, a tempo that
/// does not give 1..=0xFFFFFF microseconds per beat, or a time signature that
/// MIDI cannot write; `Some(None)` for resets and beats.
pub open spec fn track_event_spec(r: OutputView, delta: u32) -> Option<Option<EventView>> {
    match r {
        OutputView::NoteOn { note, velocity, channel, .. } => if channel > 15 || !(0 <= note_key(note) <= 127) {
            None
        } else {
            midi_event(delta, channel, MidiMessage::NoteOn { key: note_key(note) as u8, vel: seven_bit(velocity) })
        },
        OutputView::NoteOff { note, off_velocity, channel, .. } => if channel > 15 || !(0 <= note_key(note) <= 127) {
            None
        } else {
            midi_event(delta, channel, MidiMessage::NoteOff { key: note_key(note) as u8, vel: seven_bit(off_velocity) })
        },
        OutputView::ControlChange { controller, value, channel, .. } => if channel > 15 {
            None
        } else {
            match controller_message(controller, value) {
                Some(m) => midi_event(delta, channel, m),
                None => None,
            }
        },
        OutputView::Voice { voices, channel, .. } => {
            let p = voice_program(voices);
            if p > 127 || channel > 15 {
                None
            } else {
                midi_event(delta, channel, MidiMessage::ProgramChange { program: p as u8 })
            }
        },
        OutputView::Tempo { bpm, .. } => if bpm.units <= 0 {
            None
        } else {
            let mpq = 6_000_000_000_000int / (bpm.units as int);
            if mpq < 1 || mpq > 0xFF_FFFF {
                None
            } else {
                meta_event(delta, MetaView::Tempo(mpq as u32))
            }
        },
        OutputView::TimeSignature { signature, .. } => if signature.numerator > 255 {
            None
        } else if exists|k: nat| k <= 31 && pow2(k) == signature.denominator {
            let k = choose|k: nat| k <= 31 && pow2(k) == signature.denominator;
            meta_event(delta, MetaView::TimeSignature(signature.numerator as u8, k as u8, 24, 8))
        } else {
            None
        },
        OutputView::Reset { .. } => Some(None),
        OutputView::Beat { .. } => Some(None),
        OutputView::GlobalMeta { meta_type, value, .. } => meta_event(
            delta,
            MetaView::TextEvent { kind: text_kind(meta_type), data: unescape_from(value, 0) },
        ),
        OutputView::ChannelMeta { meta_type, value, .. } => meta_event(
            delta,
            MetaView::TextEvent { kind: text_kind(meta_type), data: unescape_from(value, 0) },
        ),
        OutputView::SysEx { data, .. } => Some(Some(EventView { delta, kind: KindView::SysEx(data) })),
    }
}

fn seven_bit_exec(d: FixedDecimal) -> (r: u8)
    ensures
        r == seven_bit(d),
{
    if d.units <= 0 {
        0
    } else if d.units >= 100000 {
        127
    } else {
        (d.units * 127 / 100000) as u8
    }
}

fn bend_exec(d: FixedDecimal) -> (r: u16)
    ensures
        r == bend_of(d),
{
    if d.units >= 1200000 {
        16383
    } else if d.units <= -1200000 {
        0
    } else {
        // shifted so that the division is on naturals
        let x: i64 = 2 * d.units * 8192 + 1200000;
        let shifted: u64 = (x + 2400000 * 0x10_0000) as u64;
        let q: i64 = (shifted / 2400000) as i64 - 0x10_0000;
        proof {
            vstd::arithmetic::div_mod::lemma_fundamental_div_mod(shifted as int, 2400000);
            let r = shifted as int % 2400000;
            assert(x == 2400000 * q + r);
            vstd::arithmetic::div_mod::lemma_div_multiples_vanish_fancy(q as int, r, 2400000);
        }
        let v = q + 8192;
        if v > 16383 {
            16383
        } else if v < 0 {
            0
        } else {
            v as u16
        }
    }
}

fn voice_program_exec(voices: &Vec<String>) -> (r: u64)
    ensures
        r == voice_program(voices@.map_values(|v: String| v@)),
        r <= 255,
{
    let ghost vv = voices@.map_values(|v: String| v@);
    let mut j = voices.len();
    assert(vv.take(j as int) == vv);
    while j > 0
        invariant
            j <= voices.len(),
            vv == voices@.map_values(|v: String| v@),
            voice_program(vv.take(j as int)) == voice_program(vv),
        decreases j,
    {
        assert(vv.take(j as int).drop_last() == vv.take(j - 1));
        assert(vv.take(j as int).last() == voices@[j - 1]@);
        let c = crate::text::chars_of(voices[j - 1].as_str());
        assert(c@.subrange(0, c@.len() as int) == c@);
        match crate::text::parse_u32_digits(&c, 0, c.len()) {
            Some(n) => if n <= 255 {
                return n as u64;
            },
            None => {},
        }
        j -= 1;
    }
    assert(vv.take(0) =~= Seq::<Seq<char>>::empty());
    0
}

fn text_kind_exec(t: &String) -> (k: TextKind)
    ensures
        k == text_kind(t@),
{
    let v = crate::text::chars_of(t.as_str());
    let w = |x: &str| -> (b: bool) ensures b == (v@ == x@) { crate::record_parser::is_word(&v, x) };
    if w("copyright") {
        TextKind::Copyright
    } else if w("title") || w("trackname") || w("name") {
        TextKind::TrackName
    } else if w("instrument") {
        TextKind::InstrumentName
    } else if w("lyric") {
        TextKind::Lyric
    } else if w("marker") {
        TextKind::Marker
    } else if w("cue") {
        TextKind::CuePoint
    } else if w("program") {
        TextKind::ProgramName
    } else if w("device") {
        TextKind::DeviceName
    } else {
        TextKind::Text
    }
}

fn controller_message_exec(name: &String, value: FixedDecimal) -> (r: Option<MidiMessage>)
    ensures
        r == controller_message(name@, value),
{
    let v = crate::text::chars_of(name.as_str());
    if crate::record_parser::is_word(&v, "pitch") {
        Some(MidiMessage::PitchBend { bend: bend_exec(value) })
    } else if crate::record_parser::is_word(&v, "aftertouch") {
        Some(MidiMessage::ChannelAftertouch { vel: seven_bit_exec(value) })
    } else {
        match controller_number(&v) {
            Some(n) => Some(MidiMessage::Controller { controller: n, value: seven_bit_exec(value) }),
            None => {
                assert(v@.subrange(0, v@.len() as int) == v@);
                match crate::text::parse_u32_digits(&v, 0, v.len()) {
                    Some(n) => if n <= 127 {
                        Some(MidiMessage::Controller { controller: n as u8, value: seven_bit_exec(value) })
                    } else {
                        None
                    },
                    None => None,
                }
            },
        }
    }
}

fn midi_ev(delta: u32, channel: u16, m: MidiMessage) -> (r: Result<Option<MidiTrackEvent>, String>)
    requires
        channel <= 15,
    ensures
        match r {
            Ok(Some(e)) => midi_event(delta, channel, m) == Some(Some(e@)),
            _ => false,
        },
{
    Ok(Some(MidiTrackEvent { delta, kind: TrackEventKind::Midi { channel: channel as u8, message: m } }))
}

fn log2_exact(d: u32) -> (r: Option<u8>)
    ensures
        match r {
            Some(k) => k <= 31 && pow2(k as nat) == d,
            None => !exists|k: nat| k <= 31 && pow2(k) == d,
        },
{
    let mut k: u32 = 0;
    while k <= 31
        invariant
            k <= 32,
            forall|j: nat| j < k ==> pow2(j) != d,
        decreases 32 - k,
    {
        if crate::midi::pow2_exec(k) == d {
            return Some(k as u8);
        }
        k += 1;
    }
    None
}

/// The track event of an output event (see `track_event_spec`).
pub fn record_to_track_event(record: &MtxtOutputRecord, delta_tick: u32) -> (r: Result<Option<MidiTrackEvent>, String>)
    ensures
        match r {
            Ok(Some(e)) => track_event_spec(record@, delta_tick) == Some(Some(e@)),
            Ok(None) => track_event_spec(record@, delta_tick) == Some(None::<EventView>),
            Err(_) => track_event_spec(record@, delta_tick) is None,
        },
{
    match record {
        MtxtOutputRecord::NoteOn { note, velocity, channel, .. } => {
            if *channel > 15 {
                return Err("Channel out of range for MIDI".to_string());
            }
            match note.midi_key() {
                Some(k) => midi_ev(delta_tick, *channel, MidiMessage::NoteOn { key: k, vel: seven_bit_exec(*velocity) }),
                None => Err("Note out of MIDI range".to_string()),
            }
        },
        MtxtOutputRecord::NoteOff { note, off_velocity, channel, .. } => {
            if *channel > 15 {
                return Err("Channel out of range for MIDI".to_string());
            }
            match note.midi_key() {
                Some(k) => midi_ev(delta_tick, *channel, MidiMessage::NoteOff { key: k, vel: seven_bit_exec(*off_velocity) }),
                None => Err("Note out of MIDI range".to_string()),
            }
        },
        MtxtOutputRecord::ControlChange { controller, value, channel, .. } => {
            if *channel > 15 {
                return Err("Channel out of range for MIDI".to_string());
            }
            match controller_message_exec(controller, *value) {
                Some(m) => midi_ev(delta_tick, *channel, m),
                None => Err("Unknown controller".to_string()),
            }
        },
        MtxtOutputRecord::Voice { voices, channel, .. } => {
            let p = voice_program_exec(&voices.voices);
            if p > 127 {
                return Err("Program number out of range for MIDI".to_string());
            }
            if *channel > 15 {
                return Err("Channel out of range for MIDI".to_string());
            }
            midi_ev(delta_tick, *channel, MidiMessage::ProgramChange { program: p as u8 })
        },
        MtxtOutputRecord::Tempo { bpm, .. } => {
            if bpm.units <= 0 {
                return Err("Tempo must be positive".to_string());
            }
            let mpq = 6_000_000_000_000u64 / (bpm.units as u64);
            if mpq < 1 || mpq > 0xFF_FFFF {
                return Err("Tempo out of range for MIDI".to_string());
            }
            Ok(Some(MidiTrackEvent { delta: delta_tick, kind: TrackEventKind::Meta(MetaMessage::Tempo(mpq as u32)) }))
        },
        MtxtOutputRecord::TimeSignature { signature, .. } => {
            if signature.numerator > 255 {
                return Err("Time signature out of range for MIDI".to_string());
            }
            match log2_exact(signature.denominator) {
                Some(k) => {
                    let ghost kk = choose|k: nat| k <= 31 && pow2(k) == signature.denominator;
                    assert(kk == k as nat) by {
                        lemma_pow2_injective(kk, k as nat);
                    }
                    Ok(Some(MidiTrackEvent {
                        delta: delta_tick,
                        kind: TrackEventKind::Meta(MetaMessage::TimeSignature(signature.numerator as u8, k, 24, 8)),
                    }))
                },
                None => Err("Time signature denominator is not a power of two".to_string()),
            }
        },
        MtxtOutputRecord::Reset { .. } => Ok(None),
        MtxtOutputRecord::Beat { .. } => Ok(None),
        MtxtOutputRecord::GlobalMeta { meta_type, value, .. } => Ok(Some(MidiTrackEvent {
            delta: delta_tick,
            kind: TrackEventKind::Meta(MetaMessage::TextEvent { kind: text_kind_exec(meta_type), data: unescape_text(value.as_str()) }),
        })),
        MtxtOutputRecord::ChannelMeta { meta_type, value, .. } => Ok(Some(MidiTrackEvent {
            delta: delta_tick,
            kind: TrackEventKind::Meta(MetaMessage::TextEvent { kind: text_kind_exec(meta_type), data: unescape_text(value.as_str()) }),
        })),
        MtxtOutputRecord::SysEx { data, .. } => Ok(Some(MidiTrackEvent {
            delta: delta_tick,
            kind: TrackEventKind::SysEx(crate::record::copy_bytes(data)),
        })),
    }
}

proof fn lemma_pow2_injective(a: nat, b: nat)
    requires
        pow2(a) == pow2(b),
    ensures
        a == b,
    decreases a + b,
{
    if a > 0 && b > 0 {
        lemma_pow2_injective((a - 1) as nat, (b - 1) as nat);
    } else if a > 0 {
        lemma_pow2_pos((a - 1) as nat);
    } else if b > 0 {
        lemma_pow2_pos((b - 1) as nat);
    }
}

proof fn lemma_pow2_pos(a: nat)
    ensures
        pow2(a) >= 1,
    decreases a,
{
    if a > 0 {
        lemma_pow2_pos((a - 1) as nat);
    }
}

/// A standard MIDI file: format, ticks per beat, tracks.
pub struct MidiFile {
    pub format: u16,
    pub ppqn: u16,
    pub tracks: Vec<Vec<MidiTrackEvent>>,
}

pub ghost struct MidiFileView {
    pub format: u16,
    pub ppqn: u16,
    pub tracks: Seq<Seq<EventView>>,
}

impl View for MidiFile {
    type V = MidiFileView;

    open spec fn view(&self) -> MidiFileView {
        MidiFileView { format: self.format, ppqn: self.ppqn, tracks: tracks_view(self.tracks@) }
    }
}

pub open spec fn with_delta(e: EventView, d: u32) -> EventView {
    EventView { delta: d, kind: e.kind }
}

/// The filler event that spends a maximal delta.
pub open spec fn filler_event() -> EventView {
    EventView {
        delta: MAX_DELTA as u32,
        kind: KindView::Meta(MetaView::TextEvent { kind: TextKind::Text, data: unescape_from("long delta"@, 0) }),
    }
}

/// The track events of all output events (with zero deltas), or `None` where one fails.
pub open spec fn events_converted(rs: Seq<OutputView>) -> Option<Seq<Option<EventView>>>
    decreases rs.len(),
{
    if rs.len() == 0 {
        Some(Seq::empty())
    } else {
        match (events_converted(rs.drop_last()), track_event_spec(rs.last(), 0)) {
            (Some(es), Some(e)) => Some(es.push(e)),
            _ => None,
        }
    }
}

pub open spec fn tempo_of(r: OutputView) -> Option<FixedDecimal> {
    match r {
        OutputView::Tempo { bpm, .. } => Some(bpm),
        _ => None,
    }
}

pub open spec fn timed_events(rs: Seq<OutputView>, evs: Seq<Option<EventView>>) -> Seq<TimedEvent> {
    Seq::new(rs.len(), |i: int| TimedEvent { micros: output_time(rs[i]), emits: evs[i] is Some, tempo: tempo_of(rs[i]) })
}

pub open spec fn placed_event(t: TickEvent, evs: Seq<Option<EventView>>) -> EventView {
    match t.source {
        Some(j) => if (j as int) < evs.len() && evs[j as int] is Some {
            with_delta(evs[j as int]->Some_0, t.delta as u32)
        } else {
            filler_event()
        },
        None => filler_event(),
    }
}

/// The file written for output events sorted by time: format 0, 480 ticks per
/// beat, one track of the scheduled events (see `schedule_spec`) ending in an
/// end-of-track event; `None` where an event does not convert.
pub open spec fn midi_file_spec(rs: Seq<OutputView>) -> Option<MidiFileView> {
    match events_converted(rs) {
        Some(evs) => {
            let sched = schedule_spec(timed_events(rs, evs));
            Some(MidiFileView {
                format: 0,
                ppqn: 480,
                tracks: seq![
                    Seq::new(sched.len(), |i: int| placed_event(sched[i], evs))
                        + seq![EventView { delta: 0, kind: KindView::Meta(MetaView::EndOfTrack) }],
                ],
            })
        },
        None => None,
    }
}

fn copy_meta(m: &MetaMessage) -> (r: MetaMessage)
    ensures
        r@ == m@,
{
    match m {
        MetaMessage::TextEvent { kind, data } => MetaMessage::TextEvent { kind: *kind, data: crate::record::copy_bytes(data) },
        MetaMessage::TrackNumber(n) => MetaMessage::TrackNumber(*n),
        MetaMessage::MidiChannel(c) => MetaMessage::MidiChannel(*c),
        MetaMessage::MidiPort(p) => MetaMessage::MidiPort(*p),
        MetaMessage::EndOfTrack => MetaMessage::EndOfTrack,
        MetaMessage::Tempo(t) => MetaMessage::Tempo(*t),
        MetaMessage::SmpteOffset { hour, minute, second, frame, subframe, fps } => MetaMessage::SmpteOffset {
            hour: *hour,
            minute: *minute,
            second: *second,
            frame: *frame,
            subframe: *subframe,
            fps: *fps,
        },
        MetaMessage::TimeSignature(a, b, c, d) => MetaMessage::TimeSignature(*a, *b, *c, *d),
        MetaMessage::KeySignature(a, b) => MetaMessage::KeySignature(*a, *b),
        MetaMessage::SequencerSpecific(d) => MetaMessage::SequencerSpecific(crate::record::copy_bytes(d)),
        MetaMessage::Unknown(k, d) => MetaMessage::Unknown(*k, crate::record::copy_bytes(d)),
    }
}

fn event_with_delta(e: &MidiTrackEvent, d: u32) -> (r: MidiTrackEvent)
    ensures
        r@ == with_delta(e@, d),
{
    let kind = match &e.kind {
        TrackEventKind::Midi { channel, message } => TrackEventKind::Midi { channel: *channel, message: *message },
        TrackEventKind::SysEx(x) => TrackEventKind::SysEx(crate::record::copy_bytes(x)),
        TrackEventKind::Escape(x) => TrackEventKind::Escape(crate::record::copy_bytes(x)),
        TrackEventKind::Meta(m) => TrackEventKind::Meta(copy_meta(m)),
    };
    MidiTrackEvent { delta: d, kind }
}

pub open spec fn outputs_view(v: Seq<MtxtOutputRecord>) -> Seq<OutputView> {
    v.map_values(|r: MtxtOutputRecord| r@)
}

pub open spec fn opt_events_view(v: Seq<Option<MidiTrackEvent>>) -> Seq<Option<EventView>> {
    v.map_values(|e: Option<MidiTrackEvent>| match e { Some(x) => Some(x@), None => None })
}

/// Writes output events, sorted by time in microseconds, as a MIDI file (see `midi_file_spec`).
pub fn convert_output_records_to_midi(records: &Vec<MtxtOutputRecord>) -> (r: Result<MidiFile, String>)
    requires
        records.len() < 0x1_0000_0000,
    ensures
        match r {
            Ok(f) => midi_file_spec(outputs_view(records@)) == Some(f@),
            Err(_) => midi_file_spec(outputs_view(records@)) is None,
        },
{
    let ghost rv = outputs_view(records@);
    let mut evs: Vec<Option<MidiTrackEvent>> = Vec::new();
    let mut timed: Vec<TimedEvent> = Vec::new();
    let mut i: usize = 0;
    assert(rv.take(0) =~= Seq::<OutputView>::empty());
    assert(opt_events_view(evs@) =~= Seq::<Option<EventView>>::empty());
    while i < records.len()
        invariant
            i <= records.len() < 0x1_0000_0000,
            rv == outputs_view(records@),
            evs.len() == i,
            timed.len() == i,
            events_converted(rv.take(i as int)) == Some(opt_events_view(evs@)),
            timed@ == timed_events(rv.take(i as int), opt_events_view(evs@)),
            forall|j: int| 0 <= j < timed@.len() ==> crate::ticks::tempo_ok(#[trigger] timed@[j]),
        decreases records.len() - i,
    {
        let r = &records[i];
        assert(rv.take(i + 1).drop_last() == rv.take(i as int));
        assert(rv.take(i + 1).last() == r@);
        let ghost before = opt_events_view(evs@);
        let ghost tbefore = timed@;
        let e = match record_to_track_event(r, 0) {
            Ok(e) => e,
            Err(m) => {
                proof {
                    lemma_converted_prefix_fail(rv, i as int);
                }
                return Err(m);
            },
        };
        let tempo = match r {
            MtxtOutputRecord::Tempo { bpm, .. } => Some(*bpm),
            _ => None,
        };
        let te = TimedEvent { micros: r.time(), emits: e.is_some(), tempo };
        proof {
            if let Some(b) = tempo {
                assert(0 < b.units);
                assert(6_000_000_000_000int / (b.units as int) >= 1);
                assert(b.units <= 6_000_000_000_000) by {
                    if b.units > 6_000_000_000_000 {
                        vstd::arithmetic::div_mod::lemma_div_is_ordered(6_000_000_000_000int, b.units as int - 1, b.units as int);
                        vstd::arithmetic::div_mod::lemma_basic_div(6_000_000_000_000int, b.units as int);
                    }
                }
            }
        }
        timed.push(te);
        evs.push(e);
        assert(opt_events_view(evs@) =~= before.push(match e { Some(x) => Some(x@), None => None }));
        assert(te.tempo == tempo_of(r@));
        assert forall|j: int| 0 <= j < timed@.len() implies #[trigger] timed@[j] == timed_events(rv.take(i + 1), opt_events_view(evs@))[j] by {
            if j < i {
                assert(tbefore[j] == timed_events(rv.take(i as int), before)[j]);
                assert(rv.take(i + 1)[j] == rv.take(i as int)[j]);
                assert(opt_events_view(evs@)[j] == before[j]);
            }
        }
        assert(timed@ =~= timed_events(rv.take(i + 1), opt_events_view(evs@)));
        i += 1;
    }
    assert(rv.take(records.len() as int) == rv);
    let ghost ev = opt_events_view(evs@);
    let sched = schedule_ticks(&timed);
    let filler_text = unescape_text("long delta");
    let mut track: Vec<MidiTrackEvent> = Vec::new();
    let mut k: usize = 0;
    while k < sched.len()
        invariant
            k <= sched.len(),
            ev == opt_events_view(evs@),
            filler_text@ == unescape_from("long delta"@, 0),
            track.len() == k,
            forall|j: int| 0 <= j < k ==> (#[trigger] track@[j])@ == placed_event(sched@[j], ev),
        decreases sched.len() - k,
    {
        let t = sched[k];
        let item = match t.source {
            Some(j) => if j < evs.len() && evs[j].is_some() {
                match &evs[j] {
                    Some(e) => event_with_delta(e, t.delta as u32),
                    None => MidiTrackEvent { delta: 0, kind: TrackEventKind::Escape(Vec::new()) },
                }
            } else {
                MidiTrackEvent {
                    delta: MAX_DELTA as u32,
                    kind: TrackEventKind::Meta(MetaMessage::TextEvent { kind: TextKind::Text, data: crate::record::copy_bytes(&filler_text) }),
                }
            },
            None => MidiTrackEvent {
                delta: MAX_DELTA as u32,
                kind: TrackEventKind::Meta(MetaMessage::TextEvent { kind: TextKind::Text, data: crate::record::copy_bytes(&filler_text) }),
            },
        };
        assert(item@ == placed_event(t, ev));
        track.push(item);
        k += 1;
    }
    let ghost body = track_view(track@);
    track.push(MidiTrackEvent { delta: 0, kind: TrackEventKind::Meta(MetaMessage::EndOfTrack) });
    let ghost sv = schedule_spec(timed_events(rv, ev));
    assert(track_view(track@) =~= Seq::new(sv.len(), |i: int| placed_event(sv[i], ev))
        + seq![EventView { delta: 0, kind: KindView::Meta(MetaView::EndOfTrack) }]);
    let f = MidiFile { format: 0, ppqn: 480, tracks: vec![track] };
    assert(f@.tracks =~= seq![track_view(f.tracks@[0]@)]);
    Ok(f)
}

proof fn lemma_converted_prefix_fail(p: Seq<OutputView>, k: int)
    requires
        0 <= k < p.len(),
        events_converted(p.take(k + 1)) is None,
    ensures
        events_converted(p) is None,
    decreases p.len(),
{
    if k + 1 < p.len() {
        assert(p.drop_last().take(k + 1) == p.take(k + 1));
        lemma_converted_prefix_fail(p.drop_last(), k);
    } else {
        assert(p.take(k + 1) == p);
    }
}

/// Running position of the clock: beat and microsecond of the last tempo
/// change, and the tempo in force (in units of 1/100000 beat per minute).
pub ghost struct Clock {
    pub beat: u64,
    pub micros: u64,
    pub bpm: i64,
}

/// Microseconds of the end time of `ir` under the clock.
pub open spec fn clock_micros(c: Clock, ir: IntermediateView) -> u64 {
    let span = if ir.end.repr >= c.beat { (ir.end.repr - c.beat) as u64 } else { 0 };
    let d = micros_of(BeatTime { repr: span }, FixedDecimal { units: c.bpm });
    if c.micros + d > u64::MAX { u64::MAX } else { (c.micros + d) as u64 }
}

/// The clock after `ir`: a positive tempo takes effect from its end time.
pub open spec fn clock_step(c: Clock, ir: IntermediateView) -> Clock {
    match ir.record {
        OutputView::Tempo { bpm, .. } => if bpm.units > 0 {
            Clock { beat: ir.end.repr, micros: clock_micros(c, ir), bpm: bpm.units }
        } else {
            c
        },
        _ => c,
    }
}

/// Point events placed at microseconds from position `i`, starting at 120
/// beats per minute (see `clock_micros`).
pub open spec fn placed_from(irs: Seq<IntermediateView>, i: int, c: Clock) -> Seq<OutputView>
    decreases irs.len() - i,
{
    if i < 0 || i >= irs.len() {
        Seq::empty()
    } else {
        seq![with_output_time(irs[i].record, clock_micros(c, irs[i]))] + placed_from(irs, i + 1, clock_step(c, irs[i]))
    }
}

pub open spec fn start_clock() -> Clock {
    Clock { beat: 0, micros: 0, bpm: 12_000_000 }
}

/// Places point events, sorted by end time, at microseconds under the running
/// tempo (see `placed_from`).
pub fn place_in_time(irs: &Vec<IntermediateRecord>) -> (r: Vec<MtxtOutputRecord>)
    ensures
        outputs_view(r@) == placed_from(crate::process::ir_views(irs@), 0, start_clock()),
{
    let ghost iv = crate::process::ir_views(irs@);
    let mut out: Vec<MtxtOutputRecord> = Vec::new();
    let mut beat: u64 = 0;
    let mut micros: u64 = 0;
    let mut bpm: i64 = 12_000_000;
    let mut i: usize = 0;
    assert(outputs_view(out@) =~= Seq::<OutputView>::empty());
    while i < irs.len()
        invariant
            i <= irs.len(),
            iv == crate::process::ir_views(irs@),
            bpm > 0,
            outputs_view(out@) + placed_from(iv, i as int, Clock { beat, micros, bpm }) == placed_from(iv, 0, start_clock()),
        decreases irs.len() - i,
    {
        let ir = &irs[i];
        assert(iv[i as int] == ir@);
        let ghost c = Clock { beat, micros, bpm };
        let span = if ir.end_beat_time.repr >= beat { ir.end_beat_time.repr - beat } else { 0 };
        let d = BeatTime { repr: span }.as_micros(FixedDecimal { units: bpm });
        let us = if (micros as u128) + (d as u128) > 0xFFFF_FFFF_FFFF_FFFF { u64::MAX } else { micros + d };
        assert(us == clock_micros(c, ir@));
        let mut rec = ir.record.copy();
        rec.set_time(us);
        let ghost before = outputs_view(out@);
        out.push(rec);
        assert(outputs_view(out@) =~= before.push(with_output_time(ir.record@, us)));
        if let MtxtOutputRecord::Tempo { bpm: b, .. } = &ir.record {
            if b.units > 0 {
                beat = ir.end_beat_time.repr;
                micros = us;
                bpm = b.units;
            }
        }
        assert(Clock { beat, micros, bpm } == clock_step(c, ir@));
        assert(outputs_view(out@) + placed_from(iv, i + 1, Clock { beat, micros, bpm }) =~= before + placed_from(iv, i as int, c));
        i += 1;
    }
    assert(outputs_view(out@) + Seq::<OutputView>::empty() == outputs_view(out@));
    out
}

/// The events a file plays, placed in microseconds.
pub open spec fn file_outputs(records: Seq<crate::record::LineView>) -> Seq<OutputView> {
    crate::process::outputs_spec(records.map_values(|l: crate::record::LineView| l.record))
}

/// Writes a file as a MIDI file: its events laid out, transitions turned into
/// points, placed in microseconds, then written as in `midi_file_spec`; also an error where a
/// file has 2^32 events or more.
pub fn convert_mtxt_to_midi(file: &crate::file::MtxtFile) -> (r: Result<MidiFile, String>)
    ensures
        match r {
            Ok(f) => midi_file_spec(file_outputs(crate::record::lines_view(file.records@))) == Some(f@),
            Err(_) => midi_file_spec(file_outputs(crate::record::lines_view(file.records@))) is None
                || file_outputs(crate::record::lines_view(file.records@)).len() >= 0x1_0000_0000,
        },
{
    let recs = file.get_records();
    let ghost lv = crate::record::lines_view(file.records@);
    assert(records_view(recs@) =~= lv.map_values(|l: crate::record::LineView| l.record));
    let outs = crate::process::process_records(recs.as_slice());
    if outs.len() as u64 >= 0x1_0000_0000u64 {
        return Err("Too many events for one track".to_string());
    }
    convert_output_records_to_midi(&outs)
}

} // verus!
