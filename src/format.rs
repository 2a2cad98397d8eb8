use crate::beat_time::{beat_text, BeatTime};
use crate::decimal::{decimal_text, FixedDecimal};
use crate::note::{note_text, target_text, Note};
use crate::record::{MtxtRecord, RecordView, TimeSignature, Version};
use crate::text::{nat_text, push_nat, push_str};
use vstd::prelude::*;

verus! {

pub open spec fn opt_beat_attr(key: Seq<char>, v: Option<BeatTime>) -> Seq<char> {
    match v {
        Some(b) => key + beat_text(b),
        None => Seq::empty(),
    }
}

pub open spec fn opt_decimal_attr(key: Seq<char>, v: Option<FixedDecimal>) -> Seq<char> {
    match v {
        Some(d) => key + decimal_text(d),
        None => Seq::empty(),
    }
}

pub open spec fn opt_channel_attr(v: Option<u16>) -> Seq<char> {
    match v {
        Some(c) => " ch="@ + nat_text(c as nat),
        None => Seq::empty(),
    }
}

pub open spec fn version_text(v: Version) -> Seq<char> {
    nat_text(v.major as nat) + "."@ + nat_text(v.minor as nat)
}

pub open spec fn signature_text(s: TimeSignature) -> Seq<char> {
    nat_text(s.numerator as nat) + "/"@ + nat_text(s.denominator as nat)
}

/// Notes of an alias definition, separated by commas.
pub open spec fn notes_text(notes: Seq<Note>) -> Seq<char>
    decreases notes.len(),
{
    if notes.len() == 0 {
        Seq::empty()
    } else if notes.len() == 1 {
        note_text(notes[0])
    } else {
        notes_text(notes.drop_last()) + ","@ + note_text(notes.last())
    }
}

/// Voice names separated by `, `, or `silence` for none.
pub open spec fn voices_text(v: Seq<Seq<char>>) -> Seq<char>
    decreases v.len(),
{
    if v.len() == 0 {
        "silence"@
    } else if v.len() == 1 {
        v[0]
    } else {
        voices_text(v.drop_last()) + ", "@ + v.last()
    }
}

pub open spec fn hex_char(d: nat) -> char {
    if d < 10 {
        ((d + 48) as u8) as char
    } else {
        ((d + 87) as u8) as char
    }
}

/// Each byte as a space and two lower-case hexadecimal digits.
pub open spec fn bytes_text(b: Seq<u8>) -> Seq<char>
    decreases b.len(),
{
    if b.len() == 0 {
        Seq::empty()
    } else {
        bytes_text(b.drop_last()) + seq![' ', hex_char(b.last() as nat / 16), hex_char(b.last() as nat % 16)]
    }
}

pub open spec fn transition_attrs(
    curve: Option<FixedDecimal>,
    time: Option<BeatTime>,
    interval: Option<FixedDecimal>,
) -> Seq<char> {
    opt_decimal_attr(" transition_curve="@, curve) + opt_beat_attr(" transition_time="@, time)
        + opt_decimal_attr(" transition_interval="@, interval)
}

/// Text of a record, without its time and comment.
pub open spec fn record_text(r: RecordView) -> Seq<char> {
    match r {
        RecordView::Header { version } => "mtxt "@ + version_text(version),
        RecordView::GlobalMeta { meta_type, value } => "meta global "@ + meta_type + " "@ + value,
        RecordView::ChannelDirective { channel } => "ch="@ + nat_text(channel as nat),
        RecordView::VelocityDirective { velocity } => "vel="@ + decimal_text(velocity),
        RecordView::OffVelocityDirective { off_velocity } => "offvel="@ + decimal_text(off_velocity),
        RecordView::DurationDirective { duration } => "dur="@ + beat_text(duration),
        RecordView::TransitionCurveDirective { curve } => "transition_curve="@ + decimal_text(curve),
        RecordView::TransitionIntervalDirective { interval } => "transition_interval="@
            + decimal_text(interval),
        RecordView::AliasDef { value } => "alias "@ + value.name + " "@ + notes_text(value.notes),
        RecordView::Note { note, duration, velocity, off_velocity, channel, .. } => "note "@
            + target_text(note) + opt_beat_attr(" dur="@, duration) + opt_decimal_attr(
            " vel="@,
            velocity,
        ) + opt_decimal_attr(" offvel="@, off_velocity) + opt_channel_attr(channel),
        RecordView::NoteOn { note, velocity, channel, .. } => "on "@ + target_text(note)
            + opt_decimal_attr(" vel="@, velocity) + opt_channel_attr(channel),
        RecordView::NoteOff { note, off_velocity, channel, .. } => "off "@ + target_text(note)
            + opt_decimal_attr(" offvel="@, off_velocity) + opt_channel_attr(channel),
        RecordView::ControlChange {
            note,
            controller,
            value,
            channel,
            transition_curve,
            transition_time,
            transition_interval,
            ..
        } => "cc"@ + (match note {
            Some(t) => " "@ + target_text(t),
            None => Seq::empty(),
        }) + " "@ + controller + " "@ + decimal_text(value) + opt_channel_attr(channel)
            + transition_attrs(transition_curve, transition_time, transition_interval),
        RecordView::Voice { voices, channel, .. } => "voice"@ + opt_channel_attr(channel) + " "@
            + voices_text(voices),
        RecordView::Tempo { bpm, transition_curve, transition_time, transition_interval, .. } =>
            "tempo "@ + decimal_text(bpm) + transition_attrs(
            transition_curve,
            transition_time,
            transition_interval,
        ),
        RecordView::TimeSignature { signature, .. } => "timesig "@ + signature_text(signature),
        RecordView::Tuning { target, cents, .. } => "tuning "@ + target + " "@ + (if cents.units
            >= 0 {
            "+"@
        } else {
            Seq::empty()
        }) + decimal_text(cents),
        RecordView::Reset { target, .. } => "reset "@ + target,
        RecordView::Meta { channel, meta_type, value, .. } => "meta"@ + opt_channel_attr(channel)
            + " "@ + meta_type + " "@ + value,
        RecordView::SysEx { data, .. } => "sysex"@ + bytes_text(data),
        RecordView::EmptyLine => Seq::empty(),
        RecordView::Comment { text } => "// "@ + text,
    }
}

fn push_opt_beat(out: &mut Vec<char>, key: &str, v: Option<BeatTime>)
    ensures
        final(out)@ == old(out)@ + opt_beat_attr(key@, v),
{
    if let Some(b) = v {
        push_str(out, key);
        b.push_text(out);
    }
}

fn push_opt_decimal(out: &mut Vec<char>, key: &str, v: Option<FixedDecimal>)
    ensures
        final(out)@ == old(out)@ + opt_decimal_attr(key@, v),
{
    if let Some(d) = v {
        push_str(out, key);
        d.push_text(out);
    }
}

fn push_opt_channel(out: &mut Vec<char>, v: Option<u16>)
    ensures
        final(out)@ == old(out)@ + opt_channel_attr(v),
{
    if let Some(c) = v {
        push_str(out, " ch=");
        push_nat(out, c as u64);
    }
}

fn push_transition(
    out: &mut Vec<char>,
    curve: Option<FixedDecimal>,
    time: Option<BeatTime>,
    interval: Option<FixedDecimal>,
)
    ensures
        final(out)@ == old(out)@ + transition_attrs(curve, time, interval),
{
    push_opt_decimal(out, " transition_curve=", curve);
    push_opt_beat(out, " transition_time=", time);
    push_opt_decimal(out, " transition_interval=", interval);
}

fn push_notes(out: &mut Vec<char>, notes: &Vec<Note>)
    ensures
        final(out)@ == old(out)@ + notes_text(notes@),
{
    let ghost start = out@;
    let mut i: usize = 0;
    while i < notes.len()
        invariant
            i <= notes.len(),
            out@ == start + notes_text(notes@.take(i as int)),
        decreases notes.len() - i,
    {
        let ghost before = out@;
        if i > 0 {
            push_str(out, ",");
        }
        notes[i].push_text(out);
        proof {
            let t = notes@.take(i + 1);
            assert(t.drop_last() == notes@.take(i as int));
            assert(t.last() == notes@[i as int]);
            if i == 0 {
                assert(notes_text(notes@.take(0)) == Seq::<char>::empty());
            }
        }
        i += 1;
    }
    assert(notes@.take(notes.len() as int) == notes@);
}

fn push_voices(out: &mut Vec<char>, voices: &Vec<String>)
    ensures
        final(out)@ == old(out)@ + voices_text(voices@.map_values(|v: String| v@)),
{
    let ghost vv = voices@.map_values(|v: String| v@);
    if voices.len() == 0 {
        push_str(out, "silence");
        return;
    }
    let ghost start = out@;
    let mut i: usize = 0;
    while i < voices.len()
        invariant
            i <= voices.len(),
            vv == voices@.map_values(|v: String| v@),
            i > 0 ==> out@ == start + voices_text(vv.take(i as int)),
            i == 0 ==> out@ == start,
        decreases voices.len() - i,
    {
        if i > 0 {
            push_str(out, ", ");
        }
        push_str(out, voices[i].as_str());
        proof {
            let t = vv.take(i + 1);
            assert(t.drop_last() == vv.take(i as int));
            assert(t.last() == voices@[i as int]@);
        }
        i += 1;
    }
    assert(vv.take(voices.len() as int) == vv);
}

pub fn hex_of(d: u8) -> (c: char)
    requires
        d < 16,
    ensures
        c == hex_char(d as nat),
{
    if d < 10 {
        (d + 48) as char
    } else {
        (d + 87) as char
    }
}

fn push_bytes(out: &mut Vec<char>, data: &Vec<u8>)
    ensures
        final(out)@ == old(out)@ + bytes_text(data@),
{
    let ghost start = out@;
    let mut i: usize = 0;
    while i < data.len()
        invariant
            i <= data.len(),
            out@ == start + bytes_text(data@.take(i as int)),
        decreases data.len() - i,
    {
        let b = data[i];
        out.push(' ');
        out.push(hex_of(b / 16));
        out.push(hex_of(b % 16));
        proof {
            let t = data@.take(i + 1);
            assert(t.drop_last() == data@.take(i as int));
            assert(t.last() == b);
        }
        assert(out@ =~= start + bytes_text(data@.take(i + 1)));
        i += 1;
    }
    assert(data@.take(data.len() as int) == data@);
}

fn push_record_text_0(out: &mut Vec<char>, r: &MtxtRecord)
    requires
        r is Header || r is GlobalMeta || r is ChannelDirective || r is VelocityDirective || r is OffVelocityDirective || r is DurationDirective || r is TransitionCurveDirective || r is TransitionIntervalDirective,
    ensures
        final(out)@ == old(out)@ + record_text(r@),
{
    let ghost start = out@;
    match r {
        MtxtRecord::Header { version } => {
            push_str(out, "mtxt ");
            push_nat(out, version.major as u64);
            push_str(out, ".");
            push_nat(out, version.minor as u64);
            assert(out@ =~= start + record_text(r@));
        },
        MtxtRecord::GlobalMeta { meta_type, value } => {
            push_str(out, "meta global ");
            push_str(out, meta_type.as_str());
            push_str(out, " ");
            push_str(out, value.as_str());
            assert(out@ =~= start + record_text(r@));
        },
        MtxtRecord::ChannelDirective { channel } => {
            push_str(out, "ch=");
            push_nat(out, *channel as u64);
            assert(out@ =~= start + record_text(r@));
        },
        MtxtRecord::VelocityDirective { velocity } => {
            push_str(out, "vel=");
            velocity.push_text(out);
            assert(out@ =~= start + record_text(r@));
        },
        MtxtRecord::OffVelocityDirective { off_velocity } => {
            push_str(out, "offvel=");
            off_velocity.push_text(out);
            assert(out@ =~= start + record_text(r@));
        },
        MtxtRecord::DurationDirective { duration } => {
            push_str(out, "dur=");
            duration.push_text(out);
            assert(out@ =~= start + record_text(r@));
        },
        MtxtRecord::TransitionCurveDirective { curve } => {
            push_str(out, "transition_curve=");
            curve.push_text(out);
            assert(out@ =~= start + record_text(r@));
        },
        MtxtRecord::TransitionIntervalDirective { interval } => {
            push_str(out, "transition_interval=");
            interval.push_text(out);
            assert(out@ =~= start + record_text(r@));
        },
        _ => {},
    }
}

fn push_record_text_1(out: &mut Vec<char>, r: &MtxtRecord)
    requires
        r is AliasDef || r is Note || r is NoteOn || r is NoteOff,
    ensures
        final(out)@ == old(out)@ + record_text(r@),
{
    let ghost start = out@;
    match r {
        MtxtRecord::AliasDef { value } => {
            push_str(out, "alias ");
            push_str(out, value.name.as_str());
            push_str(out, " ");
            push_notes(out, &value.notes);
            assert(out@ =~= start + record_text(r@));
        },
        MtxtRecord::Note { note, duration, velocity, off_velocity, channel, .. } => {
            push_str(out, "note ");
            note.push_text(out);
            push_opt_beat(out, " dur=", *duration);
            push_opt_decimal(out, " vel=", *velocity);
            push_opt_decimal(out, " offvel=", *off_velocity);
            push_opt_channel(out, *channel);
            assert(out@ =~= start + record_text(r@));
        },
        MtxtRecord::NoteOn { note, velocity, channel, .. } => {
            push_str(out, "on ");
            note.push_text(out);
            push_opt_decimal(out, " vel=", *velocity);
            push_opt_channel(out, *channel);
            assert(out@ =~= start + record_text(r@));
        },
        MtxtRecord::NoteOff { note, off_velocity, channel, .. } => {
            push_str(out, "off ");
            note.push_text(out);
            push_opt_decimal(out, " offvel=", *off_velocity);
            push_opt_channel(out, *channel);
            assert(out@ =~= start + record_text(r@));
        },
        _ => {},
    }
}

#[verifier::rlimit(60)]
fn push_record_text_2(out: &mut Vec<char>, r: &MtxtRecord)
    requires
        r is ControlChange || r is Voice || r is Tempo,
    ensures
        final(out)@ == old(out)@ + record_text(r@),
{
    let ghost start = out@;
    match r {
        MtxtRecord::ControlChange {
            note,
            controller,
            value,
            channel,
            transition_curve,
            transition_time,
            transition_interval,
            ..
        } => {
            push_str(out, "cc");
            if let Some(t) = note {
                push_str(out, " ");
                t.push_text(out);
            }
            push_str(out, " ");
            push_str(out, controller.as_str());
            push_str(out, " ");
            value.push_text(out);
            push_opt_channel(out, *channel);
            push_transition(out, *transition_curve, *transition_time, *transition_interval);
            assert(out@ =~= start + record_text(r@));
        },
        MtxtRecord::Voice { voices, channel, .. } => {
            push_str(out, "voice");
            push_opt_channel(out, *channel);
            push_str(out, " ");
            push_voices(out, &voices.voices);
            assert(out@ =~= start + record_text(r@));
        },
        MtxtRecord::Tempo { bpm, transition_curve, transition_time, transition_interval, .. } => {
            push_str(out, "tempo ");
            bpm.push_text(out);
            push_transition(out, *transition_curve, *transition_time, *transition_interval);
            assert(out@ =~= start + record_text(r@));
        },
        _ => {},
    }
}

fn push_record_text_3(out: &mut Vec<char>, r: &MtxtRecord)
    requires
        r is TimeSignature || r is Tuning || r is Reset || r is Meta || r is SysEx || r is EmptyLine || r is Comment,
    ensures
        final(out)@ == old(out)@ + record_text(r@),
{
    let ghost start = out@;
    match r {
        MtxtRecord::TimeSignature { signature, .. } => {
            push_str(out, "timesig ");
            push_nat(out, signature.numerator as u64);
            push_str(out, "/");
            push_nat(out, signature.denominator as u64);
            assert(out@ =~= start + record_text(r@));
        },
        MtxtRecord::Tuning { target, cents, .. } => {
            push_str(out, "tuning ");
            push_str(out, target.as_str());
            push_str(out, " ");
            if cents.units >= 0 {
                push_str(out, "+");
            }
            cents.push_text(out);
            assert(out@ =~= start + record_text(r@));
        },
        MtxtRecord::Reset { target, .. } => {
            push_str(out, "reset ");
            push_str(out, target.as_str());
            assert(out@ =~= start + record_text(r@));
        },
        MtxtRecord::Meta { channel, meta_type, value, .. } => {
            push_str(out, "meta");
            push_opt_channel(out, *channel);
            push_str(out, " ");
            push_str(out, meta_type.as_str());
            push_str(out, " ");
            push_str(out, value.as_str());
            assert(out@ =~= start + record_text(r@));
        },
        MtxtRecord::SysEx { data, .. } => {
            push_str(out, "sysex");
            push_bytes(out, data);
            assert(out@ =~= start + record_text(r@));
        },
        MtxtRecord::EmptyLine => {
            assert(out@ =~= start + record_text(r@));
        },
        MtxtRecord::Comment { text } => {
            push_str(out, "// ");
            push_str(out, text.as_str());
            assert(out@ =~= start + record_text(r@));
        },
        _ => {},
    }
}

/// Appends the text of a record (see `record_text`).
pub fn push_record_text(out: &mut Vec<char>, r: &MtxtRecord)
    ensures
        final(out)@ == old(out)@ + record_text(r@),
{
    match r {
        MtxtRecord::Header { .. } => push_record_text_0(out, r),
        MtxtRecord::GlobalMeta { .. } => push_record_text_0(out, r),
        MtxtRecord::ChannelDirective { .. } => push_record_text_0(out, r),
        MtxtRecord::VelocityDirective { .. } => push_record_text_0(out, r),
        MtxtRecord::OffVelocityDirective { .. } => push_record_text_0(out, r),
        MtxtRecord::DurationDirective { .. } => push_record_text_0(out, r),
        MtxtRecord::TransitionCurveDirective { .. } => push_record_text_0(out, r),
        MtxtRecord::TransitionIntervalDirective { .. } => push_record_text_0(out, r),
        MtxtRecord::AliasDef { .. } => push_record_text_1(out, r),
        MtxtRecord::Note { .. } => push_record_text_1(out, r),
        MtxtRecord::NoteOn { .. } => push_record_text_1(out, r),
        MtxtRecord::NoteOff { .. } => push_record_text_1(out, r),
        MtxtRecord::ControlChange { .. } => push_record_text_2(out, r),
        MtxtRecord::Voice { .. } => push_record_text_2(out, r),
        MtxtRecord::Tempo { .. } => push_record_text_2(out, r),
        MtxtRecord::TimeSignature { .. } => push_record_text_3(out, r),
        MtxtRecord::Tuning { .. } => push_record_text_3(out, r),
        MtxtRecord::Reset { .. } => push_record_text_3(out, r),
        MtxtRecord::Meta { .. } => push_record_text_3(out, r),
        MtxtRecord::SysEx { .. } => push_record_text_3(out, r),
        MtxtRecord::EmptyLine => push_record_text_3(out, r),
        MtxtRecord::Comment { .. } => push_record_text_3(out, r),
    }
}

} // verus!
