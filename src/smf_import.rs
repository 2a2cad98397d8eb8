use crate::beat_time::{frac_count, BeatTime, FRAC_BEAT_COUNT};
use crate::file::MtxtFile;
use crate::midi::{convert_meta_message, convert_midi_message_to_record, meta_record, midi_record, note_of_key, MetaMessage, MetaView, MidiMessage};
use crate::midi_tables::{drum_slug, drum_slug_spec};
use crate::note::{AliasDefinition, AliasView, NoteTarget, TargetView};
use crate::record::{lines_view, LineView, MtxtRecord, MtxtRecordLine, RecordView, record_time, Version};
use crate::transforms::extract::extract_spec;
use crate::transforms::merge::merge_spec;
use vstd::prelude::*;

verus! {

/// What a track event carries.
#[derive(Clone, Debug, PartialEq)]
pub enum TrackEventKind {
    Midi { channel: u8, message: MidiMessage },
    SysEx(Vec<u8>),
    Escape(Vec<u8>),
    Meta(MetaMessage),
}

/// A track event: its delta time in ticks and what it carries.
#[derive(Clone, Debug, PartialEq)]
pub struct MidiTrackEvent {
    pub delta: u32,
    pub kind: TrackEventKind,
}

pub ghost enum KindView {
    Midi { channel: u8, message: MidiMessage },
    SysEx(Seq<u8>),
    Escape(Seq<u8>),
    Meta(MetaView),
}

pub ghost struct EventView {
    pub delta: u32,
    pub kind: KindView,
}

impl View for MidiTrackEvent {
    type V = EventView;

    open spec fn view(&self) -> EventView {
        EventView {
            delta: self.delta,
            kind: match &self.kind {
                TrackEventKind::Midi { channel, message } => KindView::Midi { channel: *channel, message: *message },
                TrackEventKind::SysEx(d) => KindView::SysEx(d@),
                TrackEventKind::Escape(d) => KindView::Escape(d@),
                TrackEventKind::Meta(m) => KindView::Meta(m@),
            },
        }
    }
}

pub open spec fn track_view(t: Seq<MidiTrackEvent>) -> Seq<EventView> {
    t.map_values(|e: MidiTrackEvent| e@)
}

pub open spec fn tracks_view(t: Seq<Vec<MidiTrackEvent>>) -> Seq<Seq<EventView>> {
    t.map_values(|v: Vec<MidiTrackEvent>| track_view(v@))
}

/// The beat time of an absolute tick count: whole beats, and the remaining
/// ticks as a fraction of a beat rounded down to sub-beat units; saturated.
pub open spec fn ticks_to_beat(ticks: int, ppqn: int) -> BeatTime {
    let v = (ticks / ppqn) * frac_count() + (ticks % ppqn) * frac_count() / ppqn;
    BeatTime { repr: if v > u64::MAX { u64::MAX } else { v as u64 } }
}

/// The channel of the first channel message of a track.
pub open spec fn first_channel(track: Seq<EventView>) -> Option<u8>
    decreases track.len(),
{
    if track.len() == 0 {
        None
    } else {
        match track[0].kind {
            KindView::Midi { channel, .. } => Some(channel),
            _ => first_channel(track.drop_first()),
        }
    }
}

pub open spec fn plain_line(r: RecordView) -> LineView {
    LineView { record: r, comment: None }
}

/// Bytes as lower-case hexadecimal pairs separated by spaces.
pub open spec fn spaced_hex(b: Seq<u8>) -> Seq<char>
    decreases b.len(),
{
    if b.len() == 0 {
        Seq::empty()
    } else {
        let pair = seq![crate::format::hex_char(b.last() as nat / 16), crate::format::hex_char(b.last() as nat % 16)];
        if b.len() == 1 {
            pair
        } else {
            spaced_hex(b.drop_last()) + seq![' '] + pair
        }
    }
}

/// The line of one event: `None` for an error, `Some(None)` for no line. An
/// escape event becomes an empty line whose comment lists its bytes.
pub open spec fn event_record(e: EventView, t: BeatTime, first: bool, tc: Option<u8>) -> Option<Option<LineView>> {
    match e.kind {
        KindView::Midi { channel, message } => if channel > 15 {
            None
        } else {
            Some(Some(plain_line(midi_record(message, channel as u16, t))))
        },
        KindView::SysEx(d) => Some(Some(plain_line(RecordView::SysEx { time: t, data: d }))),
        KindView::Escape(d) => Some(Some(LineView { record: RecordView::EmptyLine, comment: Some("Escape sequence: "@ + spaced_hex(d)) })),
        KindView::Meta(m) => match meta_record(m, t, first, tc) {
            Some(Some(r)) => Some(Some(plain_line(r))),
            Some(None) => Some(None),
            None => None,
        },
    }
}

pub open spec fn opt_seq(x: Option<LineView>, t: BeatTime) -> Seq<(BeatTime, LineView)> {
    match x {
        Some(r) => seq![(t, r)],
        None => Seq::empty(),
    }
}

/// The lines of a track from event `i` on, with their times, `ticks` ticks having passed.
pub open spec fn track_from(track: Seq<EventView>, i: int, ticks: int, ppqn: int, first: bool, tc: Option<u8>) -> Option<Seq<(BeatTime, LineView)>>
    decreases track.len() - i,
{
    if i < 0 || i >= track.len() {
        Some(Seq::empty())
    } else {
        let now = ticks + track[i].delta;
        match event_record(track[i], ticks_to_beat(now, ppqn), first, tc) {
            None => None,
            Some(x) => match track_from(track, i + 1, now, ppqn, first, tc) {
                None => None,
                Some(rest) => Some(opt_seq(x, ticks_to_beat(now, ppqn)) + rest),
            },
        }
    }
}

/// The records of tracks `0..n`; channels are guessed per track in format 1.
pub open spec fn tracks_records(format: u16, ppqn: int, tracks: Seq<Seq<EventView>>, n: int) -> Option<Seq<(BeatTime, LineView)>>
    decreases n,
{
    if n <= 0 || n > tracks.len() {
        Some(Seq::empty())
    } else {
        let tc = if format == 1 { first_channel(tracks[n - 1]) } else { None };
        match (tracks_records(format, ppqn, tracks, n - 1), track_from(tracks[n - 1], 0, 0, ppqn, n - 1 == 0, tc)) {
            (Some(a), Some(b)) => Some(a + b),
            _ => None,
        }
    }
}

/// Sort key: the time of the event.
pub open spec fn import_key(e: (BeatTime, LineView)) -> int {
    e.0.repr as int
}

pub open spec fn insert_record(buf: Seq<(BeatTime, LineView)>, r: (BeatTime, LineView)) -> Seq<(BeatTime, LineView)>
    decreases buf.len(),
{
    if buf.len() == 0 {
        seq![r]
    } else if import_key(buf.last()) <= import_key(r) {
        buf.push(r)
    } else {
        insert_record(buf.drop_last(), r).push(buf.last())
    }
}

/// Stable sort by event time.
pub open spec fn sort_records(s: Seq<(BeatTime, LineView)>) -> Seq<(BeatTime, LineView)>
    decreases s.len(),
{
    if s.len() == 0 {
        s
    } else {
        insert_record(sort_records(s.drop_last()), s.last())
    }
}

pub open spec fn as_lines(s: Seq<(BeatTime, LineView)>) -> Seq<LineView> {
    s.map_values(|e: (BeatTime, LineView)| e.1)
}

/// The lines of all tracks in one list, stably sorted by event time; `None`
/// for format 2, timecode timing, or an event that does not convert.
pub open spec fn smf_lines(format: u16, ppqn: Option<u16>, tracks: Seq<Seq<EventView>>) -> Option<Seq<LineView>> {
    if format == 2 || ppqn is None || ppqn == Some(0u16) {
        None
    } else {
        match tracks_records(format, ppqn->Some_0 as int, tracks, tracks.len() as int) {
            Some(rs) => Some(as_lines(sort_records(rs))),
            None => None,
        }
    }
}

proof fn lemma_insert_record_at(buf: Seq<(BeatTime, LineView)>, r: (BeatTime, LineView), p: int)
    requires
        0 <= p <= buf.len(),
        forall|j: int| p <= j < buf.len() ==> import_key(#[trigger] buf[j]) > import_key(r),
        p > 0 ==> import_key(buf[p - 1]) <= import_key(r),
    ensures
        insert_record(buf, r) == buf.take(p) + seq![r] + buf.skip(p),
    decreases buf.len(),
{
    if buf.len() == 0 {
        assert(buf.take(p) + seq![r] + buf.skip(p) =~= seq![r]);
    } else if p == buf.len() {
        assert(buf.take(p) + seq![r] + buf.skip(p) =~= buf.push(r));
    } else {
        let b = buf.drop_last();
        assert forall|j: int| p <= j < b.len() implies import_key(#[trigger] b[j]) > import_key(r) by {
            assert(b[j] == buf[j]);
        }
        lemma_insert_record_at(b, r, p);
        assert(buf.take(p) + seq![r] + buf.skip(p) =~= (b.take(p) + seq![r] + b.skip(p)).push(buf.last()));
    }
}

/// A line with the time of the event it came from.
pub struct TimedLine {
    pub tick: BeatTime,
    pub line: MtxtRecordLine,
}

pub open spec fn recs_view(v: Seq<TimedLine>) -> Seq<(BeatTime, LineView)> {
    v.map_values(|r: TimedLine| (r.tick, r.line@))
}

fn sort_recs(records: Vec<TimedLine>) -> (r: Vec<TimedLine>)
    ensures
        recs_view(r@) == sort_records(recs_view(records@)),
{
    let ghost sv = recs_view(records@);
    let mut buf: Vec<TimedLine> = Vec::new();
    let mut rest = records;
    let mut i: usize = 0;
    let total = rest.len();
    assert(sv.take(0) =~= Seq::<(BeatTime, LineView)>::empty());
    assert(recs_view(buf@) =~= Seq::<(BeatTime, LineView)>::empty());
    assert(recs_view(rest@) =~= sv.skip(0));
    while rest.len() > 0
        invariant
            i + rest.len() == total,
            sv.len() == total,
            recs_view(rest@) == sv.skip(i as int),
            recs_view(buf@) == sort_records(sv.take(i as int)),
        decreases rest.len(),
    {
        let ghost rv = rest@;
        let r = rest.remove(0);
        assert(r == rv[0]);
        assert(recs_view(rv)[0] == (r.tick, r.line@));
        assert(sv.skip(i as int)[0] == sv[i as int]);
        assert forall|j: int| 0 <= j < rest@.len() implies ((#[trigger] rest@[j]).tick, rest@[j].line@) == sv.skip(i + 1)[j] by {
            assert(rest@[j] == rv[j + 1]);
            assert(recs_view(rv)[j + 1] == (rv[j + 1].tick, rv[j + 1].line@));
        }
        assert(recs_view(rest@) =~= sv.skip(i + 1));
        let ghost old_buf = recs_view(buf@);
        let k = r.tick.repr;
        let mut p = buf.len();
        while p > 0 && buf[p - 1].tick.repr > k
            invariant
                p <= buf.len(),
                forall|j: int| p <= j < buf.len() ==> (#[trigger] buf@[j]).tick.repr > k,
            decreases p,
        {
            p -= 1;
        }
        proof {
            assert forall|j: int| p <= j < old_buf.len() implies import_key(#[trigger] old_buf[j]) > import_key((r.tick, r.line@)) by {
                assert(old_buf[j] == (buf@[j].tick, buf@[j].line@));
            }
            lemma_insert_record_at(old_buf, (r.tick, r.line@), p as int);
            assert(sv.take(i + 1).drop_last() == sv.take(i as int));
            assert(sv.take(i + 1).last() == (r.tick, r.line@));
        }
        let ghost rv2 = (r.tick, r.line@);
        buf.insert(p, r);
        assert(recs_view(buf@) =~= old_buf.take(p as int) + seq![rv2] + old_buf.skip(p as int));
        i += 1;
    }
    assert(sv.take(total as int) == sv);
    buf
}

fn ticks_to_beat_exec(ticks: u64, ppqn: u16) -> (r: BeatTime)
    requires
        ppqn > 0,
    ensures
        r == ticks_to_beat(ticks as int, ppqn as int),
{
    let p = ppqn as u64;
    let whole = ticks / p;
    let frac = ((ticks % p) as u128 * FRAC_BEAT_COUNT as u128 / p as u128) as u64;
    assert(frac < frac_count()) by (nonlinear_arith)
        requires
            frac == (ticks % p) * 0x1_0000_0000 / (p as int),
            ticks % p < p,
            p > 0,
    ;
    if whole >= 0x1_0000_0000 {
        assert(whole * frac_count() + frac > u64::MAX) by (nonlinear_arith)
            requires
                whole >= 0x1_0000_0000,
        ;
        return BeatTime { repr: u64::MAX };
    }
    assert(whole * frac_count() + frac <= u64::MAX) by (nonlinear_arith)
        requires
            whole < 0x1_0000_0000,
            frac < 0x1_0000_0000,
    ;
    BeatTime { repr: whole * FRAC_BEAT_COUNT + frac }
}

fn first_channel_exec(track: &Vec<MidiTrackEvent>) -> (r: Option<u8>)
    ensures
        r == first_channel(track_view(track@)),
{
    let ghost tv = track_view(track@);
    let mut i: usize = 0;
    assert(tv.skip(0) == tv);
    while i < track.len()
        invariant
            i <= track.len(),
            tv == track_view(track@),
            first_channel(tv.skip(i as int)) == first_channel(tv),
        decreases track.len() - i,
    {
        assert(tv.skip(i as int).drop_first() =~= tv.skip(i + 1));
        assert(tv.skip(i as int)[0] == track@[i as int]@);
        if let TrackEventKind::Midi { channel, .. } = &track[i].kind {
            return Some(*channel);
        }
        i += 1;
    }
    assert(tv.skip(i as int).len() == 0);
    None
}

fn push_spaced_hex(out: &mut Vec<char>, b: &Vec<u8>)
    ensures
        final(out)@ == old(out)@ + spaced_hex(b@),
{
    let ghost start = out@;
    let mut i: usize = 0;
    while i < b.len()
        invariant
            i <= b.len(),
            out@ == start + spaced_hex(b@.take(i as int)),
        decreases b.len() - i,
    {
        let x = b[i];
        if i > 0 {
            out.push(' ');
        }
        out.push(crate::format::hex_of(x / 16));
        out.push(crate::format::hex_of(x % 16));
        proof {
            assert(b@.take(i + 1).drop_last() == b@.take(i as int));
            assert(b@.take(i + 1).last() == x);
        }
        assert(out@ =~= start + spaced_hex(b@.take(i + 1)));
        i += 1;
    }
    assert(b@.take(b.len() as int) == b@);
}

fn event_to_record(e: &MidiTrackEvent, t: BeatTime, first: bool, tc: Option<u8>) -> (r: Result<Option<MtxtRecordLine>, String>)
    ensures
        match r {
            Ok(Some(x)) => event_record(e@, t, first, tc) == Some(Some(x@)),
            Ok(None) => event_record(e@, t, first, tc) == Some(None::<LineView>),
            Err(_) => event_record(e@, t, first, tc) is None,
        },
{
    match &e.kind {
        TrackEventKind::Midi { channel, message } => {
            if *channel > 15 {
                return Err("Channel out of range".to_string());
            }
            match convert_midi_message_to_record(message, *channel as u16, t) {
                Ok(x) => Ok(Some(MtxtRecordLine::new(x))),
                Err(m) => Err(m),
            }
        },
        TrackEventKind::SysEx(d) => Ok(Some(MtxtRecordLine::new(MtxtRecord::SysEx { time: t, data: crate::record::copy_bytes(d) }))),
        TrackEventKind::Escape(d) => {
            let mut v: Vec<char> = Vec::new();
            crate::text::push_str(&mut v, "Escape sequence: ");
            push_spaced_hex(&mut v, d);
            Ok(Some(MtxtRecordLine::with_comment(MtxtRecord::EmptyLine, crate::text::string_of(&v))))
        },
        TrackEventKind::Meta(m) => match convert_meta_message(m, t, first, tc) {
            Ok(Some(x)) => Ok(Some(MtxtRecordLine::new(x))),
            Ok(None) => Ok(None),
            Err(m) => Err(m),
        },
    }
}

fn track_records(track: &Vec<MidiTrackEvent>, ppqn: u16, first: bool, tc: Option<u8>, out: &mut Vec<TimedLine>) -> (r: Result<(), String>)
    requires
        ppqn > 0,
        track.len() < 0x1_0000_0000,
    ensures
        match track_from(track_view(track@), 0, 0, ppqn as int, first, tc) {
            Some(rs) => r is Ok && recs_view(final(out)@) == recs_view(old(out)@) + rs,
            None => r is Err,
        },
{
    let ghost tv = track_view(track@);
    let ghost full = track_from(tv, 0, 0, ppqn as int, first, tc);
    let mut recs: Vec<TimedLine> = Vec::new();
    let mut ticks: u64 = 0;
    let mut i: usize = 0;
    assert(recs_view(recs@) =~= Seq::<(BeatTime, LineView)>::empty());
    while i < track.len()
        invariant
            i <= track.len() < 0x1_0000_0000,
            ppqn > 0,
            tv == track_view(track@),
            full == track_from(tv, 0, 0, ppqn as int, first, tc),
            ticks <= i * 0xFFFF_FFFF,
            match track_from(tv, i as int, ticks as int, ppqn as int, first, tc) {
                Some(rest) => full == Some(recs_view(recs@) + rest),
                None => full is None,
            },
        decreases track.len() - i,
    {
        let e = &track[i];
        assert(tv[i as int] == e@);
        assert(ticks + e.delta <= (i + 1) * 0xFFFF_FFFF) by (nonlinear_arith)
            requires
                ticks <= i * 0xFFFF_FFFF,
                e.delta <= 0xFFFF_FFFF,
        ;
        assert((i + 1) * 0xFFFF_FFFF < 0x1_0000_0000 * 0x1_0000_0000) by (nonlinear_arith)
            requires
                i < 0x1_0000_0000,
        ;
        let now = ticks + e.delta as u64;
        let t = ticks_to_beat_exec(now, ppqn);
        let ghost before = recs_view(recs@);
        let x = match event_to_record(e, t, first, tc) {
            Err(m) => {
                return Err(m);
            },
            Ok(x) => x,
        };
        let ghost ev = event_record(tv[i as int], t, first, tc)->Some_0;
        match x {
            Some(rec) => {
                let ghost rv = rec@;
                recs.push(TimedLine { tick: t, line: rec });
                assert(recs_view(recs@) =~= before + seq![(t, rv)]);
            },
            None => {
                assert(recs_view(recs@) =~= before + Seq::<(BeatTime, LineView)>::empty());
            },
        }
        assert(recs_view(recs@) == before + opt_seq(ev, t));
        proof {
            match track_from(tv, i + 1, now as int, ppqn as int, first, tc) {
                Some(rest2) => {
                    assert(recs_view(recs@) + rest2 =~= before + (opt_seq(ev, t) + rest2));
                },
                None => {},
            }
        }
        ticks = now;
        i += 1;
    }
    assert(track_from(tv, i as int, ticks as int, ppqn as int, first, tc) == Some(Seq::<(BeatTime, LineView)>::empty()));
    assert(recs_view(recs@) + Seq::<(BeatTime, LineView)>::empty() == recs_view(recs@));
    let ghost o = recs_view(out@);
    let ghost rr = recs_view(recs@);
    out.append(&mut recs);
    assert(recs_view(out@) =~= o + rr);
    Ok(())
}

/// The records of all tracks in one list, stably sorted with untimed lines
/// first (see `smf_lines`).
pub fn get_midi_single_track_events(format: u16, ppqn: Option<u16>, tracks: &Vec<Vec<MidiTrackEvent>>) -> (r: Result<Vec<MtxtRecordLine>, String>)
    requires
        tracks.len() < 0x1_0000_0000,
        forall|k: int| 0 <= k < tracks.len() ==> (#[trigger] tracks@[k]).len() < 0x1_0000_0000,
    ensures
        (format == 2 || ppqn is None || ppqn == Some(0u16)) ==> r is Err,
        match r {
            Ok(lines) => smf_lines(format, ppqn, tracks_view(tracks@)) == Some(lines_view(lines@)),
            Err(_) => smf_lines(format, ppqn, tracks_view(tracks@)) is None,
        },
{
    if format == 2 {
        return Err("MIDI format 2 is not supported".to_string());
    }
    let p = match ppqn {
        Some(p) => if p == 0 {
            return Err("Zero ticks per beat".to_string());
        } else {
            p
        },
        None => return Err("Timecode timing is not supported".to_string()),
    };
    let ghost tv = tracks_view(tracks@);
    let mut all: Vec<TimedLine> = Vec::new();
    let mut k: usize = 0;
    assert(recs_view(all@) =~= Seq::<(BeatTime, LineView)>::empty());
    while k < tracks.len()
        invariant
            k <= tracks.len() < 0x1_0000_0000,
            p > 0,
            ppqn == Some(p),
            format != 2,
            tv == tracks_view(tracks@),
            forall|j: int| 0 <= j < tracks.len() ==> (#[trigger] tracks@[j]).len() < 0x1_0000_0000,
            tracks_records(format, p as int, tv, k as int) == Some(recs_view(all@)),
        decreases tracks.len() - k,
    {
        let track = &tracks[k];
        assert(tv[k as int] == track_view(track@));
        let tc = if format == 1 {
            first_channel_exec(track)
        } else {
            None
        };
        match track_records(track, p, k == 0, tc, &mut all) {
            Ok(()) => {},
            Err(m) => {
                proof {
                    lemma_tracks_fail(format, p as int, tv, k as int);
                }
                return Err(m);
            },
        }
        k += 1;
    }
    assert(tv.len() == tracks.len());
    let sorted = sort_recs(all);
    let mut lines: Vec<MtxtRecordLine> = Vec::new();
    let mut i: usize = 0;
    while i < sorted.len()
        invariant
            i <= sorted.len(),
            lines.len() == i,
            forall|j: int| 0 <= j < i ==> (#[trigger] lines@[j])@ == sorted@[j].line@,
        decreases sorted.len() - i,
    {
        lines.push(sorted[i].line.copy());
        i += 1;
    }
    assert(lines_view(lines@) =~= as_lines(recs_view(sorted@)));
    Ok(lines)
}

proof fn lemma_tracks_fail(format: u16, ppqn: int, tracks: Seq<Seq<EventView>>, k: int)
    requires
        0 <= k < tracks.len(),
        track_from(tracks[k], 0, 0, ppqn, k == 0, if format == 1 { first_channel(tracks[k]) } else { None }) is None,
    ensures
        tracks_records(format, ppqn, tracks, tracks.len() as int) is None,
    decreases tracks.len() - k,
{
    lemma_tracks_fail_at(format, ppqn, tracks, k, k + 1);
}

proof fn lemma_tracks_fail_at(format: u16, ppqn: int, tracks: Seq<Seq<EventView>>, k: int, n: int)
    requires
        0 <= k < n <= tracks.len(),
        track_from(tracks[k], 0, 0, ppqn, k == 0, if format == 1 { first_channel(tracks[k]) } else { None }) is None,
    ensures
        tracks_records(format, ppqn, tracks, tracks.len() as int) is None,
    decreases tracks.len() - n,
{
    lemma_prefix_none(format, ppqn, tracks, k + 1, n);
    if n < tracks.len() {
        lemma_tracks_fail_at(format, ppqn, tracks, k, n + 1);
    }
}

proof fn lemma_prefix_none(format: u16, ppqn: int, tracks: Seq<Seq<EventView>>, a: int, n: int)
    requires
        1 <= a <= n <= tracks.len(),
        tracks_records(format, ppqn, tracks, a) is None
            || track_from(tracks[a - 1], 0, 0, ppqn, a - 1 == 0, if format == 1 { first_channel(tracks[a - 1]) } else { None }) is None,
    ensures
        tracks_records(format, ppqn, tracks, n) is None,
    decreases n - a,
{
    if n > a {
        lemma_prefix_none(format, ppqn, tracks, a, n - 1);
    }
}

/// Whether a record plays the alias `name`.
pub open spec fn uses_alias(r: RecordView, name: Seq<char>) -> bool {
    match r {
        RecordView::NoteOn { note, .. } => note == TargetView::AliasKey(name),
        RecordView::NoteOff { note, .. } => note == TargetView::AliasKey(name),
        _ => false,
    }
}

pub open spec fn group_size() -> int {
    0x2_0000_0000_0000_0000
}

/// Order of the file's lines: global metas, alias definitions and headers
/// first, then metas without a time, then everything else by time (lines
/// of other kinds count as time zero).
pub open spec fn final_key(r: RecordView) -> int {
    match r {
        RecordView::GlobalMeta { .. } => 0,
        RecordView::AliasDef { .. } => 0,
        RecordView::Header { .. } => 0,
        RecordView::Meta { time: None, .. } => group_size(),
        RecordView::Meta { time: Some(t), .. } => 2 * group_size() + t.repr,
        RecordView::Note { time, .. } => 2 * group_size() + time.repr,
        RecordView::NoteOn { time, .. } => 2 * group_size() + time.repr,
        RecordView::NoteOff { time, .. } => 2 * group_size() + time.repr,
        RecordView::ControlChange { time, .. } => 2 * group_size() + time.repr,
        RecordView::Voice { time, .. } => 2 * group_size() + time.repr,
        RecordView::Tempo { time, .. } => 2 * group_size() + time.repr,
        RecordView::TimeSignature { time, .. } => 2 * group_size() + time.repr,
        RecordView::SysEx { time, .. } => 2 * group_size() + time.repr,
        _ => 2 * group_size(),
    }
}

pub open spec fn insert_final(buf: Seq<LineView>, l: LineView) -> Seq<LineView>
    decreases buf.len(),
{
    if buf.len() == 0 {
        seq![l]
    } else if final_key(buf.last().record) <= final_key(l.record) {
        buf.push(l)
    } else {
        insert_final(buf.drop_last(), l).push(buf.last())
    }
}

/// Stable sort by `final_key`.
pub open spec fn sort_final(s: Seq<LineView>) -> Seq<LineView>
    decreases s.len(),
{
    if s.len() == 0 {
        s
    } else {
        insert_final(sort_final(s.drop_last()), s.last())
    }
}

proof fn lemma_insert_final_at(buf: Seq<LineView>, l: LineView, p: int)
    requires
        0 <= p <= buf.len(),
        forall|j: int| p <= j < buf.len() ==> final_key(#[trigger] buf[j].record) > final_key(l.record),
        p > 0 ==> final_key(buf[p - 1].record) <= final_key(l.record),
    ensures
        insert_final(buf, l) == buf.take(p) + seq![l] + buf.skip(p),
    decreases buf.len(),
{
    if buf.len() == 0 {
        assert(buf.take(p) + seq![l] + buf.skip(p) =~= seq![l]);
    } else if p == buf.len() {
        assert(buf.take(p) + seq![l] + buf.skip(p) =~= buf.push(l));
    } else {
        let b = buf.drop_last();
        assert forall|j: int| p <= j < b.len() implies final_key(#[trigger] b[j].record) > final_key(l.record) by {
            assert(b[j] == buf[j]);
        }
        lemma_insert_final_at(b, l, p);
        assert(buf.take(p) + seq![l] + buf.skip(p) =~= (b.take(p) + seq![l] + b.skip(p)).push(buf.last()));
    }
}

fn final_key_exec(r: &MtxtRecord) -> (k: u128)
    ensures
        k == final_key(r@),
{
    let g: u128 = 0x2_0000_0000_0000_0000;
    match r {
        MtxtRecord::GlobalMeta { .. } => 0,
        MtxtRecord::AliasDef { .. } => 0,
        MtxtRecord::Header { .. } => 0,
        MtxtRecord::Meta { time: None, .. } => g,
        MtxtRecord::Meta { time: Some(t), .. } => 2 * g + t.repr as u128,
        MtxtRecord::Note { time, .. } => 2 * g + time.repr as u128,
        MtxtRecord::NoteOn { time, .. } => 2 * g + time.repr as u128,
        MtxtRecord::NoteOff { time, .. } => 2 * g + time.repr as u128,
        MtxtRecord::ControlChange { time, .. } => 2 * g + time.repr as u128,
        MtxtRecord::Voice { time, .. } => 2 * g + time.repr as u128,
        MtxtRecord::Tempo { time, .. } => 2 * g + time.repr as u128,
        MtxtRecord::TimeSignature { time, .. } => 2 * g + time.repr as u128,
        MtxtRecord::SysEx { time, .. } => 2 * g + time.repr as u128,
        _ => 2 * g,
    }
}

fn sort_final_exec(lines: &Vec<MtxtRecordLine>) -> (r: Vec<MtxtRecordLine>)
    ensures
        lines_view(r@) == sort_final(lines_view(lines@)),
{
    let ghost sv = lines_view(lines@);
    let mut buf: Vec<MtxtRecordLine> = Vec::new();
    let mut i: usize = 0;
    assert(sv.take(0) =~= Seq::<LineView>::empty());
    assert(lines_view(buf@) =~= Seq::<LineView>::empty());
    while i < lines.len()
        invariant
            i <= lines.len(),
            sv == lines_view(lines@),
            lines_view(buf@) == sort_final(sv.take(i as int)),
        decreases lines.len() - i,
    {
        let line = &lines[i];
        let ghost old_buf = lines_view(buf@);
        let k = final_key_exec(&line.record);
        let mut p = buf.len();
        while p > 0 && final_key_exec(&buf[p - 1].record) > k
            invariant
                p <= buf.len(),
                forall|j: int| p <= j < buf.len() ==> final_key((#[trigger] buf@[j]).record@) > k,
            decreases p,
        {
            p -= 1;
        }
        proof {
            assert forall|j: int| p <= j < old_buf.len() implies final_key(#[trigger] old_buf[j].record) > final_key(line@.record) by {
                assert(old_buf[j] == buf@[j]@);
            }
            lemma_insert_final_at(old_buf, line@, p as int);
            assert(sv.take(i + 1).drop_last() == sv.take(i as int));
            assert(sv.take(i + 1).last() == line@);
        }
        buf.insert(p, line.copy());
        assert(lines_view(buf@) =~= old_buf.take(p as int) + seq![line@] + old_buf.skip(p as int));
        i += 1;
    }
    assert(sv.take(lines.len() as int) == sv);
    buf
}

pub open spec fn alias_used(lines: Seq<LineView>, name: Seq<char>) -> bool {
    exists|i: int| 0 <= i < lines.len() && uses_alias(#[trigger] lines[i].record, name)
}

/// Definitions of the drum aliases among the first `j` percussion keys that
/// the lines play, in key order.
pub open spec fn drum_alias_lines(lines: Seq<LineView>, j: int) -> Seq<LineView>
    decreases j,
{
    if j <= 0 {
        Seq::empty()
    } else {
        let k = (j - 1 + 35) as u8;
        let prev = drum_alias_lines(lines, j - 1);
        match drum_slug_spec(k) {
            Some(name) => if alias_used(lines, name) {
                prev.push(LineView {
                    record: RecordView::AliasDef { value: AliasView { name, notes: seq![note_of_key(k)] } },
                    comment: None,
                })
            } else {
                prev
            },
            None => prev,
        }
    }
}

/// The file read from a standard MIDI file: a header, the drum alias
/// definitions it needs, and its lines in file order (see `sort_final`) with
/// directives extracted and note on/off pairs merged.
pub open spec fn smf_file_spec(format: u16, ppqn: Option<u16>, tracks: Seq<Seq<EventView>>) -> Option<Seq<LineView>> {
    match smf_lines(format, ppqn, tracks) {
        Some(ls) => Some(
            seq![LineView { record: RecordView::Header { version: Version { major: 1, minor: 0 } }, comment: None }]
                + drum_alias_lines(ls, 47) + merge_spec(extract_spec(sort_final(ls))),
        ),
        None => None,
    }
}

fn record_uses(r: &MtxtRecord, name: &str) -> (b: bool)
    ensures
        b == uses_alias(r@, name@),
{
    let t = match r {
        MtxtRecord::NoteOn { note, .. } => note,
        MtxtRecord::NoteOff { note, .. } => note,
        _ => return false,
    };
    match t {
        NoteTarget::AliasKey(k) => {
            let kv = crate::text::chars_of(k.as_str());
            crate::record_parser::is_word(&kv, name)
        },
        _ => false,
    }
}

fn any_uses(lines: &Vec<MtxtRecordLine>, name: &str) -> (b: bool)
    ensures
        b == alias_used(lines_view(lines@), name@),
{
    let ghost lv = lines_view(lines@);
    let mut i: usize = 0;
    while i < lines.len()
        invariant
            i <= lines.len(),
            lv == lines_view(lines@),
            forall|j: int| 0 <= j < i ==> !uses_alias(#[trigger] lv[j].record, name@),
        decreases lines.len() - i,
    {
        assert(lv[i as int] == lines@[i as int]@);
        if record_uses(&lines[i].record, name) {
            assert(uses_alias(lv[i as int].record, name@));
            return true;
        }
        i += 1;
    }
    false
}

/// Reads the events of a standard MIDI file into a file of lines (see `smf_file_spec`).
pub fn convert_smf_to_mtxt(format: u16, ppqn: Option<u16>, tracks: &Vec<Vec<MidiTrackEvent>>) -> (r: Result<MtxtFile, String>)
    requires
        tracks.len() < 0x1_0000_0000,
        forall|k: int| 0 <= k < tracks.len() ==> (#[trigger] tracks@[k]).len() < 0x1_0000_0000,
    ensures
        match r {
            Ok(f) => smf_file_spec(format, ppqn, tracks_view(tracks@)) == Some(lines_view(f.records@)),
            Err(_) => smf_file_spec(format, ppqn, tracks_view(tracks@)) is None,
        },
{
    let lines = match get_midi_single_track_events(format, ppqn, tracks) {
        Ok(l) => l,
        Err(e) => return Err(e),
    };
    let ghost ls = lines_view(lines@);
    let mut out: Vec<MtxtRecordLine> = Vec::new();
    out.push(MtxtRecordLine::new(MtxtRecord::Header { version: Version { major: 1, minor: 0 } }));
    let ghost head = lines_view(out@);
    assert(lines_view(out@) =~= head + drum_alias_lines(ls, 0));
    let mut j: u8 = 0;
    while j < 47
        invariant
            j <= 47,
            ls == lines_view(lines@),
            lines_view(out@) == head + drum_alias_lines(ls, j as int),
        decreases 47 - j,
    {
        let key: u8 = j + 35;
        match drum_slug(key) {
            Some(name) => {
                if any_uses(&lines, name) {
                    let ghost before = lines_view(out@);
                    let def = AliasDefinition {
                        name: name.to_string(),
                        notes: vec![crate::midi::note_of_key_exec(key)],
                    };
                    assert(def.notes@ =~= seq![note_of_key(key)]);
                    out.push(MtxtRecordLine::new(MtxtRecord::AliasDef { value: def }));
                    assert(lines_view(out@) =~= before.push(out@[out@.len() - 1]@));
                }
            },
            None => {},
        }
        j += 1;
    }
    let ordered = sort_final_exec(&lines);
    let body = crate::transforms::merge::transform(crate::transforms::extract::transform(ordered.as_slice()).as_slice());
    let ghost before = lines_view(out@);
    let ghost bv = lines_view(body@);
    let mut body = body;
    out.append(&mut body);
    assert(lines_view(out@) =~= before + bv);
    Ok(MtxtFile { records: out })
}

} // verus!
