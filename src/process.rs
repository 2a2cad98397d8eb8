use crate::beat_time::BeatTime;
use crate::decimal::FixedDecimal;
use crate::note::{parse_pitch_prefix, AliasDefinition, AliasView, Note, NoteTarget, PitchClass, TargetView};
use crate::output_record::{MtxtOutputRecord, OutputView};
use crate::record::{MtxtRecord, RecordView, VoiceList};
use crate::transforms::apply::opt_or;
use vstd::prelude::*;

verus! {

/// Running values while events are laid out: the directives' values, the alias
/// definitions met so far and the tuning of each pitch class.
pub struct ProcessState {
    pub duration: BeatTime,
    pub channel: u16,
    pub velocity: FixedDecimal,
    pub off_velocity: FixedDecimal,
    pub transition_curve: FixedDecimal,
    pub transition_interval: FixedDecimal,
    pub aliases: Vec<AliasDefinition>,
    pub tuning: Vec<(PitchClass, FixedDecimal)>,
}

pub ghost struct ProcView {
    pub duration: BeatTime,
    pub channel: u16,
    pub velocity: FixedDecimal,
    pub off_velocity: FixedDecimal,
    pub transition_curve: FixedDecimal,
    pub transition_interval: FixedDecimal,
    pub aliases: Seq<AliasView>,
    pub tuning: Seq<(PitchClass, FixedDecimal)>,
}

impl View for ProcessState {
    type V = ProcView;

    open spec fn view(&self) -> ProcView {
        ProcView {
            duration: self.duration,
            channel: self.channel,
            velocity: self.velocity,
            off_velocity: self.off_velocity,
            transition_curve: self.transition_curve,
            transition_interval: self.transition_interval,
            aliases: self.aliases@.map_values(|d: AliasDefinition| d@),
            tuning: self.tuning@,
        }
    }
}

/// Default running values: one beat, channel 0, velocity 64/127 (to five
/// places), off velocity 0, linear transitions every 0.01 beat.
pub open spec fn initial_state() -> ProcView {
    ProcView {
        duration: BeatTime { repr: 0x1_0000_0000 },
        channel: 0,
        velocity: FixedDecimal { units: 50394 },
        off_velocity: FixedDecimal { units: 0 },
        transition_curve: FixedDecimal { units: 0 },
        transition_interval: FixedDecimal { units: 1000 },
        aliases: Seq::empty(),
        tuning: Seq::empty(),
    }
}

/// A point event at an absolute beat time, with the transition that leads to it.
pub struct IntermediateRecord {
    pub start_beat_time: BeatTime,
    pub end_beat_time: BeatTime,
    pub record: MtxtOutputRecord,
    pub transition_curve: FixedDecimal,
    pub transition_time: BeatTime,
    pub transition_interval: FixedDecimal,
}

pub ghost struct IntermediateView {
    pub start: BeatTime,
    pub end: BeatTime,
    pub record: OutputView,
    pub curve: FixedDecimal,
    pub transition_time: BeatTime,
    pub interval: FixedDecimal,
}

impl View for IntermediateRecord {
    type V = IntermediateView;

    open spec fn view(&self) -> IntermediateView {
        IntermediateView {
            start: self.start_beat_time,
            end: self.end_beat_time,
            record: self.record@,
            curve: self.transition_curve,
            transition_time: self.transition_time,
            interval: self.transition_interval,
        }
    }
}

pub open spec fn ir_views(v: Seq<IntermediateRecord>) -> Seq<IntermediateView> {
    v.map_values(|r: IntermediateRecord| r@)
}

/// The last definition of the alias `name`.
pub open spec fn lookup_alias(aliases: Seq<AliasView>, name: Seq<char>) -> Option<AliasView>
    decreases aliases.len(),
{
    if aliases.len() == 0 {
        None
    } else if aliases.last().name == name {
        Some(aliases.last())
    } else {
        lookup_alias(aliases.drop_last(), name)
    }
}

/// The last tuning given to pitch class `p`.
pub open spec fn lookup_tuning(tuning: Seq<(PitchClass, FixedDecimal)>, p: PitchClass) -> Option<FixedDecimal>
    decreases tuning.len(),
{
    if tuning.len() == 0 {
        None
    } else if tuning.last().0 == p {
        Some(tuning.last().1)
    } else {
        lookup_tuning(tuning.drop_last(), p)
    }
}

/// The notes a target stands for: the note itself, or the notes of its alias
/// (none for an unknown alias name).
pub open spec fn resolve(t: TargetView, aliases: Seq<AliasView>) -> Seq<Note> {
    match t {
        TargetView::Note(n) => seq![n],
        TargetView::AliasKey(k) => match lookup_alias(aliases, k) {
            Some(d) => d.notes,
            None => Seq::empty(),
        },
        TargetView::Alias(d) => d.notes,
    }
}

pub open spec fn sat_add_units(a: i64, b: i64) -> i64 {
    if a + b > i64::MAX {
        i64::MAX
    } else if a + b < i64::MIN {
        i64::MIN
    } else {
        (a + b) as i64
    }
}

/// The note with the tuning of its pitch class added to its cents.
pub open spec fn tuned(n: Note, tuning: Seq<(PitchClass, FixedDecimal)>) -> Note {
    match lookup_tuning(tuning, n.pitch_class) {
        Some(c) => Note { cents: FixedDecimal { units: sat_add_units(n.cents.units, c.units) }, ..n },
        None => n,
    }
}

/// The pitch class that a tuning target names, if it is exactly one.
pub open spec fn tuning_class(target: Seq<char>) -> Option<PitchClass> {
    match parse_pitch_prefix(target) {
        Some((p, len)) => if len == target.len() {
            Some(p)
        } else {
            None
        },
        None => None,
    }
}

pub open spec fn proc_step(st: ProcView, r: RecordView) -> ProcView {
    match r {
        RecordView::DurationDirective { duration } => ProcView { duration, ..st },
        RecordView::ChannelDirective { channel } => ProcView { channel, ..st },
        RecordView::VelocityDirective { velocity } => ProcView { velocity, ..st },
        RecordView::OffVelocityDirective { off_velocity } => ProcView { off_velocity, ..st },
        RecordView::TransitionCurveDirective { curve } => ProcView { transition_curve: curve, ..st },
        RecordView::TransitionIntervalDirective { interval } => ProcView {
            transition_interval: interval,
            ..st
        },
        RecordView::AliasDef { value } => ProcView { aliases: st.aliases.push(value), ..st },
        RecordView::Tuning { target, cents, .. } => match tuning_class(target) {
            Some(p) => ProcView { tuning: st.tuning.push((p, cents)), ..st },
            None => st,
        },
        _ => st,
    }
}

pub open spec fn point(t: BeatTime, rec: OutputView) -> IntermediateView {
    IntermediateView {
        start: t,
        end: t,
        record: rec,
        curve: FixedDecimal { units: 0 },
        transition_time: BeatTime { repr: 0 },
        interval: FixedDecimal { units: 0 },
    }
}

pub open spec fn sat_add_beats(a: BeatTime, b: BeatTime) -> BeatTime {
    BeatTime { repr: if a.repr + b.repr <= u64::MAX { (a.repr + b.repr) as u64 } else { u64::MAX } }
}

pub open spec fn sat_sub_beats(a: BeatTime, b: BeatTime) -> BeatTime {
    BeatTime { repr: if a.repr >= b.repr { (a.repr - b.repr) as u64 } else { 0 } }
}

/// Note-on at `t` and note-off at `t + dur` for each note, in order.
pub open spec fn note_pairs(notes: Seq<Note>, t: BeatTime, dur: BeatTime, vel: FixedDecimal, off: FixedDecimal, ch: u16) -> Seq<IntermediateView>
    decreases notes.len(),
{
    if notes.len() == 0 {
        Seq::empty()
    } else {
        let n = notes.last();
        note_pairs(notes.drop_last(), t, dur, vel, off, ch) + seq![
            point(t, OutputView::NoteOn { time: 0, note: n, velocity: vel, channel: ch }),
            point(sat_add_beats(t, dur), OutputView::NoteOff { time: 0, note: n, off_velocity: off, channel: ch }),
        ]
    }
}

pub open spec fn tuned_notes(notes: Seq<Note>, tuning: Seq<(PitchClass, FixedDecimal)>) -> Seq<Note> {
    notes.map_values(|n: Note| tuned(n, tuning))
}

/// A transition event: it starts `ttime` before `t` and ends at `t`.
pub open spec fn ramp(t: BeatTime, rec: OutputView, curve: FixedDecimal, ttime: BeatTime, interval: FixedDecimal) -> IntermediateView {
    IntermediateView { start: sat_sub_beats(t, ttime), end: t, record: rec, curve, transition_time: ttime, interval }
}

pub open spec fn unwrap_beat(t: Option<BeatTime>) -> BeatTime {
    match t {
        Some(t) => t,
        None => BeatTime { repr: 0 },
    }
}

pub open spec fn unwrap_amount(d: Option<FixedDecimal>, default: FixedDecimal) -> FixedDecimal {
    match d {
        Some(d) => d,
        None => default,
    }
}

pub open spec fn unwrap_channel(c: Option<u16>, default: u16) -> u16 {
    match c {
        Some(c) => c,
        None => default,
    }
}

/// The point events of one record under the running values `st`.
pub open spec fn events_of(r: RecordView, st: ProcView) -> Seq<IntermediateView> {
    match r {
        RecordView::Note { time, note, duration, velocity, off_velocity, channel } => note_pairs(
            tuned_notes(resolve(note, st.aliases), st.tuning),
            time,
            unwrap_beat(opt_or(duration, Some(st.duration))),
            unwrap_amount(velocity, st.velocity),
            unwrap_amount(off_velocity, st.off_velocity),
            unwrap_channel(channel, st.channel),
        ),
        RecordView::NoteOn { time, note, velocity, channel } => tuned_notes(resolve(note, st.aliases), st.tuning).map_values(
            |n: Note| point(time, OutputView::NoteOn {
                time: 0,
                note: n,
                velocity: unwrap_amount(velocity, st.velocity),
                channel: unwrap_channel(channel, st.channel),
            }),
        ),
        RecordView::NoteOff { time, note, off_velocity, channel } => tuned_notes(resolve(note, st.aliases), st.tuning).map_values(
            |n: Note| point(time, OutputView::NoteOff {
                time: 0,
                note: n,
                off_velocity: unwrap_amount(off_velocity, st.off_velocity),
                channel: unwrap_channel(channel, st.channel),
            }),
        ),
        RecordView::ControlChange { time, note, controller, value, channel, transition_curve, transition_time, transition_interval } => {
            let curve = unwrap_amount(transition_curve, st.transition_curve);
            let ttime = unwrap_beat(transition_time);
            let interval = unwrap_amount(transition_interval, st.transition_interval);
            let ch = unwrap_channel(channel, st.channel);
            match note {
                Some(t) => resolve(t, st.aliases).map_values(
                    |n: Note| ramp(time, OutputView::ControlChange { time: 0, note: Some(n), controller, value, channel: ch }, curve, ttime, interval),
                ),
                None => seq![ramp(time, OutputView::ControlChange { time: 0, note: None, controller, value, channel: ch }, curve, ttime, interval)],
            }
        },
        RecordView::Voice { time, voices, channel } => seq![point(time, OutputView::Voice { time: 0, voices, channel: unwrap_channel(channel, st.channel) })],
        RecordView::Tempo { time, bpm, transition_curve, transition_time, transition_interval } => seq![
            ramp(
                time,
                OutputView::Tempo { time: 0, bpm },
                unwrap_amount(transition_curve, st.transition_curve),
                unwrap_beat(transition_time),
                unwrap_amount(transition_interval, st.transition_interval),
            ),
        ],
        RecordView::TimeSignature { time, signature } => seq![point(time, OutputView::TimeSignature { time: 0, signature })],
        RecordView::Reset { time, target } => seq![point(time, OutputView::Reset { time: 0, target })],
        RecordView::Meta { time, channel, meta_type, value } => seq![
            point(unwrap_beat(time), OutputView::ChannelMeta { time: 0, channel: unwrap_channel(channel, st.channel), meta_type, value }),
        ],
        RecordView::GlobalMeta { meta_type, value } => seq![point(BeatTime { repr: 0 }, OutputView::GlobalMeta { time: 0, meta_type, value })],
        RecordView::SysEx { time, data } => seq![point(time, OutputView::SysEx { time: 0, data })],
        _ => Seq::empty(),
    }
}

pub open spec fn events_from(s: Seq<RecordView>, st: ProcView) -> Seq<IntermediateView>
    decreases s.len(),
{
    if s.len() == 0 {
        Seq::empty()
    } else {
        events_of(s[0], st) + events_from(s.drop_first(), proc_step(st, s[0]))
    }
}

/// `e` placed into `buf` after every event that does not end later.
pub open spec fn insert_by_end(buf: Seq<IntermediateView>, e: IntermediateView) -> Seq<IntermediateView>
    decreases buf.len(),
{
    if buf.len() == 0 {
        seq![e]
    } else if buf.last().end.repr <= e.end.repr {
        buf.push(e)
    } else {
        insert_by_end(buf.drop_last(), e).push(buf.last())
    }
}

/// Stable sort by end time.
pub open spec fn sort_by_end(s: Seq<IntermediateView>) -> Seq<IntermediateView>
    decreases s.len(),
{
    if s.len() == 0 {
        s
    } else {
        insert_by_end(sort_by_end(s.drop_last()), s.last())
    }
}

/// The point events of a record list, stably sorted by end time.
pub open spec fn intermediates_spec(s: Seq<RecordView>) -> Seq<IntermediateView> {
    sort_by_end(events_from(s, initial_state()))
}

pub open spec fn records_view(v: Seq<MtxtRecord>) -> Seq<RecordView> {
    v.map_values(|r: MtxtRecord| r@)
}

fn lookup_alias_exec(aliases: &Vec<AliasDefinition>, name: &String) -> (r: Option<usize>)
    ensures
        match r {
            Some(i) => i < aliases.len() && lookup_alias(aliases@.map_values(|d: AliasDefinition| d@), name@) == Some(aliases@[i as int]@),
            None => lookup_alias(aliases@.map_values(|d: AliasDefinition| d@), name@) is None,
        },
{
    let ghost av = aliases@.map_values(|d: AliasDefinition| d@);
    let mut j = aliases.len();
    assert(av.take(j as int) == av);
    while j > 0
        invariant
            j <= aliases.len(),
            av == aliases@.map_values(|d: AliasDefinition| d@),
            lookup_alias(av.take(j as int), name@) == lookup_alias(av, name@),
        decreases j,
    {
        assert(av.take(j as int).drop_last() == av.take(j - 1));
        assert(av.take(j as int).last() == aliases@[j - 1]@);
        if aliases[j - 1].name == *name {
            return Some(j - 1);
        }
        j -= 1;
    }
    None
}

/// The notes a target stands for (see `resolve`).
pub fn resolve_note_target(target: &NoteTarget, aliases: &Vec<AliasDefinition>) -> (r: Vec<Note>)
    ensures
        r@ == resolve(target@, aliases@.map_values(|d: AliasDefinition| d@)),
{
    match target {
        NoteTarget::Note(n) => {
            let v = vec![*n];
            assert(v@ =~= seq![*n]);
            v
        },
        NoteTarget::AliasKey(name) => match lookup_alias_exec(aliases, name) {
            Some(i) => crate::note::copy_notes(&aliases[i].notes),
            None => Vec::new(),
        },
        NoteTarget::Alias(d) => crate::note::copy_notes(&d.notes),
    }
}

fn lookup_tuning_exec(tuning: &Vec<(PitchClass, FixedDecimal)>, p: PitchClass) -> (r: Option<FixedDecimal>)
    ensures
        r == lookup_tuning(tuning@, p),
{
    let mut j = tuning.len();
    assert(tuning@.take(j as int) == tuning@);
    while j > 0
        invariant
            j <= tuning.len(),
            lookup_tuning(tuning@.take(j as int), p) == lookup_tuning(tuning@, p),
        decreases j,
    {
        assert(tuning@.take(j as int).drop_last() == tuning@.take(j - 1));
        if tuning[j - 1].0 == p {
            return Some(tuning[j - 1].1);
        }
        j -= 1;
    }
    None
}

fn sat_add_i64(a: i64, b: i64) -> (r: i64)
    ensures
        r == sat_add_units(a, b),
{
    let s = a as i128 + b as i128;
    if s > i64::MAX as i128 {
        i64::MAX
    } else if s < i64::MIN as i128 {
        i64::MIN
    } else {
        s as i64
    }
}

fn tune(notes: Vec<Note>, tuning: &Vec<(PitchClass, FixedDecimal)>) -> (r: Vec<Note>)
    ensures
        r@ == tuned_notes(notes@, tuning@),
{
    let mut out: Vec<Note> = Vec::new();
    let mut i: usize = 0;
    while i < notes.len()
        invariant
            i <= notes.len(),
            out@.len() == i,
            forall|k: int| 0 <= k < i ==> out@[k] == tuned(#[trigger] notes@[k], tuning@),
        decreases notes.len() - i,
    {
        let n = notes[i];
        let t = match lookup_tuning_exec(tuning, n.pitch_class) {
            Some(c) => Note { cents: FixedDecimal { units: sat_add_i64(n.cents.units, c.units) }, ..n },
            None => n,
        };
        out.push(t);
        i += 1;
    }
    assert(out@ =~= tuned_notes(notes@, tuning@));
    out
}

fn point_ir(t: BeatTime, rec: MtxtOutputRecord) -> (r: IntermediateRecord)
    ensures
        r@ == point(t, rec@),
{
    IntermediateRecord {
        start_beat_time: t,
        end_beat_time: t,
        record: rec,
        transition_curve: FixedDecimal { units: 0 },
        transition_time: BeatTime { repr: 0 },
        transition_interval: FixedDecimal { units: 0 },
    }
}

fn ramp_ir(t: BeatTime, rec: MtxtOutputRecord, curve: FixedDecimal, ttime: BeatTime, interval: FixedDecimal) -> (r: IntermediateRecord)
    ensures
        r@ == ramp(t, rec@, curve, ttime, interval),
{
    IntermediateRecord {
        start_beat_time: t.sub(ttime),
        end_beat_time: t,
        record: rec,
        transition_curve: curve,
        transition_time: ttime,
        transition_interval: interval,
    }
}

fn push_ir(out: &mut Vec<IntermediateRecord>, r: IntermediateRecord)
    ensures
        ir_views(final(out)@) == ir_views(old(out)@).push(r@),
{
    let ghost before = out@;
    out.push(r);
    assert(ir_views(out@) =~= ir_views(before).push(r@));
}

fn note_events(out: &mut Vec<IntermediateRecord>, notes: &Vec<Note>, t: BeatTime, dur: BeatTime, vel: FixedDecimal, off: FixedDecimal, ch: u16)
    ensures
        ir_views(final(out)@) == ir_views(old(out)@) + note_pairs(notes@, t, dur, vel, off, ch),
{
    let ghost start = ir_views(out@);
    let mut i: usize = 0;
    while i < notes.len()
        invariant
            i <= notes.len(),
            ir_views(out@) == start + note_pairs(notes@.take(i as int), t, dur, vel, off, ch),
        decreases notes.len() - i,
    {
        let n = notes[i];
        push_ir(out, point_ir(t, MtxtOutputRecord::NoteOn { time: 0, note: n, velocity: vel, channel: ch }));
        push_ir(out, point_ir(t.add(dur), MtxtOutputRecord::NoteOff { time: 0, note: n, off_velocity: off, channel: ch }));
        proof {
            let tk = notes@.take(i + 1);
            assert(tk.drop_last() == notes@.take(i as int));
            assert(tk.last() == n);
        }
        assert(ir_views(out@) =~= start + note_pairs(notes@.take(i + 1), t, dur, vel, off, ch));
        i += 1;
    }
    assert(notes@.take(notes.len() as int) == notes@);
}

fn on_events(out: &mut Vec<IntermediateRecord>, notes: &Vec<Note>, t: BeatTime, vel: FixedDecimal, ch: u16)
    ensures
        ir_views(final(out)@) == ir_views(old(out)@) + notes@.map_values(
            |n: Note| point(t, OutputView::NoteOn { time: 0, note: n, velocity: vel, channel: ch }),
        ),
{
    let ghost start = ir_views(out@);
    let mut i: usize = 0;
    while i < notes.len()
        invariant
            i <= notes.len(),
            ir_views(out@) == start + notes@.take(i as int).map_values(
                |n: Note| point(t, OutputView::NoteOn { time: 0, note: n, velocity: vel, channel: ch }),
            ),
        decreases notes.len() - i,
    {
        push_ir(out, point_ir(t, MtxtOutputRecord::NoteOn { time: 0, note: notes[i], velocity: vel, channel: ch }));
        assert(ir_views(out@) =~= start + notes@.take(i + 1).map_values(
            |n: Note| point(t, OutputView::NoteOn { time: 0, note: n, velocity: vel, channel: ch }),
        ));
        i += 1;
    }
    assert(notes@.take(notes.len() as int) == notes@);
}

fn off_events(out: &mut Vec<IntermediateRecord>, notes: &Vec<Note>, t: BeatTime, off: FixedDecimal, ch: u16)
    ensures
        ir_views(final(out)@) == ir_views(old(out)@) + notes@.map_values(
            |n: Note| point(t, OutputView::NoteOff { time: 0, note: n, off_velocity: off, channel: ch }),
        ),
{
    let ghost start = ir_views(out@);
    let mut i: usize = 0;
    while i < notes.len()
        invariant
            i <= notes.len(),
            ir_views(out@) == start + notes@.take(i as int).map_values(
                |n: Note| point(t, OutputView::NoteOff { time: 0, note: n, off_velocity: off, channel: ch }),
            ),
        decreases notes.len() - i,
    {
        push_ir(out, point_ir(t, MtxtOutputRecord::NoteOff { time: 0, note: notes[i], off_velocity: off, channel: ch }));
        assert(ir_views(out@) =~= start + notes@.take(i + 1).map_values(
            |n: Note| point(t, OutputView::NoteOff { time: 0, note: n, off_velocity: off, channel: ch }),
        ));
        i += 1;
    }
    assert(notes@.take(notes.len() as int) == notes@);
}

fn cc_events(out: &mut Vec<IntermediateRecord>, notes: &Vec<Note>, t: BeatTime, controller: &String, value: FixedDecimal, ch: u16, curve: FixedDecimal, ttime: BeatTime, interval: FixedDecimal)
    ensures
        ir_views(final(out)@) == ir_views(old(out)@) + notes@.map_values(
            |n: Note| ramp(t, OutputView::ControlChange { time: 0, note: Some(n), controller: controller@, value, channel: ch }, curve, ttime, interval),
        ),
{
    let ghost start = ir_views(out@);
    let mut i: usize = 0;
    while i < notes.len()
        invariant
            i <= notes.len(),
            ir_views(out@) == start + notes@.take(i as int).map_values(
                |n: Note| ramp(t, OutputView::ControlChange { time: 0, note: Some(n), controller: controller@, value, channel: ch }, curve, ttime, interval),
            ),
        decreases notes.len() - i,
    {
        push_ir(out, ramp_ir(t, MtxtOutputRecord::ControlChange { time: 0, note: Some(notes[i]), controller: controller.clone(), value, channel: ch }, curve, ttime, interval));
        assert(ir_views(out@) =~= start + notes@.take(i + 1).map_values(
            |n: Note| ramp(t, OutputView::ControlChange { time: 0, note: Some(n), controller: controller@, value, channel: ch }, curve, ttime, interval),
        ));
        i += 1;
    }
    assert(notes@.take(notes.len() as int) == notes@);
}

fn or_amount(d: Option<FixedDecimal>, default: FixedDecimal) -> (r: FixedDecimal)
    ensures
        r == unwrap_amount(d, default),
{
    match d {
        Some(d) => d,
        None => default,
    }
}

fn or_channel(c: Option<u16>, default: u16) -> (r: u16)
    ensures
        r == unwrap_channel(c, default),
{
    match c {
        Some(c) => c,
        None => default,
    }
}

fn or_beat(t: Option<BeatTime>) -> (r: BeatTime)
    ensures
        r == unwrap_beat(t),
{
    match t {
        Some(t) => t,
        None => BeatTime { repr: 0 },
    }
}

fn note_family_events(out: &mut Vec<IntermediateRecord>, r: &MtxtRecord, st: &ProcessState)
    requires
        r@ is Note || r@ is NoteOn || r@ is NoteOff,
    ensures
        ir_views(final(out)@) == ir_views(old(out)@) + events_of(r@, st@),
{
    match r {
        MtxtRecord::Note { time, note, duration, velocity, off_velocity, channel } => {
            let notes = tune(resolve_note_target(note, &st.aliases), &st.tuning);
            let dur = match duration {
                Some(d) => *d,
                None => st.duration,
            };
            note_events(out, &notes, *time, dur, or_amount(*velocity, st.velocity), or_amount(*off_velocity, st.off_velocity), or_channel(*channel, st.channel));
        },
        MtxtRecord::NoteOn { time, note, velocity, channel } => {
            let notes = tune(resolve_note_target(note, &st.aliases), &st.tuning);
            on_events(out, &notes, *time, or_amount(*velocity, st.velocity), or_channel(*channel, st.channel));
        },
        MtxtRecord::NoteOff { time, note, off_velocity, channel } => {
            let notes = tune(resolve_note_target(note, &st.aliases), &st.tuning);
            off_events(out, &notes, *time, or_amount(*off_velocity, st.off_velocity), or_channel(*channel, st.channel));
        },
        _ => {},
    }
}

fn other_events(out: &mut Vec<IntermediateRecord>, r: &MtxtRecord, st: &ProcessState)
    requires
        !(r@ is Note || r@ is NoteOn || r@ is NoteOff),
    ensures
        ir_views(final(out)@) == ir_views(old(out)@) + events_of(r@, st@),
{
    let ghost start = ir_views(out@);
    match r {
        MtxtRecord::ControlChange { time, note, controller, value, channel, transition_curve, transition_time, transition_interval } => {
            let curve = or_amount(*transition_curve, st.transition_curve);
            let ttime = or_beat(*transition_time);
            let interval = or_amount(*transition_interval, st.transition_interval);
            let ch = or_channel(*channel, st.channel);
            match note {
                Some(t) => {
                    let notes = resolve_note_target(t, &st.aliases);
                    cc_events(out, &notes, *time, controller, *value, ch, curve, ttime, interval);
                },
                None => {
                    push_ir(out, ramp_ir(*time, MtxtOutputRecord::ControlChange { time: 0, note: None, controller: controller.clone(), value: *value, channel: ch }, curve, ttime, interval));
                    assert(ir_views(out@) =~= start + events_of(r@, st@));
                },
            }
        },
        MtxtRecord::Voice { time, voices, channel } => {
            push_ir(out, point_ir(*time, MtxtOutputRecord::Voice { time: 0, voices: voices.copy(), channel: or_channel(*channel, st.channel) }));
            assert(ir_views(out@) =~= start + events_of(r@, st@));
        },
        MtxtRecord::Tempo { time, bpm, transition_curve, transition_time, transition_interval } => {
            push_ir(out, ramp_ir(*time, MtxtOutputRecord::Tempo { time: 0, bpm: *bpm }, or_amount(*transition_curve, st.transition_curve), or_beat(*transition_time), or_amount(*transition_interval, st.transition_interval)));
            assert(ir_views(out@) =~= start + events_of(r@, st@));
        },
        MtxtRecord::TimeSignature { time, signature } => {
            push_ir(out, point_ir(*time, MtxtOutputRecord::TimeSignature { time: 0, signature: *signature }));
            assert(ir_views(out@) =~= start + events_of(r@, st@));
        },
        MtxtRecord::Reset { time, target } => {
            push_ir(out, point_ir(*time, MtxtOutputRecord::Reset { time: 0, target: target.clone() }));
            assert(ir_views(out@) =~= start + events_of(r@, st@));
        },
        MtxtRecord::Meta { time, channel, meta_type, value } => {
            push_ir(out, point_ir(or_beat(*time), MtxtOutputRecord::ChannelMeta { time: 0, channel: or_channel(*channel, st.channel), meta_type: meta_type.clone(), value: value.clone() }));
            assert(ir_views(out@) =~= start + events_of(r@, st@));
        },
        MtxtRecord::GlobalMeta { meta_type, value } => {
            push_ir(out, point_ir(BeatTime { repr: 0 }, MtxtOutputRecord::GlobalMeta { time: 0, meta_type: meta_type.clone(), value: value.clone() }));
            assert(ir_views(out@) =~= start + events_of(r@, st@));
        },
        MtxtRecord::SysEx { time, data } => {
            push_ir(out, point_ir(*time, MtxtOutputRecord::SysEx { time: 0, data: crate::record::copy_bytes(data) }));
            assert(ir_views(out@) =~= start + events_of(r@, st@));
        },
        _ => {
            assert(ir_views(out@) =~= start + events_of(r@, st@));
        },
    }
}

fn tuning_class_exec(target: &String) -> (r: Option<PitchClass>)
    ensures
        r == tuning_class(target@),
{
    let v = crate::text::chars_of(target.as_str());
    match crate::note::parse_pitch_prefix_exec(&v) {
        Some((p, len)) => if len == v.len() {
            Some(p)
        } else {
            None
        },
        None => None,
    }
}

fn step(st: &mut ProcessState, r: &MtxtRecord)
    ensures
        final(st)@ == proc_step(old(st)@, r@),
{
    match r {
        MtxtRecord::DurationDirective { duration } => st.duration = *duration,
        MtxtRecord::ChannelDirective { channel } => st.channel = *channel,
        MtxtRecord::VelocityDirective { velocity } => st.velocity = *velocity,
        MtxtRecord::OffVelocityDirective { off_velocity } => st.off_velocity = *off_velocity,
        MtxtRecord::TransitionCurveDirective { curve } => st.transition_curve = *curve,
        MtxtRecord::TransitionIntervalDirective { interval } => st.transition_interval = *interval,
        MtxtRecord::AliasDef { value } => {
            let ghost before = st.aliases@;
            st.aliases.push(value.copy());
            assert(st.aliases@.map_values(|d: AliasDefinition| d@) =~= before.map_values(|d: AliasDefinition| d@).push(value@));
        },
        MtxtRecord::Tuning { target, cents, .. } => {
            if let Some(p) = tuning_class_exec(target) {
                st.tuning.push((p, *cents));
            }
        },
        _ => {},
    }
}

pub fn insert_by_end_exec(buf: &mut Vec<IntermediateRecord>, e: IntermediateRecord)
    ensures
        ir_views(final(buf)@) == insert_by_end(ir_views(old(buf)@), e@),
{
    let ghost b0 = ir_views(buf@);
    let k = e.end_beat_time.repr;
    let mut p = buf.len();
    while p > 0 && buf[p - 1].end_beat_time.repr > k
        invariant
            p <= buf.len(),
            b0 == ir_views(buf@),
            forall|j: int| p <= j < buf.len() ==> (#[trigger] buf@[j]).end_beat_time.repr > k,
        decreases p,
    {
        p -= 1;
    }
    proof {
        lemma_insert_end_at(b0, e@, p as int);
    }
    buf.insert(p, e);
    assert(ir_views(buf@) =~= b0.take(p as int) + seq![e@] + b0.skip(p as int));
}

proof fn lemma_insert_end_at(buf: Seq<IntermediateView>, e: IntermediateView, p: int)
    requires
        0 <= p <= buf.len(),
        forall|j: int| p <= j < buf.len() ==> (#[trigger] buf[j]).end.repr > e.end.repr,
        p > 0 ==> buf[p - 1].end.repr <= e.end.repr,
    ensures
        insert_by_end(buf, e) == buf.take(p) + seq![e] + buf.skip(p),
    decreases buf.len(),
{
    if buf.len() == 0 {
        assert(buf.take(p) + seq![e] + buf.skip(p) =~= seq![e]);
    } else if p == buf.len() {
        assert(buf.take(p) + seq![e] + buf.skip(p) =~= buf.push(e));
    } else {
        let b = buf.drop_last();
        assert forall|j: int| p <= j < b.len() implies (#[trigger] b[j]).end.repr > e.end.repr by {
            assert(b[j] == buf[j]);
        }
        lemma_insert_end_at(b, e, p);
        assert(buf.take(p) + seq![e] + buf.skip(p) =~= (b.take(p) + seq![e] + b.skip(p)).push(buf.last()));
    }
}

/// Lays out the point events of a record list: directives set running values,
/// alias definitions and tunings are recorded, each event becomes one point
/// event per note it stands for (a note becomes a note-on and a note-off), and
/// the result is stably sorted by end time (see `intermediates_spec`).
pub fn create_intermediate_records(records: &[MtxtRecord]) -> (r: Vec<IntermediateRecord>)
    ensures
        ir_views(r@) == intermediates_spec(records_view(records@)),
{
    let ghost sv = records_view(records@);
    let mut st = ProcessState {
        duration: BeatTime { repr: 0x1_0000_0000 },
        channel: 0,
        velocity: FixedDecimal { units: 50394 },
        off_velocity: FixedDecimal { units: 0 },
        transition_curve: FixedDecimal { units: 0 },
        transition_interval: FixedDecimal { units: 1000 },
        aliases: Vec::new(),
        tuning: Vec::new(),
    };
    assert(st@.aliases =~= Seq::<AliasView>::empty());
    assert(st@ == initial_state());
    let mut events: Vec<IntermediateRecord> = Vec::new();
    let mut i: usize = 0;
    assert(sv.skip(0) == sv);
    assert(ir_views(events@) =~= Seq::<IntermediateView>::empty());
    while i < records.len()
        invariant
            i <= records.len(),
            sv == records_view(records@),
            ir_views(events@) + events_from(sv.skip(i as int), st@) == events_from(sv, initial_state()),
        decreases records.len() - i,
    {
        let ghost before = ir_views(events@);
        let ghost old_st = st@;
        assert(sv.skip(i as int).drop_first() =~= sv.skip(i + 1));
        assert(sv.skip(i as int)[0] == records@[i as int]@);
        let r = &records[i];
        if matches!(r, MtxtRecord::Note { .. } | MtxtRecord::NoteOn { .. } | MtxtRecord::NoteOff { .. }) {
            note_family_events(&mut events, r, &st);
        } else {
            other_events(&mut events, r, &st);
        }
        step(&mut st, r);
        assert(ir_views(events@) + events_from(sv.skip(i + 1), st@) =~= before + events_from(sv.skip(i as int), old_st));
        i += 1;
    }
    assert(ir_views(events@) =~= events_from(sv, initial_state()));
    let ghost all = ir_views(events@);
    let mut sorted: Vec<IntermediateRecord> = Vec::new();
    let mut rest = events;
    let mut k: usize = 0;
    let total = rest.len();
    assert(all.skip(0) == all);
    assert(ir_views(sorted@) =~= sort_by_end(all.take(0)));
    while rest.len() > 0
        invariant
            ir_views(rest@) == all.skip(k as int),
            k + rest.len() == all.len(),
            all.len() == total,
            ir_views(sorted@) == sort_by_end(all.take(k as int)),
        decreases rest.len(),
    {
        let ghost rv = rest@;
        let e = rest.remove(0);
        assert(e == rv[0]);
        assert(ir_views(rv)[0] == e@);
        assert(all.skip(k as int)[0] == all[k as int]);
        assert(e@ == all[k as int]);
        assert(rest@ == rv.remove(0));
        assert forall|j: int| 0 <= j < rest@.len() implies (#[trigger] rest@[j])@ == all.skip(k + 1)[j] by {
            assert(rest@[j] == rv[j + 1]);
            assert(ir_views(rv)[j + 1] == rv[j + 1]@);
        }
        assert(ir_views(rest@) =~= all.skip(k + 1));
        assert(all.take(k + 1).drop_last() == all.take(k as int));
        assert(all.take(k + 1).last() == e@);
        insert_by_end_exec(&mut sorted, e);
        k += 1;
    }
    assert(all.take(all.len() as int) == all);
    sorted
}

/// The events a record list plays at absolute microseconds: laid out as point
/// events, transitions turned into points, then placed in time under the
/// running tempo.
pub open spec fn outputs_spec(s: Seq<RecordView>) -> Seq<crate::output_record::OutputView> {
    crate::smf_export::placed_from(
        crate::transitions::densify_spec(intermediates_spec(s)),
        0,
        crate::smf_export::start_clock(),
    )
}

/// The events a record list plays, in microseconds (see `outputs_spec`).
pub fn process_records(records: &[MtxtRecord]) -> (r: Vec<MtxtOutputRecord>)
    ensures
        crate::smf_export::outputs_view(r@) == outputs_spec(records_view(records@)),
{
    let irs = create_intermediate_records(records);
    let dense = crate::transitions::densify(&irs);
    crate::smf_export::place_in_time(&dense)
}

} // verus!
