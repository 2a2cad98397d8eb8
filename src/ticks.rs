use crate::decimal::FixedDecimal;
use vstd::prelude::*;

verus! {

/// Pulses per quarter note of the files written.
pub const PPQN: u64 = 480;

/// The largest delta time a track event can carry (28 bits).
pub const MAX_DELTA: u64 = 0x0FFF_FFFF;

/// Largest tempo accepted, in units of 1/100000 beat per minute.
pub const MAX_BPM_UNITS: i64 = 0x4_0000_0000_0000;

/// An event to schedule: its time in microseconds, whether it becomes a track
/// event, and the tempo it sets, if it is a tempo change.
#[derive(Clone, Copy, Debug, PartialEq, Eq, Structural)]
pub struct TimedEvent {
    pub micros: u64,
    pub emits: bool,
    pub tempo: Option<FixedDecimal>,
}

/// A scheduled track event: its delta time in ticks and the index of the event
/// it carries, or `None` for a filler that only spends a maximal delta.
#[derive(Clone, Copy, Debug, PartialEq, Eq, Structural)]
pub struct TickEvent {
    pub delta: u64,
    pub source: Option<usize>,
}

pub open spec fn tempo_ok(e: TimedEvent) -> bool {
    match e.tempo {
        Some(b) => 0 < b.units <= MAX_BPM_UNITS,
        None => true,
    }
}

/// Ticks of `micros` microseconds at `bpm_units` / 100000 beats per minute, at
/// 480 ticks per beat, rounded half up.
pub open spec fn ticks_of(micros: int, bpm_units: int) -> int {
    let num = micros * 480 * bpm_units;
    let den = 6_000_000_000_000int;
    (2 * num + den) / (2 * den)
}

pub ghost struct TickState {
    pub out: Seq<TickEvent>,
    pub last: u64,
    pub bpm_units: int,
    pub pending: int,
}

/// `k` fillers of the largest delta.
pub open spec fn fillers(k: nat) -> Seq<TickEvent>
    decreases k,
{
    if k == 0 {
        Seq::empty()
    } else {
        fillers((k - 1) as nat).push(TickEvent { delta: MAX_DELTA, source: None })
    }
}

/// Number of fillers needed before `ticks` fit in one delta.
pub open spec fn filler_count(ticks: int) -> nat {
    if ticks <= MAX_DELTA {
        0
    } else {
        ((ticks - 1) / MAX_DELTA as int) as nat
    }
}

/// One event scheduled: the ticks since the last event at the tempo in force
/// (plus ticks left over from events that emit nothing), fillers while they do
/// not fit in one delta, then the event itself; a tempo change takes effect
/// after its own delta.
pub open spec fn tick_step(st: TickState, e: TimedEvent, index: int) -> TickState {
    let delta_micros = if e.micros >= st.last { e.micros - st.last } else { 0 };
    let ticks = st.pending + ticks_of(delta_micros, st.bpm_units);
    let k = filler_count(ticks);
    let rest = ticks - k * MAX_DELTA;
    let bpm = match e.tempo {
        Some(b) => b.units as int,
        None => st.bpm_units,
    };
    if e.emits {
        TickState {
            out: st.out + fillers(k) + seq![TickEvent { delta: rest as u64, source: Some(index as usize) }],
            last: e.micros,
            bpm_units: bpm,
            pending: 0,
        }
    } else {
        TickState { out: st.out + fillers(k), last: e.micros, bpm_units: bpm, pending: rest }
    }
}

pub open spec fn ticks_prefix(events: Seq<TimedEvent>, n: int) -> TickState
    decreases n,
{
    if n <= 0 || n > events.len() {
        TickState { out: Seq::empty(), last: 0, bpm_units: 12_000_000, pending: 0 }
    } else {
        tick_step(ticks_prefix(events, n - 1), events[n - 1], n - 1)
    }
}

/// The track events of a list of events at 480 ticks per beat, starting at 120
/// beats per minute (see `tick_step`).
pub open spec fn schedule_spec(events: Seq<TimedEvent>) -> Seq<TickEvent> {
    ticks_prefix(events, events.len() as int).out
}

proof fn lemma_fillers_push(k: nat)
    ensures
        fillers(k + 1) == fillers(k).push(TickEvent { delta: MAX_DELTA, source: None }),
{
}

/// Schedules events as track events with delta times in ticks (see `schedule_spec`).
pub fn schedule_ticks(events: &Vec<TimedEvent>) -> (r: Vec<TickEvent>)
    requires
        forall|i: int| 0 <= i < events.len() ==> tempo_ok(#[trigger] events@[i]),
        events.len() < 0x1_0000_0000,
    ensures
        r@ == schedule_spec(events@),
{
    let mut out: Vec<TickEvent> = Vec::new();
    let mut last: u64 = 0;
    let mut bpm: u128 = 12_000_000;
    let mut pending: u128 = 0;
    let mut i: usize = 0;
    assert(out@ =~= Seq::<TickEvent>::empty());
    while i < events.len()
        invariant
            i <= events.len() < 0x1_0000_0000,
            forall|j: int| 0 <= j < events.len() ==> tempo_ok(#[trigger] events@[j]),
            0 < bpm <= MAX_BPM_UNITS,
            pending <= MAX_DELTA,
            ticks_prefix(events@, i as int) == (TickState {
                out: out@,
                last,
                bpm_units: bpm as int,
                pending: pending as int,
            }),
        decreases events.len() - i,
    {
        let e = events[i];
        assert(tempo_ok(events@[i as int]));
        let delta_micros: u128 = if e.micros >= last {
            (e.micros - last) as u128
        } else {
            0
        };
        assert(delta_micros * 480 * bpm <= 0xFFFF_FFFF_FFFF_FFFFu128 * 480 * 0x4_0000_0000_0000u128) by (nonlinear_arith)
            requires
                delta_micros <= u64::MAX,
                bpm <= 0x4_0000_0000_0000u128,
        ;
        let num: u128 = delta_micros * 480 * bpm;
        let step: u128 = (2 * num + 6_000_000_000_000) / 12_000_000_000_000;
        let mut ticks: u128 = pending + step;
        let ghost t0 = ticks as int;
        let ghost prev = ticks_prefix(events@, i as int);
        assert(step as int == ticks_of(delta_micros as int, bpm as int));
        assert(t0 == prev.pending + ticks_of(
            if e.micros >= prev.last { e.micros - prev.last } else { 0 },
            prev.bpm_units,
        ));
        let ghost start = out@;
        let mut k: u128 = 0;
        while ticks > (MAX_DELTA as u128)
            invariant
                ticks as int == t0 - k * MAX_DELTA,
                t0 > MAX_DELTA ==> k <= filler_count(t0),
                t0 <= MAX_DELTA ==> k == 0,
                ticks >= 1 || t0 <= MAX_DELTA,
                out@ == start + fillers(k as nat),
                t0 < 0x1_0000_0000_0000_0000_0000_0000u128,
            decreases ticks,
        {
            proof {
                lemma_fillers_push(k as nat);
                assert(t0 > MAX_DELTA);
                assert((t0 - 1) / MAX_DELTA as int >= k + 1) by (nonlinear_arith)
                    requires
                        t0 - k * MAX_DELTA > MAX_DELTA,
                        MAX_DELTA > 0,
                        k >= 0,
                ;
            }
            out.push(TickEvent { delta: MAX_DELTA, source: None });
            ticks = ticks - MAX_DELTA as u128;
            k = k + 1;
        }
        proof {
            if t0 > MAX_DELTA {
                assert(k == filler_count(t0)) by (nonlinear_arith)
                    requires
                        t0 - k * MAX_DELTA <= MAX_DELTA,
                        t0 - k * MAX_DELTA >= 1,
                        k <= (t0 - 1) / MAX_DELTA as int,
                        filler_count(t0) == (t0 - 1) / MAX_DELTA as int,
                        MAX_DELTA > 0,
                ;
            }
        }
        match e.tempo {
            Some(b) => bpm = b.units as u128,
            None => {},
        }
        last = e.micros;
        assert(ticks as int == t0 - filler_count(t0) * MAX_DELTA);
        if e.emits {
            out.push(TickEvent { delta: ticks as u64, source: Some(i) });
            pending = 0;
        } else {
            pending = ticks;
        }
        assert(ticks_prefix(events@, i + 1) == tick_step(prev, events@[i as int], i as int));
        assert(out@ =~= tick_step(prev, events@[i as int], i as int).out);
        i += 1;
    }
    out
}

} // verus!
