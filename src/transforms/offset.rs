use crate::beat_time::{frac_count, BeatTime, FRAC_BEAT_COUNT};
use crate::decimal::{abs_units, FixedDecimal};
use crate::record::{lines_view, record_time, with_time, LineView, MtxtRecordLine, RecordView};
use crate::transforms::apply::lemma_skip_step;
use vstd::prelude::*;

verus! {

/// The time span of `units` hundred-thousandths of a beat, saturated at the largest time.
pub open spec fn span_of_units(units: nat) -> BeatTime {
    let r = (units / 100000) * frac_count() + (units % 100000) * frac_count() / 100000;
    BeatTime { repr: if r <= u64::MAX { r as u64 } else { u64::MAX } }
}

/// The line moved by `delta` (later, or earlier when `earlier`); `None` where
/// it would move before time zero.
pub open spec fn shifted_line(l: LineView, delta: BeatTime, earlier: bool) -> Option<LineView> {
    match record_time(l.record) {
        None => Some(l),
        Some(t) => if earlier {
            if t.repr < delta.repr {
                None
            } else {
                Some(
                    LineView {
                        record: with_time(l.record, BeatTime { repr: (t.repr - delta.repr) as u64 }),
                        comment: l.comment,
                    },
                )
            }
        } else {
            Some(
                LineView {
                    record: with_time(
                        l.record,
                        BeatTime {
                            repr: if t.repr + delta.repr <= u64::MAX {
                                (t.repr + delta.repr) as u64
                            } else {
                                u64::MAX
                            },
                        },
                    ),
                    comment: l.comment,
                },
            )
        },
    }
}

pub open spec fn shift_lines(s: Seq<LineView>, delta: BeatTime, earlier: bool) -> Seq<LineView>
    decreases s.len(),
{
    if s.len() == 0 {
        Seq::empty()
    } else {
        let rest = shift_lines(s.drop_first(), delta, earlier);
        match shifted_line(s[0], delta, earlier) {
            Some(l) => seq![l] + rest,
            None => rest,
        }
    }
}

/// Every timed line moved by `beats` (a negative amount moves earlier and drops
/// the lines that would fall before zero; times saturate at the largest time).
pub open spec fn offset_spec(s: Seq<LineView>, beats: FixedDecimal) -> Seq<LineView> {
    shift_lines(s, span_of_units(abs_units(beats)), beats.units < 0)
}

/// The span of a decimal number of beats, without its sign.
pub fn span_of(beats: FixedDecimal) -> (r: BeatTime)
    ensures
        r == span_of_units(abs_units(beats)),
{
    let a: u64 = if beats.units < 0 {
        (-(beats.units as i128)) as u64
    } else {
        beats.units as u64
    };
    let whole = a / 100000;
    let frac = ((a % 100000) as u128 * FRAC_BEAT_COUNT as u128 / 100000) as u64;
    assert(frac < frac_count()) by (nonlinear_arith)
        requires
            frac == (a % 100000) * 0x1_0000_0000 / 100000,
            a % 100000 < 100000,
    ;
    if whole >= 0x1_0000_0000 {
        assert(whole * frac_count() + frac > u64::MAX) by (nonlinear_arith)
            requires
                whole >= 0x1_0000_0000,
        ;
        return BeatTime { repr: u64::MAX };
    }
    assert(whole * frac_count() + frac <= u64::MAX) by (nonlinear_arith)
        requires
            whole < 0x1_0000_0000,
            frac < 0x1_0000_0000,
    ;
    BeatTime { repr: whole * FRAC_BEAT_COUNT + frac }
}

/// Moves every timed line by `offset` beats: a positive amount adds, a negative
/// one subtracts and drops the lines whose time would go below zero.
pub fn transform(records: &[MtxtRecordLine], offset: FixedDecimal) -> (r: Vec<MtxtRecordLine>)
    ensures
        lines_view(r@) == offset_spec(lines_view(records@), offset),
{
    let delta = span_of(offset);
    let earlier = offset.units < 0;
    let ghost sv = lines_view(records@);
    let mut out: Vec<MtxtRecordLine> = Vec::new();
    let mut i: usize = 0;
    assert(sv.skip(0) == sv);
    while i < records.len()
        invariant
            i <= records.len(),
            sv == lines_view(records@),
            lines_view(out@) + shift_lines(sv.skip(i as int), delta, earlier) == offset_spec(
                sv,
                offset,
            ),
        decreases records.len() - i,
    {
        proof {
            lemma_skip_step(sv, i as int);
        }
        let ghost old_out = out@;
        let mut line = records[i].copy();
        match line.record.time() {
            None => {
                out.push(line);
            },
            Some(t) => {
                if earlier {
                    if !t.lt(&delta) {
                        line.record.set_time(t.sub(delta));
                        out.push(line);
                    }
                } else {
                    line.record.set_time(t.add(delta));
                    out.push(line);
                }
            },
        }
        proof {
            if out@.len() > old_out.len() {
                assert(lines_view(out@) =~= lines_view(old_out).push(out@[out@.len() - 1]@));
            } else {
                assert(out@ == old_out);
            }
            assert(lines_view(out@) + shift_lines(sv.skip(i + 1), delta, earlier) =~= lines_view(
                old_out,
            ) + shift_lines(sv.skip(i as int), delta, earlier));
        }
        i += 1;
    }
    assert(lines_view(out@) + Seq::<LineView>::empty() == lines_view(out@));
    out
}

proof fn lemma_with_time(r: RecordView, t: BeatTime, x: BeatTime)
    requires
        record_time(r) == Some(t),
    ensures
        record_time(with_time(r, x)) == Some(x),
        with_time(with_time(r, x), t) == r,
{
}

/// Every timed line ends at most `limit` before the largest time.
pub open spec fn times_below(s: Seq<LineView>, limit: BeatTime) -> bool {
    forall|i: int|
        0 <= i < s.len() ==> match record_time(#[trigger] s[i].record) {
            Some(t) => t.repr + limit.repr <= u64::MAX,
            None => true,
        }
}

proof fn lemma_shift_back(s: Seq<LineView>, delta: BeatTime)
    requires
        times_below(s, delta),
    ensures
        shift_lines(shift_lines(s, delta, false), delta, true) == s,
    decreases s.len(),
{
    if s.len() > 0 {
        let t = s.drop_first();
        assert forall|i: int| 0 <= i < t.len() implies match record_time(#[trigger] t[i].record) {
            Some(x) => x.repr + delta.repr <= u64::MAX,
            None => true,
        } by {
            assert(t[i] == s[i + 1]);
        }
        lemma_shift_back(t, delta);
        let l = s[0];
        match record_time(l.record) {
            None => {},
            Some(x) => {
                assert(x.repr + delta.repr <= u64::MAX);
                let y = BeatTime { repr: (x.repr + delta.repr) as u64 };
                lemma_with_time(l.record, x, y);
            },
        }
        let once = shift_lines(s, delta, false);
        assert(once.drop_first() == shift_lines(t, delta, false));
        assert(shift_lines(once, delta, true) =~= s);
    }
}

/// Moving later by a positive amount and then earlier by the same amount gives
/// back the same lines, where no time saturated on the way.
pub proof fn lemma_offset_cancellation(s: Seq<LineView>, beats: FixedDecimal)
    requires
        beats.units > 0,
        times_below(s, span_of_units(abs_units(beats))),
    ensures
        offset_spec(offset_spec(s, beats), FixedDecimal { units: (-beats.units) as i64 }) == s,
{
    assert(abs_units(FixedDecimal { units: (-beats.units) as i64 }) == abs_units(beats));
    lemma_shift_back(s, span_of_units(abs_units(beats)));
}

} // verus!
