use crate::beat_time::{
    lemma_quantize_idempotent, quantized, quantized_value, valid_amount, BeatTime,
};
use crate::decimal::FixedDecimal;
use crate::record::{lines_view, record_time, with_time, LineView, MtxtRecordLine};
use vstd::prelude::*;

verus! {

/// Relies on `rand::random`: a value drawn from the thread's generator; nothing is promised of it.
pub assume_specification<T>[ rand::random::<T> ]() -> (r: T)
    where
        rand::distributions::Standard: rand::distributions::Distribution<T>,
;

/// The line with its time quantized, where it has a time.
pub open spec fn quantized_line(
    l: LineView,
    grid: u32,
    swing: FixedDecimal,
    humanize: FixedDecimal,
    noise: u32,
) -> LineView {
    match record_time(l.record) {
        None => l,
        Some(t) => LineView {
            record: with_time(l.record, quantized(t, grid, swing, humanize, noise)),
            comment: l.comment,
        },
    }
}

/// Every timed line quantized; line `i` draws its humanize offset from `noise[i]`.
pub open spec fn quantize_spec(
    s: Seq<LineView>,
    grid: u32,
    swing: FixedDecimal,
    humanize: FixedDecimal,
    noise: Seq<u32>,
) -> Seq<LineView> {
    Seq::new(s.len(), |i: int| quantized_line(s[i], grid, swing, humanize, noise[i]))
}

/// Quantizes the time of every timed line, with the humanize offsets given by `noise`.
pub fn transform_with_noise(
    records: &[MtxtRecordLine],
    grid: u32,
    swing: FixedDecimal,
    humanize: FixedDecimal,
    noise: &[u32],
) -> (r: Vec<MtxtRecordLine>)
    requires
        valid_amount(swing),
        valid_amount(humanize),
        noise.len() == records.len(),
    ensures
        lines_view(r@) == quantize_spec(lines_view(records@), grid, swing, humanize, noise@),
{
    let ghost sv = lines_view(records@);
    let mut out: Vec<MtxtRecordLine> = Vec::new();
    let mut i: usize = 0;
    while i < records.len()
        invariant
            i <= records.len() == noise.len(),
            sv == lines_view(records@),
            valid_amount(swing),
            valid_amount(humanize),
            out.len() == i,
            forall|j: int|
                0 <= j < i ==> (#[trigger] out@[j])@ == quantized_line(
                    sv[j],
                    grid,
                    swing,
                    humanize,
                    noise@[j],
                ),
        decreases records.len() - i,
    {
        let mut line = records[i].copy();
        if let Some(t) = line.record.time() {
            line.record.set_time(t.quantize(grid, swing, humanize, noise[i]));
        }
        out.push(line);
        i += 1;
    }
    assert(lines_view(out@) =~= quantize_spec(sv, grid, swing, humanize, noise@));
    out
}

/// Quantizes the time of every timed line to `grid` steps per beat, with swing
/// and humanize amounts in [0, 1]. The humanize offsets are drawn at random; a
/// zero humanize makes the result exact.
pub fn transform(records: &[MtxtRecordLine], grid: u32, swing: FixedDecimal, humanize: FixedDecimal) -> (r: Vec<
    MtxtRecordLine,
>)
    requires
        valid_amount(swing),
        valid_amount(humanize),
    ensures
        exists|noise: Seq<u32>|
            noise.len() == records@.len() && lines_view(r@) == quantize_spec(
                lines_view(records@),
                grid,
                swing,
                humanize,
                noise,
            ),
        humanize.units == 0 ==> lines_view(r@) == quantize_spec(
            lines_view(records@),
            grid,
            swing,
            humanize,
            Seq::new(records@.len(), |i: int| 0u32),
        ),
{
    let mut noise: Vec<u32> = Vec::new();
    let mut i: usize = 0;
    while i < records.len()
        invariant
            i <= records.len(),
            noise.len() == i,
            humanize.units == 0 ==> forall|j: int| 0 <= j < i ==> noise@[j] == 0,
        decreases records.len() - i,
    {
        if humanize.units > 0 {
            noise.push(rand::random::<u32>());
        } else {
            noise.push(0);
        }
        i += 1;
    }
    if humanize.units == 0 {
        assert(noise@ =~= Seq::new(records@.len(), |i: int| 0u32));
    }
    transform_with_noise(records, grid, swing, humanize, noise.as_slice())
}

/// Without humanize, quantizing twice with the same grid and swing gives what
/// quantizing once gives (for grids of at most 2^31 steps per beat, where no
/// time saturated).
pub proof fn lemma_quantize_twice(
    s: Seq<LineView>,
    grid: u32,
    swing: FixedDecimal,
    n1: Seq<u32>,
    n2: Seq<u32>,
)
    requires
        valid_amount(swing),
        grid <= 0x8000_0000,
        n1.len() == s.len(),
        n2.len() == s.len(),
        forall|i: int|
            0 <= i < s.len() ==> match record_time(#[trigger] s[i].record) {
                Some(t) => grid == 0 || quantized_value(t.repr, grid, swing.units as int, 0, n1[i])
                    <= u64::MAX,
                None => true,
            },
    ensures
        ({
            let zero = FixedDecimal { units: 0 };
            quantize_spec(quantize_spec(s, grid, swing, zero, n1), grid, swing, zero, n2)
                == quantize_spec(s, grid, swing, zero, n1)
        }),
{
    let zero = FixedDecimal { units: 0 };
    let once = quantize_spec(s, grid, swing, zero, n1);
    assert forall|i: int| 0 <= i < s.len() implies #[trigger] quantized_line(
        once[i],
        grid,
        swing,
        zero,
        n2[i],
    ) == once[i] by {
        match record_time(s[i].record) {
            None => {},
            Some(t) => {
                lemma_quantize_idempotent(t, grid, swing, n1[i], n2[i]);
            },
        }
    }
    assert(quantize_spec(once, grid, swing, zero, n2) =~= once);
}

} // verus!
