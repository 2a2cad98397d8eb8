pub mod apply;
pub mod exclude;
pub mod extract;
pub mod group;
pub mod inclusion;
pub mod laws;
pub mod merge;
pub mod offset;
pub mod quantize;
pub mod sort;
pub mod transpose;

use crate::beat_time::valid_amount;
use crate::decimal::FixedDecimal;
use crate::record::{lines_view, LineView, MtxtRecordLine};
use std::collections::HashSet;
use vstd::prelude::*;

verus! {

/// Which transforms to run, and with what parameters.
pub struct TransformDescriptor {
    pub apply_directives: bool,
    pub extract_directives: bool,
    pub sort_by_time: bool,
    pub merge_notes: bool,
    pub quantize_grid: u32,
    pub quantize_swing: FixedDecimal,
    pub quantize_humanize: FixedDecimal,
    pub transpose_amount: i32,
    pub offset_amount: FixedDecimal,
    pub include_channels: HashSet<u16>,
    pub exclude_channels: HashSet<u16>,
    pub group_channels: bool,
}

/// The transposition step: skipped where a note would leave the representable octaves.
pub open spec fn transpose_step(s: Seq<LineView>, amount: i32) -> Seq<LineView> {
    if amount != 0 && transpose::lines_transposable(s, amount as int) {
        transpose::transpose_spec(s, amount as int)
    } else {
        s
    }
}

/// The pipeline up to quantization: apply, keep channels, drop channels,
/// transpose, offset, merge.
pub open spec fn before_quantize(s: Seq<LineView>, d: TransformDescriptor) -> Seq<LineView> {
    let s1 = if d.apply_directives {
        apply::apply_spec(s)
    } else {
        s
    };
    let s2 = if !d.include_channels@.is_empty() {
        inclusion::filter_from(s1, None, d.include_channels@, true)
    } else {
        s1
    };
    let s3 = if !d.exclude_channels@.is_empty() {
        inclusion::filter_from(s2, None, d.exclude_channels@, false)
    } else {
        s2
    };
    let s4 = transpose_step(s3, d.transpose_amount);
    let s5 = if d.offset_amount.units != 0 {
        offset::offset_spec(s4, d.offset_amount)
    } else {
        s4
    };
    if d.merge_notes {
        merge::merge_spec(s5)
    } else {
        s5
    }
}

/// The pipeline after quantization: sort, extract, then group by channel.
pub open spec fn after_quantize(s: Seq<LineView>, d: TransformDescriptor) -> Seq<LineView> {
    let s1 = if d.sort_by_time {
        sort::sort_spec(s)
    } else {
        s
    };
    let s2 = if d.extract_directives {
        extract::extract_spec(s1)
    } else {
        s1
    };
    if d.group_channels {
        group::group_spec(s2)
    } else {
        s2
    }
}

fn all_transposable(records: &Vec<MtxtRecordLine>, amount: i32) -> (b: bool)
    ensures
        b == transpose::lines_transposable(lines_view(records@), amount as int),
{
    let ghost sv = lines_view(records@);
    let mut i: usize = 0;
    while i < records.len()
        invariant
            i <= records.len(),
            sv == lines_view(records@),
            forall|j: int|
                0 <= j < i ==> transpose::record_transposable(#[trigger] sv[j].record, amount as int),
        decreases records.len() - i,
    {
        assert(sv[i as int] == records@[i as int]@);
        if !transpose::record_transposable_exec(&records[i].record, amount) {
            assert(!transpose::record_transposable(sv[i as int].record, amount as int));
            return false;
        }
        i += 1;
    }
    true
}

/// Runs the chosen transforms in the fixed order apply, keep channels, drop
/// channels, transpose, offset, merge, quantize, sort, extract, group.
/// Quantization draws its humanize offsets at random; a transposition that
/// would take a note out of the representable octaves is skipped.
pub fn apply_transforms(records: &[MtxtRecordLine], transforms: &TransformDescriptor) -> (r: Vec<
    MtxtRecordLine,
>)
    requires
        valid_amount(transforms.quantize_swing),
        valid_amount(transforms.quantize_humanize),
    ensures
        exists|noise: Seq<u32>|
            lines_view(r@) == after_quantize(
                if transforms.quantize_grid > 0 {
                    quantize::quantize_spec(
                        before_quantize(lines_view(records@), *transforms),
                        transforms.quantize_grid,
                        transforms.quantize_swing,
                        transforms.quantize_humanize,
                        noise,
                    )
                } else {
                    before_quantize(lines_view(records@), *transforms)
                },
                *transforms,
            ),
{
    let ghost d = *transforms;
    let ghost s0 = lines_view(records@);
    let mut current = crate::record::copy_lines(records);
    if transforms.apply_directives {
        current = apply::transform(current.as_slice());
    }
    let ghost s1 = lines_view(current@);
    assert(s1 == if d.apply_directives { apply::apply_spec(s0) } else { s0 });
    if !transforms.include_channels.is_empty() {
        current = inclusion::transform(current.as_slice(), &transforms.include_channels);
    }
    let ghost s2 = lines_view(current@);
    assert(s2 == if !d.include_channels@.is_empty() {
        inclusion::filter_from(s1, None, d.include_channels@, true)
    } else {
        s1
    });
    if !transforms.exclude_channels.is_empty() {
        current = exclude::transform(current.as_slice(), &transforms.exclude_channels);
    }
    let ghost s3 = lines_view(current@);
    assert(s3 == if !d.exclude_channels@.is_empty() {
        inclusion::filter_from(s2, None, d.exclude_channels@, false)
    } else {
        s2
    });
    if transforms.transpose_amount != 0 && all_transposable(&current, transforms.transpose_amount) {
        current = transpose::transform(current.as_slice(), transforms.transpose_amount);
    }
    let ghost s4 = lines_view(current@);
    assert(s4 == transpose_step(s3, d.transpose_amount));
    if transforms.offset_amount.units != 0 {
        current = offset::transform(current.as_slice(), transforms.offset_amount);
    }
    let ghost s5 = lines_view(current@);
    assert(s5 == if d.offset_amount.units != 0 { offset::offset_spec(s4, d.offset_amount) } else { s4 });
    if transforms.merge_notes {
        current = merge::transform(current.as_slice());
    }
    let ghost mid = lines_view(current@);
    assert(mid == before_quantize(s0, d));
    let ghost mut noise: Seq<u32> = Seq::empty();
    if transforms.quantize_grid > 0 {
        let q = quantize::transform(
            current.as_slice(),
            transforms.quantize_grid,
            transforms.quantize_swing,
            transforms.quantize_humanize,
        );
        proof {
            noise = choose|n: Seq<u32>|
                n.len() == current@.len() && lines_view(q@) == quantize::quantize_spec(
                    mid,
                    transforms.quantize_grid,
                    transforms.quantize_swing,
                    transforms.quantize_humanize,
                    n,
                );
        }
        current = q;
    }
    let ghost q_out = lines_view(current@);
    assert(q_out == if d.quantize_grid > 0 {
        quantize::quantize_spec(mid, d.quantize_grid, d.quantize_swing, d.quantize_humanize, noise)
    } else {
        mid
    });
    if transforms.sort_by_time {
        current = sort::transform(current.as_slice());
    }
    if transforms.extract_directives {
        current = extract::transform(current.as_slice());
    }
    if transforms.group_channels {
        current = group::transform(current.as_slice());
    }
    assert(lines_view(current@) == after_quantize(q_out, d));
    let ghost witness = quantize::quantize_spec(
        before_quantize(lines_view(records@), *transforms),
        transforms.quantize_grid,
        transforms.quantize_swing,
        transforms.quantize_humanize,
        noise,
    );
    assert(lines_view(current@) == after_quantize(
        if transforms.quantize_grid > 0 {
            quantize::quantize_spec(
                before_quantize(lines_view(records@), *transforms),
                transforms.quantize_grid,
                transforms.quantize_swing,
                transforms.quantize_humanize,
                noise,
            )
        } else {
            before_quantize(lines_view(records@), *transforms)
        },
        *transforms,
    ));
    current
}

} // verus!

