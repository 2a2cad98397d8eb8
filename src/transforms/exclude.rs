use crate::record::{lines_view, MtxtRecordLine};
use crate::transforms::inclusion::{filter_channels, filter_from};
use std::collections::HashSet;
use vstd::prelude::*;

verus! {

/// Drops the lines of the listed channels, with the same channel rules as `inclusion::transform`.
pub fn transform(records: &[MtxtRecordLine], channels: &HashSet<u16>) -> (r: Vec<
    MtxtRecordLine,
>)
    ensures
        lines_view(r@) == filter_from(lines_view(records@), None, channels@, false),
{
    filter_channels(records, channels, false)
}

} // verus!
