use crate::record::{lines_view, LineView, MtxtRecord, MtxtRecordLine, RecordView};
use crate::transforms::apply::lemma_skip_step;
use std::collections::HashSet;
use vstd::prelude::*;

verus! {

broadcast use vstd::std_specs::hash::group_hash_axioms;

/// Whether a channel passes the filter: listed channels are kept when `keep_listed`,
/// unlisted ones otherwise.
pub open spec fn channel_passes(c: u16, chans: Set<u16>, keep_listed: bool) -> bool {
    chans.contains(c) == keep_listed
}

/// Whether a record stays, given the channel of the last channel directive before it.
pub open spec fn record_passes(
    r: RecordView,
    current: Option<u16>,
    chans: Set<u16>,
    keep_listed: bool,
) -> bool {
    let own = match r {
        RecordView::Note { channel, .. } => Some(channel),
        RecordView::NoteOn { channel, .. } => Some(channel),
        RecordView::NoteOff { channel, .. } => Some(channel),
        RecordView::Voice { channel, .. } => Some(channel),
        _ => None,
    };
    match own {
        Some(Some(c)) => channel_passes(c, chans, keep_listed),
        Some(None) => match current {
            Some(c) => channel_passes(c, chans, keep_listed),
            None => true,
        },
        None => match r {
            RecordView::ControlChange { channel: Some(c), .. } => channel_passes(
                c,
                chans,
                keep_listed,
            ),
            RecordView::ChannelDirective { channel } => channel_passes(channel, chans, keep_listed),
            _ => true,
        },
    }
}

pub open spec fn next_channel(current: Option<u16>, r: RecordView) -> Option<u16> {
    match r {
        RecordView::ChannelDirective { channel } => Some(channel),
        _ => current,
    }
}

/// The lines that pass the channel filter, in order.
pub open spec fn filter_from(
    s: Seq<LineView>,
    current: Option<u16>,
    chans: Set<u16>,
    keep_listed: bool,
) -> Seq<LineView>
    decreases s.len(),
{
    if s.len() == 0 {
        Seq::empty()
    } else {
        let rest = filter_from(
            s.drop_first(),
            next_channel(current, s[0].record),
            chans,
            keep_listed,
        );
        if record_passes(s[0].record, current, chans, keep_listed) {
            seq![s[0]] + rest
        } else {
            rest
        }
    }
}

fn passes(r: &MtxtRecord, current: Option<u16>, chans: &HashSet<u16>, keep_listed: bool) -> (b:
    bool)
    ensures
        b == record_passes(r@, current, chans@, keep_listed),
{
    let own: Option<Option<u16>> = match r {
        MtxtRecord::Note { channel, .. } => Some(*channel),
        MtxtRecord::NoteOn { channel, .. } => Some(*channel),
        MtxtRecord::NoteOff { channel, .. } => Some(*channel),
        MtxtRecord::Voice { channel, .. } => Some(*channel),
        _ => None,
    };
    match own {
        Some(Some(c)) => chans.contains(&c) == keep_listed,
        Some(None) => match current {
            Some(c) => chans.contains(&c) == keep_listed,
            None => true,
        },
        None => match r {
            MtxtRecord::ControlChange { channel: Some(c), .. } => chans.contains(c) == keep_listed,
            MtxtRecord::ChannelDirective { channel } => chans.contains(channel) == keep_listed,
            _ => true,
        },
    }
}

/// The lines that pass the channel filter (see `filter_from`).
pub fn filter_channels(records: &[MtxtRecordLine], chans: &HashSet<u16>, keep_listed: bool) -> (r:
    Vec<MtxtRecordLine>)
    ensures
        lines_view(r@) == filter_from(lines_view(records@), None, chans@, keep_listed),
{
    let ghost sv = lines_view(records@);
    let mut current: Option<u16> = None;
    let mut out: Vec<MtxtRecordLine> = Vec::new();
    let mut i: usize = 0;
    assert(sv.skip(0) == sv);
    while i < records.len()
        invariant
            i <= records.len(),
            sv == lines_view(records@),
            lines_view(out@) + filter_from(sv.skip(i as int), current, chans@, keep_listed)
                == filter_from(sv, None, chans@, keep_listed),
        decreases records.len() - i,
    {
        let line = &records[i];
        proof {
            lemma_skip_step(sv, i as int);
        }
        let ghost old_out = out@;
        let ghost old_cur = current;
        if passes(&line.record, current, chans, keep_listed) {
            out.push(line.copy());
            assert(lines_view(out@) =~= lines_view(old_out).push(sv[i as int]));
        }
        if let MtxtRecord::ChannelDirective { channel } = &line.record {
            current = Some(*channel);
        }
        proof {
            assert(current == next_channel(old_cur, sv[i as int].record));
            assert(lines_view(out@) + filter_from(sv.skip(i + 1), current, chans@, keep_listed)
                =~= lines_view(old_out) + filter_from(sv.skip(i as int), old_cur, chans@, keep_listed));
        }
        i += 1;
    }
    assert(lines_view(out@) + Seq::<LineView>::empty() == lines_view(out@));
    out
}

/// Keeps the lines of the listed channels. A note, note on/off or voice line
/// without its own channel follows the last channel directive; controller
/// changes without a channel and lines without a channel stay. An empty set keeps all.
pub fn transform(records: &[MtxtRecordLine], channels: &HashSet<u16>) -> (r: Vec<
    MtxtRecordLine,
>)
    ensures
        lines_view(r@) == if channels@.is_empty() {
            lines_view(records@)
        } else {
            filter_from(lines_view(records@), None, channels@, true)
        },
{
    if channels.is_empty() {
        return crate::record::copy_lines(records);
    }
    filter_channels(records, channels, true)
}

} // verus!
