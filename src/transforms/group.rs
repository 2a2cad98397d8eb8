use crate::record::{lines_view, record_time, LineView, MtxtRecord, MtxtRecordLine, RecordView};
use crate::transforms::apply::{self, apply_spec};
use crate::transforms::extract::{self, extract_spec};
use vstd::prelude::*;

verus! {

/// The channel a line is played on, where it names one.
pub open spec fn line_channel(r: RecordView) -> Option<u16> {
    match r {
        RecordView::Note { channel, .. } => channel,
        RecordView::NoteOn { channel, .. } => channel,
        RecordView::NoteOff { channel, .. } => channel,
        RecordView::Voice { channel, .. } => channel,
        RecordView::ControlChange { channel, .. } => channel,
        _ => None,
    }
}

/// Sort key: by channel, then by time; a missing channel or time sorts first.
pub open spec fn group_key(l: LineView) -> int {
    let c = match line_channel(l.record) {
        Some(c) => c + 1,
        None => 0,
    };
    let t = match record_time(l.record) {
        Some(t) => t.repr + 1,
        None => 0,
    };
    c * 0x2_0000_0000_0000_0000 + t
}

/// `l` placed into `buf` after every line whose key is not greater.
pub open spec fn insert_by_key(buf: Seq<LineView>, l: LineView) -> Seq<LineView>
    decreases buf.len(),
{
    if buf.len() == 0 {
        seq![l]
    } else if group_key(buf.last()) <= group_key(l) {
        buf.push(l)
    } else {
        insert_by_key(buf.drop_last(), l).push(buf.last())
    }
}

/// Stable sort by `group_key`.
pub open spec fn sort_by_key(s: Seq<LineView>) -> Seq<LineView>
    decreases s.len(),
{
    if s.len() == 0 {
        s
    } else {
        insert_by_key(sort_by_key(s.drop_last()), s.last())
    }
}

/// Directives folded in, lines sorted by channel and time, directives extracted again.
pub open spec fn group_spec(s: Seq<LineView>) -> Seq<LineView> {
    extract_spec(sort_by_key(apply_spec(s)))
}

proof fn lemma_insert_at(buf: Seq<LineView>, l: LineView, p: int)
    requires
        0 <= p <= buf.len(),
        forall|j: int| p <= j < buf.len() ==> group_key(#[trigger] buf[j]) > group_key(l),
        p > 0 ==> group_key(buf[p - 1]) <= group_key(l),
    ensures
        insert_by_key(buf, l) == buf.take(p) + seq![l] + buf.skip(p),
    decreases buf.len(),
{
    if buf.len() == 0 {
        assert(buf.take(p) + seq![l] + buf.skip(p) =~= seq![l]);
    } else if p == buf.len() {
        assert(buf.take(p) + seq![l] + buf.skip(p) =~= buf.push(l));
    } else {
        let b = buf.drop_last();
        assert forall|j: int| p <= j < b.len() implies group_key(#[trigger] b[j]) > group_key(l) by {
            assert(b[j] == buf[j]);
        }
        lemma_insert_at(b, l, p);
        assert(buf.take(p) + seq![l] + buf.skip(p) =~= (b.take(p) + seq![l] + b.skip(p)).push(
            buf.last(),
        ));
    }
}

fn key_of(l: &MtxtRecordLine) -> (k: u128)
    ensures
        k == group_key(l@),
{
    let c: u128 = match &l.record {
        MtxtRecord::Note { channel, .. } => match channel {
            Some(c) => *c as u128 + 1,
            None => 0,
        },
        MtxtRecord::NoteOn { channel, .. } => match channel {
            Some(c) => *c as u128 + 1,
            None => 0,
        },
        MtxtRecord::NoteOff { channel, .. } => match channel {
            Some(c) => *c as u128 + 1,
            None => 0,
        },
        MtxtRecord::Voice { channel, .. } => match channel {
            Some(c) => *c as u128 + 1,
            None => 0,
        },
        MtxtRecord::ControlChange { channel, .. } => match channel {
            Some(c) => *c as u128 + 1,
            None => 0,
        },
        _ => 0,
    };
    let t: u128 = match l.record.time() {
        Some(t) => t.repr as u128 + 1,
        None => 0,
    };
    assert(c * 0x2_0000_0000_0000_0000 + t < 0x1_0000_0000_0000_0000_0000_0000) by (nonlinear_arith)
        requires
            c <= 0x1_0000,
            t <= 0x1_0000_0000_0000_0000,
    ;
    c * 0x2_0000_0000_0000_0000 + t
}

/// Stable sort of lines by channel, then time.
fn sort_lines(records: Vec<MtxtRecordLine>) -> (r: Vec<MtxtRecordLine>)
    ensures
        lines_view(r@) == sort_by_key(lines_view(records@)),
{
    let ghost sv = lines_view(records@);
    let mut buf: Vec<MtxtRecordLine> = Vec::new();
    let mut i: usize = 0;
    assert(sv.take(0) =~= Seq::<LineView>::empty());
    assert(lines_view(buf@) =~= Seq::<LineView>::empty());
    while i < records.len()
        invariant
            i <= records.len(),
            sv == lines_view(records@),
            lines_view(buf@) == sort_by_key(sv.take(i as int)),
        decreases records.len() - i,
    {
        let line = &records[i];
        let ghost old_buf = lines_view(buf@);
        let k = key_of(line);
        let mut p = buf.len();
        while p > 0 && key_of(&buf[p - 1]) > k
            invariant
                p <= buf.len(),
                forall|j: int| p <= j < buf.len() ==> group_key(#[trigger] buf@[j]@) > k,
            decreases p,
        {
            p -= 1;
        }
        proof {
            assert forall|j: int| p <= j < old_buf.len() implies group_key(#[trigger] old_buf[j])
                > group_key(line@) by {
                assert(old_buf[j] == buf@[j]@);
            }
            lemma_insert_at(old_buf, line@, p as int);
            assert(sv.take(i + 1).drop_last() == sv.take(i as int));
            assert(sv.take(i + 1).last() == line@);
        }
        buf.insert(p, line.copy());
        assert(lines_view(buf@) =~= old_buf.take(p as int) + seq![line@] + old_buf.skip(p as int));
        i += 1;
    }
    assert(sv.take(records.len() as int) == sv);
    buf
}

/// Folds the directives in, sorts the lines by channel and then time (lines
/// without a channel first), and extracts directives again, so that each
/// channel's lines stand together under one channel directive.
pub fn transform(records: &[MtxtRecordLine]) -> (r: Vec<MtxtRecordLine>)
    ensures
        lines_view(r@) == group_spec(lines_view(records@)),
{
    let flat = apply::transform(records);
    let sorted = sort_lines(flat);
    extract::transform(sorted.as_slice())
}

} // verus!
