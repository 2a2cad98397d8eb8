use crate::record::{lines_view, record_time, LineView, MtxtRecordLine};
use crate::transforms::apply::lemma_skip_step;
use vstd::multiset::Multiset;
use vstd::prelude::*;

verus! {

/// Sort key of a timed line.
pub open spec fn time_key(l: LineView) -> int {
    match record_time(l.record) {
        Some(t) => t.repr as int,
        None => 0,
    }
}

pub open spec fn is_timed(l: LineView) -> bool {
    record_time(l.record) is Some
}

/// `l` placed into `buf` after every line whose time is not later than its own.
pub open spec fn insert_sorted(buf: Seq<LineView>, l: LineView) -> Seq<LineView>
    decreases buf.len(),
{
    if buf.len() == 0 {
        seq![l]
    } else if time_key(buf.last()) <= time_key(l) {
        buf.push(l)
    } else {
        insert_sorted(buf.drop_last(), l).push(buf.last())
    }
}

/// Stable sort by time of each run of timed lines; untimed lines stay where they are.
pub open spec fn sort_from(s: Seq<LineView>, buf: Seq<LineView>) -> Seq<LineView>
    decreases s.len(),
{
    if s.len() == 0 {
        buf
    } else if is_timed(s[0]) {
        sort_from(s.drop_first(), insert_sorted(buf, s[0]))
    } else {
        buf + seq![s[0]] + sort_from(s.drop_first(), Seq::empty())
    }
}

pub open spec fn sort_spec(s: Seq<LineView>) -> Seq<LineView> {
    sort_from(s, Seq::empty())
}

proof fn lemma_insert_at(buf: Seq<LineView>, l: LineView, p: int)
    requires
        0 <= p <= buf.len(),
        forall|j: int| p <= j < buf.len() ==> time_key(#[trigger] buf[j]) > time_key(l),
        p > 0 ==> time_key(buf[p - 1]) <= time_key(l),
    ensures
        insert_sorted(buf, l) == buf.take(p) + seq![l] + buf.skip(p),
    decreases buf.len(),
{
    if buf.len() == 0 {
        assert(buf.take(p) + seq![l] + buf.skip(p) =~= seq![l]);
    } else if p == buf.len() {
        assert(buf.take(p) + seq![l] + buf.skip(p) =~= buf.push(l));
    } else {
        let b = buf.drop_last();
        assert forall|j: int| p <= j < b.len() implies time_key(#[trigger] b[j]) > time_key(l) by {
            assert(b[j] == buf[j]);
        }
        lemma_insert_at(b, l, p);
        assert(buf.take(p) + seq![l] + buf.skip(p) =~= (b.take(p) + seq![l] + b.skip(p)).push(
            buf.last(),
        ));
    }
}

fn key_of(l: &MtxtRecordLine) -> (k: u64)
    requires
        is_timed(l@),
    ensures
        k == time_key(l@),
{
    match l.record.time() {
        Some(t) => t.repr,
        None => 0,
    }
}

/// Sorts the lines that carry a time by time, stably, within each run between
/// lines without a time; those stay in place.
pub fn transform(records: &[MtxtRecordLine]) -> (r: Vec<MtxtRecordLine>)
    ensures
        lines_view(r@) == sort_spec(lines_view(records@)),
{
    let ghost sv = lines_view(records@);
    let mut out: Vec<MtxtRecordLine> = Vec::new();
    let mut buf: Vec<MtxtRecordLine> = Vec::new();
    let mut i: usize = 0;
    assert(sv.skip(0) == sv);
    while i < records.len()
        invariant
            i <= records.len(),
            sv == lines_view(records@),
            forall|j: int| 0 <= j < buf.len() ==> is_timed(#[trigger] buf@[j]@),
            lines_view(out@) + sort_from(sv.skip(i as int), lines_view(buf@)) == sort_spec(sv),
        decreases records.len() - i,
    {
        proof {
            lemma_skip_step(sv, i as int);
        }
        let line = &records[i];
        let ghost old_buf = lines_view(buf@);
        let ghost old_out = lines_view(out@);
        if line.record.time().is_some() {
            let k = key_of(line);
            let mut p = buf.len();
            while p > 0 && key_of(&buf[p - 1]) > k
                invariant
                    p <= buf.len(),
                    forall|j: int| 0 <= j < buf.len() ==> is_timed(#[trigger] buf@[j]@),
                    forall|j: int| p <= j < buf.len() ==> time_key(#[trigger] buf@[j]@) > k,
                decreases p,
            {
                p -= 1;
            }
            proof {
                assert forall|j: int| p <= j < old_buf.len() implies time_key(#[trigger] old_buf[j])
                    > time_key(line@) by {
                    assert(old_buf[j] == buf@[j]@);
                }
                lemma_insert_at(old_buf, line@, p as int);
            }
            buf.insert(p, line.copy());
            assert(lines_view(buf@) =~= old_buf.take(p as int) + seq![line@] + old_buf.skip(
                p as int,
            ));
            assert(lines_view(out@) + sort_from(sv.skip(i + 1), lines_view(buf@)) == old_out
                + sort_from(sv.skip(i as int), old_buf));
        } else {
            out.append(&mut buf);
            out.push(line.copy());
            assert(lines_view(out@) =~= old_out + old_buf + seq![line@]);
            assert(lines_view(buf@) =~= Seq::<LineView>::empty());
            assert(lines_view(out@) + sort_from(sv.skip(i + 1), lines_view(buf@)) =~= old_out
                + sort_from(sv.skip(i as int), old_buf));
        }
        i += 1;
    }
    let ghost before = lines_view(out@);
    let ghost rest = lines_view(buf@);
    out.append(&mut buf);
    assert(lines_view(out@) =~= before + rest);
    out
}

/// Adjacent timed lines are in time order.
pub open spec fn timed_in_order(s: Seq<LineView>) -> bool {
    forall|i: int|
        0 <= i < s.len() - 1 && is_timed(#[trigger] s[i]) && is_timed(s[i + 1]) ==> time_key(s[i])
            <= time_key(s[i + 1])
}

pub open spec fn all_timed(s: Seq<LineView>) -> bool {
    forall|i: int| 0 <= i < s.len() ==> is_timed(#[trigger] s[i])
}

proof fn lemma_insert_sorted(buf: Seq<LineView>, l: LineView)
    requires
        all_timed(buf),
        timed_in_order(buf),
        is_timed(l),
    ensures
        insert_sorted(buf, l).len() == buf.len() + 1,
        all_timed(insert_sorted(buf, l)),
        timed_in_order(insert_sorted(buf, l)),
        insert_sorted(buf, l).to_multiset() == buf.to_multiset().insert(l),
        insert_sorted(buf, l).len() > 0,
        insert_sorted(buf, l).last() == l || insert_sorted(buf, l).last() == buf.last(),
    decreases buf.len(),
{
    broadcast use vstd::seq_lib::group_to_multiset_ensures;

    if buf.len() == 0 {
        assert(seq![l] == Seq::<LineView>::empty().push(l));
    } else if time_key(buf.last()) <= time_key(l) {
    } else {
        let b = buf.drop_last();
        assert forall|i: int| 0 <= i < b.len() implies is_timed(#[trigger] b[i]) by {
            assert(b[i] == buf[i]);
        }
        assert forall|i: int|
            0 <= i < b.len() - 1 && is_timed(#[trigger] b[i]) && is_timed(b[i + 1]) implies time_key(
            b[i],
        ) <= time_key(b[i + 1]) by {
            assert(b[i] == buf[i] && b[i + 1] == buf[i + 1]);
        }
        lemma_insert_sorted(b, l);
        let ib = insert_sorted(b, l);
        let r = ib.push(buf.last());
        assert(buf == b.push(buf.last()));
        if b.len() > 0 {
            assert(time_key(b.last()) <= time_key(buf.last())) by {
                assert(b.last() == buf[buf.len() - 2]);
            }
        }
        assert forall|i: int|
            0 <= i < r.len() - 1 && is_timed(#[trigger] r[i]) && is_timed(r[i + 1]) implies time_key(
            r[i],
        ) <= time_key(r[i + 1]) by {
            if i < r.len() - 2 {
                assert(r[i] == ib[i] && r[i + 1] == ib[i + 1]);
            } else {
                assert(r[i] == ib.last());
            }
        }
        assert(r.to_multiset() == ib.to_multiset().insert(buf.last()));
        assert(buf.to_multiset() == b.to_multiset().insert(buf.last()));
        assert(r.to_multiset() =~= buf.to_multiset().insert(l));
    }
}

proof fn lemma_sort_from(s: Seq<LineView>, buf: Seq<LineView>)
    requires
        all_timed(buf),
        timed_in_order(buf),
    ensures
        sort_from(s, buf).len() == buf.len() + s.len(),
        forall|i: int|
            0 <= i < s.len() && !is_timed(#[trigger] s[i]) ==> sort_from(s, buf)[buf.len() + i]
                == s[i],
        timed_in_order(sort_from(s, buf)),
        sort_from(s, buf).to_multiset() == buf.to_multiset().add(s.to_multiset()),
    decreases s.len(),
{
    broadcast use vstd::seq_lib::group_to_multiset_ensures;

    if s.len() == 0 {
        assert(s.to_multiset() =~= Multiset::empty());
        assert(buf.to_multiset().add(Multiset::empty()) =~= buf.to_multiset());
    } else {
        let t = s.drop_first();
        assert(s == seq![s[0]] + t);
        assert(s.to_multiset() =~= t.to_multiset().insert(s[0])) by {
            vstd::seq_lib::lemma_multiset_commutative(seq![s[0]], t);
            assert(seq![s[0]].to_multiset() =~= Multiset::empty().insert(s[0])) by {
                assert(seq![s[0]] == Seq::<LineView>::empty().push(s[0]));
            }
        }
        if is_timed(s[0]) {
            lemma_insert_sorted(buf, s[0]);
            lemma_sort_from(t, insert_sorted(buf, s[0]));
            assert forall|i: int| 0 <= i < s.len() && !is_timed(#[trigger] s[i]) implies sort_from(
                s,
                buf,
            )[buf.len() + i] == s[i] by {
                assert(s[i] == t[i - 1]);
            }
            assert(sort_from(s, buf).to_multiset() =~= buf.to_multiset().add(s.to_multiset()));
        } else {
            let e = Seq::<LineView>::empty();
            lemma_sort_from(t, e);
            let rest = sort_from(t, e);
            let r = buf + seq![s[0]] + rest;
            assert(sort_from(s, buf) == r);
            assert forall|i: int| 0 <= i < s.len() && !is_timed(#[trigger] s[i]) implies r[buf.len()
                + i] == s[i] by {
                if i > 0 {
                    assert(s[i] == t[i - 1]);
                    assert(rest[e.len() + (i - 1)] == t[i - 1]);
                }
            }
            assert forall|i: int|
                0 <= i < r.len() - 1 && is_timed(#[trigger] r[i]) && is_timed(r[i + 1]) implies time_key(
                r[i],
            ) <= time_key(r[i + 1]) by {
                if i < buf.len() - 1 {
                    assert(r[i] == buf[i] && r[i + 1] == buf[i + 1]);
                } else if i > buf.len() {
                    assert(r[i] == rest[i - buf.len() - 1] && r[i + 1] == rest[i - buf.len()]);
                }
            }
            vstd::seq_lib::lemma_multiset_commutative(buf + seq![s[0]], rest);
            vstd::seq_lib::lemma_multiset_commutative(buf, seq![s[0]]);
            assert(seq![s[0]].to_multiset() =~= Multiset::empty().insert(s[0])) by {
                assert(seq![s[0]] == Seq::<LineView>::empty().push(s[0]));
            }
            assert(e.to_multiset() =~= Multiset::empty());
            assert(r.to_multiset() =~= buf.to_multiset().add(s.to_multiset()));
        }
    }
}

/// The sort keeps every line (the result is a permutation), leaves each line
/// without a time at its place, and puts adjacent timed lines in time order.
pub proof fn lemma_sort_keeps_barriers(s: Seq<LineView>)
    ensures
        sort_spec(s).len() == s.len(),
        sort_spec(s).to_multiset() == s.to_multiset(),
        forall|i: int| 0 <= i < s.len() && !is_timed(#[trigger] s[i]) ==> sort_spec(s)[i] == s[i],
        timed_in_order(sort_spec(s)),
{
    broadcast use vstd::seq_lib::group_to_multiset_ensures;

    let e = Seq::<LineView>::empty();
    lemma_sort_from(s, e);
    assert(e.to_multiset() =~= Multiset::empty());
    assert(Multiset::<LineView>::empty().add(s.to_multiset()) =~= s.to_multiset());
}

} // verus!
