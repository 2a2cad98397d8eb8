use crate::beat_time::BeatTime;
use crate::note::{note_key, NoteTarget, TargetView};
use crate::record::{lines_view, LineView, MtxtRecord, MtxtRecordLine, RecordView};
use crate::transforms::apply::lemma_skip_step;
use vstd::prelude::*;

verus! {

/// What identifies a sounding note: its key number and cents, or an alias name.
pub enum NoteKey {
    Pitch(i64, i64),
    Alias(String),
}

pub ghost enum KeyView {
    Pitch(i64, i64),
    Alias(Seq<char>),
}

impl View for NoteKey {
    type V = KeyView;

    open spec fn view(&self) -> KeyView {
        match self {
            NoteKey::Pitch(k, c) => KeyView::Pitch(*k, *c),
            NoteKey::Alias(s) => KeyView::Alias(s@),
        }
    }
}

pub open spec fn target_key(t: TargetView) -> KeyView {
    match t {
        TargetView::Note(n) => KeyView::Pitch(note_key(n) as i64, n.cents.units),
        TargetView::AliasKey(k) => KeyView::Alias(k),
        TargetView::Alias(d) => KeyView::Alias(d.name),
    }
}

/// Open notes: effective channel, key, and position of the note-on in the output.
pub type Pending = Seq<(u16, KeyView, int)>;

pub open spec fn pend_find(p: Pending, ch: u16, k: KeyView) -> Option<int>
    decreases p.len(),
{
    if p.len() == 0 {
        None
    } else if p.last().0 == ch && p.last().1 == k {
        Some(p.last().2)
    } else {
        pend_find(p.drop_last(), ch, k)
    }
}

pub open spec fn pend_remove(p: Pending, ch: u16, k: KeyView) -> Pending
    decreases p.len(),
{
    if p.len() == 0 {
        p
    } else if p.last().0 == ch && p.last().1 == k {
        pend_remove(p.drop_last(), ch, k)
    } else {
        pend_remove(p.drop_last(), ch, k).push(p.last())
    }
}

pub ghost struct MergeState {
    pub out: Seq<LineView>,
    pub pending: Pending,
    pub channel: u16,
}

/// The output with the note-on at `idx` turned into a note that lasts until the
/// note-off `off`.
pub open spec fn merged_at(out: Seq<LineView>, idx: int, off: LineView) -> Seq<LineView> {
    if 0 <= idx < out.len() {
        match (out[idx].record, off.record) {
            (
                RecordView::NoteOn { time: on_time, velocity, channel, .. },
                RecordView::NoteOff { time: off_time, note, off_velocity, .. },
            ) => out.update(
                idx,
                LineView {
                    record: RecordView::Note {
                        time: on_time,
                        note,
                        duration: Some(
                            BeatTime {
                                repr: if off_time.repr >= on_time.repr {
                                    (off_time.repr - on_time.repr) as u64
                                } else {
                                    0
                                },
                            },
                        ),
                        velocity,
                        off_velocity,
                        channel,
                    },
                    comment: out[idx].comment,
                },
            ),
            _ => out,
        }
    } else {
        out
    }
}

pub open spec fn eff_channel(own: Option<u16>, current: u16) -> u16 {
    match own {
        Some(c) => c,
        None => current,
    }
}

pub open spec fn merge_step(st: MergeState, l: LineView) -> MergeState {
    let ch = match l.record {
        RecordView::ChannelDirective { channel } => channel,
        _ => st.channel,
    };
    match l.record {
        RecordView::NoteOn { note, channel, .. } => {
            let c = eff_channel(channel, ch);
            let k = target_key(note);
            MergeState {
                out: st.out.push(l),
                pending: pend_remove(st.pending, c, k).push((c, k, st.out.len() as int)),
                channel: ch,
            }
        },
        RecordView::NoteOff { note, channel, .. } => {
            let c = eff_channel(channel, ch);
            let k = target_key(note);
            match pend_find(st.pending, c, k) {
                Some(idx) => MergeState {
                    out: merged_at(st.out, idx, l),
                    pending: pend_remove(st.pending, c, k),
                    channel: ch,
                },
                None => MergeState { out: st.out.push(l), pending: st.pending, channel: ch },
            }
        },
        _ => MergeState { out: st.out.push(l), pending: st.pending, channel: ch },
    }
}

pub open spec fn merge_from(s: Seq<LineView>, st: MergeState) -> MergeState
    decreases s.len(),
{
    if s.len() == 0 {
        st
    } else {
        merge_from(s.drop_first(), merge_step(st, s[0]))
    }
}

/// Note-on/note-off pairs fused into notes.
pub open spec fn merge_spec(s: Seq<LineView>) -> Seq<LineView> {
    merge_from(s, MergeState { out: Seq::empty(), pending: Seq::empty(), channel: 0 }).out
}

pub open spec fn pending_view(p: Seq<(u16, NoteKey, usize)>) -> Pending {
    p.map_values(|e: (u16, NoteKey, usize)| (e.0, e.1@, e.2 as int))
}

fn key_of(t: &NoteTarget) -> (k: NoteKey)
    ensures
        k@ == target_key(t@),
{
    match t {
        NoteTarget::Note(n) => {
            let key = (n.octave as i64 + 1) * 12 + n.pitch_class.semitone() as i64;
            NoteKey::Pitch(key, n.cents.units)
        },
        NoteTarget::AliasKey(s) => NoteKey::Alias(s.clone()),
        NoteTarget::Alias(d) => NoteKey::Alias(d.name.clone()),
    }
}

fn same_key(a: &NoteKey, b: &NoteKey) -> (r: bool)
    ensures
        r == (a@ == b@),
{
    match (a, b) {
        (NoteKey::Pitch(k1, c1), NoteKey::Pitch(k2, c2)) => *k1 == *k2 && *c1 == *c2,
        (NoteKey::Alias(s1), NoteKey::Alias(s2)) => *s1 == *s2,
        _ => false,
    }
}

fn copy_key(k: &NoteKey) -> (r: NoteKey)
    ensures
        r@ == k@,
{
    match k {
        NoteKey::Pitch(a, b) => NoteKey::Pitch(*a, *b),
        NoteKey::Alias(s) => NoteKey::Alias(s.clone()),
    }
}

fn find_pending(p: &Vec<(u16, NoteKey, usize)>, ch: u16, k: &NoteKey) -> (r: Option<usize>)
    ensures
        match r {
            Some(i) => pend_find(pending_view(p@), ch, k@) == Some(i as int),
            None => pend_find(pending_view(p@), ch, k@) is None,
        },
{
    let ghost pv = pending_view(p@);
    let mut j = p.len();
    assert(pv.take(j as int) == pv);
    while j > 0
        invariant
            j <= p.len(),
            pv == pending_view(p@),
            pend_find(pv.take(j as int), ch, k@) == pend_find(pv, ch, k@),
        decreases j,
    {
        assert(pv.take(j as int).drop_last() == pv.take(j - 1));
        assert(pv.take(j as int).last() == pv[j - 1]);
        if p[j - 1].0 == ch && same_key(&p[j - 1].1, k) {
            return Some(p[j - 1].2);
        }
        j -= 1;
    }
    None
}

fn remove_pending(p: &Vec<(u16, NoteKey, usize)>, ch: u16, k: &NoteKey) -> (r: Vec<
    (u16, NoteKey, usize),
>)
    ensures
        pending_view(r@) == pend_remove(pending_view(p@), ch, k@),
{
    let ghost pv = pending_view(p@);
    let mut out: Vec<(u16, NoteKey, usize)> = Vec::new();
    let mut j: usize = 0;
    while j < p.len()
        invariant
            j <= p.len(),
            pv == pending_view(p@),
            pending_view(out@) == pend_remove(pv.take(j as int), ch, k@),
        decreases p.len() - j,
    {
        assert(pv.take(j + 1).drop_last() == pv.take(j as int));
        assert(pv.take(j + 1).last() == pv[j as int]);
        if !(p[j].0 == ch && same_key(&p[j].1, k)) {
            let ghost before = out@;
            out.push((p[j].0, copy_key(&p[j].1), p[j].2));
            assert(pending_view(out@) =~= pending_view(before).push(pv[j as int]));
        }
        j += 1;
    }
    assert(pv.take(p.len() as int) == pv);
    out
}

/// Fuses each note-off with the open note-on of the same effective channel and
/// note into a note whose duration is the time between them. A second note-on
/// for an open note leaves the first as a raw note-on; a note-off with no open
/// note-on stays as it is.
pub fn transform(records: &[MtxtRecordLine]) -> (r: Vec<MtxtRecordLine>)
    ensures
        lines_view(r@) == merge_spec(lines_view(records@)),
{
    let ghost sv = lines_view(records@);
    let mut out: Vec<MtxtRecordLine> = Vec::new();
    let mut pending: Vec<(u16, NoteKey, usize)> = Vec::new();
    let mut current: u16 = 0;
    let mut i: usize = 0;
    assert(sv.skip(0) == sv);
    assert(lines_view(out@) =~= Seq::<LineView>::empty());
    assert(pending_view(pending@) =~= Seq::<(u16, KeyView, int)>::empty());
    while i < records.len()
        invariant
            i <= records.len(),
            sv == lines_view(records@),
            forall|j: int| 0 <= j < pending@.len() ==> (#[trigger] pending@[j]).2 < out@.len(),
            merge_from(
                sv.skip(i as int),
                MergeState { out: lines_view(out@), pending: pending_view(pending@), channel: current },
            ).out == merge_spec(sv),
        decreases records.len() - i,
    {
        proof {
            lemma_skip_step(sv, i as int);
        }
        let line = &records[i];
        let ghost st = MergeState {
            out: lines_view(out@),
            pending: pending_view(pending@),
            channel: current,
        };
        if let MtxtRecord::ChannelDirective { channel } = &line.record {
            current = *channel;
        }
        match &line.record {
            MtxtRecord::NoteOn { note, channel, .. } => {
                let c = match channel {
                    Some(c) => *c,
                    None => current,
                };
                let k = key_of(note);
                let mut np = remove_pending(&pending, c, &k);
                let ghost removed = pending_view(np@);
                np.push((c, k, out.len()));
                assert(pending_view(np@) =~= removed.push((c, k@, out@.len() as int)));
                pending = np;
                let ghost before = out@;
                out.push(line.copy());
                assert(lines_view(out@) =~= lines_view(before).push(line@));
                proof {
                    assert forall|j: int| 0 <= j < pending@.len() implies (#[trigger] pending@[j]).2
                        < out@.len() by {
                        if j < pending@.len() - 1 {
                            assert(pending_view(pending@)[j] == removed[j]);
                            lemma_pend_remove_from(st.pending, c, k@, j);
                        }
                    }
                }
            },
            MtxtRecord::NoteOff { time: off_time, note, off_velocity, channel } => {
                let c = match channel {
                    Some(c) => *c,
                    None => current,
                };
                let k = key_of(note);
                match find_pending(&pending, c, &k) {
                    Some(idx) => {
                        proof {
                            lemma_pend_find_in(pending_view(pending@), c, k@);
                        }
                        let ghost ji = choose|j: int|
                            0 <= j < pending_view(pending@).len() && pending_view(pending@)[j].2
                                == idx as int;
                        assert(pending@[ji].2 == idx);
                        let ghost before = out@;
                        let replacement = match &out[idx].record {
                            MtxtRecord::NoteOn { time: on_time, velocity, channel: on_channel, .. } =>
                                Some(
                                MtxtRecordLine {
                                    record: MtxtRecord::Note {
                                        time: *on_time,
                                        note: note.copy(),
                                        duration: Some(off_time.sub(*on_time)),
                                        velocity: *velocity,
                                        off_velocity: *off_velocity,
                                        channel: *on_channel,
                                    },
                                    comment: match &out[idx].comment {
                                        Some(cm) => Some(cm.clone()),
                                        None => None,
                                    },
                                },
                            ),
                            _ => None,
                        };
                        if let Some(rep) = replacement {
                            out.remove(idx);
                            out.insert(idx, rep);
                            assert(lines_view(out@) =~= merged_at(lines_view(before), idx as int, line@));
                        } else {
                            assert(lines_view(out@) =~= merged_at(lines_view(before), idx as int, line@));
                        }
                        let ghost old_p = pending_view(pending@);
                        pending = remove_pending(&pending, c, &k);
                        proof {
                            assert forall|j: int| 0 <= j < pending@.len() implies (
                            #[trigger] pending@[j]).2 < out@.len() by {
                                lemma_pend_remove_from(old_p, c, k@, j);
                            }
                        }
                    },
                    None => {
                        let ghost before = out@;
                        out.push(line.copy());
                        assert(lines_view(out@) =~= lines_view(before).push(line@));
                    },
                }
            },
            _ => {
                let ghost before = out@;
                out.push(line.copy());
                assert(lines_view(out@) =~= lines_view(before).push(line@));
            },
        }
        assert(merge_step(st, sv[i as int]) == MergeState {
            out: lines_view(out@),
            pending: pending_view(pending@),
            channel: current,
        });
        i += 1;
    }
    out
}

proof fn lemma_pend_find_in(p: Pending, ch: u16, k: KeyView)
    requires
        pend_find(p, ch, k) is Some,
    ensures
        exists|j: int| 0 <= j < p.len() && p[j].2 == pend_find(p, ch, k)->Some_0,
    decreases p.len(),
{
    if !(p.last().0 == ch && p.last().1 == k) {
        lemma_pend_find_in(p.drop_last(), ch, k);
        let j = choose|j: int|
            0 <= j < p.drop_last().len() && p.drop_last()[j].2 == pend_find(p, ch, k)->Some_0;
        assert(p[j] == p.drop_last()[j]);
    } else {
        assert(p[p.len() - 1].2 == pend_find(p, ch, k)->Some_0);
    }
}

proof fn lemma_pend_remove_from(p: Pending, ch: u16, k: KeyView, j: int)
    requires
        0 <= j < pend_remove(p, ch, k).len(),
    ensures
        exists|m: int| 0 <= m < p.len() && p[m] == pend_remove(p, ch, k)[j],
    decreases p.len(),
{
    let q = pend_remove(p.drop_last(), ch, k);
    if p.last().0 == ch && p.last().1 == k {
        lemma_pend_remove_from(p.drop_last(), ch, k, j);
        let m = choose|m: int| 0 <= m < p.drop_last().len() && p.drop_last()[m] == q[j];
        assert(p[m] == p.drop_last()[m]);
    } else if j < q.len() {
        lemma_pend_remove_from(p.drop_last(), ch, k, j);
        let m = choose|m: int| 0 <= m < p.drop_last().len() && p.drop_last()[m] == q[j];
        assert(p[m] == p.drop_last()[m]);
    } else {
        assert(pend_remove(p, ch, k)[j] == p.last());
        assert(p[p.len() - 1] == p.last());
    }
}

/// The channel that channel directives before position `i` leave in force (0 before any).
pub open spec fn channel_at(s: Seq<LineView>, i: int) -> u16
    decreases i,
{
    if i <= 0 || i > s.len() {
        0
    } else {
        match s[i - 1].record {
            RecordView::ChannelDirective { channel } => channel,
            _ => channel_at(s, i - 1),
        }
    }
}

/// `n` is the note made of the note-on `s[i]` and the note-off `s[j]`, which
/// share effective channel and note.
pub open spec fn merged_from(s: Seq<LineView>, i: int, j: int, n: LineView) -> bool {
    &&& 0 <= i < j < s.len()
    &&& match (s[i].record, s[j].record) {
        (
            RecordView::NoteOn { time: on_time, note: on_note, velocity, channel: on_channel },
            RecordView::NoteOff { time: off_time, note: off_note, off_velocity, channel: off_channel },
        ) => {
            &&& eff_channel(on_channel, channel_at(s, i)) == eff_channel(off_channel, channel_at(s, j))
            &&& target_key(on_note) == target_key(off_note)
            &&& n.record == RecordView::Note {
                time: on_time,
                note: off_note,
                duration: Some(
                    BeatTime {
                        repr: if off_time.repr >= on_time.repr {
                            (off_time.repr - on_time.repr) as u64
                        } else {
                            0
                        },
                    },
                ),
                velocity,
                off_velocity,
                channel: on_channel,
            }
        },
        _ => false,
    }
}

/// The state after the first `m` lines.
pub open spec fn merge_prefix(s: Seq<LineView>, m: int) -> MergeState
    decreases m,
{
    if m <= 0 || m > s.len() {
        MergeState { out: Seq::empty(), pending: Seq::empty(), channel: 0 }
    } else {
        merge_step(merge_prefix(s, m - 1), s[m - 1])
    }
}

pub open spec fn no_notes(s: Seq<LineView>) -> bool {
    forall|i: int| 0 <= i < s.len() ==> !((#[trigger] s[i]).record is Note)
}

pub open spec fn merge_inv(s: Seq<LineView>, m: int, st: MergeState) -> bool {
    &&& st.channel == channel_at(s, m)
    &&& forall|k: int|
        0 <= k < st.out.len() && (#[trigger] st.out[k]).record is Note ==> exists|i: int, j: int|
            j < m && merged_from(s, i, j, st.out[k])
    &&& forall|q: int|
        0 <= q < st.pending.len() ==> {
            let e = #[trigger] st.pending[q];
            &&& 0 <= e.2 < st.out.len()
            &&& st.out[e.2].record is NoteOn ==> exists|i: int|
                0 <= i < m && s[i] == st.out[e.2] && match s[i].record {
                    RecordView::NoteOn { note, channel, .. } => eff_channel(
                        channel,
                        channel_at(s, i),
                    ) == e.0 && target_key(note) == e.1,
                    _ => false,
                }
        }
}

proof fn lemma_pend_find_entry(p: Pending, ch: u16, k: KeyView)
    requires
        pend_find(p, ch, k) is Some,
    ensures
        exists|q: int| 0 <= q < p.len() && p[q] == (ch, k, pend_find(p, ch, k)->Some_0),
    decreases p.len(),
{
    if !(p.last().0 == ch && p.last().1 == k) {
        lemma_pend_find_entry(p.drop_last(), ch, k);
        let q = choose|q: int|
            0 <= q < p.drop_last().len() && p.drop_last()[q] == (ch, k, pend_find(p, ch, k)->Some_0);
        assert(p[q] == p.drop_last()[q]);
    } else {
        assert(p[p.len() - 1] == (ch, k, pend_find(p, ch, k)->Some_0));
    }
}

proof fn lemma_merge_inv(s: Seq<LineView>, m: int)
    requires
        0 <= m <= s.len(),
        no_notes(s),
    ensures
        merge_inv(s, m, merge_prefix(s, m)),
    decreases m,
{
    if m > 0 {
        lemma_merge_inv(s, m - 1);
        let st = merge_prefix(s, m - 1);
        let l = s[m - 1];
        let nst = merge_step(st, l);
        assert(nst == merge_prefix(s, m));
        assert(!(l.record is Note));
        let ch = match l.record {
            RecordView::ChannelDirective { channel } => channel,
            _ => st.channel,
        };
        assert(nst.channel == channel_at(s, m));
        match l.record {
            RecordView::NoteOn { note, channel, .. } => {
                let c = eff_channel(channel, ch);
                let key = target_key(note);
                let rem = pend_remove(st.pending, c, key);
                assert forall|k: int|
                    0 <= k < nst.out.len() && (#[trigger] nst.out[k]).record is Note implies exists|
                    i: int,
                    j: int,
                | j < m && merged_from(s, i, j, nst.out[k]) by {
                    assert(nst.out[k] == st.out[k]);
                }
                assert forall|q: int| 0 <= q < nst.pending.len() implies {
                    let e = #[trigger] nst.pending[q];
                    &&& 0 <= e.2 < nst.out.len()
                    &&& nst.out[e.2].record is NoteOn ==> exists|i: int|
                        0 <= i < m && s[i] == nst.out[e.2] && match s[i].record {
                            RecordView::NoteOn { note, channel, .. } => eff_channel(
                                channel,
                                channel_at(s, i),
                            ) == e.0 && target_key(note) == e.1,
                            _ => false,
                        }
                } by {
                    if q < rem.len() {
                        lemma_pend_remove_from(st.pending, c, key, q);
                        let r = choose|r: int| 0 <= r < st.pending.len() && st.pending[r] == rem[q];
                        assert(st.pending[r] == nst.pending[q]);
                        let e = st.pending[r];
                        assert(nst.out[e.2] == st.out[e.2]);
                    } else {
                        assert(nst.pending[q] == (c, key, st.out.len() as int));
                        assert(nst.out[st.out.len() as int] == s[m - 1]);
                        assert(channel_at(s, m - 1) == st.channel);
                    }
                }
            },
            RecordView::NoteOff { note, channel, .. } => {
                let c = eff_channel(channel, ch);
                let key = target_key(note);
                match pend_find(st.pending, c, key) {
                    Some(idx) => {
                        lemma_pend_find_entry(st.pending, c, key);
                        let q0 = choose|q: int|
                            0 <= q < st.pending.len() && st.pending[q] == (c, key, idx);
                        assert(0 <= idx < st.out.len());
                        let rem = pend_remove(st.pending, c, key);
                        if st.out[idx].record is NoteOn {
                            let i0 = choose|i: int|
                                0 <= i < m - 1 && s[i] == st.out[idx] && match s[i].record {
                                    RecordView::NoteOn { note, channel, .. } => eff_channel(
                                        channel,
                                        channel_at(s, i),
                                    ) == c && target_key(note) == key,
                                    _ => false,
                                };
                            assert(channel_at(s, m - 1) == st.channel);
                            assert(merged_from(s, i0, m - 1, nst.out[idx]));
                        }
                        assert forall|k: int|
                            0 <= k < nst.out.len() && (#[trigger] nst.out[k]).record is Note implies exists|
                            i: int,
                            j: int,
                        | j < m && merged_from(s, i, j, nst.out[k]) by {
                            if k != idx || !(st.out[idx].record is NoteOn) {
                                assert(nst.out[k] == st.out[k]);
                            }
                        }
                        assert forall|q: int| 0 <= q < nst.pending.len() implies {
                            let e = #[trigger] nst.pending[q];
                            &&& 0 <= e.2 < nst.out.len()
                            &&& nst.out[e.2].record is NoteOn ==> exists|i: int|
                                0 <= i < m && s[i] == nst.out[e.2] && match s[i].record {
                                    RecordView::NoteOn { note, channel, .. } => eff_channel(
                                        channel,
                                        channel_at(s, i),
                                    ) == e.0 && target_key(note) == e.1,
                                    _ => false,
                                }
                        } by {
                            lemma_pend_remove_from(st.pending, c, key, q);
                            let r = choose|r: int|
                                0 <= r < st.pending.len() && st.pending[r] == rem[q];
                            let e = st.pending[r];
                            if e.2 != idx || !(st.out[idx].record is NoteOn) {
                                assert(nst.out[e.2] == st.out[e.2]);
                            }
                        }
                    },
                    None => {
                        assert forall|k: int|
                            0 <= k < nst.out.len() && (#[trigger] nst.out[k]).record is Note implies exists|
                            i: int,
                            j: int,
                        | j < m && merged_from(s, i, j, nst.out[k]) by {
                            assert(nst.out[k] == st.out[k]);
                        }
                        assert forall|q: int| 0 <= q < nst.pending.len() implies {
                            let e = #[trigger] nst.pending[q];
                            &&& 0 <= e.2 < nst.out.len()
                            &&& nst.out[e.2].record is NoteOn ==> exists|i: int|
                                0 <= i < m && s[i] == nst.out[e.2] && match s[i].record {
                                    RecordView::NoteOn { note, channel, .. } => eff_channel(
                                        channel,
                                        channel_at(s, i),
                                    ) == e.0 && target_key(note) == e.1,
                                    _ => false,
                                }
                        } by {
                            let e = st.pending[q];
                            assert(nst.out[e.2] == st.out[e.2]);
                        }
                    },
                }
            },
            _ => {
                assert forall|k: int|
                    0 <= k < nst.out.len() && (#[trigger] nst.out[k]).record is Note implies exists|
                    i: int,
                    j: int,
                | j < m && merged_from(s, i, j, nst.out[k]) by {
                    assert(nst.out[k] == st.out[k]);
                }
                assert forall|q: int| 0 <= q < nst.pending.len() implies {
                    let e = #[trigger] nst.pending[q];
                    &&& 0 <= e.2 < nst.out.len()
                    &&& nst.out[e.2].record is NoteOn ==> exists|i: int|
                        0 <= i < m && s[i] == nst.out[e.2] && match s[i].record {
                            RecordView::NoteOn { note, channel, .. } => eff_channel(
                                channel,
                                channel_at(s, i),
                            ) == e.0 && target_key(note) == e.1,
                            _ => false,
                        }
                } by {
                    let e = st.pending[q];
                    assert(nst.out[e.2] == st.out[e.2]);
                }
            },
        }
    }
}

proof fn lemma_merge_prefix_rest(s: Seq<LineView>, m: int)
    requires
        0 <= m <= s.len(),
    ensures
        merge_from(s.skip(m), merge_prefix(s, m)) == merge_from(
            s,
            MergeState { out: Seq::empty(), pending: Seq::empty(), channel: 0 },
        ),
    decreases m,
{
    if m == 0 {
        assert(s.skip(0) == s);
    } else {
        lemma_merge_prefix_rest(s, m - 1);
        assert(s.skip(m - 1).drop_first() == s.skip(m));
        assert(s.skip(m - 1)[0] == s[m - 1]);
    }
}

/// In a stream of note-on and note-off events (no notes yet), every note that
/// merging produces starts at a note-on and lasts until a later note-off of
/// the same effective channel and note (see `merged_from`).
pub proof fn lemma_merge_sound(s: Seq<LineView>)
    requires
        no_notes(s),
    ensures
        forall|k: int|
            0 <= k < merge_spec(s).len() && (#[trigger] merge_spec(s)[k]).record is Note ==> exists|
                i: int,
                j: int,
            | merged_from(s, i, j, merge_spec(s)[k]),
{
    lemma_merge_inv(s, s.len() as int);
    lemma_merge_prefix_rest(s, s.len() as int);
    assert(s.skip(s.len() as int).len() == 0);
}

} // verus!
