use crate::note::{
    lemma_transpose_additive, lemma_transpose_zero, transposable, transposed, AliasDefinition, AliasView, Note, NoteTarget,
    TargetView,
};
use crate::record::{lines_view, LineView, MtxtRecord, MtxtRecordLine, RecordView};
use crate::transforms::apply::lemma_skip_step;
use vstd::prelude::*;

verus! {

pub open spec fn transposed_alias(d: AliasView, amount: int) -> AliasView {
    AliasView { name: d.name, notes: d.notes.map_values(|n: Note| transposed(n, amount)) }
}

pub open spec fn alias_transposable(d: AliasView, amount: int) -> bool {
    forall|i: int| 0 <= i < d.notes.len() ==> transposable(#[trigger] d.notes[i], amount)
}

pub open spec fn target_transposable(t: TargetView, amount: int) -> bool {
    match t {
        TargetView::Note(n) => transposable(n, amount),
        TargetView::AliasKey(_) => true,
        TargetView::Alias(d) => alias_transposable(d, amount),
    }
}

/// Whether every note of the record stays within the representable octaves
/// when moved by `amount` semitones.
pub open spec fn record_transposable(r: RecordView, amount: int) -> bool {
    match r {
        RecordView::AliasDef { value } => alias_transposable(value, amount),
        RecordView::Note { note, .. } => target_transposable(note, amount),
        RecordView::NoteOn { note, .. } => target_transposable(note, amount),
        RecordView::NoteOff { note, .. } => target_transposable(note, amount),
        RecordView::ControlChange { note: Some(t), .. } => target_transposable(t, amount),
        _ => true,
    }
}

pub open spec fn lines_transposable(s: Seq<LineView>, amount: int) -> bool {
    forall|i: int| 0 <= i < s.len() ==> record_transposable(#[trigger] s[i].record, amount)
}

/// A target moved by `amount`; a resolved alias is replaced by the moved copy of
/// a definition already met in the list (`seen`), and kept otherwise.
pub open spec fn transposed_target(t: TargetView, amount: int, seen: Set<AliasView>) -> TargetView {
    match t {
        TargetView::Note(n) => TargetView::Note(transposed(n, amount)),
        TargetView::AliasKey(k) => TargetView::AliasKey(k),
        TargetView::Alias(d) => if seen.contains(d) {
            TargetView::Alias(transposed_alias(d, amount))
        } else {
            TargetView::Alias(d)
        },
    }
}

pub open spec fn transposed_record(r: RecordView, amount: int, seen: Set<AliasView>) -> RecordView {
    match r {
        RecordView::AliasDef { value } => RecordView::AliasDef {
            value: transposed_alias(value, amount),
        },
        RecordView::Note { time, note, duration, velocity, off_velocity, channel } =>
            RecordView::Note {
            time,
            note: transposed_target(note, amount, seen),
            duration,
            velocity,
            off_velocity,
            channel,
        },
        RecordView::NoteOn { time, note, velocity, channel } => RecordView::NoteOn {
            time,
            note: transposed_target(note, amount, seen),
            velocity,
            channel,
        },
        RecordView::NoteOff { time, note, off_velocity, channel } => RecordView::NoteOff {
            time,
            note: transposed_target(note, amount, seen),
            off_velocity,
            channel,
        },
        RecordView::ControlChange {
            time,
            note,
            controller,
            value,
            channel,
            transition_curve,
            transition_time,
            transition_interval,
        } => RecordView::ControlChange {
            time,
            note: match note {
                Some(t) => Some(transposed_target(t, amount, seen)),
                None => None,
            },
            controller,
            value,
            channel,
            transition_curve,
            transition_time,
            transition_interval,
        },
        _ => r,
    }
}

pub open spec fn next_seen(seen: Set<AliasView>, r: RecordView) -> Set<AliasView> {
    match r {
        RecordView::AliasDef { value } => seen.insert(value),
        _ => seen,
    }
}

pub open spec fn transpose_from(s: Seq<LineView>, amount: int, seen: Set<AliasView>) -> Seq<
    LineView,
>
    decreases s.len(),
{
    if s.len() == 0 {
        Seq::empty()
    } else {
        seq![
            LineView {
                record: transposed_record(s[0].record, amount, seen),
                comment: s[0].comment,
            },
        ] + transpose_from(s.drop_first(), amount, next_seen(seen, s[0].record))
    }
}

/// Every line moved by `amount` semitones.
pub open spec fn transpose_spec(s: Seq<LineView>, amount: int) -> Seq<LineView> {
    transpose_from(s, amount, Set::empty())
}

fn transpose_notes(v: &Vec<Note>, amount: i32) -> (r: Vec<Note>)
    requires
        forall|i: int| 0 <= i < v@.len() ==> transposable(#[trigger] v@[i], amount as int),
    ensures
        r@ == v@.map_values(|n: Note| transposed(n, amount as int)),
{
    let mut out: Vec<Note> = Vec::new();
    let mut i: usize = 0;
    while i < v.len()
        invariant
            i <= v.len(),
            forall|i: int| 0 <= i < v@.len() ==> transposable(#[trigger] v@[i], amount as int),
            out@.len() == i,
            forall|j: int| 0 <= j < i ==> out@[j] == transposed(#[trigger] v@[j], amount as int),
        decreases v.len() - i,
    {
        out.push(v[i].transpose(amount));
        i += 1;
    }
    assert(out@ =~= v@.map_values(|n: Note| transposed(n, amount as int)));
    out
}

fn transpose_alias(d: &AliasDefinition, amount: i32) -> (r: AliasDefinition)
    requires
        alias_transposable(d@, amount as int),
    ensures
        r@ == transposed_alias(d@, amount as int),
{
    assert(d@.notes == d.notes@);
    AliasDefinition { name: d.name.clone(), notes: transpose_notes(&d.notes, amount) }
}

fn same_alias(a: &AliasDefinition, b: &AliasDefinition) -> (r: bool)
    ensures
        r == (a@ == b@),
{
    if a.name != b.name || a.notes.len() != b.notes.len() {
        return false;
    }
    let mut i: usize = 0;
    while i < a.notes.len()
        invariant
            i <= a.notes.len() == b.notes.len(),
            a.name@ == b.name@,
            forall|j: int| 0 <= j < i ==> a.notes@[j] == b.notes@[j],
        decreases a.notes.len() - i,
    {
        if a.notes[i] != b.notes[i] {
            return false;
        }
        i += 1;
    }
    assert(a.notes@ =~= b.notes@);
    true
}

fn is_seen(seen: &Vec<AliasDefinition>, d: &AliasDefinition) -> (r: bool)
    ensures
        r == seen@.map_values(|x: AliasDefinition| x@).contains(d@),
{
    let ghost sv = seen@.map_values(|x: AliasDefinition| x@);
    let mut i: usize = 0;
    while i < seen.len()
        invariant
            i <= seen.len(),
            sv == seen@.map_values(|x: AliasDefinition| x@),
            forall|j: int| 0 <= j < i ==> sv[j] != d@,
        decreases seen.len() - i,
    {
        if same_alias(&seen[i], d) {
            assert(sv[i as int] == d@);
            return true;
        }
        i += 1;
    }
    false
}

fn transpose_target(target: &NoteTarget, amount: i32, seen: &Vec<AliasDefinition>) -> (r:
    NoteTarget)
    requires
        target_transposable(target@, amount as int),
    ensures
        r@ == transposed_target(
            target@,
            amount as int,
            seen@.map_values(|x: AliasDefinition| x@).to_set(),
        ),
{
    match target {
        NoteTarget::Note(n) => NoteTarget::Note(n.transpose(amount)),
        NoteTarget::AliasKey(k) => NoteTarget::AliasKey(k.clone()),
        NoteTarget::Alias(d) => {
            if is_seen(seen, d) {
                NoteTarget::Alias(transpose_alias(d, amount))
            } else {
                NoteTarget::Alias(d.copy())
            }
        },
    }
}

fn transpose_record(r: &MtxtRecord, amount: i32, seen: &Vec<AliasDefinition>) -> (o: MtxtRecord)
    requires
        record_transposable(r@, amount as int),
    ensures
        o@ == transposed_record(
            r@,
            amount as int,
            seen@.map_values(|x: AliasDefinition| x@).to_set(),
        ),
{
    match r {
        MtxtRecord::AliasDef { value } => MtxtRecord::AliasDef {
            value: transpose_alias(value, amount),
        },
        MtxtRecord::Note { time, note, duration, velocity, off_velocity, channel } =>
            MtxtRecord::Note {
            time: *time,
            note: transpose_target(note, amount, seen),
            duration: *duration,
            velocity: *velocity,
            off_velocity: *off_velocity,
            channel: *channel,
        },
        MtxtRecord::NoteOn { time, note, velocity, channel } => MtxtRecord::NoteOn {
            time: *time,
            note: transpose_target(note, amount, seen),
            velocity: *velocity,
            channel: *channel,
        },
        MtxtRecord::NoteOff { time, note, off_velocity, channel } => MtxtRecord::NoteOff {
            time: *time,
            note: transpose_target(note, amount, seen),
            off_velocity: *off_velocity,
            channel: *channel,
        },
        MtxtRecord::ControlChange {
            time,
            note,
            controller,
            value,
            channel,
            transition_curve,
            transition_time,
            transition_interval,
        } => MtxtRecord::ControlChange {
            time: *time,
            note: match note {
                Some(t) => Some(transpose_target(t, amount, seen)),
                None => None,
            },
            controller: controller.clone(),
            value: *value,
            channel: *channel,
            transition_curve: *transition_curve,
            transition_time: *transition_time,
            transition_interval: *transition_interval,
        },
        _ => r.copy(),
    }
}

/// Moves every note by `amount` semitones: notes of note, note on/off and
/// controller events, and the notes of alias definitions. A reference to an
/// alias definition met earlier in the list is replaced by its moved copy.
pub fn transform(records: &[MtxtRecordLine], amount: i32) -> (r: Vec<MtxtRecordLine>)
    requires
        lines_transposable(lines_view(records@), amount as int),
    ensures
        lines_view(r@) == transpose_spec(lines_view(records@), amount as int),
{
    if amount == 0 {
        proof {
            lemma_transpose_by_zero(lines_view(records@));
        }
        return crate::record::copy_lines(records);
    }
    let ghost sv = lines_view(records@);
    let mut seen: Vec<AliasDefinition> = Vec::new();
    let mut out: Vec<MtxtRecordLine> = Vec::new();
    let mut i: usize = 0;
    assert(sv.skip(0) == sv);
    assert(seen@.map_values(|x: AliasDefinition| x@).to_set() =~= Set::<AliasView>::empty());
    while i < records.len()
        invariant
            i <= records.len(),
            sv == lines_view(records@),
            lines_transposable(sv, amount as int),
            lines_view(out@) + transpose_from(
                sv.skip(i as int),
                amount as int,
                seen@.map_values(|x: AliasDefinition| x@).to_set(),
            ) == transpose_spec(sv, amount as int),
        decreases records.len() - i,
    {
        let line = &records[i];
        proof {
            lemma_skip_step(sv, i as int);
        }
        assert(record_transposable(sv[i as int].record, amount as int));
        let ghost old_out = out@;
        let ghost old_seen = seen@.map_values(|x: AliasDefinition| x@).to_set();
        let rec = transpose_record(&line.record, amount, &seen);
        let comment = match &line.comment {
            Some(c) => Some(c.clone()),
            None => None,
        };
        out.push(MtxtRecordLine { record: rec, comment });
        if let MtxtRecord::AliasDef { value } = &line.record {
            let ghost before = seen@;
            seen.push(value.copy());
            assert(seen@.map_values(|x: AliasDefinition| x@) =~= before.map_values(
                |x: AliasDefinition| x@,
            ).push(value@));
            proof {
                before.map_values(|x: AliasDefinition| x@).lemma_push_to_set_commute(value@);
            }
            assert(seen@.map_values(|x: AliasDefinition| x@).to_set() =~= old_seen.insert(
                value@,
            ));
        }
        proof {
            assert(lines_view(out@) =~= lines_view(old_out).push(out@[out@.len() - 1]@));
            assert(lines_view(out@) + transpose_from(
                sv.skip(i + 1),
                amount as int,
                seen@.map_values(|x: AliasDefinition| x@).to_set(),
            ) =~= lines_view(old_out) + transpose_from(sv.skip(i as int), amount as int, old_seen));
        }
        i += 1;
    }
    assert(lines_view(out@) + Seq::<LineView>::empty() == lines_view(out@));
    out
}

proof fn lemma_alias_by_zero(d: AliasView)
    ensures
        alias_transposable(d, 0),
        transposed_alias(d, 0) == d,
{
    assert forall|i: int| 0 <= i < d.notes.len() implies transposable(#[trigger] d.notes[i], 0) by {
        lemma_transpose_zero(d.notes[i]);
    }
    assert forall|i: int| 0 <= i < d.notes.len() implies #[trigger] transposed(d.notes[i], 0)
        == d.notes[i] by {
        lemma_transpose_zero(d.notes[i]);
    }
    assert(d.notes.map_values(|n: Note| transposed(n, 0)) =~= d.notes);
}

proof fn lemma_target_by_zero(t: TargetView, seen: Set<AliasView>)
    ensures
        target_transposable(t, 0),
        transposed_target(t, 0, seen) == t,
{
    match t {
        TargetView::Note(n) => lemma_transpose_zero(n),
        TargetView::AliasKey(_) => {},
        TargetView::Alias(d) => lemma_alias_by_zero(d),
    }
}

proof fn lemma_transpose_from_zero(s: Seq<LineView>, seen: Set<AliasView>)
    ensures
        lines_transposable(s, 0),
        transpose_from(s, 0, seen) == s,
    decreases s.len(),
{
    if s.len() > 0 {
        let r = s[0].record;
        lemma_transpose_from_zero(s.drop_first(), next_seen(seen, r));
        match r {
            RecordView::AliasDef { value } => lemma_alias_by_zero(value),
            RecordView::Note { note, .. } => lemma_target_by_zero(note, seen),
            RecordView::NoteOn { note, .. } => lemma_target_by_zero(note, seen),
            RecordView::NoteOff { note, .. } => lemma_target_by_zero(note, seen),
            RecordView::ControlChange { note, .. } => {
                if let Some(t) = note {
                    lemma_target_by_zero(t, seen);
                }
            },
            _ => {},
        }
        assert(transposed_record(r, 0, seen) == r);
        assert(transpose_from(s, 0, seen) =~= s);
        assert forall|i: int| 0 <= i < s.len() implies record_transposable(
            #[trigger] s[i].record,
            0,
        ) by {
            if i > 0 {
                assert(s[i] == s.drop_first()[i - 1]);
            }
        }
    }
}

/// Transposing by zero semitones changes nothing.
pub proof fn lemma_transpose_by_zero(s: Seq<LineView>)
    ensures
        lines_transposable(s, 0),
        transpose_spec(s, 0) == s,
{
    lemma_transpose_from_zero(s, Set::empty());
}

fn notes_transposable(v: &Vec<Note>, amount: i32) -> (b: bool)
    ensures
        b == forall|i: int| 0 <= i < v@.len() ==> transposable(#[trigger] v@[i], amount as int),
{
    let mut i: usize = 0;
    while i < v.len()
        invariant
            i <= v.len(),
            forall|j: int| 0 <= j < i ==> transposable(#[trigger] v@[j], amount as int),
        decreases v.len() - i,
    {
        if !v[i].can_transpose(amount) {
            return false;
        }
        i += 1;
    }
    true
}

fn target_transposable_exec(t: &NoteTarget, amount: i32) -> (b: bool)
    ensures
        b == target_transposable(t@, amount as int),
{
    match t {
        NoteTarget::Note(n) => n.can_transpose(amount),
        NoteTarget::AliasKey(_) => true,
        NoteTarget::Alias(d) => {
            assert(d@.notes == d.notes@);
            notes_transposable(&d.notes, amount)
        },
    }
}

/// Whether every note of the record can move by `amount` (see `record_transposable`).
pub fn record_transposable_exec(r: &MtxtRecord, amount: i32) -> (b: bool)
    ensures
        b == record_transposable(r@, amount as int),
{
    match r {
        MtxtRecord::AliasDef { value } => {
            assert(value@.notes == value.notes@);
            notes_transposable(&value.notes, amount)
        },
        MtxtRecord::Note { note, .. } => target_transposable_exec(note, amount),
        MtxtRecord::NoteOn { note, .. } => target_transposable_exec(note, amount),
        MtxtRecord::NoteOff { note, .. } => target_transposable_exec(note, amount),
        MtxtRecord::ControlChange { note: Some(t), .. } => target_transposable_exec(t, amount),
        _ => true,
    }
}

/// A target that is a note or an alias name, not a resolved alias definition.
pub open spec fn target_plain(t: TargetView) -> bool {
    !(t is Alias)
}

pub open spec fn record_plain(r: RecordView) -> bool {
    match r {
        RecordView::Note { note, .. } => target_plain(note),
        RecordView::NoteOn { note, .. } => target_plain(note),
        RecordView::NoteOff { note, .. } => target_plain(note),
        RecordView::ControlChange { note: Some(t), .. } => target_plain(t),
        _ => true,
    }
}

pub open spec fn lines_plain(s: Seq<LineView>) -> bool {
    forall|i: int| 0 <= i < s.len() ==> record_plain(#[trigger] s[i].record)
}

proof fn lemma_alias_twice(d: AliasView, a: int, b: int)
    requires
        alias_transposable(d, a),
        alias_transposable(d, a + b),
    ensures
        alias_transposable(transposed_alias(d, a), b),
        transposed_alias(transposed_alias(d, a), b) == transposed_alias(d, a + b),
{
    let once = transposed_alias(d, a);
    assert forall|i: int| 0 <= i < once.notes.len() implies transposable(#[trigger] once.notes[i], b)
        by {
        assert(transposable(d.notes[i], a));
        lemma_transpose_additive(d.notes[i], a, b);
    }
    assert forall|i: int| 0 <= i < d.notes.len() implies #[trigger] transposed(
        transposed(d.notes[i], a),
        b,
    ) == transposed(d.notes[i], a + b) by {
        assert(transposable(d.notes[i], a));
        lemma_transpose_additive(d.notes[i], a, b);
    }
    assert(transposed_alias(once, b).notes =~= transposed_alias(d, a + b).notes);
}

proof fn lemma_target_twice(t: TargetView, a: int, b: int, x: Set<AliasView>, y: Set<AliasView>, z: Set<AliasView>)
    requires
        target_plain(t),
        target_transposable(t, a),
        target_transposable(t, a + b),
    ensures
        target_plain(transposed_target(t, a, x)),
        target_transposable(transposed_target(t, a, x), b),
        transposed_target(transposed_target(t, a, x), b, y) == transposed_target(t, a + b, z),
{
    if let TargetView::Note(n) = t {
        lemma_transpose_additive(n, a, b);
    }
}

proof fn lemma_record_twice(r: RecordView, a: int, b: int, x: Set<AliasView>, y: Set<AliasView>, z: Set<AliasView>)
    requires
        record_plain(r),
        record_transposable(r, a),
        record_transposable(r, a + b),
    ensures
        record_plain(transposed_record(r, a, x)),
        record_transposable(transposed_record(r, a, x), b),
        transposed_record(transposed_record(r, a, x), b, y) == transposed_record(r, a + b, z),
{
    match r {
        RecordView::AliasDef { value } => lemma_alias_twice(value, a, b),
        RecordView::Note { note, .. } => lemma_target_twice(note, a, b, x, y, z),
        RecordView::NoteOn { note, .. } => lemma_target_twice(note, a, b, x, y, z),
        RecordView::NoteOff { note, .. } => lemma_target_twice(note, a, b, x, y, z),
        RecordView::ControlChange { note, .. } => {
            if let Some(t) = note {
                lemma_target_twice(t, a, b, x, y, z);
            }
        },
        _ => {},
    }
}

proof fn lemma_from_twice(s: Seq<LineView>, a: int, b: int, x: Set<AliasView>, y: Set<AliasView>, z: Set<AliasView>)
    requires
        lines_plain(s),
        lines_transposable(s, a),
        lines_transposable(s, a + b),
    ensures
        lines_transposable(transpose_from(s, a, x), b),
        transpose_from(transpose_from(s, a, x), b, y) == transpose_from(s, a + b, z),
    decreases s.len(),
{
    if s.len() > 0 {
        let r = s[0].record;
        let t = s.drop_first();
        assert forall|i: int| 0 <= i < t.len() implies record_plain(#[trigger] t[i].record)
            && record_transposable(t[i].record, a) && record_transposable(t[i].record, a + b) by {
            assert(t[i] == s[i + 1]);
        }
        assert(record_plain(r) && record_transposable(r, a) && record_transposable(r, a + b));
        let once = transpose_from(s, a, x);
        let r1 = transposed_record(r, a, x);
        lemma_record_twice(r, a, b, x, y, z);
        lemma_from_twice(t, a, b, next_seen(x, r), next_seen(y, r1), next_seen(z, r));
        assert(once.drop_first() == transpose_from(t, a, next_seen(x, r)));
        assert forall|i: int| 0 <= i < once.len() implies record_transposable(
            #[trigger] once[i].record,
            b,
        ) by {
            if i > 0 {
                assert(once[i] == once.drop_first()[i - 1]);
            }
        }
        assert(transpose_from(once, b, y) =~= transpose_from(s, a + b, z));
    }
}

/// For lines whose targets are notes or alias names, transposing by `a` and
/// then by `b` equals transposing by `a + b`.
pub proof fn lemma_transpose_twice(s: Seq<LineView>, a: int, b: int)
    requires
        lines_plain(s),
        lines_transposable(s, a),
        lines_transposable(s, a + b),
    ensures
        lines_transposable(transpose_spec(s, a), b),
        transpose_spec(transpose_spec(s, a), b) == transpose_spec(s, a + b),
{
    lemma_from_twice(s, a, b, Set::empty(), Set::empty(), Set::empty());
}

} // verus!
