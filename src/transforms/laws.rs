use crate::record::{LineView, RecordView};
use crate::transforms::apply::{apply_from, apply_spec, empty_state, fill, is_directive, step_state, DirectiveState};
use crate::transforms::extract::{
    attr_directive, erase_attr, erase_line, extract_attr, extract_from, extract_spec, get_attr,
    run_end, set_count, Attr, AttrValue,
};
use vstd::prelude::*;

verus! {

/// Whether records of this kind carry attribute `a` (set or not).
pub open spec fn has_slot(a: Attr, r: RecordView) -> bool {
    match (a, r) {
        (Attr::Channel, RecordView::Note { .. }) => true,
        (Attr::Channel, RecordView::NoteOn { .. }) => true,
        (Attr::Channel, RecordView::NoteOff { .. }) => true,
        (Attr::Channel, RecordView::Voice { .. }) => true,
        (Attr::Velocity, RecordView::Note { .. }) => true,
        (Attr::Velocity, RecordView::NoteOn { .. }) => true,
        (Attr::OffVelocity, RecordView::Note { .. }) => true,
        (Attr::OffVelocity, RecordView::NoteOff { .. }) => true,
        (Attr::Duration, RecordView::Note { .. }) => true,
        (Attr::TransitionCurve, RecordView::ControlChange { .. }) => true,
        (Attr::TransitionCurve, RecordView::Tempo { .. }) => true,
        (Attr::TransitionInterval, RecordView::ControlChange { .. }) => true,
        (Attr::TransitionInterval, RecordView::Tempo { .. }) => true,
        _ => false,
    }
}

/// Every line that carries attribute `a` has it set.
pub open spec fn complete_for(a: Attr, s: Seq<LineView>) -> bool {
    forall|i: int| 0 <= i < s.len() && has_slot(a, #[trigger] s[i].record) ==> get_attr(a, s[i].record) is Some
}

/// Every line that carries any attribute has it set.
pub open spec fn complete(s: Seq<LineView>) -> bool {
    &&& complete_for(Attr::Channel, s)
    &&& complete_for(Attr::Velocity, s)
    &&& complete_for(Attr::OffVelocity, s)
    &&& complete_for(Attr::Duration, s)
    &&& complete_for(Attr::TransitionCurve, s)
    &&& complete_for(Attr::TransitionInterval, s)
}

pub open spec fn is_directive_of(a: Attr, r: RecordView) -> bool {
    match (a, r) {
        (Attr::Channel, RecordView::ChannelDirective { .. }) => true,
        (Attr::Velocity, RecordView::VelocityDirective { .. }) => true,
        (Attr::OffVelocity, RecordView::OffVelocityDirective { .. }) => true,
        (Attr::Duration, RecordView::DurationDirective { .. }) => true,
        (Attr::TransitionCurve, RecordView::TransitionCurveDirective { .. }) => true,
        (Attr::TransitionInterval, RecordView::TransitionIntervalDirective { .. }) => true,
        _ => false,
    }
}

pub open spec fn free_of(a: Attr, s: Seq<LineView>) -> bool {
    forall|i: int| 0 <= i < s.len() ==> !is_directive_of(a, #[trigger] s[i].record)
}

pub open spec fn fits(a: Attr, v: AttrValue) -> bool {
    match (a, v) {
        (Attr::Channel, AttrValue::Channel(_)) => true,
        (Attr::Velocity, AttrValue::Amount(_)) => true,
        (Attr::OffVelocity, AttrValue::Amount(_)) => true,
        (Attr::Duration, AttrValue::Time(_)) => true,
        (Attr::TransitionCurve, AttrValue::Amount(_)) => true,
        (Attr::TransitionInterval, AttrValue::Amount(_)) => true,
        _ => false,
    }
}

/// The running values with attribute `a` set to `v`.
pub open spec fn with_attr(st: DirectiveState, a: Attr, v: Option<AttrValue>) -> DirectiveState {
    match a {
        Attr::Channel => DirectiveState {
            channel: match v {
                Some(AttrValue::Channel(c)) => Some(c),
                _ => None,
            },
            ..st
        },
        Attr::Velocity => DirectiveState {
            velocity: match v {
                Some(AttrValue::Amount(d)) => Some(d),
                _ => None,
            },
            ..st
        },
        Attr::OffVelocity => DirectiveState {
            off_velocity: match v {
                Some(AttrValue::Amount(d)) => Some(d),
                _ => None,
            },
            ..st
        },
        Attr::Duration => DirectiveState {
            duration: match v {
                Some(AttrValue::Time(t)) => Some(t),
                _ => None,
            },
            ..st
        },
        Attr::TransitionCurve => DirectiveState {
            transition_curve: match v {
                Some(AttrValue::Amount(d)) => Some(d),
                _ => None,
            },
            ..st
        },
        Attr::TransitionInterval => DirectiveState {
            transition_interval: match v {
                Some(AttrValue::Amount(d)) => Some(d),
                _ => None,
            },
            ..st
        },
    }
}

/// The running values after all of `s`.
pub open spec fn fold_state(s: Seq<LineView>, st: DirectiveState) -> DirectiveState
    decreases s.len(),
{
    if s.len() == 0 {
        st
    } else {
        fold_state(s.drop_first(), step_state(st, s[0].record))
    }
}

proof fn lemma_get_fits(a: Attr, r: RecordView)
    ensures
        get_attr(a, r) matches Some(v) ==> fits(a, v),
        get_attr(a, r) is Some ==> has_slot(a, r),
        !has_slot(a, r) ==> erase_attr(a, r) == r,
        has_slot(a, r) ==> !is_directive(r) && get_attr(a, erase_attr(a, r)) is None,
        is_directive(erase_attr(a, r)) == is_directive(r),
{
}

proof fn lemma_fill_no_slot(a: Attr, r: RecordView, st: DirectiveState, x: Option<AttrValue>)
    requires
        !has_slot(a, r),
    ensures
        fill(r, with_attr(st, a, x)) == fill(r, with_attr(st, a, None)),
{
}

proof fn lemma_fill_set(a: Attr, r: RecordView, st: DirectiveState, x: Option<AttrValue>)
    requires
        get_attr(a, r) is Some,
    ensures
        fill(r, with_attr(st, a, x)) == fill(r, with_attr(st, a, None)),
{
}

proof fn lemma_fill_erased(a: Attr, r: RecordView, st: DirectiveState, v: AttrValue)
    requires
        get_attr(a, r) == Some(v),
    ensures
        fill(erase_attr(a, r), with_attr(st, a, Some(v))) == fill(r, with_attr(st, a, None)),
{
}

proof fn lemma_step_other(a: Attr, r: RecordView, st: DirectiveState, x: Option<AttrValue>)
    requires
        !is_directive_of(a, r),
    ensures
        step_state(with_attr(st, a, x), r) == with_attr(step_state(st, r), a, x),
{
}

proof fn lemma_step_erased(a: Attr, r: RecordView, st: DirectiveState)
    ensures
        step_state(st, erase_attr(a, r)) == step_state(st, r),
{
}

proof fn lemma_step_directive(a: Attr, v: AttrValue, st: DirectiveState)
    requires
        fits(a, v),
    ensures
        step_state(st, attr_directive(a, v)) == with_attr(st, a, Some(v)),
        is_directive(attr_directive(a, v)),
{
}

proof fn lemma_apply_concat(x: Seq<LineView>, y: Seq<LineView>, st: DirectiveState)
    ensures
        apply_from(x + y, st) == apply_from(x, st) + apply_from(y, fold_state(x, st)),
    decreases x.len(),
{
    if x.len() == 0 {
        assert(x + y == y);
    } else {
        assert((x + y).drop_first() == x.drop_first() + y);
        assert((x + y)[0] == x[0]);
        lemma_apply_concat(x.drop_first(), y, step_state(st, x[0].record));
    }
}

/// Applying a run with the attribute erased under the directive's value gives
/// what applying the run itself gives.
proof fn lemma_block(a: Attr, y: Seq<LineView>, k: int, j: int, v: AttrValue, st: DirectiveState)
    requires
        0 <= k <= j <= y.len(),
        fits(a, v),
        complete_for(a, y),
        free_of(a, y),
        forall|m: int| k <= m < j ==> (get_attr(a, #[trigger] y[m].record) matches Some(w) ==> w == v),
    ensures
        apply_from(y.subrange(k, j).map_values(|l: LineView| erase_line(a, l)), with_attr(st, a, Some(v)))
            == apply_from(y.subrange(k, j), with_attr(st, a, None)),
        fold_state(y.subrange(k, j).map_values(|l: LineView| erase_line(a, l)), with_attr(st, a, Some(v)))
            == with_attr(fold_state(y.subrange(k, j), st), a, Some(v)),
        fold_state(y.subrange(k, j), with_attr(st, a, None)) == with_attr(fold_state(y.subrange(k, j), st), a, None),
    decreases j - k,
{
    let b = y.subrange(k, j).map_values(|l: LineView| erase_line(a, l));
    let u = y.subrange(k, j);
    if k < j {
        let r = y[k].record;
        lemma_get_fits(a, r);
        assert(u[0] == y[k]);
        assert(b[0] == erase_line(a, y[k]));
        assert(u.drop_first() == y.subrange(k + 1, j));
        assert(b.drop_first() =~= y.subrange(k + 1, j).map_values(|l: LineView| erase_line(a, l)));
        assert(!is_directive_of(a, r));
        lemma_step_other(a, r, st, Some(v));
        lemma_step_other(a, r, st, None);
        lemma_step_erased(a, r, with_attr(st, a, Some(v)));
        lemma_block(a, y, k + 1, j, v, step_state(st, r));
        if !is_directive(r) {
            match get_attr(a, r) {
                Some(w) => {
                    lemma_fill_erased(a, r, st, w);
                },
                None => {
                    lemma_fill_no_slot(a, r, st, Some(v));
                },
            }
        }
    }
}

/// Extraction of `a` followed by folding gives what folding alone gives, on
/// lines without `a` directives whose `a` attributes are all set.
proof fn lemma_extract_then_apply(a: Attr, y: Seq<LineView>, i: int, cur: Option<AttrValue>, st: DirectiveState)
    requires
        0 <= i <= y.len(),
        complete_for(a, y),
        free_of(a, y),
        cur matches Some(c) ==> fits(a, c),
    ensures
        apply_from(extract_from(a, y, i, cur), with_attr(st, a, cur)) == apply_from(y.skip(i), with_attr(st, a, None)),
    decreases y.len() - i, 1int,
{
    if i < y.len() {
        let l = y[i];
        let r = l.record;
        lemma_get_fits(a, r);
        assert(!is_directive_of(a, r));
        assert(y.skip(i).drop_first() == y.skip(i + 1));
        assert(y.skip(i)[0] == l);
        lemma_step_other(a, r, st, cur);
        lemma_step_other(a, r, st, None);
        match get_attr(a, r) {
            None => {
                lemma_extract_then_apply(a, y, i + 1, cur, step_state(st, r));
                if !is_directive(r) {
                    lemma_fill_no_slot(a, r, st, cur);
                }
                assert((seq![l] + extract_from(a, y, i + 1, cur)).drop_first() == extract_from(a, y, i + 1, cur));
            },
            Some(v) => {
                if cur == Some(v) {
                    lemma_extract_then_apply(a, y, i + 1, cur, step_state(st, r));
                    lemma_fill_erased(a, r, st, v);
                    lemma_step_erased(a, r, with_attr(st, a, cur));
                    assert((seq![erase_line(a, l)] + extract_from(a, y, i + 1, cur)).drop_first()
                        == extract_from(a, y, i + 1, cur));
                } else {
                    let j = run_end(a, y, i + 1, v);
                    lemma_run_end(a, y, i + 1, v);
                    if i < j <= y.len() && set_count(a, y, i, j) >= 3 {
                        let d = LineView { record: attr_directive(a, v), comment: None };
                        let b = y.subrange(i, j).map_values(|x: LineView| erase_line(a, x));
                        let rest = extract_from(a, y, j, Some(v));
                        assert(extract_from(a, y, i, cur) == seq![d] + b + rest);
                        lemma_step_directive(a, v, with_attr(st, a, cur));
                        assert(with_attr(with_attr(st, a, cur), a, Some(v)) == with_attr(st, a, Some(v)));
                        assert((seq![d] + b + rest).drop_first() == b + rest);
                        assert(apply_from(seq![d] + b + rest, with_attr(st, a, cur)) == apply_from(b + rest, with_attr(st, a, Some(v))));
                        assert forall|m: int| i <= m < j implies (get_attr(a, #[trigger] y[m].record) matches Some(w) ==> w == v) by {
                            lemma_run_end_values(a, y, i + 1, v, m);
                        }
                        lemma_block(a, y, i, j, v, st);
                        lemma_apply_concat(b, rest, with_attr(st, a, Some(v)));
                        let st_j = fold_state(y.subrange(i, j), st);
                        lemma_extract_then_apply(a, y, j, Some(v), st_j);
                        assert(y.skip(i) == y.subrange(i, j) + y.skip(j));
                        lemma_apply_concat(y.subrange(i, j), y.skip(j), with_attr(st, a, None));
                    } else {
                        lemma_extract_then_apply(a, y, i + 1, cur, step_state(st, r));
                        lemma_fill_set(a, r, st, cur);
                        assert((seq![l] + extract_from(a, y, i + 1, cur)).drop_first() == extract_from(a, y, i + 1, cur));
                    }
                }
            },
        }
    }
}

proof fn lemma_run_end(a: Attr, y: Seq<LineView>, j: int, v: AttrValue)
    requires
        0 <= j <= y.len(),
    ensures
        j <= run_end(a, y, j, v) <= y.len(),
    decreases y.len() - j,
{
    if j < y.len() {
        lemma_run_end(a, y, j + 1, v);
    }
}

proof fn lemma_run_end_values(a: Attr, y: Seq<LineView>, j: int, v: AttrValue, m: int)
    requires
        0 <= j <= y.len(),
        j - 1 <= m < run_end(a, y, j, v),
        j >= 1,
        get_attr(a, y[j - 1].record) == Some(v),
    ensures
        get_attr(a, y[m].record) matches Some(w) ==> w == v,
    decreases y.len() - j,
{
    if m >= j && j < y.len() {
        match get_attr(a, y[j].record) {
            Some(w) => {
                if w == v {
                    lemma_run_end_values(a, y, j + 1, v, m);
                }
            },
            None => {
                if m > j {
                    lemma_run_end_values_skip(a, y, j + 1, v, m);
                }
            },
        }
    }
}

proof fn lemma_run_end_values_skip(a: Attr, y: Seq<LineView>, j: int, v: AttrValue, m: int)
    requires
        0 <= j <= m < run_end(a, y, j, v),
    ensures
        get_attr(a, y[m].record) matches Some(w) ==> w == v,
    decreases y.len() - j,
{
    if j < y.len() {
        if m > j {
            match get_attr(a, y[j].record) {
                Some(w) => {
                    if w == v {
                        lemma_run_end_values_skip(a, y, j + 1, v, m);
                    }
                },
                None => lemma_run_end_values_skip(a, y, j + 1, v, m),
            }
        }
    }
}

pub open spec fn good_for(b: Attr, s: Seq<LineView>) -> bool {
    complete_for(b, s) && free_of(b, s)
}

proof fn lemma_good_concat(b: Attr, p: Seq<LineView>, q: Seq<LineView>)
    requires
        good_for(b, p),
        good_for(b, q),
    ensures
        good_for(b, p + q),
{
    assert forall|i: int| 0 <= i < (p + q).len() implies !is_directive_of(b, #[trigger] (p + q)[i].record)
        && (has_slot(b, (p + q)[i].record) ==> get_attr(b, (p + q)[i].record) is Some) by {
        if i < p.len() {
            assert((p + q)[i] == p[i]);
        } else {
            assert((p + q)[i] == q[i - p.len()]);
        }
    }
}

proof fn lemma_good_one(b: Attr, l: LineView)
    requires
        !is_directive_of(b, l.record),
        has_slot(b, l.record) ==> get_attr(b, l.record) is Some,
    ensures
        good_for(b, seq![l]),
{
}

proof fn lemma_extract_keeps_good(a: Attr, b: Attr, y: Seq<LineView>, i: int, cur: Option<AttrValue>)
    requires
        a != b,
        0 <= i <= y.len(),
        good_for(b, y),
    ensures
        good_for(b, extract_from(a, y, i, cur)),
    decreases y.len() - i,
{
    if i < y.len() {
        let l = y[i];
        assert(!is_directive_of(b, l.record));
        assert(has_slot(b, l.record) ==> get_attr(b, l.record) is Some);
        let e = erase_line(a, l);
        assert(get_attr(b, e.record) == get_attr(b, l.record));
        assert(has_slot(b, e.record) == has_slot(b, l.record));
        assert(is_directive_of(b, e.record) == is_directive_of(b, l.record));
        lemma_good_one(b, l);
        lemma_good_one(b, e);
        match get_attr(a, l.record) {
            None => {
                lemma_extract_keeps_good(a, b, y, i + 1, cur);
                lemma_good_concat(b, seq![l], extract_from(a, y, i + 1, cur));
            },
            Some(v) => {
                if cur == Some(v) {
                    lemma_extract_keeps_good(a, b, y, i + 1, cur);
                    lemma_good_concat(b, seq![e], extract_from(a, y, i + 1, cur));
                } else {
                    let j = run_end(a, y, i + 1, v);
                    if i < j <= y.len() && set_count(a, y, i, j) >= 3 {
                        let d = LineView { record: attr_directive(a, v), comment: None };
                        let blk = y.subrange(i, j).map_values(|x: LineView| erase_line(a, x));
                        assert forall|k: int| 0 <= k < blk.len() implies !is_directive_of(b, #[trigger] blk[k].record)
                            && (has_slot(b, blk[k].record) ==> get_attr(b, blk[k].record) is Some) by {
                            let src = y[i + k];
                            assert(blk[k] == erase_line(a, src));
                            assert(!is_directive_of(b, src.record));
                        }
                        lemma_good_one(b, d);
                        lemma_extract_keeps_good(a, b, y, j, Some(v));
                        lemma_good_concat(b, seq![d], blk);
                        lemma_good_concat(b, seq![d] + blk, extract_from(a, y, j, Some(v)));
                    } else {
                        lemma_extract_keeps_good(a, b, y, i + 1, cur);
                        lemma_good_concat(b, seq![l], extract_from(a, y, i + 1, cur));
                    }
                }
            },
        }
    }
}

proof fn lemma_extract_step(a: Attr, y: Seq<LineView>)
    requires
        good_for(a, y),
    ensures
        apply_spec(extract_attr(a, y)) == apply_spec(y),
{
    lemma_extract_then_apply(a, y, 0, None, empty_state());
    assert(with_attr(empty_state(), a, None) == empty_state());
    assert(y.skip(0) == y);
}

proof fn lemma_apply_no_directives(s: Seq<LineView>, st: DirectiveState)
    ensures
        forall|i: int| 0 <= i < apply_from(s, st).len() ==> !is_directive(#[trigger] apply_from(s, st)[i].record),
    decreases s.len(),
{
    if s.len() > 0 {
        lemma_apply_no_directives(s.drop_first(), step_state(st, s[0].record));
        let rest = apply_from(s.drop_first(), step_state(st, s[0].record));
        if !is_directive(s[0].record) {
            let head = LineView { record: fill(s[0].record, st), comment: s[0].comment };
            assert forall|i: int| 0 <= i < (seq![head] + rest).len() implies !is_directive(
                #[trigger] (seq![head] + rest)[i].record,
            ) by {
                if i > 0 {
                    assert((seq![head] + rest)[i] == rest[i - 1]);
                }
            }
        }
    }
}

proof fn lemma_apply_identity(s: Seq<LineView>)
    requires
        forall|i: int| 0 <= i < s.len() ==> !is_directive(#[trigger] s[i].record),
    ensures
        apply_from(s, empty_state()) == s,
    decreases s.len(),
{
    if s.len() > 0 {
        let t = s.drop_first();
        assert forall|i: int| 0 <= i < t.len() implies !is_directive(#[trigger] t[i].record) by {
            assert(t[i] == s[i + 1]);
        }
        assert(!is_directive(s[0].record));
        assert(step_state(empty_state(), s[0].record) == empty_state());
        lemma_apply_identity(t);
        assert(fill(s[0].record, empty_state()) == s[0].record);
        assert(apply_from(s, empty_state()) =~= s);
    }
}

proof fn lemma_good_after_apply(a: Attr, x: Seq<LineView>)
    requires
        complete_for(a, x),
        forall|i: int| 0 <= i < x.len() ==> !is_directive(#[trigger] x[i].record),
    ensures
        good_for(a, x),
{
    assert forall|i: int| 0 <= i < x.len() implies !is_directive_of(a, #[trigger] x[i].record) by {
        assert(!is_directive(x[i].record));
    }
}

/// Extracting directives and folding them back in gives the folded lines again,
/// for lines whose events all get every attribute they carry (inline or from
/// a directive before them).
pub proof fn lemma_apply_extract_apply(s: Seq<LineView>)
    requires
        complete(apply_spec(s)),
    ensures
        apply_spec(extract_spec(apply_spec(s))) == apply_spec(s),
{
    let x = apply_spec(s);
    lemma_apply_no_directives(s, empty_state());
    lemma_apply_identity(x);
    assert(apply_spec(x) == x);
    let y1 = extract_attr(Attr::Channel, x);
    let y2 = extract_attr(Attr::Velocity, y1);
    let y3 = extract_attr(Attr::OffVelocity, y2);
    let y4 = extract_attr(Attr::Duration, y3);
    let y5 = extract_attr(Attr::TransitionCurve, y4);
    let y6 = extract_attr(Attr::TransitionInterval, y5);
    assert(extract_spec(x) == y6);
    lemma_good_after_apply(Attr::Channel, x);
    lemma_good_after_apply(Attr::Velocity, x);
    lemma_good_after_apply(Attr::OffVelocity, x);
    lemma_good_after_apply(Attr::Duration, x);
    lemma_good_after_apply(Attr::TransitionCurve, x);
    lemma_good_after_apply(Attr::TransitionInterval, x);
    // channel
    lemma_extract_step(Attr::Channel, x);
    lemma_extract_keeps_good(Attr::Channel, Attr::Velocity, x, 0, None);
    lemma_extract_keeps_good(Attr::Channel, Attr::OffVelocity, x, 0, None);
    lemma_extract_keeps_good(Attr::Channel, Attr::Duration, x, 0, None);
    lemma_extract_keeps_good(Attr::Channel, Attr::TransitionCurve, x, 0, None);
    lemma_extract_keeps_good(Attr::Channel, Attr::TransitionInterval, x, 0, None);
    // velocity
    lemma_extract_step(Attr::Velocity, y1);
    lemma_extract_keeps_good(Attr::Velocity, Attr::OffVelocity, y1, 0, None);
    lemma_extract_keeps_good(Attr::Velocity, Attr::Duration, y1, 0, None);
    lemma_extract_keeps_good(Attr::Velocity, Attr::TransitionCurve, y1, 0, None);
    lemma_extract_keeps_good(Attr::Velocity, Attr::TransitionInterval, y1, 0, None);
    // off velocity
    lemma_extract_step(Attr::OffVelocity, y2);
    lemma_extract_keeps_good(Attr::OffVelocity, Attr::Duration, y2, 0, None);
    lemma_extract_keeps_good(Attr::OffVelocity, Attr::TransitionCurve, y2, 0, None);
    lemma_extract_keeps_good(Attr::OffVelocity, Attr::TransitionInterval, y2, 0, None);
    // duration
    lemma_extract_step(Attr::Duration, y3);
    lemma_extract_keeps_good(Attr::Duration, Attr::TransitionCurve, y3, 0, None);
    lemma_extract_keeps_good(Attr::Duration, Attr::TransitionInterval, y3, 0, None);
    // transition curve
    lemma_extract_step(Attr::TransitionCurve, y4);
    lemma_extract_keeps_good(Attr::TransitionCurve, Attr::TransitionInterval, y4, 0, None);
    // transition interval
    lemma_extract_step(Attr::TransitionInterval, y5);
}

} // verus!
