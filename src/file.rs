use crate::beat_time::{beat_text, BeatTime};
use crate::format::{push_record_text, record_text};
use crate::record::{
    lines_view, record_time, LineView, MtxtRecord, MtxtRecordLine, RecordView, Version,
};
use crate::text::{nat_text, push_str, string_of};
use vstd::prelude::*;

verus! {

/// `s` padded with spaces on the right to `width` characters, if shorter.
pub open spec fn pad_to(s: Seq<char>, width: Option<usize>) -> Seq<char> {
    match width {
        Some(w) => if s.len() < w {
            s + Seq::new((w - s.len()) as nat, |i: int| ' ')
        } else {
            s
        },
        None => s,
    }
}

/// Text of one line, ending in a newline. File-level records carry no time; timed
/// records start with their time (padded to `width` when given) and a space; an
/// empty line shows its comment, any other line appends ` // <comment>`.
pub open spec fn line_text(l: LineView, width: Option<usize>) -> Seq<char> {
    let r = l.record;
    let body = match r {
        RecordView::Header { .. } => record_text(r),
        RecordView::GlobalMeta { .. } => record_text(r),
        RecordView::EmptyLine => match l.comment {
            Some(c) => "// "@ + c,
            None => Seq::empty(),
        },
        _ => match record_time(r) {
            Some(t) => pad_to(beat_text(t), width) + " "@ + record_text(r),
            None => record_text(r),
        },
    };
    let tail = match (r, l.comment) {
        (RecordView::EmptyLine, _) => Seq::empty(),
        (_, Some(c)) => " // "@ + c,
        (_, None) => Seq::empty(),
    };
    body + tail + "\n"@
}

/// Text of a list of lines.
pub open spec fn lines_text(s: Seq<LineView>, width: Option<usize>) -> Seq<char>
    decreases s.len(),
{
    if s.len() == 0 {
        Seq::empty()
    } else {
        lines_text(s.drop_last(), width) + line_text(s.last(), width)
    }
}

/// The latest time of any line.
pub open spec fn max_time(s: Seq<LineView>) -> Option<BeatTime>
    decreases s.len(),
{
    if s.len() == 0 {
        None
    } else {
        match (max_time(s.drop_last()), record_time(s.last().record)) {
            (Some(m), Some(t)) => if t.repr <= m.repr {
                Some(m)
            } else {
                Some(t)
            },
            (Some(m), None) => Some(m),
            (None, t) => t,
        }
    }
}

/// The version of the first header line.
pub open spec fn first_version(s: Seq<LineView>) -> Option<Version>
    decreases s.len(),
{
    if s.len() == 0 {
        None
    } else {
        match s[0].record {
            RecordView::Header { version } => Some(version),
            _ => first_version(s.drop_first()),
        }
    }
}

/// The type and value of every global meta line, in order.
pub open spec fn global_metas(s: Seq<LineView>) -> Seq<(Seq<char>, Seq<char>)>
    decreases s.len(),
{
    if s.len() == 0 {
        Seq::empty()
    } else {
        let rest = global_metas(s.drop_last());
        match s.last().record {
            RecordView::GlobalMeta { meta_type, value } => rest.push((meta_type, value)),
            _ => rest,
        }
    }
}

/// The value of the first global meta line of type `key`.
pub open spec fn first_meta_value(s: Seq<LineView>, key: Seq<char>) -> Option<Seq<char>>
    decreases s.len(),
{
    if s.len() == 0 {
        None
    } else {
        match s[0].record {
            RecordView::GlobalMeta { meta_type, value } => if meta_type == key {
                Some(value)
            } else {
                first_meta_value(s.drop_first(), key)
            },
            _ => first_meta_value(s.drop_first(), key),
        }
    }
}

/// A parsed file: its lines in order.
pub struct MtxtFile {
    pub records: Vec<MtxtRecordLine>,
}

/// A file together with the width of the time column to print it with.
pub struct MtxtFileFormatter<'a> {
    pub file: &'a MtxtFile,
    pub timestamp_width: Option<usize>,
}

impl<'a> MtxtFileFormatter<'a> {
    /// The text of the file (see `lines_text`).
    pub fn to_text(&self) -> (r: String)
        ensures
            r@ == lines_text(lines_view(self.file.records@), self.timestamp_width),
    {
        let mut out: Vec<char> = Vec::new();
        let recs = &self.file.records;
        let ghost sv = lines_view(recs@);
        let mut i: usize = 0;
        while i < recs.len()
            invariant
                i <= recs.len(),
                sv == lines_view(recs@),
                out@ == lines_text(sv.take(i as int), self.timestamp_width),
            decreases recs.len() - i,
        {
            push_line_text(&mut out, &recs[i], self.timestamp_width);
            proof {
                assert(sv.take(i + 1).drop_last() == sv.take(i as int));
                assert(sv.take(i + 1).last() == recs@[i as int]@);
            }
            i += 1;
        }
        assert(sv.take(recs.len() as int) == sv);
        string_of(&out)
    }
}

fn push_padded_time(out: &mut Vec<char>, t: BeatTime, width: Option<usize>)
    ensures
        final(out)@ == old(out)@ + pad_to(beat_text(t), width),
{
    let mut v: Vec<char> = Vec::new();
    t.push_text(&mut v);
    assert(v@ == beat_text(t));
    if let Some(w) = width {
        let ghost base = v@;
        while v.len() < w
            invariant
                base.len() <= v.len() <= (if base.len() < w { w as int } else { base.len() as int }),
                v@ == base + Seq::new((v.len() - base.len()) as nat, |i: int| ' '),
            decreases w - v.len(),
        {
            v.push(' ');
            assert(v@ =~= base + Seq::new((v.len() - base.len()) as nat, |i: int| ' '));
        }
        assert(base.len() >= w ==> v@ =~= base);
    }
    let ghost before = out@;
    out.append(&mut v);
}

fn push_line_text(out: &mut Vec<char>, l: &MtxtRecordLine, width: Option<usize>)
    ensures
        final(out)@ == old(out)@ + line_text(l@, width),
{
    let ghost start = out@;
    let r = &l.record;
    let is_empty = match r {
        MtxtRecord::EmptyLine => true,
        _ => false,
    };
    match r {
        MtxtRecord::Header { .. } => push_record_text(out, r),
        MtxtRecord::GlobalMeta { .. } => push_record_text(out, r),
        MtxtRecord::EmptyLine => {
            if let Some(c) = &l.comment {
                push_str(out, "// ");
                push_str(out, c.as_str());
            }
        },
        _ => match r.time() {
            Some(t) => {
                push_padded_time(out, t, width);
                push_str(out, " ");
                push_record_text(out, r);
            },
            None => push_record_text(out, r),
        },
    }
    let ghost mid = out@;
    if !is_empty {
        if let Some(c) = &l.comment {
            push_str(out, " // ");
            push_str(out, c.as_str());
        }
    }
    let ghost mid2 = out@;
    push_str(out, "\n");
    assert(out@ =~= start + line_text(l@, width));
}

/// Number of decimal digits of `n`.
fn digit_count(n: u64) -> (r: usize)
    ensures
        r == nat_text(n as nat).len(),
{
    let mut v: Vec<char> = Vec::new();
    crate::text::push_nat(&mut v, n);
    assert(v@ =~= nat_text(n as nat));
    v.len()
}

impl MtxtFile {
    pub fn new() -> (r: MtxtFile)
        ensures
            r.records@.len() == 0,
    {
        MtxtFile { records: Vec::new() }
    }

    pub fn from_records(records: Vec<MtxtRecordLine>) -> (r: MtxtFile)
        ensures
            r.records@ == records@,
    {
        MtxtFile { records }
    }

    /// The records of all lines, in order.
    pub fn get_records(&self) -> (r: Vec<MtxtRecord>)
        ensures
            r@.len() == self.records@.len(),
            forall|i: int| 0 <= i < r@.len() ==> (#[trigger] r@[i])@ == self.records@[i].record@,
    {
        let mut out: Vec<MtxtRecord> = Vec::new();
        let mut i: usize = 0;
        while i < self.records.len()
            invariant
                i <= self.records.len(),
                out@.len() == i,
                forall|j: int| 0 <= j < i ==> (#[trigger] out@[j])@ == self.records@[j].record@,
            decreases self.records.len() - i,
        {
            out.push(self.records[i].record.copy());
            i += 1;
        }
        out
    }

    /// The version of the first header line.
    pub fn get_version(&self) -> (r: Option<Version>)
        ensures
            r == first_version(lines_view(self.records@)),
    {
        let ghost sv = lines_view(self.records@);
        let mut i: usize = 0;
        assert(sv.skip(0) == sv);
        while i < self.records.len()
            invariant
                i <= self.records.len(),
                sv == lines_view(self.records@),
                first_version(sv.skip(i as int)) == first_version(sv),
            decreases self.records.len() - i,
        {
            proof {
                crate::transforms::apply::lemma_skip_step(sv, i as int);
            }
            if let MtxtRecord::Header { version } = &self.records[i].record {
                return Some(*version);
            }
            i += 1;
        }
        None
    }

    /// The type and value of every global meta line.
    pub fn get_global_meta(&self) -> (r: Vec<(String, String)>)
        ensures
            r@.map_values(|p: (String, String)| (p.0@, p.1@)) == global_metas(
                lines_view(self.records@),
            ),
    {
        let ghost sv = lines_view(self.records@);
        let mut out: Vec<(String, String)> = Vec::new();
        let mut i: usize = 0;
        while i < self.records.len()
            invariant
                i <= self.records.len(),
                sv == lines_view(self.records@),
                out@.map_values(|p: (String, String)| (p.0@, p.1@)) == global_metas(
                    sv.take(i as int),
                ),
            decreases self.records.len() - i,
        {
            let ghost before = out@;
            if let MtxtRecord::GlobalMeta { meta_type, value } = &self.records[i].record {
                out.push((meta_type.clone(), value.clone()));
                assert(out@.map_values(|p: (String, String)| (p.0@, p.1@)) =~= before.map_values(
                    |p: (String, String)| (p.0@, p.1@),
                ).push((meta_type@, value@)));
            }
            proof {
                assert(sv.take(i + 1).drop_last() == sv.take(i as int));
                assert(sv.take(i + 1).last() == self.records@[i as int]@);
            }
            i += 1;
        }
        assert(sv.take(self.records.len() as int) == sv);
        out
    }

    /// The value of the first global meta line of type `meta_type`.
    pub fn get_global_meta_value(&self, meta_type: &str) -> (r: Option<String>)
        ensures
            match r {
                Some(v) => first_meta_value(lines_view(self.records@), meta_type@) == Some(v@),
                None => first_meta_value(lines_view(self.records@), meta_type@) is None,
            },
    {
        let ghost sv = lines_view(self.records@);
        let key = meta_type.to_string();
        let mut i: usize = 0;
        assert(sv.skip(0) == sv);
        while i < self.records.len()
            invariant
                i <= self.records.len(),
                sv == lines_view(self.records@),
                key@ == meta_type@,
                first_meta_value(sv.skip(i as int), meta_type@) == first_meta_value(
                    sv,
                    meta_type@,
                ),
            decreases self.records.len() - i,
        {
            proof {
                crate::transforms::apply::lemma_skip_step(sv, i as int);
            }
            if let MtxtRecord::GlobalMeta { meta_type: mt, value } = &self.records[i].record {
                if *mt == key {
                    return Some(value.clone());
                }
            }
            i += 1;
        }
        None
    }

    /// The latest time of any line.
    pub fn duration(&self) -> (r: Option<BeatTime>)
        ensures
            r == max_time(lines_view(self.records@)),
    {
        let ghost sv = lines_view(self.records@);
        let mut m: Option<BeatTime> = None;
        let mut i: usize = 0;
        while i < self.records.len()
            invariant
                i <= self.records.len(),
                sv == lines_view(self.records@),
                m == max_time(sv.take(i as int)),
            decreases self.records.len() - i,
        {
            let t = self.records[i].record.time();
            m = match (m, t) {
                (Some(a), Some(b)) => if b.repr <= a.repr {
                    Some(a)
                } else {
                    Some(b)
                },
                (Some(a), None) => Some(a),
                (None, b) => b,
            };
            proof {
                assert(sv.take(i + 1).drop_last() == sv.take(i as int));
                assert(sv.take(i + 1).last() == self.records@[i as int]@);
            }
            i += 1;
        }
        assert(sv.take(self.records.len() as int) == sv);
        m
    }

    /// Appends a global meta line.
    pub fn add_global_meta(&mut self, meta_type: String, value: String)
        ensures
            lines_view(final(self).records@) == lines_view(old(self).records@).push(
                LineView {
                    record: RecordView::GlobalMeta { meta_type: meta_type@, value: value@ },
                    comment: None,
                },
            ),
    {
        let ghost before = self.records@;
        self.records.push(MtxtRecordLine::new(MtxtRecord::GlobalMeta { meta_type, value }));
        assert(lines_view(self.records@) =~= lines_view(before).push(self.records@.last()@));
    }

    /// Width of the time column that fits every time of the file: the digits of
    /// the latest whole beat, a dot and five decimals.
    pub fn calculate_auto_timestamp_width(&self) -> (r: usize)
        ensures
            r == match max_time(lines_view(self.records@)) {
                Some(t) => nat_text(t.whole_spec()).len() + 6,
                None => 7,
            },
    {
        let max_time = match self.duration() {
            Some(t) => t,
            None => BeatTime::zero(),
        };
        let digits = digit_count(max_time.whole_beats());
        proof {
            if max_time.repr == 0 {
                assert(max_time.whole_spec() == 0);
                assert(nat_text(0).len() == 1);
            }
            reveal_with_fuel(crate::text::pow10, 11);
            lemma_nat_text_len_le(max_time.whole_spec(), 10);
        }
        digits + 1 + 5
    }

    /// The events the file plays, in microseconds (see `outputs_spec`).
    pub fn get_output_records(&self) -> (r: Vec<crate::output_record::MtxtOutputRecord>)
        ensures
            crate::smf_export::outputs_view(r@) == crate::process::outputs_spec(
                lines_view(self.records@).map_values(|l: LineView| l.record),
            ),
    {
        let recs = self.get_records();
        assert(crate::process::records_view(recs@) =~= lines_view(self.records@).map_values(|l: LineView| l.record));
        crate::process::process_records(recs.as_slice())
    }

    /// The file with the given width for its time column.
    pub fn display_with_formatting<'b>(&'b self, timestamp_width: Option<usize>) -> (r:
        MtxtFileFormatter<'b>)
        ensures
            r.file == self,
            r.timestamp_width == timestamp_width,
    {
        MtxtFileFormatter { file: self, timestamp_width }
    }

    /// The text of the file with times unpadded.
    pub fn to_text(&self) -> (r: String)
        ensures
            r@ == lines_text(lines_view(self.records@), None),
    {
        self.display_with_formatting(None).to_text()
    }
}

proof fn lemma_nat_text_len_le(n: nat, k: nat)
    requires
        n < crate::text::pow10(k),
    ensures
        nat_text(n).len() <= if k == 0 { 1 } else { k },
    decreases n,
{
    if n >= 10 {
        assert(k >= 2) by {
            if k < 2 {
                reveal_with_fuel(crate::text::pow10, 2);
            }
        }
        assert(n / 10 < crate::text::pow10((k - 1) as nat));
        lemma_nat_text_len_le(n / 10, (k - 1) as nat);
    }
}

} // verus!
