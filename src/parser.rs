use crate::file::MtxtFile;
use crate::record::{lines_view, LineView, MtxtRecord, RecordView};
use crate::record_parser::{parse_line_chars, parse_line_spec, record_ok, vviews};
use crate::text::{nat_text, push_nat, push_str, string_of};
use vstd::prelude::*;

verus! {

/// Whether some line is a header.
pub open spec fn has_header(s: Seq<LineView>) -> bool {
    exists|i: int| 0 <= i < s.len() && (#[trigger] s[i]).record is Header
}

/// A line without a final carriage return.
pub open spec fn strip_cr(l: Seq<char>) -> Seq<char> {
    if l.len() > 0 && l.last() == '\r' {
        l.drop_last()
    } else {
        l
    }
}

/// Lines found and the line being read after the first `i` characters.
pub open spec fn lines_fold(s: Seq<char>, i: int) -> (Seq<Seq<char>>, Seq<char>)
    decreases i,
{
    if i <= 0 || i > s.len() {
        (Seq::empty(), Seq::empty())
    } else {
        let (acc, cur) = lines_fold(s, i - 1);
        if s[i - 1] == '\n' {
            (acc.push(strip_cr(cur)), Seq::empty())
        } else {
            (acc, cur.push(s[i - 1]))
        }
    }
}

/// The lines of a text: split at `\n`, a `\r` before it dropped, and no
/// empty line after a final `\n`.
pub open spec fn text_lines(s: Seq<char>) -> Seq<Seq<char>> {
    let (acc, cur) = lines_fold(s, s.len() as int);
    if cur.len() > 0 {
        acc.push(strip_cr(cur))
    } else {
        acc
    }
}

/// Every line parsed, or `None` where one does not parse.
pub open spec fn parse_lines_spec(ls: Seq<Seq<char>>) -> Option<Seq<LineView>>
    decreases ls.len(),
{
    if ls.len() == 0 {
        Some(Seq::empty())
    } else {
        match (parse_lines_spec(ls.drop_last()), parse_line_spec(ls.last())) {
            (Some(xs), Some(l)) => Some(xs.push(l)),
            _ => None,
        }
    }
}

/// The lines of a text, where every line parses and one is a header.
pub open spec fn parse_file_spec(content: Seq<char>) -> Option<Seq<LineView>> {
    match parse_lines_spec(text_lines(content)) {
        Some(xs) => if has_header(xs) {
            Some(xs)
        } else {
            None
        },
        None => None,
    }
}

proof fn lemma_lines_prefix_fail(p: Seq<Seq<char>>, k: int)
    requires
        0 <= k < p.len(),
        parse_lines_spec(p.take(k + 1)) is None,
    ensures
        parse_lines_spec(p) is None,
    decreases p.len(),
{
    if k + 1 < p.len() {
        assert(p.drop_last().take(k + 1) == p.take(k + 1));
        lemma_lines_prefix_fail(p.drop_last(), k);
    } else {
        assert(p.take(k + 1) == p);
    }
}

/// Index of the first line that does not parse.
pub open spec fn first_bad_line(ls: Seq<Seq<char>>, k: int) -> bool {
    &&& 0 <= k < ls.len()
    &&& parse_line_spec(ls[k]) is None
    &&& forall|j: int| 0 <= j < k ==> parse_line_spec(ls[j]) is Some
}

/// The error text of a text that does not parse: `Line #<k>: ` and the line's
/// error for the first line `k` (from 1) that does not parse, else
/// `Missing version declaration`.
pub open spec fn parse_error_text(content: Seq<char>, e: Seq<char>) -> bool {
    let ls = text_lines(content);
    if exists|k: int| first_bad_line(ls, k) {
        let k = choose|k: int| first_bad_line(ls, k);
        let p = "Line #"@ + nat_text((k + 1) as nat) + ": "@;
        e.len() >= p.len() && e.take(p.len() as int) == p
    } else {
        e == "Missing version declaration"@
    }
}

/// Reads text in the line format.
pub struct MtxtParser {}

/// Parses a whole text (see `MtxtParser::parse`).
pub fn parse_mtxt(content: &str) -> (r: Result<MtxtFile, String>)
    ensures
        match r {
            Ok(f) => parse_file_spec(content@) == Some(lines_view(f.records@)),
            Err(e) => parse_file_spec(content@) is None && parse_error_text(content@, e@),
        },
        r matches Ok(f) ==> has_header(lines_view(f.records@)),
        r matches Ok(f) ==> forall|i: int|
            0 <= i < f.records@.len() ==> record_ok((#[trigger] f.records@[i])@.record),
{
    let mut parser = MtxtParser::new();
    parser.parse(content)
}

/// The lines of `s`: split at `\n`, with a `\r` before it dropped and no empty
/// line after a final `\n`.
fn split_lines(s: &Vec<char>) -> (r: Vec<Vec<char>>)
    ensures
        vviews(r@) == text_lines(s@),
{
    let mut out: Vec<Vec<char>> = Vec::new();
    let mut cur: Vec<char> = Vec::new();
    let mut i: usize = 0;
    assert(vviews(out@) =~= Seq::<Seq<char>>::empty());
    while i < s.len()
        invariant
            i <= s.len(),
            (vviews(out@), cur@) == lines_fold(s@, i as int),
        decreases s.len() - i,
    {
        let ghost before = vviews(out@);
        if s[i] == '\n' {
            let ghost cv = cur@;
            if cur.len() > 0 && cur[cur.len() - 1] == '\r' {
                cur.pop();
            }
            assert(cur@ == strip_cr(cv));
            out.push(cur);
            cur = Vec::new();
            assert(vviews(out@) =~= before.push(strip_cr(cv)));
        } else {
            cur.push(s[i]);
        }
        i += 1;
    }
    if cur.len() > 0 {
        let ghost before = vviews(out@);
        let ghost cv = cur@;
        if cur[cur.len() - 1] == '\r' {
            cur.pop();
        }
        assert(cur@ == strip_cr(cv));
        out.push(cur);
        assert(vviews(out@) =~= before.push(strip_cr(cv)));
    }
    out
}

impl MtxtParser {
    pub fn new() -> (r: MtxtParser) {
        MtxtParser {  }
    }

    /// Parses every line; fails on the first line that does not parse, naming
    /// its number (from 1), and when no line is a header.
    #[verifier::rlimit(100)]
    pub fn parse(&mut self, content: &str) -> (r: Result<MtxtFile, String>)
        ensures
            match r {
                Ok(f) => parse_file_spec(content@) == Some(lines_view(f.records@)),
                Err(e) => parse_file_spec(content@) is None && parse_error_text(content@, e@),
            },
            r matches Ok(f) ==> has_header(lines_view(f.records@)),
            r matches Ok(f) ==> forall|i: int|
                0 <= i < f.records@.len() ==> record_ok((#[trigger] f.records@[i])@.record),
    {
        let chars = crate::text::chars_of(content);
        let lines = split_lines(&chars);
        let ghost lv = vviews(lines@);
        let mut file = MtxtFile::new();
        let mut seen_header = false;
        let mut i: usize = 0;
        assert(lv.take(0) =~= Seq::<Seq<char>>::empty());
        assert(lines_view(file.records@) =~= Seq::<LineView>::empty());
        while i < lines.len()
            invariant
                i <= lines.len(),
                lv == vviews(lines@),
                lv == text_lines(content@),
                forall|j: int| 0 <= j < i ==> parse_line_spec(#[trigger] lv[j]) is Some,
                parse_lines_spec(lv.take(i as int)) == Some(lines_view(file.records@)),
                seen_header == has_header(lines_view(file.records@)),
                seen_header ==> exists|k: int|
                    0 <= k < file.records@.len() && (#[trigger] file.records@[k])@.record is Header,
                forall|k: int|
                    0 <= k < file.records@.len() ==> record_ok((#[trigger] file.records@[k])@.record),
            decreases lines.len() - i,
        {
            let ghost q = lv.take(i + 1);
            assert(q.drop_last() == lv.take(i as int));
            assert(q.last() == lines@[i as int]@);
            match parse_line_chars(&lines[i]) {
                Ok(line) => {
                    assert(parse_line_spec(lv[i as int]) is Some);
                    let ghost before = file.records@;
                    let ghost bv = lines_view(before);
                    let is_header = match &line.record {
                        MtxtRecord::Header { .. } => true,
                        _ => false,
                    };
                    file.records.push(line);
                    assert(forall|k: int| 0 <= k < before.len() ==> file.records@[k] == before[k]);
                    assert(lines_view(file.records@) =~= bv.push(file.records@[before.len() as int]@));
                    proof {
                        let nv = lines_view(file.records@);
                        if has_header(nv) {
                            let k = choose|k: int| 0 <= k < nv.len() && (#[trigger] nv[k]).record is Header;
                            if k < bv.len() {
                                assert(nv[k] == bv[k]);
                            }
                        }
                        if has_header(bv) {
                            let k = choose|k: int| 0 <= k < bv.len() && (#[trigger] bv[k]).record is Header;
                            assert(nv[k] == bv[k]);
                        }
                        if is_header {
                            assert(nv[before.len() as int].record is Header);
                        }
                    }
                    seen_header = seen_header || is_header;
                },
                Err(e) => {
                    proof {
                        lemma_lines_prefix_fail(lv, i as int);
                    }
                    assert(first_bad_line(lv, i as int));
                    let ghost k = choose|k: int| first_bad_line(lv, k);
                    assert(k == i) by {
                        if k < i {
                            assert(parse_line_spec(lv[k]) is Some);
                        } else if k > i {
                            assert(parse_line_spec(lv[i as int]) is Some);
                        }
                    }
                    let mut msg: Vec<char> = Vec::new();
                    push_str(&mut msg, "Line #");
                    push_nat(&mut msg, (i as u64) + 1);
                    push_str(&mut msg, ": ");
                    let ghost pre = msg@;
                    push_str(&mut msg, e.as_str());
                    assert(msg@.take(pre.len() as int) =~= pre);
                    return Err(string_of(&msg));
                },
            }
            i += 1;
        }
        assert(lv.take(lines.len() as int) == lv);
        if !seen_header {
            assert forall|k: int| !first_bad_line(lv, k) by {
                if 0 <= k < lv.len() {
                    assert(parse_line_spec(lv[k]) is Some);
                }
            }
            return Err("Missing version declaration".to_string());
        }
        Ok(file)
    }
}

} // verus!
