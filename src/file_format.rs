use vstd::prelude::*;

verus! {

/// The two file kinds a conversion reads and writes.
#[derive(Clone, Copy, Debug, PartialEq, Eq, Structural)]
pub enum FileFormat {
    Midi,
    Mtxt,
}

/// ASCII letters folded to lower case.
pub open spec fn ascii_lower(c: char) -> char {
    if 'A' <= c && c <= 'Z' {
        ((c as u8) + 32) as char
    } else {
        c
    }
}

/// Whether `s` equals the lower-case word `w` up to ASCII case.
pub open spec fn same_word(s: Seq<char>, w: Seq<char>) -> bool {
    s.len() == w.len() && forall|i: int| 0 <= i < s.len() ==> ascii_lower(#[trigger] s[i]) == w[i]
}

/// Position of the last `c` in `s`, if any.
pub open spec fn last_index_of(s: Seq<char>, c: char) -> Option<int>
    decreases s.len(),
{
    if s.len() == 0 {
        None
    } else if s.last() == c {
        Some(s.len() - 1)
    } else {
        last_index_of(s.drop_last(), c)
    }
}

/// The last component of a path.
pub open spec fn file_name(path: Seq<char>) -> Seq<char> {
    match last_index_of(path, '/') {
        Some(i) => path.skip(i + 1),
        None => path,
    }
}

/// The extension of a path: the text after the last dot of its file name,
/// where that dot is not the name's first character.
pub open spec fn extension(path: Seq<char>) -> Option<Seq<char>> {
    let name = file_name(path);
    match last_index_of(name, '.') {
        Some(i) => if i > 0 {
            Some(name.skip(i + 1))
        } else {
            None
        },
        None => None,
    }
}

/// The format of a path by its extension: `mid`, `midi` and `smf` are MIDI,
/// `mtxt` is text, in any ASCII case.
pub open spec fn format_of(path: Seq<char>) -> Option<FileFormat> {
    match extension(path) {
        Some(e) => if same_word(e, "mid"@) || same_word(e, "midi"@) || same_word(e, "smf"@) {
            Some(FileFormat::Midi)
        } else if same_word(e, "mtxt"@) {
            Some(FileFormat::Mtxt)
        } else {
            None
        },
        None => None,
    }
}

fn last_index(s: &Vec<char>, c: char) -> (r: Option<usize>)
    ensures
        match r {
            Some(i) => last_index_of(s@, c) == Some(i as int) && i < s.len(),
            None => last_index_of(s@, c) is None,
        },
{
    let mut j = s.len();
    assert(s@.take(j as int) == s@);
    while j > 0
        invariant
            j <= s.len(),
            last_index_of(s@.take(j as int), c) == last_index_of(s@, c),
        decreases j,
    {
        assert(s@.take(j as int).drop_last() == s@.take(j - 1));
        if s[j - 1] == c {
            return Some(j - 1);
        }
        j -= 1;
    }
    None
}

fn same_word_exec(s: &Vec<char>, w: &str) -> (b: bool)
    ensures
        b == same_word(s@, w@),
{
    let wv = crate::text::chars_of(w);
    if s.len() != wv.len() {
        return false;
    }
    let mut i: usize = 0;
    while i < s.len()
        invariant
            i <= s.len() == wv.len(),
            wv@ == w@,
            forall|k: int| 0 <= k < i ==> ascii_lower(#[trigger] s@[k]) == w@[k],
        decreases s.len() - i,
    {
        let c = s[i];
        let lc = if 'A' <= c && c <= 'Z' {
            ((c as u8) + 32) as char
        } else {
            c
        };
        if lc != wv[i] {
            return false;
        }
        i += 1;
    }
    true
}

/// The format of a file by its extension (see `format_of`); an error names a
/// missing or unknown extension.
pub fn detect_file_format(file_path: &str) -> (r: Result<FileFormat, String>)
    ensures
        match r {
            Ok(f) => format_of(file_path@) == Some(f),
            Err(_) => format_of(file_path@) is None,
        },
{
    let path = crate::text::chars_of(file_path);
    let name = match last_index(&path, '/') {
        Some(i) => crate::text::slice_of(&path, i + 1, path.len()),
        None => path,
    };
    assert(name@ == file_name(file_path@));
    let ext = match last_index(&name, '.') {
        Some(i) => if i > 0 {
            crate::text::slice_of(&name, i + 1, name.len())
        } else {
            return Err("File has no extension".to_string());
        },
        None => return Err("File has no extension".to_string()),
    };
    if same_word_exec(&ext, "mid") || same_word_exec(&ext, "midi") || same_word_exec(&ext, "smf") {
        Ok(FileFormat::Midi)
    } else if same_word_exec(&ext, "mtxt") {
        Ok(FileFormat::Mtxt)
    } else {
        Err("Unsupported file extension".to_string())
    }
}

} // verus!
