//! Source files: their lines, and the `import "name"` lines that pull in other files.
use vstd::prelude::*;
use crate::lexer::texts;
use crate::text::{trim, after_first, until_char, has_char, line_end, lemma_line_end_bounds,
    lemma_line_end_is, chars_of, trim_bounds, find_char, starts_with_at, string_of, append};

verus! {

/// A line without the `\r` of a `\r\n` ending.
pub open spec fn strip_cr(l: Seq<char>) -> Seq<char> {
    if l.len() > 0 && l.last() == '\r' { l.drop_last() } else { l }
}

/// The lines from position `i` on, as `str::lines` splits them: at each `\n`, dropping a
/// `\r` just before it, with no empty line after a final `\n`.
pub open spec fn lines_from(cs: Seq<char>, i: int) -> Seq<Seq<char>>
    decreases cs.len() - i,
{
    if 0 <= i < cs.len() {
        let e = line_end(cs, i);
        proof {
            lemma_line_end_bounds(cs, i);
        }
        if e < cs.len() {
            seq![strip_cr(cs.subrange(i, e))] + lines_from(cs, e + 1)
        } else {
            seq![cs.subrange(i, e)]
        }
    } else {
        Seq::empty()
    }
}

/// The lines of a source text.
pub open spec fn lines_of(src: Seq<char>) -> Seq<Seq<char>> {
    lines_from(src, 0)
}

/// Splits a source text into lines.
pub fn source_lines(source: &str) -> (lines: Vec<String>)
    ensures
        texts(lines@) == lines_of(source@),
{
    let cs = chars_of(source);
    let mut lines: Vec<String> = Vec::new();
    let mut i: usize = 0;
    proof {
        assert(texts(lines@) =~= Seq::<Seq<char>>::empty());
    }
    while i < cs.len()
        invariant
            cs@ == source@,
            i <= cs.len(),
            texts(lines@) + lines_from(cs@, i as int) == lines_of(source@),
        decreases cs.len() - i,
    {
        let e = find_char(&cs, i, cs.len(), '\n');
        proof {
            lemma_line_end_is(cs@, i as int, e as int);
        }
        let ghost before = texts(lines@);
        if e < cs.len() {
            let end = if e > i && cs[e - 1] == '\r' { e - 1 } else { e };
            let l = string_of(&cs, i, end);
            proof {
                let sub = cs@.subrange(i as int, e as int);
                if e > i && cs@[e - 1] == '\r' {
                    assert(sub.last() == cs@[e - 1]);
                    assert(sub.drop_last() =~= cs@.subrange(i as int, end as int));
                } else {
                    assert(strip_cr(sub) == sub);
                }
            }
            lines.push(l);
            proof {
                assert(texts(lines@) =~= before.push(l@));
                assert(before.push(l@) + lines_from(cs@, e + 1) =~= before + (seq![l@] + lines_from(cs@, e + 1)));
            }
            i = e + 1;
        } else {
            let l = string_of(&cs, i, e);
            lines.push(l);
            proof {
                assert(texts(lines@) =~= before.push(l@));
                assert(lines_from(cs@, e as int) =~= Seq::<Seq<char>>::empty());
                assert(before.push(l@) =~= before + seq![l@]);
            }
            i = e;
        }
    }
    proof {
        assert(lines_from(cs@, i as int) =~= Seq::<Seq<char>>::empty());
        assert(texts(lines@) + Seq::<Seq<char>>::empty() =~= texts(lines@));
    }
    lines
}

/// What a source line is.
#[derive(Debug, PartialEq, Eq)]
pub enum SourceLine {
    /// A line of code, kept as it is.
    Code,
    /// An `import` of the named file.
    Import(String),
    /// An `import` line without a quoted name.
    InvalidImport,
}

/// The model of a classified source line.
pub enum SSourceLine {
    Code,
    Import(Seq<char>),
    InvalidImport,
}

impl View for SourceLine {
    type V = SSourceLine;

    open spec fn view(&self) -> SSourceLine {
        match self {
            SourceLine::Code => SSourceLine::Code,
            SourceLine::Import(n) => SSourceLine::Import(n@),
            SourceLine::InvalidImport => SSourceLine::InvalidImport,
        }
    }
}

/// A line whose trimmed text starts with `import` imports the file named between its first
/// and second `"` (or after the first `"` to the end); without a `"` it is invalid.
pub open spec fn source_line(line: Seq<char>) -> SSourceLine {
    let t = trim(line);
    if "import"@.is_prefix_of(t) {
        if has_char(t, '"') {
            SSourceLine::Import(until_char(after_first(t, '"'), '"'))
        } else {
            SSourceLine::InvalidImport
        }
    } else {
        SSourceLine::Code
    }
}

/// Classifies a source line.
pub fn classify_line(line: &str) -> (r: SourceLine)
    ensures
        r@ == source_line(line@),
{
    let cs = chars_of(line);
    let key = chars_of("import");
    let (a, b) = trim_bounds(&cs, 0, cs.len());
    proof {
        assert(cs@.subrange(0, cs@.len() as int) =~= cs@);
    }
    if !starts_with_at(&cs, a, b, &key) {
        return SourceLine::Code;
    }
    let q = find_char(&cs, a, b, '"');
    if q == b {
        return SourceLine::InvalidImport;
    }
    let q2 = find_char(&cs, q + 1, b, '"');
    SourceLine::Import(string_of(&cs, q + 1, q2))
}

/// The message for an import line without a quoted name.
pub fn invalid_import_message(line: &str) -> (m: String)
    ensures
        m@ == "Invalid import: "@ + line@,
{
    let mut m = "Invalid import: ".to_owned();
    append(&mut m, line);
    m
}

/// Where an imported file is looked for.
#[derive(Clone, Copy, PartialEq, Eq, Structural, Debug)]
pub enum SearchRoot {
    /// The directory of the importing file.
    SourceDir,
    /// The `lib` directory beside the importing file.
    SourceLib,
    /// The `lib` directory beside the compiler's executable.
    InstallLib,
}

/// A file that an import may denote: a name under a search root.
#[derive(Debug, PartialEq, Eq)]
pub struct ImportCandidate {
    pub root: SearchRoot,
    pub file: String,
}

/// The candidates for `import "name"`, in the order they are tried: under each root, first
/// the name as written, then the name with `.al` added.
pub open spec fn import_candidates_of(name: Seq<char>) -> Seq<(SearchRoot, Seq<char>)> {
    let al = name + ".al"@;
    seq![
        (SearchRoot::SourceDir, name), (SearchRoot::SourceDir, al),
        (SearchRoot::SourceLib, name), (SearchRoot::SourceLib, al),
        (SearchRoot::InstallLib, name), (SearchRoot::InstallLib, al),
    ]
}

/// The model of a list of candidates.
pub open spec fn candidates_view(v: Seq<ImportCandidate>) -> Seq<(SearchRoot, Seq<char>)> {
    v.map_values(|c: ImportCandidate| (c.root, c.file@))
}

/// The files to try for `import "name"`, in order.
pub fn import_candidates(name: &str) -> (v: Vec<ImportCandidate>)
    ensures
        candidates_view(v@) == import_candidates_of(name@),
{
    let mut al = name.to_owned();
    append(&mut al, ".al");
    let v = vec![
        ImportCandidate { root: SearchRoot::SourceDir, file: name.to_owned() },
        ImportCandidate { root: SearchRoot::SourceDir, file: al.clone() },
        ImportCandidate { root: SearchRoot::SourceLib, file: name.to_owned() },
        ImportCandidate { root: SearchRoot::SourceLib, file: al.clone() },
        ImportCandidate { root: SearchRoot::InstallLib, file: name.to_owned() },
        ImportCandidate { root: SearchRoot::InstallLib, file: al },
    ];
    proof {
        assert(candidates_view(v@) =~= import_candidates_of(name@));
    }
    v
}

/// The text made of the pieces, each followed by a line break.
pub open spec fn lines_text(parts: Seq<Seq<char>>) -> Seq<char>
    decreases parts.len(),
{
    if parts.len() == 0 {
        Seq::empty()
    } else {
        lines_text(parts.drop_last()) + parts.last().push('\n')
    }
}

/// Joins the pieces of an expanded source (each a line of code, or the expanded text of an
/// imported file), each followed by a line break.
pub fn join_lines(parts: &Vec<String>) -> (s: String)
    ensures
        s@ == lines_text(texts(parts@)),
{
    let mut s = String::new();
    let mut i: usize = 0;
    proof {
        assert(texts(parts@).take(0) =~= Seq::<Seq<char>>::empty());
    }
    while i < parts.len()
        invariant
            i <= parts.len(),
            s@ == lines_text(texts(parts@).take(i as int)),
        decreases parts.len() - i,
    {
        append(&mut s, parts[i].as_str());
        s.push('\n');
        proof {
            let t = texts(parts@);
            assert(t.take(i + 1).drop_last() =~= t.take(i as int));
            assert(t.take(i + 1).last() == parts@[i as int]@);
        }
        i = i + 1;
    }
    proof {
        assert(texts(parts@).take(parts@.len() as int) =~= texts(parts@));
    }
    s
}

} // verus!
