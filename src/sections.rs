//! Splitting a source text into named sections: `.name arg ...` headers,
//! each followed by its non-empty body lines.
use crate::error::AsmError;
use crate::text::{self, lines, split_on, starts_with};
use vstd::prelude::*;

verus! {

/// A section as a mathematical value.
pub struct SectionV {
    pub name: Seq<char>,
    pub args: Seq<Seq<char>>,
    pub body: Seq<Seq<char>>,
}

/// The section that a header line opens; `t` is the line after its dot.
/// The first space-separated piece is the name, the others the arguments.
pub open spec fn section_header(t: Seq<char>) -> SectionV {
    let parts = split_on(t, ' ');
    SectionV { name: parts[0], args: parts.drop_first(), body: seq![] }
}

/// The sections closed so far after the first `n` lines, and the one still
/// open. Lines before the first header belong to no section; empty lines
/// are dropped.
pub open spec fn sections_upto(ls: Seq<Seq<char>>, n: nat) -> (Seq<SectionV>, Option<SectionV>)
    decreases n,
{
    if n == 0 || n > ls.len() {
        (seq![], None)
    } else {
        let (done, cur) = sections_upto(ls, (n - 1) as nat);
        let line = ls[n - 1];
        if starts_with(line, '.') {
            (
                match cur {
                    Some(c) => done.push(c),
                    None => done,
                },
                Some(section_header(line.drop_first())),
            )
        } else if line.len() > 0 {
            match cur {
                Some(c) => (done, Some(SectionV { body: c.body.push(line), ..c })),
                None => (done, None),
            }
        } else {
            (done, cur)
        }
    }
}

/// All sections of a source text, in order.
pub open spec fn all_sections(src: Seq<char>) -> Seq<SectionV> {
    let ls = lines(src);
    let (done, cur) = sections_upto(ls, ls.len());
    match cur {
        Some(c) => done.push(c),
        None => done,
    }
}

pub open spec fn has_duplicate(names: Seq<Seq<char>>) -> bool {
    exists|i: int, j: int| 0 <= i < j < names.len() && names[i] == names[j]
}

/// The sections of a source text, refused when two share a name.
pub open spec fn parse_sections(src: Seq<char>) -> Result<Seq<SectionV>, AsmError> {
    let secs = all_sections(src);
    if has_duplicate(secs.map_values(|s: SectionV| s.name)) {
        Err(AsmError::DuplicateSection)
    } else {
        Ok(secs)
    }
}

/// The first section with the given name.
pub open spec fn find_section(secs: Seq<SectionV>, name: Seq<char>) -> Option<SectionV>
    decreases secs.len(),
{
    if secs.len() == 0 {
        None
    } else if secs[0].name == name {
        Some(secs[0])
    } else {
        find_section(secs.drop_first(), name)
    }
}

#[derive(Debug, Clone)]
pub struct Section {
    pub name: Vec<char>,
    pub args: Vec<Vec<char>>,
    pub body_lines: Vec<Vec<char>>,
}

pub open spec fn lines_view(v: Seq<Vec<char>>) -> Seq<Seq<char>> {
    v.map_values(|l: Vec<char>| l@)
}

impl View for Section {
    type V = SectionV;

    open spec fn view(&self) -> SectionV {
        SectionV { name: self.name@, args: lines_view(self.args@), body: lines_view(self.body_lines@) }
    }
}

pub open spec fn sections_view(v: Seq<Section>) -> Seq<SectionV> {
    v.map_values(|s: Section| s@)
}

/// Splits `s` at every `sep`.
pub fn split_chars(s: &[char], sep: char) -> (r: Vec<Vec<char>>)
    ensures
        lines_view(r@) == split_on(s@, sep),
        r@.len() >= 1,
{
    let mut r: Vec<Vec<char>> = Vec::new();
    let mut start: usize = 0;
    assert(s@.skip(0) =~= s@);
    loop
        invariant
            start <= s@.len(),
            lines_view(r@) + split_on(s@.skip(start as int), sep) == split_on(s@, sep),
        decreases s@.len() - start,
    {
        let ghost rest = s@.skip(start as int);
        let ghost before = lines_view(r@);
        let i = text::find_char_from(s, sep, start);
        let piece = text::copy_range(s, start, i);
        assert(rest.take(i - start) =~= s@.subrange(start as int, i as int));
        r.push(piece);
        assert(lines_view(r@) =~= before.push(piece@));
        if i == s.len() {
            assert(rest =~= piece@);
            assert(lines_view(r@) =~= before + split_on(rest, sep));
            return r;
        }
        assert(rest.skip(i - start + 1) =~= s@.skip(i + 1));
        assert(before + split_on(rest, sep) =~= lines_view(r@) + split_on(s@.skip(i + 1), sep));
        start = i + 1;
    }
}

impl Section {
    /// The section that a header line opens; `title` is the line after its
    /// dot.
    fn new(title: &[char]) -> (r: Section)
        ensures
            r@ == section_header(title@),
    {
        let mut parts = split_chars(title, ' ');
        let ghost all = lines_view(parts@);
        let name = parts.remove(0);
        assert(lines_view(parts@) =~= all.drop_first());
        let body_lines: Vec<Vec<char>> = Vec::new();
        assert(lines_view(body_lines@) =~= Seq::<Seq<char>>::empty());
        Section { name, args: parts, body_lines }
    }
}

/// The sections of a source text.
#[derive(Debug, Clone)]
pub struct Sections {
    pub sections: Vec<Section>,
}

/// The first name that repeats an earlier one, if there is one.
pub fn find_duplicates(names: &Vec<Vec<char>>) -> (r: Option<Vec<char>>)
    ensures
        r is Some <==> has_duplicate(lines_view(names@)),
        r matches Some(x) ==> exists|j: int|
            0 <= j < names@.len() && #[trigger] names@[j]@ == x@ && (exists|i: int|
                0 <= i < j && names@[i]@ == x@) && !has_duplicate(lines_view(names@).take(j)),
{
    let ghost v = lines_view(names@);
    let mut j: usize = 0;
    while j < names.len()
        invariant
            j <= names@.len(),
            v == lines_view(names@),
            forall|a: int, b: int| 0 <= a < b < j ==> v[a] != v[b],
        decreases names@.len() - j,
    {
        let mut i: usize = 0;
        while i < j
            invariant
                i <= j < names@.len(),
                v == lines_view(names@),
                forall|a: int, b: int| 0 <= a < b < j ==> v[a] != v[b],
                forall|a: int| 0 <= a < i ==> v[a] != v[j as int],
            decreases j - i,
        {
            if text::eq_chars(names[i].as_slice(), names[j].as_slice()) {
                let found = names[j].clone();
                assert(found@ == names@[j as int]@);
                assert(0 <= i < j < names@.len() && v[i as int] == v[j as int]);
                assert(!has_duplicate(v.take(j as int)));
                return Some(found);
            }
            i = i + 1;
        }
        j = j + 1;
    }
    None
}

proof fn lemma_find_section_skip(secs: Seq<SectionV>, name: Seq<char>, i: int)
    requires
        0 <= i <= secs.len(),
        forall|k: int| 0 <= k < i ==> secs[k].name != name,
    ensures
        find_section(secs, name) == find_section(secs.skip(i), name),
    decreases i,
{
    if i > 0 {
        lemma_find_section_skip(secs.drop_first(), name, i - 1);
        assert(secs.drop_first().skip(i - 1) =~= secs.skip(i));
    } else {
        assert(secs.skip(0) =~= secs);
    }
}

impl Sections {
    /// Splits a source text into sections; two sections with one name are
    /// refused.
    pub fn new(code: &[char]) -> (r: Result<Sections, AsmError>)
        ensures
            match parse_sections(code@) {
                Ok(secs) => r matches Ok(s) && sections_view(s.sections@) == secs,
                Err(e) => r == Err::<Sections, AsmError>(e),
            },
    {
        let ls = text::split_lines(code);
        let ghost lsv = lines_view(ls@);
        assert(lsv == lines(code@));
        let mut sections: Vec<Section> = Vec::new();
        let mut current: Option<Section> = None;
        let mut n: usize = 0;
        while n < ls.len()
            invariant
                n <= ls@.len(),
                lsv == lines_view(ls@),
                (sections_view(sections@), match current {
                    Some(c) => Some(c@),
                    None => None::<SectionV>,
                }) == sections_upto(lsv, n as nat),
            decreases ls@.len() - n,
        {
            let line = &ls[n];
            assert(line@ == lsv[n as int]);
            if line.len() > 0 && line[0] == '.' {
                let ghost before = sections_view(sections@);
                match current {
                    Some(c) => {
                        sections.push(c);
                        assert(sections_view(sections@) =~= before.push(c@));
                    },
                    None => {},
                }
                let title = text::copy_range(line.as_slice(), 1, line.len());
                assert(title@ =~= line@.drop_first());
                current = Some(Section::new(title.as_slice()));
            } else if line.len() > 0 {
                match current {
                    Some(mut c) => {
                        let ghost cb = lines_view(c.body_lines@);
                        c.body_lines.push(line.clone());
                        assert(lines_view(c.body_lines@) =~= cb.push(line@));
                        current = Some(c);
                    },
                    None => {
                        current = None;
                    },
                }
            }
            n = n + 1;
        }
        let ghost before = sections_view(sections@);
        match current {
            Some(c) => {
                sections.push(c);
                assert(sections_view(sections@) =~= before.push(c@));
            },
            None => {},
        }
        let mut names: Vec<Vec<char>> = Vec::new();
        let mut k: usize = 0;
        while k < sections.len()
            invariant
                k <= sections@.len(),
                lines_view(names@) == sections_view(sections@).take(k as int).map_values(
                    |s: SectionV| s.name,
                ),
            decreases sections@.len() - k,
        {
            let ghost before_names = lines_view(names@);
            names.push(sections[k].name.clone());
            assert(lines_view(names@) =~= before_names.push(sections@[k as int]@.name));
            assert(sections_view(sections@).take(k + 1).map_values(|s: SectionV| s.name)
                =~= before_names.push(sections@[k as int]@.name));
            k = k + 1;
        }
        assert(sections_view(sections@).take(k as int) =~= sections_view(sections@));
        match find_duplicates(&names) {
            Some(_) => Err(AsmError::DuplicateSection),
            None => Ok(Sections { sections }),
        }
    }

    /// The first section with the given name.
    pub fn find(&self, name: &[char]) -> (r: Option<&Section>)
        ensures
            match find_section(sections_view(self.sections@), name@) {
                Some(s) => r matches Some(x) && x@ == s,
                None => r is None,
            },
    {
        let ghost v = sections_view(self.sections@);
        let mut i: usize = 0;
        while i < self.sections.len()
            invariant
                i <= self.sections@.len(),
                v == sections_view(self.sections@),
                forall|k: int| 0 <= k < i ==> v[k].name != name@,
            decreases self.sections@.len() - i,
        {
            if text::eq_chars(self.sections[i].name.as_slice(), name) {
                proof {
                    lemma_find_section_skip(v, name@, i as int);
                }
                return Some(&self.sections[i]);
            }
            i = i + 1;
        }
        proof {
            lemma_find_section_skip(v, name@, i as int);
        }
        None
    }
}

} // verus!
