//! The MSVC link map file grammar, and the subsections it implies.
//!
//! MSVC lists no contributions, only static symbols, one per row after the line that
//! holds ` Static symbols` and the line after it:
//! ` SSSS:OOOOOOOO <name> <16-character address> [<flag>] <origin>`, where `SSSS` is the
//! hexadecimal section number and `OOOOOOOO` the hexadecimal offset in that section.
//! The rows end at the first line of another shape. A run of consecutive rows with the
//! same section and the same object file (the origin up to its first `:`) becomes one
//! subsection, which starts at the run's first offset and is `last - first + 1` bytes
//! long (no bytes if the offsets went down). Sections are addressed by number:
//! section `n` is the `n`th of the result, and the sections in between are empty.
use vstd::prelude::*;
use crate::model::{
    lemma_sections_view_push, lemma_subsections_view_push, sections_view, with_subsection,
    GenealogyError, Section, SectionView, SubSection, SubSectionView,
};
use crate::text::{
    content_end, find_first, first_occurrence, hex_field, is_space, lemma_hex_value_bound,
    lemma_line_bounds, line_bounds, next_line, parse_hex, run_end,
    same_text, skip_run, string_of, chars_of, CharClass, char_in_class, in_class, };

verus! {

/// The fields of a symbol row: its section number and offset (`None` where they are not
/// hexadecimal), and where its object file's name starts and ends.
pub ghost struct MsvcRow {
    pub section: Option<u64>,
    pub offset: Option<u64>,
    pub file_start: int,
    pub file_end: int,
}

/// The symbol row in the line content `t[p..q]`, if it is one.
pub open spec fn msvc_row_at(t: Seq<char>, p: int, q: int) -> Option<MsvcRow> {
    let w1 = run_end(t, p + 14, q, CharClass::Space);
    let name_end = run_end(t, w1, q, CharClass::NonBlankChar);
    let w2 = run_end(t, name_end, q, CharClass::Space);
    let v = w2 + 16;
    let flag_end = if q - v >= 3 && t[v] == ' ' && in_class(CharClass::Word, t[v + 1]) && is_space(
        t[v + 2],
    ) {
        v + 2
    } else {
        v
    };
    let w3 = run_end(t, flag_end, q, CharClass::Space);
    if 0 <= p && q - p >= 14 && t[p] == ' ' && run_end(t, p + 1, p + 5, CharClass::Alnum) == p + 5
        && t[p + 5] == ':' && run_end(t, p + 6, p + 14, CharClass::Alnum) == p + 14 && w1 > p + 14
        && name_end > w1 && w2 > name_end && q - w2 >= 16 && run_end(t, w2, v, CharClass::Alnum)
        == v && w3 > flag_end && w3 < q {
        Some(
            MsvcRow {
                section: hex_field(t, p + 1, p + 5),
                offset: hex_field(t, p + 6, p + 14),
                file_start: w3,
                file_end: run_end(t, w3, q, CharClass::NotColon),
            },
        )
    } else {
        None
    }
}

/// A run of rows that have not been turned into a subsection yet.
pub ghost struct MsvcRun {
    pub filename: Seq<char>,
    pub start: u64,
    pub section: u64,
}

pub ghost struct MsvcState {
    pub sections: Seq<SectionView>,
    pub run: Option<MsvcRun>,
    pub prev: u64,
}

pub open spec fn empty_section() -> SectionView {
    SectionView {
        name: seq![],
        start_vaddr: 0,
        start_file_offset: None,
        size: 0,
        subsections: seq![],
    }
}

/// `secs`, with empty sections added so that index `n` exists.
pub open spec fn grow(secs: Seq<SectionView>, n: int) -> Seq<SectionView> {
    if n < secs.len() {
        secs
    } else {
        secs + Seq::new((n + 1 - secs.len()) as nat, |i: int| empty_section())
    }
}

/// The size of a run whose last row is at offset `prev`.
pub open spec fn run_size(start: u64, prev: u64) -> u64 {
    if prev >= start {
        (prev - start + 1) as u64
    } else {
        0
    }
}

/// `secs` with the subsection of a finished run added to its section.
pub open spec fn close_run(secs: Seq<SectionView>, run: MsvcRun, prev: u64) -> Seq<SectionView> {
    secs.update(
        run.section as int,
        with_subsection(
            secs[run.section as int],
            SubSectionView {
                name: seq![],
                start_vaddr: run.start,
                start_file_offset: None,
                size: run_size(run.start, prev),
                filename: run.filename,
            },
        ),
    )
}

/// The state after a row of section `sec`, offset `off` and object file `file`.
pub open spec fn msvc_step(st: MsvcState, sec: u64, off: u64, file: Seq<char>) -> MsvcState {
    let secs = grow(st.sections, sec as int);
    let fresh = MsvcRun { filename: file, start: off, section: sec };
    match st.run {
        None => MsvcState { sections: secs, run: Some(fresh), prev: off },
        Some(run) => if run.filename != file || run.section != sec {
            MsvcState { sections: close_run(secs, run, st.prev), run: Some(fresh), prev: off }
        } else {
            MsvcState { sections: secs, run: st.run, prev: off }
        },
    }
}

/// The state after the rows from the line at `p` on, or the error that a row
/// with a malformed number gives.
pub open spec fn msvc_scan(t: Seq<char>, p: int, st: MsvcState) -> Result<MsvcState, GenealogyError>
    decreases t.len() - p,
    via msvc_scan_decreases
{
    if 0 <= p < t.len() {
        match msvc_row_at(t, p, content_end(t, p)) {
            None => Ok(st),
            Some(row) => match (row.section, row.offset) {
                (Some(sec), Some(off)) => msvc_scan(
                    t,
                    next_line(t, p),
                    msvc_step(st, sec, off, t.subrange(row.file_start, row.file_end)),
                ),
                _ => Err(GenealogyError::WrongMapfileFormat),
            },
        }
    } else {
        Ok(st)
    }
}

#[via_fn]
proof fn msvc_scan_decreases(t: Seq<char>, p: int, st: MsvcState) {
    if 0 <= p < t.len() {
        lemma_line_bounds(t, p);
    }
}

pub open spec fn msvc_finish(st: MsvcState) -> Seq<SectionView> {
    match st.run {
        Some(run) => close_run(st.sections, run, st.prev),
        None => st.sections,
    }
}

pub open spec fn static_symbols_anchor() -> Seq<char> {
    seq![' ', 'S', 't', 'a', 't', 'i', 'c', ' ', 's', 'y', 'm', 'b', 'o', 'l', 's']
}

pub open spec fn msvc_initial() -> MsvcState {
    MsvcState { sections: seq![], run: None, prev: 0 }
}

/// Where the symbol rows start: two lines after the anchor.
pub open spec fn msvc_rows_start(t: Seq<char>, o: int) -> int {
    if next_line(t, o) < t.len() {
        next_line(t, next_line(t, o))
    } else {
        next_line(t, o)
    }
}

/// The sections of an MSVC map file, by number, or why there are none.
pub open spec fn msvc_sections(t: Seq<char>) -> Result<Seq<SectionView>, GenealogyError> {
    match first_occurrence(t, 0, t.len() as int, static_symbols_anchor()) {
        None => Err(GenealogyError::WrongMapfileFormat),
        Some(o) => match msvc_scan(
            t,
            msvc_rows_start(t, o),
            msvc_initial(),
        ) {
            Ok(st) => Ok(msvc_finish(st)),
            Err(e) => Err(e),
        },
    }
}

/// Reads the symbol row in `t[p..q]`: `(section, offset, file_start, file_end)`.
fn msvc_row(t: &Vec<char>, p: usize, q: usize) -> (r: Option<(Option<u64>, Option<u64>, usize, usize)>)
    requires
        p <= q <= t@.len(),
    ensures
        match msvc_row_at(t@, p as int, q as int) {
            Some(row) => r matches Some(x) && x.0 == row.section && x.1 == row.offset && x.2
                == row.file_start && x.3 == row.file_end && x.2 <= x.3 <= q,
            None => r is None,
        },
        r matches Some(x) ==> (x.0 matches Some(s) ==> s < 0x10000) && (x.1 matches Some(o)
            ==> o < 0x1_0000_0000),
{
    if q - p < 14 || t[p] != ' ' {
        return None;
    }
    if skip_run(t, p + 1, p + 5, CharClass::Alnum) != p + 5 || t[p + 5] != ':' || skip_run(
        t,
        p + 6,
        p + 14,
        CharClass::Alnum,
    ) != p + 14 {
        return None;
    }
    let w1 = skip_run(t, p + 14, q, CharClass::Space);
    let name_end = skip_run(t, w1, q, CharClass::NonBlankChar);
    let w2 = skip_run(t, name_end, q, CharClass::Space);
    if !(w1 > p + 14 && name_end > w1 && w2 > name_end && q - w2 >= 16) {
        return None;
    }
    let v = w2 + 16;
    if skip_run(t, w2, v, CharClass::Alnum) != v {
        return None;
    }
    let flag_end = if q - v >= 3 && t[v] == ' ' && char_in_class(CharClass::Word, t[v + 1])
        && char_in_class(CharClass::Space, t[v + 2]) {
        v + 2
    } else {
        v
    };
    let w3 = skip_run(t, flag_end, q, CharClass::Space);
    if !(w3 > flag_end && w3 < q) {
        return None;
    }
    let file_end = skip_run(t, w3, q, CharClass::NotColon);
    let section = parse_hex(t, p + 1, p + 5);
    let offset = parse_hex(t, p + 6, p + 14);
    proof {
        reveal_with_fuel(crate::text::pow16, 9);
        if section is Some {
            lemma_hex_value_bound(t@.subrange(p + 1, p + 5));
            assert(crate::text::pow16(4) == 0x10000);
        }
        if offset is Some {
            lemma_hex_value_bound(t@.subrange(p + 6, p + 14));
            assert(crate::text::pow16(8) == 0x1_0000_0000);
        }
    }
    Some((section, offset, w3, file_end))
}

fn empty_section_exec() -> (r: Section)
    ensures
        r@ == empty_section(),
{
    let s = Section {
        name: String::new(),
        start_vaddr: 0,
        start_file_offset: None,
        size: 0,
        subsections: Vec::new(),
    };
    assert(s@.subsections =~= seq![]);
    assert(s@.name =~= seq![]);
    s
}

/// Adds empty sections to `secs` until index `n` exists.
fn grow_exec(secs: &mut Vec<Section>, n: usize)
    ensures
        sections_view(final(secs)@) == grow(sections_view(old(secs)@), n as int),
        final(secs)@.len() > n,
{
    let ghost orig = sections_view(secs@);
    while secs.len() <= n
        invariant
            orig.len() <= secs@.len(),
            orig.len() <= n ==> secs@.len() <= n + 1,
            orig.len() > n ==> secs@.len() == orig.len(),
            sections_view(secs@) == orig + Seq::new(
                (secs@.len() - orig.len()) as nat,
                |i: int| empty_section(),
            ),
        decreases n + 1 - secs@.len(),
    {
        let e = empty_section_exec();
        proof {
            lemma_sections_view_push(secs@, e);
        }
        secs.push(e);
        assert(sections_view(secs@) =~= orig + Seq::new(
            (secs@.len() - orig.len()) as nat,
            |i: int| empty_section(),
        ));
    }
    assert(sections_view(secs@) =~= grow(orig, n as int));
}

/// Adds the subsection of the finished run `t[fs..fe]`, `start`, `sec` to its section.
fn close_run_exec(
    t: &Vec<char>,
    secs: &mut Vec<Section>,
    fs: usize,
    fe: usize,
    start: u64,
    sec: usize,
    prev: u64,
)
    requires
        fs <= fe <= t@.len(),
        sec < old(secs)@.len(),
        prev < 0x1_0000_0000,
    ensures
        sections_view(final(secs)@) == close_run(
            sections_view(old(secs)@),
            MsvcRun { filename: t@.subrange(fs as int, fe as int), start, section: sec as u64 },
            prev,
        ),
        final(secs)@.len() == old(secs)@.len(),
{
    let ghost before = sections_view(secs@);
    let size = if prev >= start {
        prev - start + 1
    } else {
        0
    };
    let sub = SubSection {
        name: String::new(),
        start_vaddr: start,
        start_file_offset: None,
        size,
        filename: string_of(t, fs, fe),
    };
    assert(sub@.name =~= seq![]);
    let mut s = secs.remove(sec);
    proof {
        lemma_subsections_view_push(s.subsections@, sub);
    }
    s.subsections.push(sub);
    secs.insert(sec, s);
    assert(sections_view(secs@) =~= close_run(
        before,
        MsvcRun { filename: t@.subrange(fs as int, fe as int), start, section: sec as u64 },
        prev,
    ));
}

/// Reads the sections of an MSVC link map file, each with the subsections that its
/// runs of static symbols imply.
pub fn extract_msvc_mapfile(mapfile: &str) -> (r: Result<Vec<Section>, GenealogyError>)
    ensures
        match msvc_sections(mapfile@) {
            Ok(secs) => r matches Ok(v) && sections_view(v@) == secs,
            Err(e) => r == Err::<Vec<Section>, GenealogyError>(e),
        },
{
    msvc_from_chars(&chars_of(mapfile))
}

pub(crate) fn msvc_from_chars(t: &Vec<char>) -> (r: Result<Vec<Section>, GenealogyError>)
    ensures
        match msvc_sections(t@) {
            Ok(secs) => r matches Ok(v) && sections_view(v@) == secs,
            Err(e) => r == Err::<Vec<Section>, GenealogyError>(e),
        },
{
    let anchor = vec![' ', 'S', 't', 'a', 't', 'i', 'c', ' ', 's', 'y', 'm', 'b', 'o', 'l', 's'];
    assert(anchor@ =~= static_symbols_anchor());
    let n = t.len();
    let o = match find_first(t, 0, n, &anchor) {
        Some(o) => o,
        None => return Err(GenealogyError::WrongMapfileFormat),
    };
    assert(first_occurrence(t@, 0, t@.len() as int, static_symbols_anchor()) == Some(o as int));
    let (_c0, l1) = line_bounds(t, o);
    let mut p = if l1 < n {
        line_bounds(t, l1).1
    } else {
        l1
    };
    let mut secs: Vec<Section> = Vec::new();
    let mut run: Option<(usize, usize, u64, usize)> = None;
    let mut prev: u64 = 0;
    assert(sections_view(secs@) =~= seq![]);
    while p < n
        invariant
            n == t@.len(),
            p <= n,
            first_occurrence(t@, 0, t@.len() as int, static_symbols_anchor()) == Some(o as int),
            prev < 0x1_0000_0000,
            run matches Some(x) ==> x.0 <= x.1 <= n && x.3 < secs@.len() && x.2 < 0x1_0000_0000,
            msvc_scan(t@, p as int, run_state(t@, sections_view(secs@), run, prev)) == msvc_scan(
                t@,
                msvc_rows_start(t@, o as int),
                msvc_initial(),
            ),
        decreases n - p,
    {
        let ghost st = run_state(t@, sections_view(secs@), run, prev);
        let (q, next) = line_bounds(t, p);
        match msvc_row(t, p, q) {
            None => {
                p = n;
            },
            Some((Some(sec), Some(off), fs, fe)) => {
                let sec = sec as usize;
                grow_exec(&mut secs, sec);
                match run {
                    None => {
                        run = Some((fs, fe, off, sec));
                    },
                    Some((rs, re, start, rsec)) => {
                        let same = same_text(t, rs, re, fs, fe);
                        if !same || rsec != sec {
                            close_run_exec(t, &mut secs, rs, re, start, rsec, prev);
                            run = Some((fs, fe, off, sec));
                        }
                    },
                }
                prev = off;
                assert(run_state(t@, sections_view(secs@), run, prev) == msvc_step(
                    st,
                    sec as u64,
                    off,
                    t@.subrange(fs as int, fe as int),
                ));
                p = next;
            },
            Some(_) => {
                return Err(GenealogyError::WrongMapfileFormat);
            },
        }
    }
    match run {
        Some((rs, re, start, rsec)) => {
            close_run_exec(t, &mut secs, rs, re, start, rsec, prev);
        },
        None => {},
    }
    Ok(secs)
}

/// The model of the scanner's state.
pub open spec fn run_state(
    t: Seq<char>,
    secs: Seq<SectionView>,
    run: Option<(usize, usize, u64, usize)>,
    prev: u64,
) -> MsvcState {
    MsvcState {
        sections: secs,
        run: match run {
            Some(x) => Some(
                MsvcRun { filename: t.subrange(x.0 as int, x.1 as int), start: x.2, section: x.3 as u64 },
            ),
            None => None,
        },
        prev,
    }
}

} // verus!
