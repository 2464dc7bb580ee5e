//! The GNU ld map file grammar.
//!
//! A section line starts with its name, a `.` and at least one more character that is
//! not white space, then white space (which may run over line breaks, as ld does for
//! long names), `0x` and the hexadecimal address, blanks, `0x` and the hexadecimal size.
//! A subsection line is one space, then the same shape, then blanks and the name of
//! the input file, which runs to the end of the line. Only lines of these shapes count;
//! a subsection belongs to the last section line above it, and one with no section
//! above it is dropped.
use vstd::prelude::*;
use crate::model::{
    push_to_last, sections_view, lemma_sections_view_push, with_subsection, Section, SectionView,
    SubSection, SubSectionView,
};
use crate::text::{
    hex_field, lemma_line_bounds, line_bounds, next_line, parse_hex,
    run_end, skip_run, string_of, chars_of, CharClass,
};

verus! {

/// Where the parts of a `<name> 0x<address> 0x<size>` entry end.
pub ghost struct GnuEntry {
    pub name_end: int,
    pub vaddr: u64,
    pub size: u64,
    pub end: int,
}

/// The entry whose name starts at `q`, if one does.
pub open spec fn gnu_entry_at(t: Seq<char>, q: int) -> Option<GnuEntry> {
    let n = t.len() as int;
    let name_end = run_end(t, q + 1, n, CharClass::NonSpace);
    let gap_end = run_end(t, name_end, n, CharClass::Space);
    let vaddr_end = run_end(t, gap_end + 2, n, CharClass::Hex);
    let blank_end = run_end(t, vaddr_end, n, CharClass::Blank);
    let size_end = run_end(t, blank_end + 2, n, CharClass::Hex);
    if 0 <= q < n && t[q] == '.' && name_end > q + 1 && gap_end > name_end && gap_end + 2 <= n
        && t[gap_end] == '0' && t[gap_end + 1] == 'x' && vaddr_end > gap_end + 2 && hex_field(
        t,
        gap_end + 2,
        vaddr_end,
    ) is Some && blank_end > vaddr_end && n - blank_end >= 2 && t[blank_end] == '0' && t[blank_end
        + 1] == 'x' && hex_field(t, blank_end + 2, size_end) is Some {
        Some(
            GnuEntry {
                name_end,
                vaddr: hex_field(t, gap_end + 2, vaddr_end)->0,
                size: hex_field(t, blank_end + 2, size_end)->0,
                end: size_end,
            },
        )
    } else {
        None
    }
}

/// The section line that starts at `p`, if there is one.
pub open spec fn gnu_section_at(t: Seq<char>, p: int) -> Option<SectionView> {
    match gnu_entry_at(t, p) {
        Some(e) => Some(
            SectionView {
                name: t.subrange(p, e.name_end),
                start_vaddr: e.vaddr,
                start_file_offset: None,
                size: e.size,
                subsections: seq![],
            },
        ),
        None => None,
    }
}

/// The subsection line that starts at `p`, if there is one.
pub open spec fn gnu_subsection_at(t: Seq<char>, p: int) -> Option<SubSectionView> {
    let n = t.len() as int;
    if 0 <= p < n && t[p] == ' ' {
        match gnu_entry_at(t, p + 1) {
            Some(e) => {
                let file_start = run_end(t, e.end, n, CharClass::Blank);
                let file_end = run_end(t, file_start, n, CharClass::NotLineBreak);
                if file_start > e.end && file_end > file_start {
                    Some(
                        SubSectionView {
                            name: t.subrange(p + 1, e.name_end),
                            start_vaddr: e.vaddr,
                            start_file_offset: None,
                            size: e.size,
                            filename: t.subrange(file_start, file_end),
                        },
                    )
                } else {
                    None
                }
            },
            None => None,
        }
    } else {
        None
    }
}

/// The sections found so far after the line that starts at `p` is read.
pub open spec fn gnu_step(t: Seq<char>, p: int, secs: Seq<SectionView>) -> Seq<SectionView> {
    match gnu_section_at(t, p) {
        Some(s) => secs.push(s),
        None => match gnu_subsection_at(t, p) {
            Some(sub) => if secs.len() > 0 {
                secs.update(secs.len() - 1, with_subsection(secs.last(), sub))
            } else {
                secs
            },
            None => secs,
        },
    }
}

/// The sections after the lines from `p` on are read, given those read before.
pub open spec fn gnu_scan(t: Seq<char>, p: int, secs: Seq<SectionView>) -> Seq<SectionView>
    decreases t.len() - p,
    via gnu_scan_decreases
{
    if 0 <= p < t.len() {
        gnu_scan(t, next_line(t, p), gnu_step(t, p, secs))
    } else {
        secs
    }
}

#[via_fn]
proof fn gnu_scan_decreases(t: Seq<char>, p: int, secs: Seq<SectionView>) {
    if 0 <= p < t.len() {
        lemma_line_bounds(t, p);
    }
}

/// The sections of a GNU map file, each with its subsections, in the order of the text.
pub open spec fn gnu_sections(t: Seq<char>) -> Seq<SectionView> {
    gnu_scan(t, 0, seq![])
}

/// Returns `(name_end, vaddr, size, end)` of the entry whose name starts at `q`.
fn gnu_entry(t: &Vec<char>, q: usize) -> (r: Option<(usize, u64, u64, usize)>)
    requires
        q <= t@.len(),
    ensures
        match gnu_entry_at(t@, q as int) {
            Some(e) => r matches Some(x) && x.0 == e.name_end && x.1 == e.vaddr && x.2 == e.size
                && x.3 == e.end && q < e.name_end <= e.end <= t@.len(),
            None => r is None,
        },
{
    let n = t.len();
    if q >= n || t[q] != '.' {
        return None;
    }
    let name_end = skip_run(t, q + 1, n, CharClass::NonSpace);
    let gap_end = skip_run(t, name_end, n, CharClass::Space);
    if !(name_end > q + 1 && gap_end > name_end && n - gap_end >= 2 && t[gap_end] == '0'
        && t[gap_end + 1] == 'x') {
        return None;
    }
    let vaddr_end = skip_run(t, gap_end + 2, n, CharClass::Hex);
    if vaddr_end <= gap_end + 2 {
        return None;
    }
    let vaddr = match parse_hex(t, gap_end + 2, vaddr_end) {
        Some(v) => v,
        None => return None,
    };
    let blank_end = skip_run(t, vaddr_end, n, CharClass::Blank);
    if !(blank_end > vaddr_end && n - blank_end >= 2 && t[blank_end] == '0' && t[blank_end + 1]
        == 'x') {
        return None;
    }
    let size_end = skip_run(t, blank_end + 2, n, CharClass::Hex);
    let size = match parse_hex(t, blank_end + 2, size_end) {
        Some(v) => v,
        None => return None,
    };
    Some((name_end, vaddr, size, size_end))
}

fn gnu_section(t: &Vec<char>, p: usize) -> (r: Option<Section>)
    requires
        p <= t@.len(),
    ensures
        match gnu_section_at(t@, p as int) {
            Some(s) => r matches Some(x) && x@ == s,
            None => r is None,
        },
{
    match gnu_entry(t, p) {
        Some((name_end, vaddr, size, _end)) => {
            let s = Section {
                name: string_of(t, p, name_end),
                start_vaddr: vaddr,
                start_file_offset: None,
                size,
                subsections: Vec::new(),
            };
            assert(s@.subsections =~= seq![]);
            Some(s)
        },
        None => None,
    }
}

fn gnu_subsection(t: &Vec<char>, p: usize) -> (r: Option<SubSection>)
    requires
        p <= t@.len(),
    ensures
        match gnu_subsection_at(t@, p as int) {
            Some(s) => r matches Some(x) && x@ == s,
            None => r is None,
        },
{
    let n = t.len();
    if p >= n || t[p] != ' ' {
        return None;
    }
    match gnu_entry(t, p + 1) {
        Some((name_end, vaddr, size, end)) => {
            let file_start = skip_run(t, end, n, CharClass::Blank);
            let file_end = skip_run(t, file_start, n, CharClass::NotLineBreak);
            if file_start > end && file_end > file_start {
                Some(
                    SubSection {
                        name: string_of(t, p + 1, name_end),
                        start_vaddr: vaddr,
                        start_file_offset: None,
                        size,
                        filename: string_of(t, file_start, file_end),
                    },
                )
            } else {
                None
            }
        },
        None => None,
    }
}

/// Reads the sections and subsections of a GNU ld map file.
pub fn extract_gnu_mapfile(mapfile: &str) -> (r: Vec<Section>)
    ensures
        sections_view(r@) == gnu_sections(mapfile@),
{
    gnu_from_chars(&chars_of(mapfile))
}

pub(crate) fn gnu_from_chars(t: &Vec<char>) -> (r: Vec<Section>)
    ensures
        sections_view(r@) == gnu_sections(t@),
{
    let mut secs: Vec<Section> = Vec::new();
    let mut p: usize = 0;
    assert(sections_view(secs@) =~= seq![]);
    while p < t.len()
        invariant
            p <= t@.len(),
            gnu_scan(t@, p as int, sections_view(secs@)) == gnu_sections(t@),
        decreases t@.len() - p,
    {
        let ghost before = sections_view(secs@);
        match gnu_section(t, p) {
            Some(s) => {
                proof {
                    lemma_sections_view_push(secs@, s);
                }
                secs.push(s);
            },
            None => match gnu_subsection(t, p) {
                Some(sub) => {
                    if secs.len() > 0 {
                        push_to_last(&mut secs, sub);
                    }
                },
                None => {},
            },
        }
        assert(sections_view(secs@) == gnu_step(t@, p as int, before));
        let (_c, next) = line_bounds(t, p);
        p = next;
    }
    secs
}

} // verus!
