//! The LLVM lld map file grammar.
//!
//! After the header line, each row holds four columns (address, load address, size
//! and alignment), then white space whose length tells what the row is, then a name.
//! One character of white space marks a section. `1 + 3 + gap` characters, where
//! `gap` is the white space between `Out` and `In` in the header, mark an input
//! section, named `<file>:(<name>)`; a `+0x<hex digits>` suffix of its name is an
//! offset and is dropped. Other rows list symbols and are skipped, as are lines that
//! are not rows. The first row after the header must be a section.
use vstd::prelude::*;
use crate::model::{
    lemma_sections_view_push, lemma_subsections_view_push, sections_view, with_subsection,
    Section, SectionView, SubSection, SubSectionView,
};
use crate::text::{
    all_hex, content_end, find_first, find_last, first_occurrence, hex_field, last_occurrence,
    lemma_line_bounds, line_bounds, next_line, parse_hex, run_end, skip_run, string_of, chars_of,
    CharClass,
};

verus! {

/// What a row of the listing describes.
pub ghost enum LlvmRow {
    Section(SectionView),
    SubSection(SubSectionView),
}

/// The name of an input section with a `+0x<hex digits>` suffix taken off: `t[a..b]`
/// ends where the returned position says.
pub open spec fn subsection_name_end(t: Seq<char>, a: int, b: int) -> int {
    match last_occurrence(t, a, b, b, seq!['+', '0', 'x']) {
        Some(m) => if all_hex(t.subrange(m + 3, b)) {
            m
        } else {
            b
        },
        None => b,
    }
}

/// The row in the line content `t[p..q]`, if it is one that counts.
pub open spec fn llvm_row_at(t: Seq<char>, p: int, q: int, gap: int) -> Option<LlvmRow> {
    let a0 = run_end(t, p, q, CharClass::Space);
    let a1 = run_end(t, a0, q, CharClass::Hex);
    let b1 = run_end(t, a1, q, CharClass::Space);
    let a2 = run_end(t, b1, q, CharClass::Hex);
    let b2 = run_end(t, a2, q, CharClass::Space);
    let a3 = run_end(t, b2, q, CharClass::Hex);
    let b3 = run_end(t, a3, q, CharClass::Space);
    let a4 = run_end(t, b3, q, CharClass::Digit);
    let sp = run_end(t, a4, q, CharClass::Space);
    if a1 > a0 && b1 > a1 && a2 > b1 && b2 > a2 && a3 > b2 && b3 > a3 && a4 > b3 && sp > a4 && sp
        < q && hex_field(t, a0, a1) is Some && hex_field(t, b2, a3) is Some {
        let vaddr = hex_field(t, a0, a1)->0;
        let size = hex_field(t, b2, a3)->0;
        if sp - a4 == 1 {
            Some(
                LlvmRow::Section(
                    SectionView {
                        name: t.subrange(sp, q),
                        start_vaddr: vaddr,
                        start_file_offset: None,
                        size,
                        subsections: seq![],
                    },
                ),
            )
        } else if sp - a4 == 1 + 3 + gap {
            match first_occurrence(t, sp, q - 1, seq![':', '(']) {
                Some(k) => Some(
                    LlvmRow::SubSection(
                        SubSectionView {
                            name: t.subrange(k + 2, subsection_name_end(t, k + 2, q - 1)),
                            start_vaddr: vaddr,
                            start_file_offset: None,
                            size,
                            filename: t.subrange(sp, k),
                        },
                    ),
                ),
                None => None,
            }
        } else {
            None
        }
    } else {
        None
    }
}

/// The row on the line that starts at `p`.
pub open spec fn llvm_row(t: Seq<char>, p: int, gap: int) -> Option<LlvmRow> {
    llvm_row_at(t, p, content_end(t, p), gap)
}

/// The sections after the lines from `p` on are read, given the finished ones and
/// the one still open.
pub open spec fn llvm_scan(
    t: Seq<char>,
    p: int,
    gap: int,
    done: Seq<SectionView>,
    cur: SectionView,
) -> Seq<SectionView>
    decreases t.len() - p,
    via llvm_scan_decreases
{
    if 0 <= p < t.len() {
        match llvm_row(t, p, gap) {
            Some(LlvmRow::Section(s)) => llvm_scan(t, next_line(t, p), gap, done.push(cur), s),
            Some(LlvmRow::SubSection(sub)) => llvm_scan(
                t,
                next_line(t, p),
                gap,
                done,
                with_subsection(cur, sub),
            ),
            None => llvm_scan(t, next_line(t, p), gap, done, cur),
        }
    } else {
        done.push(cur)
    }
}

#[via_fn]
proof fn llvm_scan_decreases(
    t: Seq<char>,
    p: int,
    gap: int,
    done: Seq<SectionView>,
    cur: SectionView,
) {
    if 0 <= p < t.len() {
        lemma_line_bounds(t, p);
    }
}

/// The sections of an LLVM map file whose header has `gap` characters between `Out`
/// and `In`: none unless the line after the first is a section row.
pub open spec fn llvm_sections(t: Seq<char>, gap: int) -> Seq<SectionView> {
    let second = next_line(t, 0);
    if 0 < t.len() && second < t.len() {
        match llvm_row(t, second, gap) {
            Some(LlvmRow::Section(s)) => llvm_scan(t, next_line(t, second), gap, seq![], s),
            _ => seq![],
        }
    } else {
        seq![]
    }
}

/// Reads the row in the line content `t[p..q]`.
fn llvm_row_exec(t: &Vec<char>, p: usize, q: usize, gap: usize) -> (r: (Option<Section>, Option<SubSection>))
    requires
        p <= q <= t@.len(),
    ensures
        match llvm_row_at(t@, p as int, q as int, gap as int) {
            Some(LlvmRow::Section(s)) => r.0 matches Some(x) && x@ == s && r.1 is None,
            Some(LlvmRow::SubSection(s)) => r.1 matches Some(x) && x@ == s && r.0 is None,
            None => r.0 is None && r.1 is None,
        },
{
    let a0 = skip_run(t, p, q, CharClass::Space);
    let a1 = skip_run(t, a0, q, CharClass::Hex);
    let b1 = skip_run(t, a1, q, CharClass::Space);
    let a2 = skip_run(t, b1, q, CharClass::Hex);
    let b2 = skip_run(t, a2, q, CharClass::Space);
    let a3 = skip_run(t, b2, q, CharClass::Hex);
    let b3 = skip_run(t, a3, q, CharClass::Space);
    let a4 = skip_run(t, b3, q, CharClass::Digit);
    let sp = skip_run(t, a4, q, CharClass::Space);
    if !(a1 > a0 && b1 > a1 && a2 > b1 && b2 > a2 && a3 > b2 && b3 > a3 && a4 > b3 && sp > a4
        && sp < q) {
        return (None, None);
    }
    let vaddr = match parse_hex(t, a0, a1) {
        Some(v) => v,
        None => return (None, None),
    };
    let size = match parse_hex(t, b2, a3) {
        Some(v) => v,
        None => return (None, None),
    };
    if sp - a4 == 1 {
        let s = Section {
            name: string_of(t, sp, q),
            start_vaddr: vaddr,
            start_file_offset: None,
            size,
            subsections: Vec::new(),
        };
        assert(s@.subsections =~= seq![]);
        (Some(s), None)
    } else if gap <= usize::MAX - 4 && sp - a4 == 1 + 3 + gap {
        let split = vec![':', '('];
        assert(split@ =~= seq![':', '(']);
        match find_first(t, sp, q - 1, &split) {
            Some(k) => {
                let suffix = vec!['+', '0', 'x'];
                assert(suffix@ =~= seq!['+', '0', 'x']);
                let name_end = match find_last(t, k + 2, q - 1, &suffix) {
                    Some(m) => {
                        let all = all_hex_exec(t, m + 3, q - 1);
                        if all {
                            m
                        } else {
                            q - 1
                        }
                    },
                    None => q - 1,
                };
                let sub = SubSection {
                    name: string_of(t, k + 2, name_end),
                    start_vaddr: vaddr,
                    start_file_offset: None,
                    size,
                    filename: string_of(t, sp, k),
                };
                (None, Some(sub))
            },
            None => (None, None),
        }
    } else {
        (None, None)
    }
}

fn all_hex_exec(t: &Vec<char>, a: usize, b: usize) -> (r: bool)
    requires
        a <= b <= t@.len(),
    ensures
        r == all_hex(t@.subrange(a as int, b as int)),
{
    let e = skip_run(t, a, b, CharClass::Hex);
    proof {
        crate::text::lemma_run_end_bounds(t@, a as int, b as int, CharClass::Hex);
    }
    if e < b {
        assert(t@.subrange(a as int, b as int)[e - a] == t@[e as int]);
    }
    e == b
}

/// Reads the sections and input sections of an LLVM lld map file whose header has
/// `out_in_len` characters of white space between `Out` and `In`.
pub fn extract_llvm_mapfile(mapfile: &str, out_in_len: usize) -> (r: Vec<Section>)
    ensures
        sections_view(r@) == llvm_sections(mapfile@, out_in_len as int),
{
    llvm_from_chars(&chars_of(mapfile), out_in_len)
}

pub(crate) fn llvm_from_chars(t: &Vec<char>, gap: usize) -> (r: Vec<Section>)
    ensures
        sections_view(r@) == llvm_sections(t@, gap as int),
{
    let mut done: Vec<Section> = Vec::new();
    assert(sections_view(done@) =~= seq![]);
    if t.len() == 0 {
        return done;
    }
    let (_c0, second) = line_bounds(t, 0);
    if second >= t.len() {
        return done;
    }
    let (c1, mut p) = line_bounds(t, second);
    let mut cur = match llvm_row_exec(t, second, c1, gap) {
        (Some(s), _) => s,
        _ => return done,
    };
    while p < t.len()
        invariant
            p <= t@.len(),
            llvm_scan(t@, p as int, gap as int, sections_view(done@), cur@) == llvm_sections(
                t@,
                gap as int,
            ),
        decreases t@.len() - p,
    {
        let (c, next) = line_bounds(t, p);
        match llvm_row_exec(t, p, c, gap) {
            (Some(s), _) => {
                proof {
                    lemma_sections_view_push(done@, cur);
                }
                done.push(cur);
                cur = s;
            },
            (None, Some(sub)) => {
                proof {
                    lemma_subsections_view_push(cur.subsections@, sub);
                }
                cur.subsections.push(sub);
            },
            (None, None) => {},
        }
        p = next;
    }
    proof {
        lemma_sections_view_push(done@, cur);
    }
    done.push(cur);
    done
}

} // verus!
