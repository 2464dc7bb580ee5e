//! Properties that relate the functions of the library.
use vstd::prelude::*;
use vstd::multiset::Multiset;
use crate::detect::{dialect_of, Dialect};
use crate::gnu::{gnu_scan, gnu_section_at, gnu_sections, gnu_step};
use crate::index::{
    genealogy_entries, holds, index_entries, overlaps, subsection_entries, subsection_entry, Entry,
};
use crate::llvm::{llvm_row, llvm_sections, subsection_name_end, LlvmRow};
use crate::model::{SectionView, SubSectionView};
use crate::msvc::static_symbols_anchor;
use crate::reconcile::{
    binary_layout_of, elf_lookup, reconciled, reconciled_all, BinaryLayoutView,
    ElfSectionHeaderView,
};
use crate::gnu::gnu_subsection_at;
use crate::text::{
    all_hex, first_occurrence, hex_value, in_class, is_blank, is_hex, is_space, last_occurrence,
    lemma_run_end_exact,
    next_line, CharClass,
};

verus! {

/// Building is deterministic: the same map file and the same binary bytes give the
/// same entries, or the same error.
pub proof fn lemma_build_deterministic(m1: Seq<char>, m2: Seq<char>, b1: Seq<u8>, b2: Seq<u8>)
    requires
        m1 == m2,
        b1 == b2,
    ensures
        genealogy_entries(m1, binary_layout_of(b1)) == genealogy_entries(m2, binary_layout_of(b2)),
{
}

proof fn lemma_subsection_entries_origin(subs: Seq<SubSectionView>, e: Entry)
    requires
        subsection_entries(subs).count(e) > 0,
    ensures
        exists|j: int| 0 <= j < subs.len() && subsection_entry(#[trigger] subs[j]) == Some(e),
    decreases subs.len(),
{
    if subs.len() > 0 {
        let rest = subs.drop_last();
        if subsection_entry(subs.last()) == Some(e) {
            assert(subsection_entry(subs[subs.len() - 1]) == Some(e));
        } else {
            assert(subsection_entries(rest).count(e) > 0);
            lemma_subsection_entries_origin(rest, e);
            let j = choose|j: int| 0 <= j < rest.len() && subsection_entry(#[trigger] rest[j]) == Some(e);
            assert(subs[j] == rest[j]);
        }
    }
}

/// Each entry of the index is a subsection of the sections it was built from: it starts
/// at the subsection's file offset, is as long as the subsection and names its file.
pub proof fn lemma_entries_come_from_subsections(secs: Seq<SectionView>, e: Entry)
    requires
        index_entries(secs).count(e) > 0,
    ensures
        exists|i: int, j: int|
            0 <= i < secs.len() && 0 <= j < secs[i].subsections.len() && #[trigger] secs[i].subsections[j].start_file_offset
                == Some(e.0) && e.1 - e.0 == secs[i].subsections[j].size && e.2
                == secs[i].subsections[j].filename,
    decreases secs.len(),
{
    if secs.len() > 0 {
        let rest = secs.drop_last();
        let last = secs.len() - 1;
        if subsection_entries(secs[last].subsections).count(e) > 0 {
            lemma_subsection_entries_origin(secs[last].subsections, e);
            let j = choose|j: int|
                0 <= j < secs[last].subsections.len() && subsection_entry(
                    #[trigger] secs[last].subsections[j],
                ) == Some(e);
            assert(secs[last].subsections[j].start_file_offset == Some(e.0));
        } else {
            assert(index_entries(rest).count(e) > 0);
            lemma_entries_come_from_subsections(rest, e);
            let (i, j) = choose|i: int, j: int|
                0 <= i < rest.len() && 0 <= j < rest[i].subsections.len() && #[trigger] rest[i].subsections[j].start_file_offset
                    == Some(e.0) && e.1 - e.0 == rest[i].subsections[j].size && e.2
                    == rest[i].subsections[j].filename;
            assert(secs[i] == rest[i]);
        }
    }
}

/// In a section that the ELF reconciler finds among the headers, a subsection that lies
/// within its section in the map file lies within the header's bytes in the file,
/// where the map file's section is no larger than the header's.
pub proof fn lemma_elf_subsection_within_header(
    s: SectionView,
    i: int,
    hs: Seq<ElfSectionHeaderView>,
    j: int,
)
    requires
        elf_lookup(hs, hs.len() as int, s.name) is Some,
        0 <= j < s.subsections.len(),
        s.start_vaddr <= s.subsections[j].start_vaddr,
        s.subsections[j].start_vaddr + s.subsections[j].size <= s.start_vaddr + s.size,
        s.size <= elf_lookup(hs, hs.len() as int, s.name)->0.size,
        elf_lookup(hs, hs.len() as int, s.name)->0.offset + elf_lookup(
            hs,
            hs.len() as int,
            s.name,
        )->0.size <= u64::MAX,
    ensures
        ({
            let h = elf_lookup(hs, hs.len() as int, s.name)->0;
            let r = reconciled(s, i, BinaryLayoutView::Elf(hs));
            &&& r.start_file_offset == Some(h.offset)
            &&& r.subsections[j].start_file_offset matches Some(o) && h.offset <= o && o
                + s.subsections[j].size <= h.offset + h.size
        }),
{
}

/// A point query and a query of the one-offset range at that point find the same
/// entries.
pub proof fn lemma_point_query_is_unit_range(m: Multiset<Entry>, p: u64)
    requires
        p < u64::MAX,
    ensures
        m.filter(|e: Entry| holds(e, p)) == m.filter(|e: Entry| overlaps(e, p, (p + 1) as u64)),
{
    let a = m.filter(|e: Entry| holds(e, p));
    let b = m.filter(|e: Entry| overlaps(e, p, (p + 1) as u64));
    assert forall|e: Entry| #[trigger] a.count(e) == b.count(e) by {
        assert(holds(e, p) == overlaps(e, p, (p + 1) as u64));
    }
    assert(a =~= b);
}

/// Whether a line starts at `q`.
pub open spec fn is_line_start(t: Seq<char>, q: int) -> bool {
    q == 0 || (0 < q <= t.len() && t[q - 1] == '\n')
}

proof fn lemma_next_line_start(t: Seq<char>, p: int)
    requires
        0 <= p < t.len(),
    ensures
        next_line(t, p) < t.len() ==> is_line_start(t, next_line(t, p)),
{
    crate::text::lemma_line_bounds(t, p);
    crate::text::lemma_run_end_bounds(t, p, t.len() as int, CharClass::NotNewline);
}

proof fn lemma_gnu_scan_without_sections(t: Seq<char>, p: int)
    requires
        is_line_start(t, p) || p >= t.len(),
        forall|q: int| is_line_start(t, q) ==> #[trigger] gnu_section_at(t, q) is None,
    ensures
        gnu_scan(t, p, seq![]) == Seq::<SectionView>::empty(),
    decreases t.len() - p,
{
    if 0 <= p < t.len() {
        crate::text::lemma_line_bounds(t, p);
        lemma_next_line_start(t, p);
        assert(gnu_step(t, p, seq![]) == Seq::<SectionView>::empty());
        lemma_gnu_scan_without_sections(t, next_line(t, p));
    }
}

/// A GNU map file with no section line (at the start of any line) gives an empty index.
pub proof fn lemma_gnu_without_sections_is_empty(t: Seq<char>, hs: Seq<ElfSectionHeaderView>)
    requires
        dialect_of(t) == Dialect::Gnu,
        forall|q: int| is_line_start(t, q) ==> #[trigger] gnu_section_at(t, q) is None,
    ensures
        genealogy_entries(t, BinaryLayoutView::Elf(hs)) == Ok::<Multiset<Entry>, crate::model::GenealogyError>(
            Multiset::empty(),
        ),
{
    lemma_gnu_scan_without_sections(t, 0);
    assert(reconciled_all(gnu_sections(t), BinaryLayoutView::Elf(hs)) =~= seq![]);
}

/// An LLVM map file with no section row on any line gives an empty index.
pub proof fn lemma_llvm_without_sections_is_empty(t: Seq<char>, hs: Seq<ElfSectionHeaderView>)
    requires
        dialect_of(t) matches Dialect::Llvm(g) && forall|q: int|
            is_line_start(t, q) ==> !(#[trigger] llvm_row(t, q, g as int) matches Some(LlvmRow::Section(_))),
    ensures
        genealogy_entries(t, BinaryLayoutView::Elf(hs)) == Ok::<Multiset<Entry>, crate::model::GenealogyError>(
            Multiset::empty(),
        ),
{
    let g = dialect_of(t)->0;
    if 0 < t.len() {
        lemma_next_line_start(t, 0);
        if next_line(t, 0) < t.len() {
            assert(!(llvm_row(t, next_line(t, 0), g as int) matches Some(LlvmRow::Section(_))));
        }
    }
    assert(llvm_sections(t, g as int) == Seq::<SectionView>::empty());
    assert(reconciled_all(llvm_sections(t, g as int), BinaryLayoutView::Elf(hs)) =~= seq![]);
}

/// An input section name keeps a `+0x` suffix unless every character after its last
/// `+0x` is a hexadecimal digit.
pub proof fn lemma_llvm_suffix_kept(t: Seq<char>, a: int, b: int, j: int)
    requires
        0 <= a <= b <= t.len(),
        last_occurrence(t, a, b, b, seq!['+', '0', 'x']) matches Some(m) && m + 3 <= j < b && !is_hex(
            t[j],
        ),
    ensures
        subsection_name_end(t, a, b) == b,
{
    let m = last_occurrence(t, a, b, b, seq!['+', '0', 'x'])->0;
    crate::text::lemma_last_occurrence(t, a, b, b, seq!['+', '0', 'x']);
    assert(t.subrange(m + 3, b)[j - (m + 3)] == t[j]);
}

/// An input section name loses a `+0x<hex digits>` suffix: it ends at its last `+0x`
/// when only hexadecimal digits follow.
pub proof fn lemma_llvm_suffix_dropped(t: Seq<char>, a: int, b: int)
    requires
        last_occurrence(t, a, b, b, seq!['+', '0', 'x']) matches Some(m) && all_hex(t.subrange(m + 3, b)),
    ensures
        subsection_name_end(t, a, b) == last_occurrence(t, a, b, b, seq!['+', '0', 'x'])->0,
{
}

/// An MSVC map file without ` Static symbols` is refused as malformed.
pub proof fn lemma_msvc_without_anchor_fails(t: Seq<char>, layout: BinaryLayoutView)
    requires
        dialect_of(t) == Dialect::Msvc,
        first_occurrence(t, 0, t.len() as int, static_symbols_anchor()) is None,
    ensures
        genealogy_entries(t, layout) == Err::<Multiset<Entry>, crate::model::GenealogyError>(
            crate::model::GenealogyError::WrongMapfileFormat,
        ),
{
}

/// A section name as GNU ld writes it: a `.` and at least one more character, no white space.
pub open spec fn gnu_name_ok(name: Seq<char>) -> bool {
    name.len() >= 2 && name[0] == '.' && forall|j: int| 0 <= j < name.len() ==> !is_space(#[trigger] name[j])
}

/// Hexadecimal digits whose value fits in 64 bits.
pub open spec fn hex_digits_ok(d: Seq<char>) -> bool {
    d.len() > 0 && all_hex(d) && hex_value(d) <= u64::MAX
}

/// A file name that fits on the rest of a line and does not start with a blank.
pub open spec fn gnu_file_ok(f: Seq<char>) -> bool {
    f.len() > 0 && !is_blank(f[0]) && forall|j: int| 0 <= j < f.len() ==> #[trigger] f[j] != '\n' && f[j] != '\r'
}

/// The section line `<name> 0x<vaddr> 0x<size>`.
pub open spec fn gnu_section_line(name: Seq<char>, vaddr: Seq<char>, size: Seq<char>) -> Seq<char> {
    name + seq![' ', '0', 'x'] + vaddr + seq![' ', '0', 'x'] + size
}

/// The subsection line ` <name> 0x<vaddr> 0x<size> <file>`.
pub open spec fn gnu_subsection_line(name: Seq<char>, vaddr: Seq<char>, size: Seq<char>, file: Seq<char>) -> Seq<char> {
    seq![' '] + name + seq![' ', '0', 'x'] + vaddr + seq![' ', '0', 'x'] + size + seq![' '] + file
}

#[verifier::rlimit(100)]
proof fn lemma_section_line_chars(
    pre: Seq<char>,
    name: Seq<char>,
    vaddr: Seq<char>,
    size: Seq<char>,
    rest: Seq<char>,
)
    requires
        gnu_name_ok(name),
        all_hex(vaddr),
        all_hex(size),
    ensures
        ({
            let t = pre + gnu_section_line(name, vaddr, size) + rest;
            let p = pre.len() as int;
            let nl = name.len() as int;
            let a = p + nl + 3;
            let b = a + vaddr.len() + 3;
            let e = b + size.len();
            &&& gnu_section_line(name, vaddr, size).len() == e - p
            &&& t.len() == e + rest.len()
            &&& t.subrange(p, p + nl) == name
            &&& t.subrange(a, a + vaddr.len()) == vaddr
            &&& t.subrange(b, e) == size
            &&& t.subrange(e, t.len() as int) == rest
            &&& t[p + nl] == ' ' && t[p + nl + 1] == '0' && t[p + nl + 2] == 'x'
            &&& t[b - 3] == ' ' && t[b - 2] == '0' && t[b - 1] == 'x'
            &&& forall|j: int| p <= j < e ==> #[trigger] t[j] != '\n'
        }),
{
    let q1 = pre + name;
    let q2 = q1 + seq![' ', '0', 'x'];
    let q3 = q2 + vaddr;
    let q4 = q3 + seq![' ', '0', 'x'];
    let q5 = q4 + size;
    let t = q5 + rest;
    assert(pre + gnu_section_line(name, vaddr, size) =~= q5);
    assert(t.subrange(0, q5.len() as int) =~= q5);
    assert(q5.subrange(0, q4.len() as int) =~= q4);
    assert(q4.subrange(0, q3.len() as int) =~= q3);
    assert(q3.subrange(0, q2.len() as int) =~= q2);
    assert(q2.subrange(0, q1.len() as int) =~= q1);
    assert(t.subrange(pre.len() as int, q1.len() as int) =~= name);
    assert(t.subrange(q2.len() as int, q3.len() as int) =~= vaddr);
    assert(t.subrange(q4.len() as int, q5.len() as int) =~= size);
    assert(t.subrange(q5.len() as int, t.len() as int) =~= rest);
    assert(t[q1.len() as int] == q2[q1.len() as int]);
    assert(t[q1.len() as int + 1] == q2[q1.len() as int + 1]);
    assert(t[q1.len() as int + 2] == q2[q1.len() as int + 2]);
    assert(t[q3.len() as int] == q4[q3.len() as int]);
    assert(t[q3.len() as int + 1] == q4[q3.len() as int + 1]);
    assert(t[q3.len() as int + 2] == q4[q3.len() as int + 2]);
    assert forall|j: int| pre.len() <= j < q5.len() implies #[trigger] t[j] != '\n' by {
        if j < q1.len() {
            assert(t.subrange(pre.len() as int, q1.len() as int)[j - pre.len()] == name[j - pre.len()]);
        } else if q2.len() <= j < q3.len() {
            assert(t.subrange(q2.len() as int, q3.len() as int)[j - q2.len()] == vaddr[j - q2.len()]);
        } else if q4.len() <= j {
            assert(t.subrange(q4.len() as int, q5.len() as int)[j - q4.len()] == size[j - q4.len()]);
        }
    }
}

#[verifier::rlimit(100)]
proof fn lemma_subsection_line_chars(
    pre: Seq<char>,
    name: Seq<char>,
    vaddr: Seq<char>,
    size: Seq<char>,
    file: Seq<char>,
    rest: Seq<char>,
)
    requires
        gnu_name_ok(name),
        all_hex(vaddr),
        all_hex(size),
        gnu_file_ok(file),
    ensures
        ({
            let t = pre + gnu_subsection_line(name, vaddr, size, file) + rest;
            let p = pre.len() as int;
            let nl = name.len() as int;
            let a = p + 4 + nl;
            let b = a + vaddr.len() + 3;
            let f = b + size.len() + 1;
            let e = f + file.len();
            &&& gnu_subsection_line(name, vaddr, size, file).len() == e - p
            &&& t.len() == e + rest.len()
            &&& t.subrange(p + 1, p + 1 + nl) == name
            &&& t.subrange(a, a + vaddr.len()) == vaddr
            &&& t.subrange(b, b + size.len()) == size
            &&& t.subrange(f, e) == file
            &&& t.subrange(e, t.len() as int) == rest
            &&& t[p] == ' ' && t[p + 1 + nl] == ' ' && t[p + 2 + nl] == '0' && t[p + 3 + nl] == 'x'
            &&& t[b - 3] == ' ' && t[b - 2] == '0' && t[b - 1] == 'x'
            &&& t[f - 1] == ' '
            &&& forall|j: int| p <= j < e ==> #[trigger] t[j] != '\n'
        }),
{
    let q0 = pre + seq![' '];
    let q1 = q0 + name;
    let q2 = q1 + seq![' ', '0', 'x'];
    let q3 = q2 + vaddr;
    let q4 = q3 + seq![' ', '0', 'x'];
    let q5 = q4 + size;
    let q6 = q5 + seq![' '];
    let q7 = q6 + file;
    let t = q7 + rest;
    assert(pre + gnu_subsection_line(name, vaddr, size, file) =~= q7);
    assert(t.subrange(0, q7.len() as int) =~= q7);
    assert(q7.subrange(0, q6.len() as int) =~= q6);
    assert(q6.subrange(0, q5.len() as int) =~= q5);
    assert(q5.subrange(0, q4.len() as int) =~= q4);
    assert(q4.subrange(0, q3.len() as int) =~= q3);
    assert(q3.subrange(0, q2.len() as int) =~= q2);
    assert(q2.subrange(0, q1.len() as int) =~= q1);
    assert(q1.subrange(0, q0.len() as int) =~= q0);
    assert(t.subrange(q0.len() as int, q1.len() as int) =~= name);
    assert(t.subrange(q2.len() as int, q3.len() as int) =~= vaddr);
    assert(t.subrange(q4.len() as int, q5.len() as int) =~= size);
    assert(t.subrange(q6.len() as int, q7.len() as int) =~= file);
    assert(t.subrange(q7.len() as int, t.len() as int) =~= rest);
    assert(t[pre.len() as int] == q0[pre.len() as int]);
    assert(t[q1.len() as int] == q2[q1.len() as int]);
    assert(t[q1.len() as int + 1] == q2[q1.len() as int + 1]);
    assert(t[q1.len() as int + 2] == q2[q1.len() as int + 2]);
    assert(t[q3.len() as int] == q4[q3.len() as int]);
    assert(t[q3.len() as int + 1] == q4[q3.len() as int + 1]);
    assert(t[q3.len() as int + 2] == q4[q3.len() as int + 2]);
    assert(t[q5.len() as int] == q6[q5.len() as int]);
    assert forall|j: int| pre.len() <= j < q7.len() implies #[trigger] t[j] != '\n' by {
        if q0.len() <= j < q1.len() {
            assert(t.subrange(q0.len() as int, q1.len() as int)[j - q0.len()] == name[j - q0.len()]);
        } else if q2.len() <= j < q3.len() {
            assert(t.subrange(q2.len() as int, q3.len() as int)[j - q2.len()] == vaddr[j - q2.len()]);
        } else if q4.len() <= j < q5.len() {
            assert(t.subrange(q4.len() as int, q5.len() as int)[j - q4.len()] == size[j - q4.len()]);
        } else if q6.len() <= j {
            assert(t.subrange(q6.len() as int, q7.len() as int)[j - q6.len()] == file[j - q6.len()]);
        }
    }
}

/// A GNU section line written from a record, after any earlier lines, reads back as
/// that section: its name, address and size.
#[verifier::rlimit(50)]
pub proof fn lemma_gnu_section_round_trip(
    pre: Seq<char>,
    name: Seq<char>,
    vaddr: Seq<char>,
    size: Seq<char>,
    rest: Seq<char>,
)
    requires
        gnu_name_ok(name),
        hex_digits_ok(vaddr),
        hex_digits_ok(size),
        rest.len() == 0 || rest[0] == '\n',
    ensures
        gnu_section_at(pre + gnu_section_line(name, vaddr, size) + rest, pre.len() as int) == Some(
            SectionView {
                name,
                start_vaddr: hex_value(vaddr) as u64,
                start_file_offset: None,
                size: hex_value(size) as u64,
                subsections: seq![],
            },
        ),
{
    lemma_section_line_chars(pre, name, vaddr, size, rest);
    let t = pre + gnu_section_line(name, vaddr, size) + rest;
    let n = t.len() as int;
    let p = pre.len() as int;
    let nl = name.len() as int;
    let al = vaddr.len() as int;
    let sl = size.len() as int;
    let a = p + nl + 3;
    let b = a + al + 3;
    assert(t[p] == '.') by {
        assert(t.subrange(p, p + nl)[0] == name[0]);
    }
    assert forall|j: int| p + 1 <= j < p + nl implies in_class(CharClass::NonSpace, #[trigger] t[j]) by {
        assert(t.subrange(p, p + nl)[j - p] == name[j - p]);
    }
    lemma_run_end_exact(t, p + 1, n, CharClass::NonSpace, p + nl);
    lemma_run_end_exact(t, p + nl, n, CharClass::Space, p + nl + 1);
    assert forall|j: int| a <= j < a + al implies in_class(CharClass::Hex, #[trigger] t[j]) by {
        assert(t.subrange(a, a + al)[j - a] == vaddr[j - a]);
    }
    lemma_run_end_exact(t, a, n, CharClass::Hex, a + al);
    lemma_run_end_exact(t, a + al, n, CharClass::Blank, a + al + 1);
    assert forall|j: int| b <= j < b + sl implies in_class(CharClass::Hex, #[trigger] t[j]) by {
        assert(t.subrange(b, b + sl)[j - b] == size[j - b]);
    }
    if b + sl < n {
        assert(t[b + sl] == t.subrange(b + sl, n)[0]);
    }
    lemma_run_end_exact(t, b, n, CharClass::Hex, b + sl);
}

/// A GNU subsection line written from a record, after any earlier lines, reads back as
/// that record: its name, address, size and file.
#[verifier::rlimit(50)]
pub proof fn lemma_gnu_subsection_round_trip(
    pre: Seq<char>,
    name: Seq<char>,
    vaddr: Seq<char>,
    size: Seq<char>,
    file: Seq<char>,
    rest: Seq<char>,
)
    requires
        gnu_name_ok(name),
        hex_digits_ok(vaddr),
        hex_digits_ok(size),
        gnu_file_ok(file),
        rest.len() == 0 || rest[0] == '\n',
    ensures
        gnu_subsection_at(pre + gnu_subsection_line(name, vaddr, size, file) + rest, pre.len() as int)
            == Some(
            SubSectionView {
                name,
                start_vaddr: hex_value(vaddr) as u64,
                start_file_offset: None,
                size: hex_value(size) as u64,
                filename: file,
            },
        ),
{
    lemma_subsection_line_chars(pre, name, vaddr, size, file, rest);
    let t = pre + gnu_subsection_line(name, vaddr, size, file) + rest;
    let n = t.len() as int;
    let p = pre.len() as int;
    let nl = name.len() as int;
    let al = vaddr.len() as int;
    let sl = size.len() as int;
    let fl = file.len() as int;
    let a = p + 4 + nl;
    let b = a + al + 3;
    let f = b + sl + 1;
    assert(t[p + 1] == '.') by {
        assert(t.subrange(p + 1, p + 1 + nl)[0] == name[0]);
    }
    assert forall|j: int| p + 2 <= j < p + 1 + nl implies in_class(CharClass::NonSpace, #[trigger] t[j]) by {
        assert(t.subrange(p + 1, p + 1 + nl)[j - p - 1] == name[j - p - 1]);
    }
    lemma_run_end_exact(t, p + 2, n, CharClass::NonSpace, p + 1 + nl);
    lemma_run_end_exact(t, p + 1 + nl, n, CharClass::Space, p + 2 + nl);
    assert forall|j: int| a <= j < a + al implies in_class(CharClass::Hex, #[trigger] t[j]) by {
        assert(t.subrange(a, a + al)[j - a] == vaddr[j - a]);
    }
    lemma_run_end_exact(t, a, n, CharClass::Hex, a + al);
    lemma_run_end_exact(t, a + al, n, CharClass::Blank, a + al + 1);
    assert forall|j: int| b <= j < b + sl implies in_class(CharClass::Hex, #[trigger] t[j]) by {
        assert(t.subrange(b, b + sl)[j - b] == size[j - b]);
    }
    lemma_run_end_exact(t, b, n, CharClass::Hex, b + sl);
    assert(!is_blank(t[f])) by {
        assert(t.subrange(f, f + fl)[0] == file[0]);
    }
    lemma_run_end_exact(t, b + sl, n, CharClass::Blank, f);
    assert forall|j: int| f <= j < f + fl implies in_class(CharClass::NotLineBreak, #[trigger] t[j]) by {
        assert(t.subrange(f, f + fl)[j - f] == file[j - f]);
    }
    if f + fl < n {
        assert(t[f + fl] == t.subrange(f + fl, n)[0]);
    }
    lemma_run_end_exact(t, f, n, CharClass::NotLineBreak, f + fl);
}

/// A record of a GNU map file: a section or a subsection, with its fields as written.
pub ghost enum GnuRecord {
    Section { name: Seq<char>, vaddr: Seq<char>, size: Seq<char> },
    SubSection { name: Seq<char>, vaddr: Seq<char>, size: Seq<char>, file: Seq<char> },
}

pub open spec fn gnu_record_ok(r: GnuRecord) -> bool {
    match r {
        GnuRecord::Section { name, vaddr, size } => gnu_name_ok(name) && hex_digits_ok(vaddr)
            && hex_digits_ok(size),
        GnuRecord::SubSection { name, vaddr, size, file } => gnu_name_ok(name) && hex_digits_ok(
            vaddr,
        ) && hex_digits_ok(size) && gnu_file_ok(file),
    }
}

/// The line that writes a record.
pub open spec fn gnu_record_line(r: GnuRecord) -> Seq<char> {
    match r {
        GnuRecord::Section { name, vaddr, size } => gnu_section_line(name, vaddr, size),
        GnuRecord::SubSection { name, vaddr, size, file } => gnu_subsection_line(
            name,
            vaddr,
            size,
            file,
        ),
    }
}

/// The map file that writes the records, one line each.
pub open spec fn gnu_text(rs: Seq<GnuRecord>) -> Seq<char>
    decreases rs.len(),
{
    if rs.len() == 0 {
        seq![]
    } else {
        gnu_record_line(rs[0]) + seq!['\n'] + gnu_text(rs.drop_first())
    }
}

/// The sections after one more record: a section record opens a section with its
/// name, address and size; a subsection record joins the last section opened with its
/// name, address, size and file, and is dropped if there is none.
pub open spec fn gnu_record_apply(acc: Seq<SectionView>, r: GnuRecord) -> Seq<SectionView> {
    match r {
        GnuRecord::Section { name, vaddr, size } => acc.push(
            SectionView {
                name,
                start_vaddr: hex_value(vaddr) as u64,
                start_file_offset: None,
                size: hex_value(size) as u64,
                subsections: seq![],
            },
        ),
        GnuRecord::SubSection { name, vaddr, size, file } => if acc.len() > 0 {
            acc.update(
                acc.len() - 1,
                crate::model::with_subsection(
                    acc.last(),
                    SubSectionView {
                        name,
                        start_vaddr: hex_value(vaddr) as u64,
                        start_file_offset: None,
                        size: hex_value(size) as u64,
                        filename: file,
                    },
                ),
            )
        } else {
            acc
        },
    }
}

/// The sections that the records describe, in order, after those of `acc`.
pub open spec fn gnu_records_read(acc: Seq<SectionView>, rs: Seq<GnuRecord>) -> Seq<SectionView>
    decreases rs.len(),
{
    if rs.len() == 0 {
        acc
    } else {
        gnu_records_read(gnu_record_apply(acc, rs[0]), rs.drop_first())
    }
}

proof fn lemma_no_newline(pre: Seq<char>, line: Seq<char>, rest: Seq<char>)
    requires
        forall|j: int| pre.len() <= j < pre.len() + line.len() ==> #[trigger] (pre + line + rest)[j] != '\n',
    ensures
        forall|j: int| 0 <= j < line.len() ==> #[trigger] line[j] != '\n',
{
    assert forall|j: int| 0 <= j < line.len() implies #[trigger] line[j] != '\n' by {
        assert((pre + line + rest)[pre.len() + j] == line[j]);
    }
}

proof fn lemma_record_line_no_newline(r: GnuRecord)
    requires
        gnu_record_ok(r),
    ensures
        forall|j: int| 0 <= j < gnu_record_line(r).len() ==> #[trigger] gnu_record_line(r)[j] != '\n',
{
    let e = Seq::<char>::empty();
    let line = gnu_record_line(r);
    match r {
        GnuRecord::Section { name, vaddr, size } => {
            lemma_section_line_chars(e, name, vaddr, size, e);
        },
        GnuRecord::SubSection { name, vaddr, size, file } => {
            lemma_subsection_line_chars(e, name, vaddr, size, file, e);
        },
    }
    lemma_no_newline(e, line, e);
}

proof fn lemma_record_step(pre: Seq<char>, r: GnuRecord, rest: Seq<char>, acc: Seq<SectionView>)
    requires
        gnu_record_ok(r),
        rest.len() > 0 && rest[0] == '\n',
    ensures
        next_line(pre + gnu_record_line(r) + rest, pre.len() as int) == pre.len() + gnu_record_line(
            r,
        ).len() + 1,
        gnu_step(pre + gnu_record_line(r) + rest, pre.len() as int, acc) == gnu_record_apply(acc, r),
{
    let line = gnu_record_line(r);
    let t = pre + line + rest;
    let p = pre.len() as int;
    let e = p + line.len();
    lemma_record_line_no_newline(r);
    assert forall|j: int| p <= j < e implies in_class(CharClass::NotNewline, #[trigger] t[j]) by {
        assert(t[j] == line[j - p]);
    }
    assert(t[e] == rest[0]);
    lemma_run_end_exact(t, p, t.len() as int, CharClass::NotNewline, e);
    match r {
        GnuRecord::Section { name, vaddr, size } => {
            lemma_gnu_section_round_trip(pre, name, vaddr, size, rest);
        },
        GnuRecord::SubSection { name, vaddr, size, file } => {
            lemma_gnu_subsection_round_trip(pre, name, vaddr, size, file, rest);
            lemma_subsection_line_chars(pre, name, vaddr, size, file, rest);
            assert(gnu_section_at(t, p) is None);
        },
    }
}

proof fn lemma_gnu_scan_records(pre: Seq<char>, rs: Seq<GnuRecord>, acc: Seq<SectionView>)
    requires
        forall|i: int| 0 <= i < rs.len() ==> gnu_record_ok(#[trigger] rs[i]),
    ensures
        gnu_scan(pre + gnu_text(rs), pre.len() as int, acc) == gnu_records_read(acc, rs),
    decreases rs.len(),
{
    let t = pre + gnu_text(rs);
    if rs.len() == 0 {
        assert(t =~= pre);
    } else {
        let r = rs[0];
        let tail = rs.drop_first();
        let line = gnu_record_line(r);
        let rest = seq!['\n'] + gnu_text(tail);
        assert(gnu_record_ok(rs[0]));
        assert(t =~= pre + line + rest);
        lemma_record_step(pre, r, rest, acc);
        let next = gnu_step(t, pre.len() as int, acc);
        let pre2 = pre + line + seq!['\n'];
        assert(t =~= pre2 + gnu_text(tail));
        assert forall|i: int| 0 <= i < tail.len() implies gnu_record_ok(#[trigger] tail[i]) by {
            assert(tail[i] == rs[i + 1]);
        }
        lemma_gnu_scan_records(pre2, tail, next);
        assert(pre2.len() == next_line(t, pre.len() as int));
        assert(gnu_scan(t, pre.len() as int, acc) == gnu_scan(t, pre2.len() as int, next));
        assert(gnu_records_read(acc, rs) == gnu_records_read(next, tail));
    }
}

/// A GNU map file written from records, one line each, reads back as those records:
/// every section and subsection carries the name, address, size and file it was
/// written with, and each subsection joins the section written last before it.
pub proof fn lemma_gnu_round_trip(rs: Seq<GnuRecord>)
    requires
        forall|i: int| 0 <= i < rs.len() ==> gnu_record_ok(#[trigger] rs[i]),
    ensures
        gnu_sections(gnu_text(rs)) == gnu_records_read(seq![], rs),
{
    lemma_gnu_scan_records(Seq::<char>::empty(), rs, seq![]);
    assert(Seq::<char>::empty() + gnu_text(rs) =~= gnu_text(rs));
}

/// A subsection record of a GNU map file, with its fields as written.
pub ghost struct GnuSubRecord {
    pub name: Seq<char>,
    pub vaddr: Seq<char>,
    pub size: Seq<char>,
    pub file: Seq<char>,
}

/// A section record of a GNU map file followed by the records of its subsections.
pub ghost struct GnuGroup {
    pub name: Seq<char>,
    pub vaddr: Seq<char>,
    pub size: Seq<char>,
    pub subs: Seq<GnuSubRecord>,
}

pub open spec fn sub_record(s: GnuSubRecord) -> GnuRecord {
    GnuRecord::SubSection { name: s.name, vaddr: s.vaddr, size: s.size, file: s.file }
}

pub open spec fn sub_records(subs: Seq<GnuSubRecord>) -> Seq<GnuRecord> {
    subs.map_values(|s: GnuSubRecord| sub_record(s))
}

/// The records of the groups, in order: each section record, then its subsections'.
pub open spec fn group_records(gs: Seq<GnuGroup>) -> Seq<GnuRecord>
    decreases gs.len(),
{
    if gs.len() == 0 {
        seq![]
    } else {
        seq![GnuRecord::Section { name: gs[0].name, vaddr: gs[0].vaddr, size: gs[0].size }]
            + sub_records(gs[0].subs) + group_records(gs.drop_first())
    }
}

pub open spec fn sub_record_view(s: GnuSubRecord) -> SubSectionView {
    SubSectionView {
        name: s.name,
        start_vaddr: hex_value(s.vaddr) as u64,
        start_file_offset: None,
        size: hex_value(s.size) as u64,
        filename: s.file,
    }
}

/// The section that a group describes.
pub open spec fn group_view(g: GnuGroup) -> SectionView {
    SectionView {
        name: g.name,
        start_vaddr: hex_value(g.vaddr) as u64,
        start_file_offset: None,
        size: hex_value(g.size) as u64,
        subsections: g.subs.map_values(|s: GnuSubRecord| sub_record_view(s)),
    }
}

pub open spec fn gnu_group_ok(g: GnuGroup) -> bool {
    &&& gnu_name_ok(g.name)
    &&& hex_digits_ok(g.vaddr)
    &&& hex_digits_ok(g.size)
    &&& forall|j: int| 0 <= j < g.subs.len() ==> gnu_record_ok(#[trigger] sub_record(g.subs[j]))
}

proof fn lemma_read_append(acc: Seq<SectionView>, a: Seq<GnuRecord>, b: Seq<GnuRecord>)
    ensures
        gnu_records_read(acc, a + b) == gnu_records_read(gnu_records_read(acc, a), b),
    decreases a.len(),
{
    if a.len() > 0 {
        assert((a + b).drop_first() =~= a.drop_first() + b);
        assert((a + b)[0] == a[0]);
        lemma_read_append(gnu_record_apply(acc, a[0]), a.drop_first(), b);
    } else {
        assert(a + b =~= b);
    }
}

proof fn lemma_read_subs(acc: Seq<SectionView>, sec: SectionView, subs: Seq<GnuSubRecord>)
    ensures
        gnu_records_read(acc.push(sec), sub_records(subs)) == acc.push(
            SectionView {
                subsections: sec.subsections + subs.map_values(|s: GnuSubRecord| sub_record_view(s)),
                ..sec
            },
        ),
    decreases subs.len(),
{
    let target = acc.push(
        SectionView {
            subsections: sec.subsections + subs.map_values(|s: GnuSubRecord| sub_record_view(s)),
            ..sec
        },
    );
    if subs.len() == 0 {
        assert(sub_records(subs) =~= Seq::<GnuRecord>::empty());
        assert(sec.subsections + subs.map_values(|s: GnuSubRecord| sub_record_view(s)) =~= sec.subsections);
        assert(acc.push(sec) =~= target);
    } else {
        let sec2 = crate::model::with_subsection(sec, sub_record_view(subs[0]));
        assert(sub_records(subs)[0] == sub_record(subs[0]));
        assert(gnu_record_apply(acc.push(sec), sub_record(subs[0])) =~= acc.push(sec2));
        assert(sub_records(subs).drop_first() =~= sub_records(subs.drop_first()));
        lemma_read_subs(acc, sec2, subs.drop_first());
        assert(sec2.subsections + subs.drop_first().map_values(|s: GnuSubRecord| sub_record_view(s))
            =~= sec.subsections + subs.map_values(|s: GnuSubRecord| sub_record_view(s)));
    }
}

proof fn lemma_read_groups(acc: Seq<SectionView>, gs: Seq<GnuGroup>)
    ensures
        gnu_records_read(acc, group_records(gs)) == acc + gs.map_values(|g: GnuGroup| group_view(g)),
    decreases gs.len(),
{
    if gs.len() == 0 {
        assert(acc + gs.map_values(|g: GnuGroup| group_view(g)) =~= acc);
    } else {
        let g = gs[0];
        let head = seq![GnuRecord::Section { name: g.name, vaddr: g.vaddr, size: g.size }];
        let sec = SectionView {
            name: g.name,
            start_vaddr: hex_value(g.vaddr) as u64,
            start_file_offset: None,
            size: hex_value(g.size) as u64,
            subsections: seq![],
        };
        lemma_read_append(acc, head + sub_records(g.subs), group_records(gs.drop_first()));
        lemma_read_append(acc, head, sub_records(g.subs));
        assert(head.drop_first() =~= Seq::<GnuRecord>::empty());
        assert(gnu_record_apply(acc, head[0]) =~= acc.push(sec));
        assert(gnu_records_read(acc.push(sec), head.drop_first()) == acc.push(sec));
        assert(gnu_records_read(acc, head) == acc.push(sec));
        lemma_read_subs(acc, sec, g.subs);
        assert(SectionView {
            subsections: sec.subsections + g.subs.map_values(|s: GnuSubRecord| sub_record_view(s)),
            ..sec
        } == group_view(g)) by {
            assert(sec.subsections + g.subs.map_values(|s: GnuSubRecord| sub_record_view(s))
                =~= g.subs.map_values(|s: GnuSubRecord| sub_record_view(s)));
        }
        lemma_read_groups(acc.push(group_view(g)), gs.drop_first());
        assert(acc.push(group_view(g)) + gs.drop_first().map_values(|g: GnuGroup| group_view(g))
            =~= acc + gs.map_values(|g: GnuGroup| group_view(g)));
    }
}

proof fn lemma_group_records_ok(gs: Seq<GnuGroup>)
    requires
        forall|i: int| 0 <= i < gs.len() ==> gnu_group_ok(#[trigger] gs[i]),
    ensures
        forall|i: int| 0 <= i < group_records(gs).len() ==> gnu_record_ok(#[trigger] group_records(gs)[i]),
    decreases gs.len(),
{
    if gs.len() > 0 {
        let g = gs[0];
        assert(gnu_group_ok(gs[0]));
        let head = seq![GnuRecord::Section { name: g.name, vaddr: g.vaddr, size: g.size }];
        assert forall|i: int| 0 <= i < gs.drop_first().len() implies gnu_group_ok(#[trigger] gs.drop_first()[i]) by {
            assert(gs.drop_first()[i] == gs[i + 1]);
        }
        lemma_group_records_ok(gs.drop_first());
        let all = group_records(gs);
        let subs = sub_records(g.subs);
        let tail = group_records(gs.drop_first());
        assert(all == head + subs + tail);
        assert forall|i: int| 0 <= i < all.len() implies gnu_record_ok(#[trigger] all[i]) by {
            if i == 0 {
            } else if i < 1 + subs.len() {
                assert(all[i] == subs[i - 1]);
                assert(subs[i - 1] == sub_record(g.subs[i - 1]));
            } else {
                assert(all[i] == tail[i - 1 - subs.len()]);
            }
        }
    }
}

/// A GNU map file written as sections, each followed by its subsections, reads back as
/// exactly those sections, each holding exactly its subsections, with the names,
/// addresses, sizes and files they were written with.
pub proof fn lemma_gnu_groups_round_trip(gs: Seq<GnuGroup>)
    requires
        forall|i: int| 0 <= i < gs.len() ==> gnu_group_ok(#[trigger] gs[i]),
    ensures
        gnu_sections(gnu_text(group_records(gs))) == gs.map_values(|g: GnuGroup| group_view(g)),
{
    lemma_group_records_ok(gs);
    lemma_gnu_round_trip(group_records(gs));
    lemma_read_groups(seq![], gs);
    assert(Seq::<SectionView>::empty() + gs.map_values(|g: GnuGroup| group_view(g)) =~= gs.map_values(
        |g: GnuGroup| group_view(g),
    ));
}

} // verus!
