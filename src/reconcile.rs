//! Gives each subsection its offset in the binary, from the binary's section table.
use vstd::prelude::*;
use crate::model::{sections_view, subsections_view, Section, SectionView, SubSection, SubSectionView};

verus! {

/// An ELF section header, as the reconciler reads it.
pub struct ElfSectionHeader {
    /// The section's name, where the string table holds one for it.
    pub name: Option<String>,
    /// Where the section starts in the file.
    pub offset: u64,
    /// How many bytes of the file it takes.
    pub size: u64,
}

pub ghost struct ElfSectionHeaderView {
    pub name: Option<Seq<char>>,
    pub offset: u64,
    pub size: u64,
}

impl View for ElfSectionHeader {
    type V = ElfSectionHeaderView;

    open spec fn view(&self) -> ElfSectionHeaderView {
        ElfSectionHeaderView {
            name: match self.name {
                Some(n) => Some(n@),
                None => None,
            },
            offset: self.offset,
            size: self.size,
        }
    }
}

/// What the reconcilers need to know of a binary.
pub enum BinaryLayout {
    /// An ELF file, with its section headers in order.
    Elf(Vec<ElfSectionHeader>),
    /// A PE file, with the file offset of each section's raw data, in order.
    Pe(Vec<u32>),
    /// Anything else, or bytes that do not parse.
    Unsupported,
}

pub ghost enum BinaryLayoutView {
    Elf(Seq<ElfSectionHeaderView>),
    Pe(Seq<u32>),
    Unsupported,
}

impl View for BinaryLayout {
    type V = BinaryLayoutView;

    open spec fn view(&self) -> BinaryLayoutView {
        match self {
            BinaryLayout::Elf(hs) => BinaryLayoutView::Elf(headers_view(hs@)),
            BinaryLayout::Pe(ps) => BinaryLayoutView::Pe(ps@),
            BinaryLayout::Unsupported => BinaryLayoutView::Unsupported,
        }
    }
}

pub open spec fn headers_view(v: Seq<ElfSectionHeader>) -> Seq<ElfSectionHeaderView> {
    v.map_values(|h: ElfSectionHeader| h@)
}

/// The section headers that goblin's ELF parser reads from the bytes of a binary, or
/// `None` where it refuses them.
pub uninterp spec fn elf_headers_of(b: Seq<u8>) -> Option<Seq<ElfSectionHeaderView>>;

/// The raw data pointers that goblin's PE parser reads from the bytes of a binary, or
/// `None` where it refuses them.
pub uninterp spec fn pe_raw_pointers_of(b: Seq<u8>) -> Option<Seq<u32>>;

/// Whether the bytes start with the ELF magic number, with room for a file header's
/// identification (16 bytes).
pub open spec fn has_elf_magic(b: Seq<u8>) -> bool {
    b.len() >= 16 && b[0] == 0x7f && b[1] == 0x45 && b[2] == 0x4c && b[3] == 0x46
}

/// Whether the bytes start with the DOS magic number `MZ` that a PE file opens with,
/// with at least 16 bytes.
pub open spec fn has_pe_magic(b: Seq<u8>) -> bool {
    b.len() >= 16 && b[0] == 0x4d && b[1] == 0x5a
}

/// The layout of a binary: its magic number picks the parser, which reads it or
/// refuses it. Only the ELF and PE parsers are ever asked.
pub open spec fn binary_layout_of(b: Seq<u8>) -> BinaryLayoutView {
    if has_elf_magic(b) {
        match elf_headers_of(b) {
            Some(hs) => BinaryLayoutView::Elf(hs),
            None => BinaryLayoutView::Unsupported,
        }
    } else if has_pe_magic(b) {
        match pe_raw_pointers_of(b) {
            Some(ps) => BinaryLayoutView::Pe(ps),
            None => BinaryLayoutView::Unsupported,
        }
    } else {
        BinaryLayoutView::Unsupported
    }
}

/// Relies on `goblin::elf::Elf::parse`, which reads the same section headers from the
/// same bytes: `sh_offset`, `sh_size`, and the name that `Strtab::get_at` finds for
/// `sh_name`.
#[verifier::external_body]
fn parse_elf_headers(binary: &[u8]) -> (r: Option<Vec<ElfSectionHeader>>)
    ensures
        r matches Some(v) ==> elf_headers_of(binary@) == Some(headers_view(v@)),
        r is None ==> elf_headers_of(binary@) is None,
{
    let elf = goblin::elf::Elf::parse(binary).ok()?;
    Some(elf.section_headers.iter().map(|sh| ElfSectionHeader {
        name: elf.shdr_strtab.get_at(sh.sh_name).map(String::from),
        offset: sh.sh_offset,
        size: sh.sh_size,
    }).collect())
}

/// Relies on `goblin::pe::PE::parse`, which reads the same section table from the same
/// bytes: each section's `pointer_to_raw_data`, in order.
#[verifier::external_body]
fn parse_pe_raw_pointers(binary: &[u8]) -> (r: Option<Vec<u32>>)
    ensures
        r matches Some(v) ==> pe_raw_pointers_of(binary@) == Some(v@),
        r is None ==> pe_raw_pointers_of(binary@) is None,
{
    let pe = goblin::pe::PE::parse(binary).ok()?;
    Some(pe.sections.iter().map(|s| s.pointer_to_raw_data).collect())
}

/// Reads the layout of a binary: the ELF parser for bytes that open with the ELF
/// magic number, the PE parser for bytes that open with `MZ`, and no parser otherwise.
pub fn read_binary_layout(binary: &[u8]) -> (r: BinaryLayout)
    ensures
        r@ == binary_layout_of(binary@),
{
    if binary.len() >= 16 && binary[0] == 0x7f && binary[1] == 0x45 && binary[2] == 0x4c
        && binary[3] == 0x46 {
        match parse_elf_headers(binary) {
            Some(hs) => BinaryLayout::Elf(hs),
            None => BinaryLayout::Unsupported,
        }
    } else if binary.len() >= 16 && binary[0] == 0x4d && binary[1] == 0x5a {
        match parse_pe_raw_pointers(binary) {
            Some(ps) => BinaryLayout::Pe(ps),
            None => BinaryLayout::Unsupported,
        }
    } else {
        BinaryLayout::Unsupported
    }
}

/// The last header named `name` among the first `k` headers of `hs`.
pub open spec fn elf_lookup(hs: Seq<ElfSectionHeaderView>, k: int, name: Seq<char>) -> Option<
    ElfSectionHeaderView,
>
    decreases k,
{
    if 0 < k <= hs.len() {
        if hs[k - 1].name == Some(name) {
            Some(hs[k - 1])
        } else {
            elf_lookup(hs, k - 1, name)
        }
    } else {
        None
    }
}

/// The file offset of a subsection at `vaddr` in a section that starts at `section_vaddr`
/// and at `file_offset` in the file: none where the subsection starts before its section
/// or the offset does not fit in 64 bits.
pub open spec fn elf_subsection_offset(vaddr: u64, section_vaddr: u64, file_offset: u64) -> Option<u64> {
    if vaddr >= section_vaddr && file_offset + (vaddr - section_vaddr) <= u64::MAX {
        Some((file_offset + (vaddr - section_vaddr)) as u64)
    } else {
        None
    }
}

/// The file offset of a subsection at offset `offset` of a PE section whose raw data
/// starts at `raw`.
pub open spec fn pe_subsection_offset(offset: u64, raw: u32) -> Option<u64> {
    if raw + offset <= u64::MAX {
        Some((raw + offset) as u64)
    } else {
        None
    }
}

pub open spec fn with_offset(ss: SubSectionView, off: Option<u64>) -> SubSectionView {
    SubSectionView { start_file_offset: off, ..ss }
}

/// The section at index `i` after reconciliation with `layout`.
pub open spec fn reconciled(s: SectionView, i: int, layout: BinaryLayoutView) -> SectionView {
    match layout {
        BinaryLayoutView::Elf(hs) => match elf_lookup(hs, hs.len() as int, s.name) {
            Some(h) => SectionView {
                start_file_offset: Some(h.offset),
                subsections: Seq::new(
                    s.subsections.len(),
                    |j: int|
                        with_offset(
                            s.subsections[j],
                            elf_subsection_offset(s.subsections[j].start_vaddr, s.start_vaddr, h.offset),
                        ),
                ),
                ..s
            },
            None => SectionView { start_file_offset: None, ..s },
        },
        BinaryLayoutView::Pe(ps) => if 0 < i <= ps.len() {
            SectionView {
                subsections: Seq::new(
                    s.subsections.len(),
                    |j: int|
                        with_offset(
                            s.subsections[j],
                            pe_subsection_offset(s.subsections[j].start_vaddr, ps[i - 1]),
                        ),
                ),
                ..s
            }
        } else {
            s
        },
        BinaryLayoutView::Unsupported => s,
    }
}

/// Every section of `secs` reconciled with `layout`; an MSVC section is matched with
/// the PE section one before its number.
pub open spec fn reconciled_all(secs: Seq<SectionView>, layout: BinaryLayoutView) -> Seq<SectionView> {
    Seq::new(secs.len(), |i: int| reconciled(secs[i], i, layout))
}

/// Reverses a vector.
fn reversed<T>(v: Vec<T>) -> (r: Vec<T>)
    ensures
        r@.len() == v@.len(),
        forall|i: int| 0 <= i < v@.len() ==> r@[i] == v@[v@.len() - 1 - i],
{
    let ghost orig = v@;
    let mut v = v;
    let mut r: Vec<T> = Vec::new();
    while v.len() > 0
        invariant
            v@ == orig.subrange(0, v@.len() as int),
            r@.len() + v@.len() == orig.len(),
            forall|i: int| 0 <= i < r@.len() ==> r@[i] == orig[orig.len() - 1 - i],
        decreases v@.len(),
    {
        let x = v.pop().unwrap();
        r.push(x);
    }
    r
}

/// Which file offset the subsection gets.
enum OffsetRule {
    Elf(u64, u64),
    Pe(u32),
}

spec fn rule_offset(rule: OffsetRule, vaddr: u64) -> Option<u64> {
    match rule {
        OffsetRule::Elf(section_vaddr, file_offset) => elf_subsection_offset(
            vaddr,
            section_vaddr,
            file_offset,
        ),
        OffsetRule::Pe(raw) => pe_subsection_offset(vaddr, raw),
    }
}

fn rule_offset_exec(rule: &OffsetRule, vaddr: u64) -> (r: Option<u64>)
    ensures
        r == rule_offset(*rule, vaddr),
{
    match rule {
        OffsetRule::Elf(section_vaddr, file_offset) => {
            if vaddr >= *section_vaddr && vaddr - *section_vaddr <= u64::MAX - *file_offset {
                Some(*file_offset + (vaddr - *section_vaddr))
            } else {
                None
            }
        },
        OffsetRule::Pe(raw) => {
            if vaddr <= u64::MAX - (*raw as u64) {
                Some(*raw as u64 + vaddr)
            } else {
                None
            }
        },
    }
}

/// Gives every subsection of `subs` the offset that `rule` assigns.
fn place_subsections(subs: Vec<SubSection>, rule: &OffsetRule) -> (r: Vec<SubSection>)
    ensures
        subsections_view(r@) == Seq::new(
            subs@.len(),
            |j: int| with_offset(subs@[j]@, rule_offset(*rule, subs@[j].start_vaddr)),
        ),
{
    let ghost orig = subs@;
    let mut rest = subs;
    let mut done: Vec<SubSection> = Vec::new();
    while rest.len() > 0
        invariant
            rest@ == orig.subrange(0, rest@.len() as int),
            done@.len() + rest@.len() == orig.len(),
            forall|i: int|
                0 <= i < done@.len() ==> #[trigger] done@[i]@ == with_offset(
                    orig[orig.len() - 1 - i]@,
                    rule_offset(*rule, orig[orig.len() - 1 - i].start_vaddr),
                ),
        decreases rest@.len(),
    {
        let mut x = rest.pop().unwrap();
        x.start_file_offset = rule_offset_exec(rule, x.start_vaddr);
        done.push(x);
    }
    let r = reversed(done);
    assert(subsections_view(r@) =~= Seq::new(
        orig.len(),
        |j: int| with_offset(orig[j]@, rule_offset(*rule, orig[j].start_vaddr)),
    ));
    r
}

/// The last header named like `name`, among all the headers.
fn find_header(hs: &Vec<ElfSectionHeader>, name: &String) -> (r: Option<(u64, u64)>)
    ensures
        match elf_lookup(headers_view(hs@), hs@.len() as int, name@) {
            Some(h) => r == Some((h.offset, h.size)),
            None => r is None,
        },
{
    let ghost hv = headers_view(hs@);
    let mut k = hs.len();
    while k > 0
        invariant
            k <= hs@.len(),
            hv == headers_view(hs@),
            elf_lookup(hv, k as int, name@) == elf_lookup(hv, hs@.len() as int, name@),
        decreases k,
    {
        let h = &hs[k - 1];
        match &h.name {
            Some(n) => {
                if same_string(n, name) {
                    return Some((h.offset, h.size));
                }
            },
            None => {},
        }
        k = k - 1;
    }
    None
}

/// Whether two strings hold the same characters.
fn same_string(a: &String, b: &String) -> (r: bool)
    ensures
        r == (a@ == b@),
{
    let x = crate::text::chars_of(a.as_str());
    let y = crate::text::chars_of(b.as_str());
    if x.len() != y.len() {
        return false;
    }
    let mut i: usize = 0;
    while i < x.len()
        invariant
            x@ == a@,
            y@ == b@,
            x@.len() == y@.len(),
            i <= x@.len(),
            forall|j: int| 0 <= j < i ==> x@[j] == y@[j],
        decreases x@.len() - i,
    {
        if x[i] != y[i] {
            return false;
        }
        i = i + 1;
    }
    assert(x@ =~= y@);
    true
}

/// The section `s`, at index `i`, reconciled with `layout`.
fn reconcile_section(s: Section, i: usize, layout: &BinaryLayout) -> (r: Section)
    ensures
        r@ == reconciled(s@, i as int, layout@),
{
    let ghost sv = s@;
    let Section { name, start_vaddr, start_file_offset, size, subsections } = s;
    match layout {
        BinaryLayout::Elf(hs) => {
            match find_header(hs, &name) {
                Some((offset, _size)) => {
                    let rule = OffsetRule::Elf(start_vaddr, offset);
                    let placed = place_subsections(subsections, &rule);
                    let r = Section {
                        name,
                        start_vaddr,
                        start_file_offset: Some(offset),
                        size,
                        subsections: placed,
                    };
                    assert(r@.subsections =~= reconciled(sv, i as int, layout@).subsections);
                    r
                },
                None => Section { name, start_vaddr, start_file_offset: None, size, subsections },
            }
        },
        BinaryLayout::Pe(ps) => {
            if i > 0 && i <= ps.len() {
                let rule = OffsetRule::Pe(ps[i - 1]);
                let placed = place_subsections(subsections, &rule);
                let r = Section { name, start_vaddr, start_file_offset, size, subsections: placed };
                assert(r@.subsections =~= reconciled(sv, i as int, layout@).subsections);
                r
            } else {
                Section { name, start_vaddr, start_file_offset, size, subsections }
            }
        },
        BinaryLayout::Unsupported => Section { name, start_vaddr, start_file_offset, size, subsections },
    }
}

/// Gives the sections and their subsections the file offsets that `layout` implies:
/// an ELF section by its name, an MSVC section by its number.
pub fn reconcile_sections(sections: Vec<Section>, layout: &BinaryLayout) -> (r: Vec<Section>)
    ensures
        sections_view(r@) == reconciled_all(sections_view(sections@), layout@),
{
    let ghost orig = sections@;
    let mut rest = sections;
    let mut done: Vec<Section> = Vec::new();
    while rest.len() > 0
        invariant
            rest@ == orig.subrange(0, rest@.len() as int),
            done@.len() + rest@.len() == orig.len(),
            forall|i: int|
                0 <= i < done@.len() ==> #[trigger] done@[i]@ == reconciled(
                    orig[orig.len() - 1 - i]@,
                    orig.len() - 1 - i,
                    layout@,
                ),
        decreases rest@.len(),
    {
        let x = rest.pop().unwrap();
        let idx = rest.len();
        let y = reconcile_section(x, idx, layout);
        done.push(y);
    }
    let r = reversed(done);
    assert(sections_view(r@) =~= reconciled_all(sections_view(orig), layout@));
    r
}

} // verus!
