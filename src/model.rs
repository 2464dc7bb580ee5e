//! The sections and subsections that a map file lists, and their models.
use vstd::prelude::*;

verus! {

/// Why an index could not be built.
#[derive(Clone, Copy, Debug, PartialEq, Eq, Structural)]
pub enum GenealogyError {
    /// The binary is neither ELF nor PE, or does not go with the map file's dialect.
    UnsupportedBinaryFormat,
    /// An MSVC map file lacks its static symbol listing or holds a malformed number there.
    WrongMapfileFormat,
}

impl GenealogyError {
    /// A sentence that describes the error.
    pub fn message(&self) -> (r: String)
        ensures
            r@ == error_message(*self)@,
    {
        match self {
            GenealogyError::UnsupportedBinaryFormat => {
                let r = "Binary format not supported. Only ELF and PE supported for now.".to_string();
                proof {
                    vstd::string::to_string_from_display_ensures_for_str(
                        "Binary format not supported. Only ELF and PE supported for now.",
                        r,
                    );
                }
                r
            },
            GenealogyError::WrongMapfileFormat => {
                let r = "Mapfile not conforming to the expected format".to_string();
                proof {
                    vstd::string::to_string_from_display_ensures_for_str(
                        "Mapfile not conforming to the expected format",
                        r,
                    );
                }
                r
            },
        }
    }
}

/// The sentence that describes each error.
pub open spec fn error_message(e: GenealogyError) -> &'static str {
    match e {
        GenealogyError::UnsupportedBinaryFormat => "Binary format not supported. Only ELF and PE supported for now.",
        GenealogyError::WrongMapfileFormat => "Mapfile not conforming to the expected format",
    }
}

/// One contribution as a flat record: its section, address, size and origin.
#[derive(Debug)]
pub struct MapfileInformation {
    pub section_name: String,
    pub vrom: u64,
    pub size: u64,
    pub filename: String,
}

/// An output section of the linked image.
#[derive(Debug)]
pub struct Section {
    pub name: String,
    pub start_vaddr: u64,
    pub start_file_offset: Option<u64>,
    pub size: u64,
    pub subsections: Vec<SubSection>,
}

/// The bytes that one input file contributed to a section.
#[derive(Debug)]
pub struct SubSection {
    pub name: String,
    pub start_vaddr: u64,
    pub start_file_offset: Option<u64>,
    pub size: u64,
    pub filename: String,
}

pub ghost struct SubSectionView {
    pub name: Seq<char>,
    pub start_vaddr: u64,
    pub start_file_offset: Option<u64>,
    pub size: u64,
    pub filename: Seq<char>,
}

pub ghost struct SectionView {
    pub name: Seq<char>,
    pub start_vaddr: u64,
    pub start_file_offset: Option<u64>,
    pub size: u64,
    pub subsections: Seq<SubSectionView>,
}

impl View for SubSection {
    type V = SubSectionView;

    open spec fn view(&self) -> SubSectionView {
        SubSectionView {
            name: self.name@,
            start_vaddr: self.start_vaddr,
            start_file_offset: self.start_file_offset,
            size: self.size,
            filename: self.filename@,
        }
    }
}

pub open spec fn subsections_view(v: Seq<SubSection>) -> Seq<SubSectionView> {
    v.map_values(|s: SubSection| s@)
}

impl View for Section {
    type V = SectionView;

    open spec fn view(&self) -> SectionView {
        SectionView {
            name: self.name@,
            start_vaddr: self.start_vaddr,
            start_file_offset: self.start_file_offset,
            size: self.size,
            subsections: subsections_view(self.subsections@),
        }
    }
}

pub open spec fn sections_view(v: Seq<Section>) -> Seq<SectionView> {
    v.map_values(|s: Section| s@)
}

pub proof fn lemma_subsections_view_push(v: Seq<SubSection>, x: SubSection)
    ensures
        subsections_view(v.push(x)) == subsections_view(v).push(x@),
{
    assert(subsections_view(v.push(x)) =~= subsections_view(v).push(x@));
}

pub proof fn lemma_sections_view_push(v: Seq<Section>, x: Section)
    ensures
        sections_view(v.push(x)) == sections_view(v).push(x@),
{
    assert(sections_view(v.push(x)) =~= sections_view(v).push(x@));
}

/// A section model with one more subsection at its end.
pub open spec fn with_subsection(s: SectionView, sub: SubSectionView) -> SectionView {
    SectionView { subsections: s.subsections.push(sub), ..s }
}

/// Adds `sub` to the last section of `secs`.
pub fn push_to_last(secs: &mut Vec<Section>, sub: SubSection)
    requires
        old(secs)@.len() > 0,
    ensures
        sections_view(final(secs)@) == sections_view(old(secs)@).update(
            old(secs)@.len() - 1,
            with_subsection(sections_view(old(secs)@).last(), sub@),
        ),
{
    let ghost before = sections_view(secs@);
    let mut last = secs.pop().unwrap();
    proof {
        lemma_subsections_view_push(last.subsections@, sub);
    }
    last.subsections.push(sub);
    proof {
        lemma_sections_view_push(secs@, last);
    }
    secs.push(last);
    assert(sections_view(secs@) =~= before.update(before.len() - 1, with_subsection(before.last(), sub@)));
}

} // verus!
