//! The index from file offsets to the files that contributed the bytes there.
use vstd::prelude::*;
use vstd::multiset::Multiset;
use intervaltree::IntervalTree;
use crate::detect::{dialect_from_chars, dialect_of, mapfile_from_chars, mapfile_sections, Dialect};
use crate::model::{sections_view, subsections_view, GenealogyError, Section, SectionView, SubSection, SubSectionView};
use crate::reconcile::{
    binary_layout_of, read_binary_layout, reconcile_sections, reconciled_all, BinaryLayout,
    BinaryLayoutView,
};
use crate::text::chars_of;

verus! {

#[verifier::external_type_specification]
#[verifier::external_body]
#[verifier::reject_recursive_types(K)]
#[verifier::reject_recursive_types(V)]
pub struct ExIntervalTree<K, V>(IntervalTree<K, V>);

/// An entry of the index: a half-open range of file offsets and the file it came from.
pub type Entry = (u64, u64, Seq<char>);

/// The entries that an interval tree holds, with their multiplicity.
pub uninterp spec fn tree_entries(t: IntervalTree<u64, String>) -> Multiset<Entry>;

/// A range of file offsets and the file that contributed it.
#[derive(Debug)]
pub struct Hit {
    pub start: u64,
    pub end: u64,
    pub filename: String,
}

impl View for Hit {
    type V = Entry;

    open spec fn view(&self) -> Entry {
        (self.start, self.end, self.filename@)
    }
}

pub open spec fn hits_view(v: Seq<Hit>) -> Seq<Entry> {
    v.map_values(|h: Hit| h@)
}

/// Whether `[e.0, e.1)` overlaps `[lo, hi)`, as the tree decides it.
pub open spec fn overlaps(e: Entry, lo: u64, hi: u64) -> bool {
    e.0 < hi && lo < e.1
}

/// Whether `[e.0, e.1)` holds `p`.
pub open spec fn holds(e: Entry, p: u64) -> bool {
    e.0 <= p && p < e.1
}

/// Relies on `IntervalTree`'s `FromIterator`: the tree holds the elements it is built
/// from, each range `start..end` with its value.
#[verifier::external_body]
fn tree_from(entries: Vec<Hit>) -> (r: IntervalTree<u64, String>)
    ensures
        tree_entries(r) == hits_view(entries@).to_multiset(),
{
    entries.into_iter().map(|h| (h.start..h.end, h.filename)).collect()
}

/// Relies on `IntervalTree::query`: each element whose range overlaps `lo..hi`
/// (`lo < end` and `start < hi`), once.
#[verifier::external_body]
fn tree_query(t: &IntervalTree<u64, String>, lo: u64, hi: u64) -> (r: Vec<Hit>)
    ensures
        hits_view(r@).to_multiset() == tree_entries(*t).filter(|e: Entry| overlaps(e, lo, hi)),
{
    t.query(lo..hi).map(|e| Hit { start: e.range.start, end: e.range.end, filename: e.value.clone() }).collect()
}

/// Relies on `IntervalTree::query_point`: each element whose range holds `p`
/// (`start <= p < end`), once.
#[verifier::external_body]
fn tree_query_point(t: &IntervalTree<u64, String>, p: u64) -> (r: Vec<Hit>)
    ensures
        hits_view(r@).to_multiset() == tree_entries(*t).filter(|e: Entry| holds(e, p)),
{
    t.query_point(p).map(|e| Hit { start: e.range.start, end: e.range.end, filename: e.value.clone() }).collect()
}

/// The entry of a subsection: where it has a file offset, a positive size and ends
/// within 64 bits.
pub open spec fn subsection_entry(ss: SubSectionView) -> Option<Entry> {
    match ss.start_file_offset {
        Some(off) => if ss.size > 0 && off + ss.size <= u64::MAX {
            Some((off, (off + ss.size) as u64, ss.filename))
        } else {
            None
        },
        None => None,
    }
}

pub open spec fn subsection_entries(subs: Seq<SubSectionView>) -> Multiset<Entry>
    decreases subs.len(),
{
    if subs.len() == 0 {
        Multiset::empty()
    } else {
        match subsection_entry(subs.last()) {
            Some(e) => subsection_entries(subs.drop_last()).insert(e),
            None => subsection_entries(subs.drop_last()),
        }
    }
}

/// The entries of all the subsections of `secs`.
pub open spec fn index_entries(secs: Seq<SectionView>) -> Multiset<Entry>
    decreases secs.len(),
{
    if secs.len() == 0 {
        Multiset::empty()
    } else {
        index_entries(secs.drop_last()).add(subsection_entries(secs.last().subsections))
    }
}

/// Whether a binary of this layout goes with a map file of this dialect.
pub open spec fn layout_fits(d: Dialect, layout: BinaryLayoutView) -> bool {
    match layout {
        BinaryLayoutView::Elf(_) => d is Gnu || d is Llvm,
        BinaryLayoutView::Pe(_) => d is Msvc,
        BinaryLayoutView::Unsupported => false,
    }
}

/// The entries of the index built from the map file `t` and a binary of layout `layout`,
/// or why there is none.
pub open spec fn genealogy_entries(t: Seq<char>, layout: BinaryLayoutView) -> Result<
    Multiset<Entry>,
    GenealogyError,
> {
    match mapfile_sections(t) {
        Err(e) => Err(e),
        Ok(secs) => if layout_fits(dialect_of(t), layout) {
            Ok(index_entries(reconciled_all(secs, layout)))
        } else {
            Err(GenealogyError::UnsupportedBinaryFormat)
        },
    }
}

/// Moves the entries of `subs` to `out`.
fn collect_subsections(subs: Vec<SubSection>, out: &mut Vec<Hit>)
    ensures
        hits_view(final(out)@).to_multiset() == hits_view(old(out)@).to_multiset().add(
            subsection_entries(subsections_view(subs@)),
        ),
{
    let ghost orig = subs@;
    let mut rest = subs;
    let ghost start = hits_view(out@).to_multiset();
    while rest.len() > 0
        invariant
            rest@.len() <= orig.len(),
            rest@ == orig.subrange(0, rest@.len() as int),
            hits_view(out@).to_multiset().add(subsection_entries(subsections_view(rest@)))
                == start.add(subsection_entries(subsections_view(orig))),
        decreases rest@.len(),
    {
        let ghost before = rest@;
        let ss = rest.pop().unwrap();
        proof {
            assert(subsections_view(before).drop_last() =~= subsections_view(rest@));
            assert(subsections_view(before).last() == ss@);
        }
        match ss.start_file_offset {
            Some(off) => {
                if ss.size > 0 && ss.size <= u64::MAX - off {
                    let h = Hit { start: off, end: off + ss.size, filename: ss.filename };
                    proof {
                        assert(hits_view(out@.push(h)) =~= hits_view(out@).push(h@));
                        hits_view(out@).to_multiset_ensures();
                    }
                    out.push(h);
                    assert(hits_view(out@).to_multiset().add(subsection_entries(subsections_view(rest@)))
                        =~= start.add(subsection_entries(subsections_view(orig))));
                }
            },
            None => {},
        }
    }
    assert(subsections_view(rest@) =~= seq![]);
    assert(hits_view(out@).to_multiset() =~= start.add(subsection_entries(subsections_view(orig))));
}

/// The entries of every subsection of `secs` that has a file offset and bytes.
fn collect_entries(secs: Vec<Section>) -> (r: Vec<Hit>)
    ensures
        hits_view(r@).to_multiset() == index_entries(sections_view(secs@)),
{
    let ghost orig = secs@;
    let mut rest = secs;
    let mut out: Vec<Hit> = Vec::new();
    proof {
        assert(hits_view(out@) =~= seq![]);
        hits_view(out@).to_multiset_ensures();
    }
    while rest.len() > 0
        invariant
            rest@.len() <= orig.len(),
            rest@ == orig.subrange(0, rest@.len() as int),
            hits_view(out@).to_multiset().add(index_entries(sections_view(rest@))) == index_entries(
                sections_view(orig),
            ),
        decreases rest@.len(),
    {
        let ghost before = rest@;
        let s = rest.pop().unwrap();
        proof {
            assert(sections_view(before).drop_last() =~= sections_view(rest@));
            assert(sections_view(before).last() == s@);
        }
        collect_subsections(s.subsections, &mut out);
        assert(hits_view(out@).to_multiset().add(index_entries(sections_view(rest@)))
            =~= index_entries(sections_view(orig)));
    }
    assert(sections_view(rest@) =~= seq![]);
    assert(hits_view(out@).to_multiset() =~= index_entries(sections_view(orig)));
    out
}

/// An index from file offsets of a binary to the files that contributed the bytes there.
pub struct Genealogy {
    intervals: IntervalTree<u64, String>,
}

impl Genealogy {
    /// The entries of the index, with their multiplicity.
    pub closed spec fn entries(&self) -> Multiset<Entry> {
        tree_entries(self.intervals)
    }

    /// Builds the index from a map file and the binary that the link produced.
    pub fn new(mapfile: &str, binary: &[u8]) -> (r: Result<Self, GenealogyError>)
        ensures
            match genealogy_entries(mapfile@, binary_layout_of(binary@)) {
                Ok(m) => r matches Ok(g) && g.entries() == m,
                Err(e) => r matches Err(x) && x == e,
            },
    {
        let layout = read_binary_layout(binary);
        Self::with_layout(mapfile, &layout)
    }

    /// Builds the index from a map file and the layout of the binary that the link
    /// produced.
    pub fn with_layout(mapfile: &str, layout: &BinaryLayout) -> (r: Result<Self, GenealogyError>)
        ensures
            match genealogy_entries(mapfile@, layout@) {
                Ok(m) => r matches Ok(g) && g.entries() == m,
                Err(e) => r matches Err(x) && x == e,
            },
    {
        let t = chars_of(mapfile);
        let sections = match mapfile_from_chars(&t) {
            Ok(s) => s,
            Err(e) => return Err(e),
        };
        let dialect = dialect_from_chars(&t);
        let fits = match layout {
            BinaryLayout::Elf(_) => match dialect {
                Dialect::Gnu => true,
                Dialect::Llvm(_) => true,
                Dialect::Msvc => false,
            },
            BinaryLayout::Pe(_) => match dialect {
                Dialect::Msvc => true,
                _ => false,
            },
            BinaryLayout::Unsupported => false,
        };
        if !fits {
            return Err(GenealogyError::UnsupportedBinaryFormat);
        }
        let placed = reconcile_sections(sections, layout);
        let entries = collect_entries(placed);
        let intervals = tree_from(entries);
        Ok(Genealogy { intervals })
    }

    /// The entries whose range overlaps `range`: those with `start < range.end` and
    /// `range.start < end`.
    pub fn query(&self, range: std::ops::Range<u64>) -> (r: Vec<Hit>)
        ensures
            hits_view(r@).to_multiset() == self.entries().filter(
                |e: Entry| overlaps(e, range.start, range.end),
            ),
    {
        tree_query(&self.intervals, range.start, range.end)
    }

    /// The entries whose range holds `point`.
    pub fn query_point(&self, point: u64) -> (r: Vec<Hit>)
        ensures
            hits_view(r@).to_multiset() == self.entries().filter(|e: Entry| holds(e, point)),
    {
        tree_query_point(&self.intervals, point)
    }
}

} // verus!
