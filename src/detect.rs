//! Tells the three map file dialects apart, and reads a map file in its dialect.
//!
//! A text that holds `VMA LMA Size Align Out In Symbol`, with white space between the
//! words, is an LLVM lld map file; the white space between `Out` and `In` in the first
//! such header measures its indentation. Else a text that holds
//! `Preferred load address is ` is an MSVC link map file. Anything else is read as a
//! GNU ld map file.
use vstd::prelude::*;
use crate::gnu::{gnu_from_chars, gnu_sections};
use crate::llvm::{llvm_from_chars, llvm_sections};
use crate::model::{sections_view, GenealogyError, Section, SectionView};
use crate::msvc::{msvc_from_chars, msvc_sections};
use crate::text::{chars_of, find_first, first_occurrence, occurs_at, pattern_at, run_end, skip_run, CharClass};

verus! {

/// The dialect of a map file.
#[derive(Clone, Copy, Debug, PartialEq, Eq, Structural)]
pub enum Dialect {
    Gnu,
    /// LLVM lld, with the width of the white space between `Out` and `In`.
    Llvm(usize),
    Msvc,
}

/// Where the white space after the word `w` at `k` ends, if `w` stands at `k` and
/// white space follows it.
pub open spec fn word_space(t: Seq<char>, k: int, w: Seq<char>) -> Option<int> {
    let e = run_end(t, k + w.len(), t.len() as int, CharClass::Space);
    if occurs_at(t, k, t.len() as int, w) && e > k + w.len() {
        Some(e)
    } else {
        None
    }
}

/// The width of the white space between `Out` and `In`, if the LLVM header starts at `k`.
pub open spec fn llvm_header_at(t: Seq<char>, k: int) -> Option<int> {
    match word_space(t, k, seq!['V', 'M', 'A']) {
        None => None,
        Some(a) => match word_space(t, a, seq!['L', 'M', 'A']) {
            None => None,
            Some(b) => match word_space(t, b, seq!['S', 'i', 'z', 'e']) {
                None => None,
                Some(c) => match word_space(t, c, seq!['A', 'l', 'i', 'g', 'n']) {
                    None => None,
                    Some(d) => match word_space(t, d, seq!['O', 'u', 't']) {
                        None => None,
                        Some(e) => match word_space(t, e, seq!['I', 'n']) {
                            None => None,
                            Some(f) => if occurs_at(
                                t,
                                f,
                                t.len() as int,
                                seq!['S', 'y', 'm', 'b', 'o', 'l'],
                            ) {
                                Some(e - (d + 3))
                            } else {
                                None
                            },
                        },
                    },
                },
            },
        },
    }
}

/// The gap of the first LLVM header at or after `i`.
pub open spec fn llvm_header_from(t: Seq<char>, i: int) -> Option<int>
    decreases t.len() - i,
{
    if 0 <= i < t.len() {
        match llvm_header_at(t, i) {
            Some(g) => Some(g),
            None => llvm_header_from(t, i + 1),
        }
    } else {
        None
    }
}

pub open spec fn msvc_banner() -> Seq<char> {
    seq![
        'P', 'r', 'e', 'f', 'e', 'r', 'r', 'e', 'd', ' ', 'l', 'o', 'a', 'd', ' ', 'a', 'd', 'd',
        'r', 'e', 's', 's', ' ', 'i', 's', ' ',
    ]
}

/// The dialect of the map file `t`.
pub open spec fn dialect_of(t: Seq<char>) -> Dialect {
    match llvm_header_from(t, 0) {
        Some(g) => Dialect::Llvm(g as usize),
        None => if first_occurrence(t, 0, t.len() as int, msvc_banner()) is Some {
            Dialect::Msvc
        } else {
            Dialect::Gnu
        },
    }
}

/// The sections that the map file `t` lists, read in its dialect.
pub open spec fn mapfile_sections(t: Seq<char>) -> Result<Seq<SectionView>, GenealogyError> {
    match dialect_of(t) {
        Dialect::Llvm(g) => Ok(llvm_sections(t, g as int)),
        Dialect::Msvc => msvc_sections(t),
        Dialect::Gnu => Ok(gnu_sections(t)),
    }
}

fn word_space_exec(t: &Vec<char>, k: usize, w: &Vec<char>) -> (r: Option<usize>)
    ensures
        r matches Some(x) ==> word_space(t@, k as int, w@) == Some(x as int) && k < x <= t@.len(),
        r is None ==> word_space(t@, k as int, w@) is None,
{
    if !pattern_at(t, k, t.len(), w) {
        return None;
    }
    let e = skip_run(t, k + w.len(), t.len(), CharClass::Space);
    if e > k + w.len() {
        Some(e)
    } else {
        None
    }
}

fn llvm_header_at_exec(t: &Vec<char>, k: usize) -> (r: Option<usize>)
    ensures
        match llvm_header_at(t@, k as int) {
            Some(g) => r == Some(g as usize) && 0 <= g <= t@.len(),
            None => r is None,
        },
{
    let vma = vec!['V', 'M', 'A'];
    let lma = vec!['L', 'M', 'A'];
    let size = vec!['S', 'i', 'z', 'e'];
    let align = vec!['A', 'l', 'i', 'g', 'n'];
    let out = vec!['O', 'u', 't'];
    let inp = vec!['I', 'n'];
    let symbol = vec!['S', 'y', 'm', 'b', 'o', 'l'];
    assert(vma@ =~= seq!['V', 'M', 'A']);
    assert(lma@ =~= seq!['L', 'M', 'A']);
    assert(size@ =~= seq!['S', 'i', 'z', 'e']);
    assert(align@ =~= seq!['A', 'l', 'i', 'g', 'n']);
    assert(out@ =~= seq!['O', 'u', 't']);
    assert(inp@ =~= seq!['I', 'n']);
    assert(symbol@ =~= seq!['S', 'y', 'm', 'b', 'o', 'l']);
    let a = match word_space_exec(t, k, &vma) {
        Some(x) => x,
        None => return None,
    };
    let b = match word_space_exec(t, a, &lma) {
        Some(x) => x,
        None => return None,
    };
    let c = match word_space_exec(t, b, &size) {
        Some(x) => x,
        None => return None,
    };
    let d = match word_space_exec(t, c, &align) {
        Some(x) => x,
        None => return None,
    };
    let e = match word_space_exec(t, d, &out) {
        Some(x) => x,
        None => return None,
    };
    let f = match word_space_exec(t, e, &inp) {
        Some(x) => x,
        None => return None,
    };
    if pattern_at(t, f, t.len(), &symbol) {
        Some(e - (d + 3))
    } else {
        None
    }
}

/// Tells the dialect of a map file.
pub fn detect_dialect(mapfile: &str) -> (r: Dialect)
    ensures
        r == dialect_of(mapfile@),
{
    dialect_from_chars(&chars_of(mapfile))
}

pub(crate) fn dialect_from_chars(t: &Vec<char>) -> (r: Dialect)
    ensures
        r == dialect_of(t@),
{
    let mut i: usize = 0;
    while i < t.len()
        invariant
            i <= t@.len(),
            llvm_header_from(t@, i as int) == llvm_header_from(t@, 0),
        decreases t@.len() - i,
    {
        match llvm_header_at_exec(t, i) {
            Some(g) => {
                return Dialect::Llvm(g);
            },
            None => {},
        }
        i = i + 1;
    }
    let banner = vec![
        'P', 'r', 'e', 'f', 'e', 'r', 'r', 'e', 'd', ' ', 'l', 'o', 'a', 'd', ' ', 'a', 'd', 'd',
        'r', 'e', 's', 's', ' ', 'i', 's', ' ',
    ];
    assert(banner@ =~= msvc_banner());
    match find_first(t, 0, t.len(), &banner) {
        Some(_) => Dialect::Msvc,
        None => Dialect::Gnu,
    }
}

/// Reads the sections of a map file in its dialect.
pub fn extract_mapfile(mapfile: &str) -> (r: Result<Vec<Section>, GenealogyError>)
    ensures
        match mapfile_sections(mapfile@) {
            Ok(secs) => r matches Ok(v) && sections_view(v@) == secs,
            Err(e) => r == Err::<Vec<Section>, GenealogyError>(e),
        },
{
    mapfile_from_chars(&chars_of(mapfile))
}

pub(crate) fn mapfile_from_chars(t: &Vec<char>) -> (r: Result<Vec<Section>, GenealogyError>)
    ensures
        match mapfile_sections(t@) {
            Ok(secs) => r matches Ok(v) && sections_view(v@) == secs,
            Err(e) => r == Err::<Vec<Section>, GenealogyError>(e),
        },
{
    match dialect_from_chars(t) {
        Dialect::Llvm(gap) => Ok(llvm_from_chars(t, gap)),
        Dialect::Msvc => msvc_from_chars(t),
        Dialect::Gnu => Ok(gnu_from_chars(t)),
    }
}

} // verus!
