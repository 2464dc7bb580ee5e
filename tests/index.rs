use genealogy::{BinaryLayout, ElfSectionHeader, Genealogy, GenealogyError, Hit};

fn header(name: &str, offset: u64, size: u64) -> ElfSectionHeader {
    ElfSectionHeader { name: Some(name.to_string()), offset, size }
}

fn elf_layout() -> BinaryLayout {
    BinaryLayout::Elf(vec![
        ElfSectionHeader { name: None, offset: 0, size: 0 },
        header(".text", 0x1000, 0x185),
        header(".data", 0x2000, 0x10),
    ])
}

fn gnu_map() -> String {
    let mut s = String::new();
    s.push_str(".text           0x0000000000401000      0x185\n");
    s.push_str(" .text.a        0x0000000000401000       0x20 a.o\n");
    s.push_str(" .text.b        0x0000000000401020       0x30 b.o\n");
    s.push_str(" .text.empty    0x0000000000401050        0x0 e.o\n");
    s.push_str(" .text.all      0x0000000000401000       0x60 all.o\n");
    s.push_str(".data           0x0000000000402000       0x10\n");
    s.push_str(" .data          0x0000000000402000       0x10 d.o\n");
    s.push_str(".comment        0x0000000000000000       0x10\n");
    s.push_str(" .comment       0x0000000000000000       0x10 c.o\n");
    s
}

fn msvc_map() -> String {
    let mut s = String::from(" Preferred load address is 0000000140000000\n\n Static symbols\n\n");
    s.push_str(" 0001:00000010       sym_a                      0000000140001010 f   a.obj\n");
    s.push_str(" 0001:00000020       sym_b                      0000000140001020 f   a.obj\n");
    s.push_str(" 0001:00000030       sym_c                      0000000140001030 f   lib.lib:b.obj\n");
    s.push_str(" 0002:00000008       sym_d                      0000000140002008     c.obj\n");
    s.push_str(" 0003:00000008       sym_e                      0000000140003008     none.obj\n");
    s
}

fn sorted(mut v: Vec<Hit>) -> Vec<(u64, u64, String)> {
    let mut r: Vec<(u64, u64, String)> = v.drain(..).map(|h| (h.start, h.end, h.filename)).collect();
    r.sort();
    r
}

#[test]
fn elf_offsets_follow_virtual_addresses() {
    let g = Genealogy::with_layout(&gnu_map(), &elf_layout()).unwrap();
    assert_eq!(sorted(g.query_point(0x1000)), vec![
        (0x1000, 0x1020, "a.o".to_string()),
        (0x1000, 0x1060, "all.o".to_string()),
    ]);
    assert_eq!(sorted(g.query_point(0x1021)), vec![
        (0x1000, 0x1060, "all.o".to_string()),
        (0x1020, 0x1050, "b.o".to_string()),
    ]);
    assert_eq!(sorted(g.query_point(0x200f)), vec![(0x2000, 0x2010, "d.o".to_string())]);
    assert!(g.query_point(0x2010).is_empty());
    assert!(g.query_point(0x5).is_empty());
}

#[test]
fn zero_sized_subsection_is_not_indexed() {
    let g = Genealogy::with_layout(&gnu_map(), &elf_layout()).unwrap();
    let all = sorted(g.query(0..u64::MAX));
    assert!(all.iter().all(|h| h.2 != "e.o"));
    assert_eq!(all.len(), 4);
}

#[test]
fn overlapping_intervals_are_both_returned() {
    let g = Genealogy::with_layout(&gnu_map(), &elf_layout()).unwrap();
    let hits = sorted(g.query(0x1010..0x1030));
    assert_eq!(hits, vec![
        (0x1000, 0x1020, "a.o".to_string()),
        (0x1000, 0x1060, "all.o".to_string()),
        (0x1020, 0x1050, "b.o".to_string()),
    ]);
}

#[test]
fn point_query_matches_unit_range_query() {
    let g = Genealogy::with_layout(&gnu_map(), &elf_layout()).unwrap();
    for p in [0x0u64, 0xfff, 0x1000, 0x101f, 0x1020, 0x104f, 0x1050, 0x105f, 0x1060, 0x2000, 0x2010] {
        assert_eq!(sorted(g.query_point(p)), sorted(g.query(p..p + 1)));
    }
}

#[test]
fn building_twice_gives_the_same_index() {
    let a = Genealogy::with_layout(&gnu_map(), &elf_layout()).unwrap();
    let b = Genealogy::with_layout(&gnu_map(), &elf_layout()).unwrap();
    assert_eq!(sorted(a.query(0..u64::MAX)), sorted(b.query(0..u64::MAX)));
}

#[test]
fn pe_offsets_follow_section_numbers() {
    let g = Genealogy::with_layout(&msvc_map(), &BinaryLayout::Pe(vec![0x400, 0x2000])).unwrap();
    assert_eq!(sorted(g.query_point(0x410)), vec![(0x410, 0x421, "a.obj".to_string())]);
    assert_eq!(sorted(g.query_point(0x430)), vec![(0x430, 0x431, "lib.lib".to_string())]);
    assert!(g.query_point(0x431).is_empty());
    assert_eq!(sorted(g.query_point(0x2008)), vec![(0x2008, 0x2009, "c.obj".to_string())]);
    assert_eq!(sorted(g.query(0..u64::MAX)).len(), 3);
}

#[test]
fn dialect_and_binary_must_fit() {
    let r = Genealogy::with_layout(&msvc_map(), &elf_layout());
    assert!(matches!(r, Err(GenealogyError::UnsupportedBinaryFormat)));
    let r = Genealogy::with_layout(&gnu_map(), &BinaryLayout::Pe(vec![0x400]));
    assert!(matches!(r, Err(GenealogyError::UnsupportedBinaryFormat)));
    let r = Genealogy::with_layout(&gnu_map(), &BinaryLayout::Unsupported);
    assert!(matches!(r, Err(GenealogyError::UnsupportedBinaryFormat)));
}

#[test]
fn mapfile_error_comes_first() {
    let r = Genealogy::with_layout(" Preferred load address is 0\n", &BinaryLayout::Unsupported);
    assert!(matches!(r, Err(GenealogyError::WrongMapfileFormat)));
}

#[test]
fn empty_gnu_mapfile_gives_empty_index() {
    let g = Genealogy::with_layout("nothing here\n", &elf_layout()).unwrap();
    assert!(g.query(0..u64::MAX).is_empty());
}

fn minimal_elf() -> Vec<u8> {
    let mut b = vec![0x7f, b'E', b'L', b'F', 2, 1, 1, 0, 0, 0, 0, 0, 0, 0, 0, 0];
    b.extend_from_slice(&2u16.to_le_bytes());
    b.extend_from_slice(&0x3eu16.to_le_bytes());
    b.extend_from_slice(&1u32.to_le_bytes());
    b.extend_from_slice(&0u64.to_le_bytes());
    b.extend_from_slice(&0u64.to_le_bytes());
    b.extend_from_slice(&0u64.to_le_bytes());
    b.extend_from_slice(&0u32.to_le_bytes());
    b.extend_from_slice(&64u16.to_le_bytes());
    b.extend_from_slice(&56u16.to_le_bytes());
    b.extend_from_slice(&0u16.to_le_bytes());
    b.extend_from_slice(&64u16.to_le_bytes());
    b.extend_from_slice(&0u16.to_le_bytes());
    b.extend_from_slice(&0u16.to_le_bytes());
    b
}

#[test]
fn binary_bytes_are_read() {
    let r = Genealogy::new(&gnu_map(), b"certainly not an object file");
    assert!(matches!(r, Err(GenealogyError::UnsupportedBinaryFormat)));
    let g = Genealogy::new(&gnu_map(), &minimal_elf()).unwrap();
    assert!(g.query(0..u64::MAX).is_empty());
    let r = Genealogy::new(&msvc_map(), &minimal_elf());
    assert!(matches!(r, Err(GenealogyError::UnsupportedBinaryFormat)));
}

#[test]
fn error_messages() {
    assert_eq!(
        GenealogyError::UnsupportedBinaryFormat.message(),
        "Binary format not supported. Only ELF and PE supported for now."
    );
    assert_eq!(
        GenealogyError::WrongMapfileFormat.message(),
        "Mapfile not conforming to the expected format"
    );
}

#[test]
fn elf_subsections_lie_within_their_header() {
    let secs = genealogy::extract_mapfile(&gnu_map()).unwrap();
    let placed = genealogy::reconcile::reconcile_sections(secs, &elf_layout());
    let text = &placed[0];
    assert_eq!(text.start_file_offset, Some(0x1000));
    for sub in &text.subsections {
        let off = sub.start_file_offset.unwrap();
        assert!(off >= 0x1000 && off + sub.size <= 0x1000 + 0x185);
    }
    assert_eq!(placed[2].name, ".comment");
    assert_eq!(placed[2].start_file_offset, None);
    assert_eq!(placed[2].subsections[0].start_file_offset, None);
}

#[test]
fn hits_carry_subsection_offset_and_size() {
    let secs = genealogy::extract_mapfile(&gnu_map()).unwrap();
    let placed = genealogy::reconcile::reconcile_sections(secs, &elf_layout());
    let g = Genealogy::with_layout(&gnu_map(), &elf_layout()).unwrap();
    let hits = sorted(g.query(0..u64::MAX));
    let mut expected: Vec<(u64, u64, String)> = placed
        .iter()
        .flat_map(|s| s.subsections.iter())
        .filter(|x| x.size > 0)
        .filter_map(|x| x.start_file_offset.map(|o| (o, o + x.size, x.filename.clone())))
        .collect();
    expected.sort();
    assert_eq!(hits, expected);
}

#[test]
fn subsection_before_its_section_start_gets_no_offset() {
    let map = ".text 0x1000 0x100\n .text.early 0xff0 0x20 early.o\n .text.a 0x1010 0x10 a.o\n";
    let g = Genealogy::with_layout(map, &elf_layout()).unwrap();
    assert_eq!(sorted(g.query(0..u64::MAX)), vec![(0x1010, 0x1020, "a.o".to_string())]);
}

#[test]
fn only_elf_and_pe_magic_reach_a_parser() {
    let mut pe_like = b"MZ".to_vec();
    pe_like.extend_from_slice(&[0u8; 62]);
    let r = Genealogy::new(&msvc_map(), &pe_like);
    assert!(matches!(r, Err(GenealogyError::UnsupportedBinaryFormat)));
    let short_elf = vec![0x7f, b'E', b'L', b'F', 2, 1, 1];
    let r = Genealogy::new(&gnu_map(), &short_elf);
    assert!(matches!(r, Err(GenealogyError::UnsupportedBinaryFormat)));
    let mut archive = b"!<arch>\n".to_vec();
    archive.extend_from_slice(&[b' '; 64]);
    let r = Genealogy::new(&gnu_map(), &archive);
    assert!(matches!(r, Err(GenealogyError::UnsupportedBinaryFormat)));
}
