use genealogy::detect::detect_dialect;
use genealogy::gnu::extract_gnu_mapfile;
use genealogy::llvm::extract_llvm_mapfile;
use genealogy::msvc::extract_msvc_mapfile;
use genealogy::{extract_mapfile, Dialect, GenealogyError, Section};

fn gnu_sample() -> String {
    let mut s = String::new();
    s.push_str("Memory Configuration\n\nLinker script and memory map\n\n");
    s.push_str(" .text.pre      0x0000000000400f00       0x10 pre.o\n");
    s.push_str(".text           0x0000000000401000      0x185\n");
    s.push_str(" *(.text.unlikely .text.*_unlikely .text.unlikely.*)\n");
    s.push_str(" .text.unlikely\n                0x0000000000401000       0x20 /tmp/a.o\n");
    s.push_str(" .text          0x0000000000401020       0x30 /usr/lib/crt1.o\n");
    s.push_str("                0x0000000000401020                _start\n");
    s.push_str(".data           0x0000000000402000       0x10\n");
    s.push_str(" .data          0x0000000000402000       0x10 libc.a(b.o)\r\n");
    s
}

fn llvm_row(vma: u64, size: u64, align: u64, indent: &str, name: &str) -> String {
    format!("{:>16x} {:>16x} {:>8x} {:>5} {}{}\n", vma, vma, size, align, indent, name)
}

fn llvm_sample() -> String {
    let mut s = String::from("             VMA              LMA     Size Align Out     In      Symbol\n");
    s.push_str(&llvm_row(0x2002a8, 0x14, 1, "", ".interp"));
    s.push_str(&llvm_row(0x2002a8, 0x14, 1, "        ", "<internal>:(.interp)"));
    s.push_str(&llvm_row(0x201000, 0x40, 16, "", ".text"));
    s.push_str(&llvm_row(0x201000, 0x20, 16, "        ", "/tmp/a.o:(.text)"));
    s.push_str(&llvm_row(0x201000, 0, 1, "                ", "main"));
    s.push_str(&llvm_row(0x201020, 0x18, 16, "        ", "/tmp/b.o:(.text.foo+0x1F)"));
    s.push_str(&llvm_row(0x201038, 0x8, 4, "        ", "/tmp/c.o:(.text.bar+0xg)"));
    s
}

fn msvc_sample() -> String {
    let mut s = String::from(" genealogy\n\n Timestamp is 00000000\n\n");
    s.push_str(" Preferred load address is 0000000140000000\n\n");
    s.push_str(" Start         Length     Name                   Class\n");
    s.push_str(" 0001:00000000 00001000H .text                   CODE\n\n");
    s.push_str(" Static symbols\n\n");
    s.push_str(" 0001:00000010       sym_a                      0000000140001010 f   a.obj\n");
    s.push_str(" 0001:00000020       sym_b                      0000000140001020 f   a.obj\n");
    s.push_str(" 0001:00000030       sym_c                      0000000140001030 f   lib.lib:b.obj\n");
    s.push_str(" 0002:00000008       sym_d                      0000000140002008     c.obj\n");
    s.push_str("\n trailer that is not a row\n");
    s
}

fn sub_fields(s: &Section) -> Vec<(String, u64, u64, String)> {
    s.subsections
        .iter()
        .map(|x| (x.name.clone(), x.start_vaddr, x.size, x.filename.clone()))
        .collect()
}

#[test]
fn gnu_sections_and_subsections() {
    let t = gnu_sample();
    let secs = extract_gnu_mapfile(&t);
    assert_eq!(secs.len(), 2);
    assert_eq!(secs[0].name, ".text");
    assert_eq!(secs[0].start_vaddr, 0x401000);
    assert_eq!(secs[0].size, 0x185);
    assert_eq!(secs[0].start_file_offset, None);
    assert_eq!(
        sub_fields(&secs[0]),
        vec![
            (".text.unlikely".to_string(), 0x401000, 0x20, "/tmp/a.o".to_string()),
            (".text".to_string(), 0x401020, 0x30, "/usr/lib/crt1.o".to_string()),
        ]
    );
    assert_eq!(secs[1].name, ".data");
    assert_eq!(
        sub_fields(&secs[1]),
        vec![(".data".to_string(), 0x402000, 0x10, "libc.a(b.o)".to_string())]
    );
}

#[test]
fn gnu_subsection_before_any_section_is_dropped() {
    let t = " .text.pre 0x10 0x4 pre.o\n.text 0x20 0x8\n .text.a 0x20 0x8 a.o\n";
    let secs = extract_gnu_mapfile(&t);
    assert_eq!(secs.len(), 1);
    assert_eq!(
        sub_fields(&secs[0]),
        vec![(".text.a".to_string(), 0x20, 0x8, "a.o".to_string())]
    );
}

#[test]
fn gnu_round_trip_of_records() {
    let records = vec![
        (".text", 0x1000u64, 0x40u64, "main.o"),
        (".rodata", 0xdeadbeefu64, 0x1u64, "lib/x.a(y.o)"),
        (".bss", 0xffffffffffffffffu64, 0x0u64, "z.o"),
    ];
    let mut text = String::new();
    for (name, vaddr, size, file) in &records {
        text.push_str(&format!("{} 0x{:x} 0x{:x}\n", name, vaddr, size));
        text.push_str(&format!(" {} 0x{:016x} 0x{:x} {}\n", name, vaddr, size, file));
    }
    let secs = extract_gnu_mapfile(&text);
    assert_eq!(secs.len(), records.len());
    for (s, (name, vaddr, size, file)) in secs.iter().zip(records.iter()) {
        assert_eq!(s.name, *name);
        assert_eq!(s.start_vaddr, *vaddr);
        assert_eq!(s.size, *size);
        assert_eq!(sub_fields(s), vec![(name.to_string(), *vaddr, *size, file.to_string())]);
    }
}

#[test]
fn gnu_without_sections_is_empty() {
    let t = "Archive member included to satisfy reference\n\n  foo 0x10 0x20 a.o\n";
    assert!(extract_gnu_mapfile(&t).is_empty());
    let secs = extract_mapfile(&t).unwrap();
    assert!(secs.is_empty());
}

#[test]
fn gnu_number_too_large_skips_line() {
    let t = ".text 0x10000000000000000 0x8\n.data 0x10 0x8\n";
    let secs = extract_gnu_mapfile(&t);
    assert_eq!(secs.len(), 1);
    assert_eq!(secs[0].name, ".data");
}

#[test]
fn llvm_sections_and_subsections() {
    let t = llvm_sample();
    assert_eq!(detect_dialect(&t), Dialect::Llvm(5));
    let secs = extract_llvm_mapfile(&t, 5);
    assert_eq!(secs.len(), 2);
    assert_eq!(secs[0].name, ".interp");
    assert_eq!(secs[0].start_vaddr, 0x2002a8);
    assert_eq!(secs[0].size, 0x14);
    assert_eq!(
        sub_fields(&secs[0]),
        vec![(".interp".to_string(), 0x2002a8, 0x14, "<internal>".to_string())]
    );
    assert_eq!(secs[1].name, ".text");
    assert_eq!(
        sub_fields(&secs[1]),
        vec![
            (".text".to_string(), 0x201000, 0x20, "/tmp/a.o".to_string()),
            (".text.foo".to_string(), 0x201020, 0x18, "/tmp/b.o".to_string()),
            (".text.bar+0xg".to_string(), 0x201038, 0x8, "/tmp/c.o".to_string()),
        ]
    );
}

#[test]
fn llvm_first_row_must_be_a_section() {
    let mut s = String::from("             VMA              LMA     Size Align Out     In      Symbol\n");
    s.push_str(&llvm_row(0x201000, 0x20, 16, "        ", "/tmp/a.o:(.text)"));
    s.push_str(&llvm_row(0x201000, 0x40, 16, "", ".text"));
    let secs = extract_mapfile(&s).unwrap();
    assert!(secs.is_empty());
}

#[test]
fn llvm_header_alone_is_empty() {
    let s = "             VMA              LMA     Size Align Out     In      Symbol\n";
    assert!(extract_mapfile(&s).unwrap().is_empty());
}

#[test]
fn msvc_runs_become_subsections() {
    let t = msvc_sample();
    assert_eq!(detect_dialect(&t), Dialect::Msvc);
    let secs = extract_msvc_mapfile(&t).unwrap();
    assert_eq!(secs.len(), 3);
    assert!(secs[0].subsections.is_empty());
    assert_eq!(
        sub_fields(&secs[1]),
        vec![
            (String::new(), 0x10, 0x11, "a.obj".to_string()),
            (String::new(), 0x30, 1, "lib.lib".to_string()),
        ]
    );
    assert_eq!(sub_fields(&secs[2]), vec![(String::new(), 0x8, 1, "c.obj".to_string())]);
}

#[test]
fn msvc_single_symbol_has_size_one() {
    let mut s = String::from(" Preferred load address is 0000000140000000\n\n Static symbols\n\n");
    s.push_str(" 0003:00000abc       only                       0000000140003abc f   one.obj\n");
    let secs = extract_msvc_mapfile(&s).unwrap();
    assert_eq!(secs.len(), 4);
    assert_eq!(sub_fields(&secs[3]), vec![(String::new(), 0xabc, 1, "one.obj".to_string())]);
}

#[test]
fn msvc_section_change_closes_run_at_previous_offset() {
    let mut s = String::from(" Preferred load address is 0000000140000000\n\n Static symbols\n\n");
    s.push_str(" 0001:00000100       a1                         0000000140001100 f   same.obj\n");
    s.push_str(" 0001:00000180       a2                         0000000140001180 f   same.obj\n");
    s.push_str(" 0002:00000000       b1                         0000000140002000 f   same.obj\n");
    let secs = extract_msvc_mapfile(&s).unwrap();
    assert_eq!(sub_fields(&secs[1]), vec![(String::new(), 0x100, 0x81, "same.obj".to_string())]);
    assert_eq!(sub_fields(&secs[2]), vec![(String::new(), 0, 1, "same.obj".to_string())]);
}

#[test]
fn msvc_without_static_symbols_fails() {
    let s = " Preferred load address is 0000000140000000\n\n Publics by Value\n";
    let r = extract_mapfile(&s);
    assert!(matches!(r, Err(GenealogyError::WrongMapfileFormat)));
}

#[test]
fn msvc_bad_section_number_fails() {
    let mut s = String::from(" Preferred load address is 0000000140000000\n\n Static symbols\n\n");
    s.push_str(" 000G:00000010       sym                        0000000140001010 f   a.obj\n");
    let r = extract_msvc_mapfile(&s);
    assert!(matches!(r, Err(GenealogyError::WrongMapfileFormat)));
}

#[test]
fn dialects_are_told_apart() {
    assert_eq!(detect_dialect(&gnu_sample()), Dialect::Gnu);
    assert_eq!(detect_dialect(&msvc_sample()), Dialect::Msvc);
    let narrow = "VMA LMA Size Align Out In Symbol\n";
    assert_eq!(detect_dialect(&narrow), Dialect::Llvm(1));
}
