use k2_codegen::dwarf::{self, DwFile, DwFn, DwRow, DwSeq, DwarfInput};
use k2_codegen::elf::{
    rodata_vaddr_for, state_vaddr_for, write_elf_for, write_elf_with_debug, DebugSections, PAGE,
    TEXT_VADDR,
};
use k2_codegen::RoData;

fn rd16(b: &[u8], at: usize) -> u64 {
    u16::from_le_bytes([b[at], b[at + 1]]) as u64
}

fn rd32(b: &[u8], at: usize) -> u64 {
    u32::from_le_bytes([b[at], b[at + 1], b[at + 2], b[at + 3]]) as u64
}

fn rd64(b: &[u8], at: usize) -> u64 {
    rd32(b, at) + (rd32(b, at + 4) << 32)
}

#[test]
fn text_only_image() {
    let img = write_elf_for(&[0xC3], &[], 0, 0x3E);
    assert_eq!(&img.bytes[0..4], b"\x7fELF");
    assert_eq!(img.bytes.len(), 0x1001);
    assert_eq!(img.bytes[0x1000], 0xC3);
    assert_eq!(rd16(&img.bytes, 16), 2);
    assert_eq!(rd16(&img.bytes, 18), 0x3E);
    assert_eq!(rd64(&img.bytes, 24), 0x40_1000);
    assert_eq!(rd64(&img.bytes, 32), 64);
    assert_eq!(rd64(&img.bytes, 40), 0);
    assert_eq!(rd16(&img.bytes, 56), 1);
    assert_eq!(img.text_len, 1);
    assert_eq!(img.text_vaddr, TEXT_VADDR);
    assert_eq!(img.state_vaddr, 0);
    assert_eq!(rd32(&img.bytes, 64), 1);
    assert_eq!(rd32(&img.bytes, 68), 5);
    assert_eq!(rd64(&img.bytes, 72), 0);
    assert_eq!(rd64(&img.bytes, 80), 0x40_0000);
    assert_eq!(rd64(&img.bytes, 96), 0x1001);
}

#[test]
fn all_segments() {
    let text = vec![0x90u8; 5000];
    let data = b"hello".to_vec();
    let img = write_elf_for(&text, &data, 64, 0xB7);
    assert_eq!(rd16(&img.bytes, 18), 0xB7);
    assert_eq!(rd16(&img.bytes, 56), 3);
    assert_eq!(img.rodata_vaddr, rodata_vaddr_for(5000));
    assert_eq!(img.rodata_vaddr, 0x40_3000);
    assert_eq!(img.state_vaddr, state_vaddr_for(5000, 5));
    assert_eq!(img.state_vaddr, 0x40_4000);
    assert_eq!(&img.bytes[0x3000..0x3005], b"hello");
    for k in 0..3 {
        let ph = 64 + 56 * k;
        assert_eq!(
            rd64(&img.bytes, ph + 8) % PAGE,
            rd64(&img.bytes, ph + 16) % PAGE
        );
    }
    assert_eq!(rd32(&img.bytes, 64 + 112 + 4), 6);
    assert_eq!(rd64(&img.bytes, 64 + 112 + 32), 0);
    assert_eq!(rd64(&img.bytes, 64 + 112 + 40), 64);
}

#[test]
fn debug_sections_leave_the_loaded_bytes() {
    let ds = DebugSections {
        info: vec![1, 2, 3],
        abbrev: vec![4, 5],
        line: vec![6],
        str_: vec![0, b'a', 0],
    };
    let plain = write_elf_for(&[0xC3, 0x90], b"xyz", 0, 0x3E);
    let full = write_elf_with_debug(&[0xC3, 0x90], b"xyz", 0, 0x3E, Some(&ds));
    for i in 0..plain.bytes.len() {
        if (40..48).contains(&i) || (58..64).contains(&i) {
            continue;
        }
        assert_eq!(plain.bytes[i], full.bytes[i], "byte {i}");
    }
    let shoff = rd64(&full.bytes, 40) as usize;
    assert_eq!(rd16(&full.bytes, 58), 64);
    assert_eq!(rd16(&full.bytes, 60), 8);
    assert_eq!(rd16(&full.bytes, 62), 7);
    assert_eq!(full.bytes.len(), shoff + 8 * 64);
    let names = rd64(&full.bytes, shoff + 7 * 64 + 24) as usize;
    let want: [&[u8]; 8] = [
        b"",
        b".text",
        b".rodata",
        b".debug_abbrev",
        b".debug_str",
        b".debug_line",
        b".debug_info",
        b".shstrtab",
    ];
    for (i, name) in want.iter().enumerate() {
        let at = names + rd32(&full.bytes, shoff + i * 64) as usize;
        assert_eq!(&full.bytes[at..at + name.len()], *name);
        assert_eq!(full.bytes[at + name.len()], 0);
    }
    let info = shoff + 6 * 64;
    let at = rd64(&full.bytes, info + 24) as usize;
    assert_eq!(rd64(&full.bytes, info + 32), 3);
    assert_eq!(&full.bytes[at..at + 3], &[1, 2, 3]);
}

#[test]
fn read_only_data_is_stored_once() {
    let mut r = RoData::new();
    let a = r.intern(b"abc");
    let b = r.intern(b"de");
    let c = r.intern(b"abc");
    assert_eq!((a, b, c), (0, 3, 0));
    assert_eq!(r.bytes(), b"abcde");
}

fn row(address: u64, file: u32, line: u32, end_sequence: bool) -> DwRow {
    DwRow {
        address,
        file,
        line,
        end_sequence,
    }
}

#[test]
fn dwarf_of_one_function() {
    let input = DwarfInput {
        producer: "p",
        files: vec![
            DwFile {
                path: "a.k2".to_string(),
                dir_index: 0,
            },
            DwFile {
                path: "a.k2".to_string(),
                dir_index: 0,
            },
        ],
        comp_dir: "/d",
        text_vaddr: 0x40_1000,
        text_len: 16,
        funcs: vec![DwFn {
            name: "p".to_string(),
            low_pc: 0x40_1000,
            len: 16,
            file: 1,
            decl_line: 300,
        }],
        lines: vec![DwSeq {
            rows: vec![
                row(0x40_1000, 1, 3, false),
                row(0x40_1004, 1, 4, false),
                row(0x40_1008, 2, 100, false),
                row(0x40_1010, 2, 0, true),
            ],
        }],
    };
    let s = dwarf::build(&input);
    assert_eq!(s.str_, b"\0p\0a.k2\0/d\0");
    assert_eq!(rd32(&s.info, 0) as usize, s.info.len() - 4);
    assert_eq!(rd16(&s.info, 4), 5);
    assert_eq!(rd32(&s.info, 13), 1);
    assert_eq!(rd32(&s.info, 19), 3);
    assert_eq!(rd32(&s.info, 23), 8);
    assert_eq!(rd64(&s.info, 27), 0x40_1000);
    assert_eq!(s.info[47], 2);
    assert_eq!(rd32(&s.info, 48), 1);
    assert_eq!(&s.info[s.info.len() - 4..], &[1, 0xAC, 0x02, 0]);
    assert_eq!(rd32(&s.line, 0) as usize, s.line.len() - 4);
    let program = [
        0u8, 9, 2, 0x00, 0x10, 0x40, 0, 0, 0, 0, 0, 20, 75, 4, 2, 3, 0xE0, 0x00, 2, 4, 1, 2, 8, 0,
        1, 1,
    ];
    assert_eq!(&s.line[s.line.len() - program.len()..], &program);
    assert_eq!(&s.abbrev[0..5], &[1, 0x11, 1, 0x25, 0x0e]);
    assert_eq!(s.abbrev.len(), 35);
}

#[test]
fn dwarf_takes_addresses_in_any_order() {
    let input = DwarfInput {
        producer: "",
        files: Vec::new(),
        comp_dir: "",
        text_vaddr: 0,
        text_len: 0,
        funcs: Vec::new(),
        lines: vec![DwSeq {
            rows: vec![
                row(8, 1, 1, false),
                row(4, 1, 1, false),
                row(u64::MAX, 1, u32::MAX, false),
                row(0, 1, 0, true),
            ],
        }],
    };
    let s = dwarf::build(&input);
    assert_eq!(&s.line[s.line.len() - 3..], &[0, 1, 1]);
    assert_eq!(s.str_, b"\0\0");
}
