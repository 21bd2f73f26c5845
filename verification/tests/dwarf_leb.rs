use k2_codegen::dwarf::{emit_row, sleb, uleb, StrTab};


fn read_uleb(b: &[u8], i: &mut usize) -> u64 {
    let mut result: u64 = 0;
    let mut shift = 0;
    loop {
        let byte = b[*i];
        *i += 1;
        result |= ((byte & 0x7f) as u64) << shift;
        if byte & 0x80 == 0 {
            break;
        }
        shift += 7;
    }
    result
}

fn read_sleb(b: &[u8], i: &mut usize) -> i64 {
    let mut result: i64 = 0;
    let mut shift = 0;
    let mut byte;
    loop {
        byte = b[*i];
        *i += 1;
        result |= ((byte & 0x7f) as i64) << shift;
        shift += 7;
        if byte & 0x80 == 0 {
            break;
        }
    }
    if shift < 64 && (byte & 0x40) != 0 {
        result |= -1i64 << shift;
    }
    result
}

#[test]
fn uleb_roundtrip() {
    for v in [
        0u64,
        1,
        2,
        63,
        64,
        127,
        128,
        300,
        624_485,
        u32::MAX as u64,
        u64::MAX,
    ] {
        let mut b = Vec::new();
        uleb(&mut b, v);
        let mut i = 0;
        assert_eq!(read_uleb(&b, &mut i), v, "uleb {v}");
        assert_eq!(i, b.len(), "uleb {v} length");
    }
}

#[test]
fn sleb_roundtrip() {
    for v in [
        0i64,
        1,
        -1,
        2,
        -2,
        63,
        64,
        -64,
        -65,
        127,
        -128,
        129,
        -129,
        i32::MIN as i64,
        i64::MAX,
        i64::MIN,
    ] {
        let mut b = Vec::new();
        sleb(&mut b, v);
        let mut i = 0;
        assert_eq!(read_sleb(&b, &mut i), v, "sleb {v}");
        assert_eq!(i, b.len(), "sleb {v} length");
    }
}

#[test]
fn uleb_known_encodings() {
    let mut b = Vec::new();
    uleb(&mut b, 2);
    assert_eq!(b, [0x02]);
    b.clear();
    uleb(&mut b, 127);
    assert_eq!(b, [0x7f]);
    b.clear();
    uleb(&mut b, 128);
    assert_eq!(b, [0x80, 0x01]);
    b.clear();
    uleb(&mut b, 624_485);
    assert_eq!(b, [0xe5, 0x8e, 0x26]);
}

#[test]
fn sleb_known_encodings() {
    let mut b = Vec::new();
    sleb(&mut b, 2);
    assert_eq!(b, [0x02]);
    b.clear();
    sleb(&mut b, -2);
    assert_eq!(b, [0x7e]);
    b.clear();
    sleb(&mut b, 127);
    assert_eq!(b, [0xff, 0x00]);
    b.clear();
    sleb(&mut b, -128);
    assert_eq!(b, [0x80, 0x7f]);
}

#[test]
fn rows_are_one_byte_where_that_reaches() {
    let emitted = |daddr: u64, dline: i64| {
        let mut b = Vec::new();
        emit_row(&mut b, daddr, dline);
        b
    };
    assert_eq!(emitted(0, 0), [18]);
    assert_eq!(emitted(4, 1), [75]);
    assert_eq!(emitted(0, -5), [13]);
    assert_eq!(emitted(16, 8), [250]);
    // Beyond a byte, and beyond the lines that one reaches.
    assert_eq!(emitted(17, 8), [3, 8, 2, 17, 1]);
    assert_eq!(emitted(4, 96), [3, 0xE0, 0x00, 2, 4, 1]);
    assert_eq!(emitted(0, -6), [3, 0x7A, 1]);
    let far = emitted(u64::MAX, i64::MIN);
    assert_eq!((far[0], far[far.len() - 1]), (3, 1));
}

#[test]
fn strings_have_offsets_of_their_own() {
    let mut t = StrTab::new();
    let a = t.add("one");
    let b = t.add("");
    let c = t.add("two");
    assert_eq!((a, b, c), (1, 5, 6));
    assert_eq!((t.add("two"), t.add("one"), t.add("")), (c, a, b));
    assert_eq!(t.into_bytes(), b"\0one\0\0two\0");
}
