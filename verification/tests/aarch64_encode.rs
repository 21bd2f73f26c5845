use k2_codegen::aarch64::encode;
use k2_codegen::aarch64::encode::{Aarch64Asm, MemSize, Reg};
use k2_codegen::aarch64::link::patch_movz_movk;
use k2_codegen::encode::Cc;

fn enc(f: impl FnOnce(&mut Aarch64Asm)) -> [u8; 4] {
    let mut a = Aarch64Asm::new();
    f(&mut a);
    let c = a.code();
    assert_eq!(c.len(), 4, "expected exactly one 32-bit instruction");
    [c[0], c[1], c[2], c[3]]
}

fn assert_word(f: impl FnOnce(&mut Aarch64Asm), expect: u32) {
    let got = u32::from_le_bytes(enc(f));
    assert_eq!(
        got, expect,
        "encoding mismatch: got {got:#010X}, expected {expect:#010X}"
    );
}

const SP: Reg = Reg(encode::SP);
const XZR: Reg = Reg(encode::XZR);
const FP: Reg = Reg(encode::FP);
const LR: Reg = Reg(encode::LR);
const X0: Reg = Reg(0);
const X1: Reg = Reg(1);
const X2: Reg = Reg(2);

#[test]
fn movz_movk_movn() {
    assert_word(|a| a.movz(X0, 0, 0), 0xD280_0000);
    assert_word(|a| a.movz(X0, 0x1234, 0), 0xD282_4680);
    assert_word(|a| a.movk(X0, 0xFFFF, 1), 0xF2BF_FFE0);
    assert_word(|a| a.movn(X0, 0, 0), 0x9280_0000);
}

#[test]
fn mov_imm_builds_64bit() {
    let mut a = Aarch64Asm::new();
    a.mov_imm(X0, 0);
    assert_eq!(a.code(), &0xD280_0000u32.to_le_bytes());

    let mut a = Aarch64Asm::new();
    a.mov_imm(X0, 0x1111_2222_3333_4444u64 as i64);
    assert_eq!(a.code().len(), 16);
    let w: Vec<u32> = a
        .code()
        .chunks_exact(4)
        .map(|c| u32::from_le_bytes([c[0], c[1], c[2], c[3]]))
        .collect();
    assert_eq!(w[0] & 0xFFE0_0000, 0xD280_0000);
    assert_eq!(w[1] & 0xFFE0_0000, 0xF2A0_0000);
    assert_eq!(w[2] & 0xFFE0_0000, 0xF2C0_0000);
    assert_eq!(w[3] & 0xFFE0_0000, 0xF2E0_0000);
}

#[test]
fn alu_shifted_register() {
    assert_word(|a| a.add(X0, X0, X1), 0x8B01_0000);
    assert_word(|a| a.sub(X0, X0, X1), 0xCB01_0000);
    assert_word(|a| a.and(X0, X0, X1), 0x8A01_0000);
    assert_word(|a| a.orr(X0, X0, X1), 0xAA01_0000);
    assert_word(|a| a.eor(X0, X0, X1), 0xCA01_0000);
    assert_word(|a| a.mul(X0, X0, X1), 0x9B01_7C00);
    assert_word(|a| a.sdiv(X0, X0, X1), 0x9AC1_0C00);
    assert_word(|a| a.udiv(X0, X0, X1), 0x9AC1_0800);
    assert_word(|a| a.msub(X0, X2, X1, X0), 0x9B01_8040);
    assert_word(|a| a.madd(X0, X0, X1, XZR), 0x9B01_7C00);
}

#[test]
fn neg_and_not() {
    assert_word(|a| a.neg(X0, X1), 0xCB01_03E0);
    assert_word(|a| a.mvn(X0, X1), 0xAA21_03E0);
}

#[test]
fn shifts() {
    assert_word(|a| a.lslv(X0, X0, X1), 0x9AC1_2000);
    assert_word(|a| a.lsrv(X0, X0, X1), 0x9AC1_2400);
    assert_word(|a| a.asrv(X0, X0, X1), 0x9AC1_2800);
    assert_word(|a| a.lsl_imm(X0, X0, 1), 0xD37F_F800);
    assert_word(|a| a.lsr_imm(X0, X0, 1), 0xD341_FC00);
    assert_word(|a| a.asr_imm(X0, X0, 1), 0x9341_FC00);
}

#[test]
fn alu_immediate() {
    assert_word(|a| a.add_imm(X0, X0, 16), 0x9100_4000);
    assert_word(|a| a.sub_imm(X0, X0, 16), 0xD100_4000);
    assert_word(|a| a.add_imm(SP, SP, 32), 0x9100_83FF);
    assert_word(|a| a.sub_imm(SP, SP, 32), 0xD100_83FF);
    assert_word(|a| a.cmp_imm(X0, 0), 0xF100_001F);
    assert_word(|a| a.cmp_imm(X0, 5), 0xF100_141F);
}

#[test]
fn compares_and_cset() {
    assert_word(|a| a.cmp(X0, X1), 0xEB01_001F);
    assert_word(|a| a.subs(X0, X0, X1), 0xEB01_0000);
    assert_word(|a| a.adds(X0, X0, X1), 0xAB01_0000);
    assert_word(|a| a.tst(X0, X0), 0xEA00_001F);
    assert_word(|a| a.cset(X0, Cc::E), 0x9A9F_17E0);
    assert_word(|a| a.cset(X0, Cc::Ne), 0x9A9F_07E0);
    assert_word(|a| a.cset(X0, Cc::L), 0x9A9F_A7E0);
}

#[test]
fn smulh_umulh() {
    assert_word(|a| a.smulh(X0, X0, X1), 0x9B41_7C00);
    assert_word(|a| a.umulh(X0, X0, X1), 0x9BC1_7C00);
}

#[test]
fn loads_and_stores_all_sizes() {
    assert_word(|a| a.store(X0, X0, 0, MemSize::X), 0xF900_0000);
    assert_word(|a| a.load(X0, X0, 0, MemSize::X), 0xF940_0000);
    assert_word(|a| a.load(X0, FP, 8, MemSize::X), 0xF940_07A0);
    assert_word(|a| a.store(X0, FP, 8, MemSize::X), 0xF900_07A0);
    assert_word(|a| a.store(X0, X1, 0, MemSize::B), 0x3900_0020);
    assert_word(|a| a.load(X0, X1, 0, MemSize::B), 0x3940_0020);
    assert_word(|a| a.store(X0, X1, 0, MemSize::H), 0x7900_0020);
    assert_word(|a| a.load(X0, X1, 0, MemSize::H), 0x7940_0020);
    assert_word(|a| a.store(X0, X1, 0, MemSize::W), 0xB900_0020);
    assert_word(|a| a.load(X0, X1, 0, MemSize::W), 0xB940_0020);
    assert_word(|a| a.load_signed(X0, X1, 0, MemSize::B), 0x3980_0020);
    assert_word(|a| a.load_signed(X0, X1, 0, MemSize::H), 0x7980_0020);
    assert_word(|a| a.load_signed(X0, X1, 0, MemSize::W), 0xB980_0020);
    assert_word(|a| a.load(X0, X1, 16, MemSize::X), 0xF940_0820);
}

#[test]
fn sp_extended_register_add_sub() {
    assert_word(|a| a.sub_ext(SP, SP, Reg(11)), 0xCB2B_63FF);
    assert_word(|a| a.add_ext(X2, SP, Reg(15)), 0x8B2F_63E2);
    assert_word(|a| a.sub_ext(X0, SP, Reg(11)), 0xCB2B_63E0);
    assert_word(|a| a.add_ext(SP, SP, Reg(15)), 0x8B2F_63FF);
}

#[test]
fn add_imm_pos_large_sp_offset_uses_extended_add() {
    let mut a = Aarch64Asm::new();
    a.add_imm_pos(X2, SP, 0x1234);
    let words: Vec<u32> = a
        .code()
        .chunks_exact(4)
        .map(|c| u32::from_le_bytes([c[0], c[1], c[2], c[3]]))
        .collect();
    let last = *words.last().expect("at least one word");
    assert_eq!(last, 0x8B2F_63E2, "large SP offset must use extended add");
}

#[test]
fn stur_ldur_negative_offsets_all_widths() {
    assert_word(|a| a.store(X0, FP, -8, MemSize::X), 0xF81F_83A0);
    assert_word(|a| a.load(X0, FP, -8, MemSize::X), 0xF85F_83A0);
    assert_word(|a| a.store(X0, FP, -256, MemSize::X), 0xF810_03A0);
    assert_word(|a| a.load(X0, FP, 255, MemSize::X), 0xF84F_F3A0);
    assert_word(|a| a.store(X0, FP, 0, MemSize::X), 0xF900_03A0);
    assert_word(|a| a.load(X0, FP, 0, MemSize::X), 0xF940_03A0);

    assert_word(|a| a.store(X0, X1, -1, MemSize::B), 0x381F_F020);
    assert_word(|a| a.load(X0, X1, -1, MemSize::B), 0x385F_F020);
    assert_word(|a| a.store(X0, X1, -2, MemSize::H), 0x781F_E020);
    assert_word(|a| a.load(X0, X1, -2, MemSize::H), 0x785F_E020);
    assert_word(|a| a.store(X0, X1, -4, MemSize::W), 0xB81F_C020);
    assert_word(|a| a.load(X0, X1, -4, MemSize::W), 0xB85F_C020);

    assert_word(|a| a.load_signed(X0, X1, -1, MemSize::B), 0x389F_F020);
    assert_word(|a| a.load_signed(X0, X1, -2, MemSize::H), 0x789F_E020);
    assert_word(|a| a.load_signed(X0, X1, -4, MemSize::W), 0xB89F_C020);
}

#[test]
fn deep_negative_offset_uses_register_offset_form() {
    let mut a = Aarch64Asm::new();
    a.store(X0, FP, -8400, MemSize::X);
    let words: Vec<u32> = a
        .code()
        .chunks_exact(4)
        .map(|c| u32::from_le_bytes([c[0], c[1], c[2], c[3]]))
        .collect();
    assert!(words.len() >= 2, "materialize + register-offset store");
    assert_eq!(
        *words.last().unwrap(),
        0xF831_6BA0,
        "deep negative store must be `str x0, [x29, x17]`"
    );
    assert!(
        !words.contains(&0xF900_03A0),
        "must not collapse a deep local to [fp,#0]"
    );

    let mut a = Aarch64Asm::new();
    a.load(X0, FP, -8400, MemSize::X);
    let last = u32::from_le_bytes({
        let c = a.code();
        let n = c.len();
        [c[n - 4], c[n - 3], c[n - 2], c[n - 1]]
    });
    assert_eq!(
        last, 0xF871_6BA0,
        "deep negative load must be `ldr x0, [x29, x17]`"
    );
}

#[test]
fn distinct_negative_homes_do_not_alias() {
    let w8 = u32::from_le_bytes(enc(|a| a.store(X0, FP, -8, MemSize::X)));
    let w16 = u32::from_le_bytes(enc(|a| a.store(X0, FP, -16, MemSize::X)));
    let w24 = u32::from_le_bytes(enc(|a| a.store(X0, FP, -24, MemSize::X)));
    assert_ne!(w8, w16);
    assert_ne!(w16, w24);
    assert_ne!(w8, w24);
    for w in [w8, w16, w24] {
        assert_ne!(w, 0xF900_03A0, "a local must not alias [fp,#0]");
    }
}

#[test]
fn frame_save_pair() {
    assert_word(|a| a.stp_pre(FP, LR, SP, -16), 0xA9BF_7BFD);
    assert_word(|a| a.ldp_post(FP, LR, SP, 16), 0xA8C1_7BFD);
}

#[test]
fn control_flow() {
    assert_word(|a| a.ret(), 0xD65F_03C0);
    assert_word(|a| a.svc0(), 0xD400_0001);
    assert_word(
        |a| {
            a.reserve_labels(1);
            a.bind_label(k2_codegen::encode::LabelId(0));
            a.b(k2_codegen::encode::LabelId(0));
        },
        0x1400_0000,
    );
    assert_word(
        |a| {
            a.reserve_labels(1);
            a.bind_label(k2_codegen::encode::LabelId(0));
            a.bcc(Cc::E, k2_codegen::encode::LabelId(0));
        },
        0x5400_0000,
    );
}

#[test]
fn branch_displacements_resolve() {
    let mut a = Aarch64Asm::new();
    a.reserve_labels(1);
    let l = k2_codegen::encode::LabelId(0);
    a.b(l);
    a.movz(X0, 0, 0);
    a.bind_label(l);
    let (bytes, _) = a.finish();
    let w0 = u32::from_le_bytes([bytes[0], bytes[1], bytes[2], bytes[3]]);
    assert_eq!(w0, 0x1400_0002, "b should branch forward two words");

    let mut a = Aarch64Asm::new();
    a.reserve_labels(1);
    let l = k2_codegen::encode::LabelId(0);
    a.bind_label(l);
    a.movz(X0, 0, 0);
    a.bcc(Cc::E, l);
    let (bytes, _) = a.finish();
    let w1 = u32::from_le_bytes([bytes[4], bytes[5], bytes[6], bytes[7]]);
    assert_eq!(w1, 0x5400_0000 | ((0x7FFFFu32 & 0x7FFFF) << 5));
}

#[test]
fn adrp_add_address_pair() {
    assert_word(|a| a.adrp(X0, 0), 0x9000_0000);
    assert_word(|a| a.add_imm(X0, X0, 0), 0x9100_0000);
}

#[test]
fn fp_scalar_double() {
    let d0 = Reg(0);
    let d1 = Reg(1);
    assert_word(|a| a.fadd(d0, d0, d1), 0x1E61_2800);
    assert_word(|a| a.fsub(d0, d0, d1), 0x1E61_3800);
    assert_word(|a| a.fmul(d0, d0, d1), 0x1E61_0800);
    assert_word(|a| a.fdiv(d0, d0, d1), 0x1E61_1800);
    assert_word(|a| a.fcmp(d0, d1), 0x1E61_2000);
    assert_word(|a| a.scvtf(d0, X0), 0x9E62_0000);
    assert_word(|a| a.fcvtzs(X0, d0), 0x9E78_0000);
}

#[test]
fn data_pointer_emits_four_word_hole_with_fixup() {
    let mut a = Aarch64Asm::new();
    a.mov_imm_data(X0, 0x40);
    let (bytes, fixups) = a.finish();
    assert_eq!(bytes.len(), 16, "movz + 3 movk = 4 words");
    assert_eq!(fixups.len(), 1);
    assert_eq!(fixups[0].at, 0);
    assert!(matches!(
        fixups[0].kind,
        k2_codegen::encode::FixupKind::Data(0x40)
    ));
}

#[test]
fn a_number_goes_into_its_four_moves() {
    let mut a = Aarch64Asm::new();
    a.mov_imm(Reg(3), 0);
    let head = a.code().len();
    let mut text: Vec<u8> = a.code().to_vec();
    for word in [0xD280_0003u32, 0xF2A0_0003, 0xF2C0_0003, 0xF2E0_0003] {
        text.extend_from_slice(&word.to_le_bytes());
    }
    let before = text.clone();
    patch_movz_movk(&mut text, head, 0x1234_5678_9ABC_DEF0);
    assert_eq!(text[..head], before[..head]);
    let word = |i: usize| {
        let at = head + 4 * i;
        u32::from_le_bytes([text[at], text[at + 1], text[at + 2], text[at + 3]])
    };
    for (i, lane) in [0xDEF0u32, 0x9ABC, 0x5678, 0x1234].into_iter().enumerate() {
        assert_eq!((word(i) >> 5) & 0xFFFF, lane);
        let at = head + 4 * i;
        let old = u32::from_le_bytes([before[at], before[at + 1], before[at + 2], before[at + 3]]);
        assert_eq!(word(i) & !(0xFFFF << 5), old);
    }
}
