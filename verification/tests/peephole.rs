use k2_codegen::encode::{Asm, Cc, FixupKind, LabelId};
use k2_codegen::mir_ids::FnId;
use k2_codegen::reg::Gpr;


#[test]
fn rule_self_move_deleted() {
    let mut a = Asm::new();
    a.reserve_labels(0);
    a.mov_rr(Gpr::Rbx, Gpr::Rbx);
    a.mov_rr(Gpr::Rbx, Gpr::Rcx);
    a.ret();
    let (code, _) = a.finish();
    assert_eq!(code, vec![0x48, 0x89, 0xcb, 0xc3]);
}

#[test]
fn rule_self_move_keeps_norm32() {
    let mut a = Asm::new();
    a.reserve_labels(0);
    a.mov_rr32(Gpr::Rbx, Gpr::Rbx);
    a.ret();
    let (code, _) = a.finish();
    assert_eq!(code, vec![0x89, 0xdb, 0xc3]);
}

#[test]
fn rule_mov_zero_to_xor() {
    let mut a = Asm::new();
    a.reserve_labels(0);
    a.mov_ri(Gpr::Rax, 0);
    a.ret();
    let (code, _) = a.finish();
    assert_eq!(code, vec![0x48, 0x31, 0xc0, 0xc3]);
}

#[test]
fn rule_mov_zero_to_xor_blocked_by_flag_use() {
    let mut a = Asm::new();
    a.reserve_labels(1);
    a.mov_ri(Gpr::Rax, 0);
    a.jcc(Cc::E, LabelId(0));
    a.bind_label(LabelId(0));
    a.ret();
    let (code, _) = a.finish();
    assert_eq!(&code[0..3], &[0x48, 0xc7, 0xc0]);
    assert_eq!(&code[3..7], &[0, 0, 0, 0]);
}

#[test]
fn rule_dead_store() {
    let mut a = Asm::new();
    a.reserve_labels(0);
    a.mov_ri(Gpr::Rbx, 1);
    a.mov_ri(Gpr::Rbx, 2);
    a.ret();
    let (code, _) = a.finish();
    assert_eq!(code, vec![0x48, 0xc7, 0xc3, 0x02, 0x00, 0x00, 0x00, 0xc3]);
}

#[test]
fn rule_dead_store_blocked_by_barrier() {
    let mut a = Asm::new();
    a.reserve_labels(0);
    a.mov_ri(Gpr::Rbx, 1);
    a.add_rr(Gpr::Rbx, Gpr::Rax);
    a.mov_ri(Gpr::Rbx, 2);
    a.ret();
    let (code, _) = a.finish();
    assert_eq!(&code[0..3], &[0x48, 0xc7, 0xc3]);
    assert!(
        code.len() > 8,
        "first mov must be kept (len {})",
        code.len()
    );
}

#[test]
fn rule_jump_to_next_deleted() {
    let mut a = Asm::new();
    a.reserve_labels(1);
    a.jmp(LabelId(0));
    a.bind_label(LabelId(0));
    a.ret();
    let (code, _) = a.finish();
    assert_eq!(code, vec![0xc3]);
}

#[test]
fn rule_jump_to_jump_threaded() {
    let mut a = Asm::new();
    a.reserve_labels(3);
    a.jmp(LabelId(0));
    a.bind_label(LabelId(2));
    a.mov_rr(Gpr::Rax, Gpr::Rcx);
    a.bind_label(LabelId(0));
    a.jmp(LabelId(1));
    a.mov_rr(Gpr::Rdx, Gpr::Rcx);
    a.bind_label(LabelId(1));
    a.ret();
    let (code, _) = a.finish();
    assert_eq!(code[0], 0xe9);
    let rel = i32::from_le_bytes([code[1], code[2], code[3], code[4]]);
    let target = (5i64 + rel as i64) as usize;
    assert_eq!(
        code[target], 0xc3,
        "threaded jmp must land on the final ret"
    );
}

#[test]
fn savings_counts_removed_bytes() {
    let mut a = Asm::new();
    a.reserve_labels(0);
    a.mov_rr(Gpr::Rbx, Gpr::Rbx);
    a.ret();
    a.peephole();
    assert_eq!(a.peephole_savings(), 3, "one deleted self-move is 3 bytes");
}

#[test]
fn rule_other_is_a_barrier() {
    let mut a = Asm::new();
    a.reserve_labels(0);
    a.mov_ri(Gpr::Rax, 0);
    a.adc_rr(Gpr::Rax, Gpr::Rcx);
    a.ret();
    let (code, _) = a.finish();
    assert_eq!(
        &code[0..3],
        &[0x48, 0xc7, 0xc0],
        "mov r,0 must survive before adc"
    );
}

#[test]
fn rule_mov_zero_to_xor_unsound_across_jmp_is_blocked() {
    let mut a = Asm::new();
    a.reserve_labels(2);
    a.cmp_rr(Gpr::Rax, Gpr::Rcx);
    a.mov_ri(Gpr::Rbx, 0);
    a.jmp(LabelId(0));
    a.mov_rr(Gpr::Rdx, Gpr::Rcx);
    a.bind_label(LabelId(0));
    a.jcc(Cc::E, LabelId(1));
    a.bind_label(LabelId(1));
    a.ret();
    let (code, _) = a.finish();
    let mov = [0x48u8, 0xc7, 0xc3, 0x00, 0x00, 0x00, 0x00];
    assert!(
        code.windows(mov.len()).any(|w| w == mov),
        "mov rbx,0 must survive (flags live-out across the jmp); got {code:02x?}"
    );
    let xor = [0x48u8, 0x31, 0xdb];
    assert!(
        !code.windows(xor.len()).any(|w| w == xor),
        "must NOT emit `xor rbx,rbx` across a flag-live block edge; got {code:02x?}"
    );
}

#[test]
fn rule_mov_zero_to_xor_fires_when_clobbered_in_block() {
    let mut a = Asm::new();
    a.reserve_labels(0);
    a.mov_ri(Gpr::Rbx, 0);
    a.syscall();
    a.ret();
    let (code, _) = a.finish();
    let xor = [0x48u8, 0x31, 0xdb];
    assert!(
        code.windows(xor.len()).any(|w| w == xor),
        "mov rbx,0 should become `xor rbx,rbx` before a syscall; got {code:02x?}"
    );
}

#[test]
fn finished_code_keeps_its_outer_holes() {
    let mut a = Asm::new();
    a.reserve_labels(1);
    a.mov_rr(Gpr::Rbx, Gpr::Rbx);
    a.call_fn(FnId(7));
    a.jmp(LabelId(0));
    a.bind_label(LabelId(0));
    a.mov_ri_data(Gpr::Rax, 9);
    a.mov_ri(Gpr::Rcx, 4);
    a.mov_ri(Gpr::Rcx, 5);
    a.mov_ri_state(Gpr::Rdx, 16);
    a.call_fn(FnId(3));
    a.ret();
    let (code, left) = a.finish();
    let kinds: Vec<FixupKind> = left.iter().map(|f| f.kind).collect();
    assert_eq!(
        kinds,
        vec![
            FixupKind::Call(FnId(7)),
            FixupKind::Data(9),
            FixupKind::State(16),
            FixupKind::Call(FnId(3)),
        ]
    );
    for f in &left {
        let wide = matches!(f.kind, FixupKind::Data(_) | FixupKind::State(_));
        let n = if wide { 8 } else { 4 };
        assert_eq!(code[f.at..f.at + n], vec![0u8; n][..]);
        if !wide {
            assert_eq!(code[f.at - 1], 0xE8);
        }
    }
}
