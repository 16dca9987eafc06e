use emulation_worker::architecture::Architecture;
use emulation_worker::disasm::{disassemble_block, ins_count, listing_text, DecodedInsn, Disassembler};

#[test]
fn thumb_block_listing() {
    let cs = Disassembler::new(Architecture::Arm).unwrap();
    let text = disassemble_block(&cs, &vec![0x01, 0x20, 0x02, 0x21], 0x8000);
    assert_eq!(text, " [  8000 ]: movs r0, #1 \n [  8002 ]: movs r1, #2 \n \n");
    assert_eq!(ins_count(&text), 2);
}

#[test]
fn empty_block_listing() {
    let cs = Disassembler::new(Architecture::Riscv).unwrap();
    let text = disassemble_block(&cs, &vec![], 0x100);
    assert_eq!(text, " \n");
    assert_eq!(ins_count(&text), 0);
}

#[test]
fn riscv_block_listing() {
    let cs = Disassembler::new(Architecture::Riscv).unwrap();
    // addi a0, zero, 1
    let text = disassemble_block(&cs, &vec![0x13, 0x05, 0x10, 0x00], 0x1000);
    assert!(text.starts_with(" [  1000 ]: "));
    assert!(text.ends_with(" \n \n"));
    assert_eq!(ins_count(&text), 1);
}

#[test]
fn ins_count_of_text() {
    assert_eq!(ins_count(&"a\nb\n\n".to_string()), 2);
    assert_eq!(ins_count(&"".to_string()), 0);
}

#[test]
fn listing_of_given_instructions() {
    let insns = vec![
        DecodedInsn { address: 0x10, mnemonic: Some("nop".to_string()), op_str: Some("".to_string()) },
        DecodedInsn { address: 0xabc, mnemonic: Some("b".to_string()), op_str: Some("#0x10".to_string()) },
        DecodedInsn { address: 0, mnemonic: None, op_str: None },
    ];
    let text = listing_text(&Some(insns));
    assert_eq!(text, " [  10 ]: nop  \n [  abc ]: b #0x10 \n [  0 ]:   \n \n");
    assert_eq!(ins_count(&text), 3);
    assert_eq!(listing_text(&None), " \n");
}
