use emulation_worker::fault::{
    apply_model, fault_size, faulted_memory, faulted_register, Fault, FaultInputError,
    FaultModel, FaultType, Trigger,
};

fn fault(kind: FaultType, model: FaultModel, mask: u128, num_bytes: u32, lifespan: u32) -> Fault {
    Fault {
        trigger: Trigger { address: 0x100, hitcounter: 1 },
        address: 0x1000,
        kind,
        model,
        mask,
        lifespan,
        num_bytes,
    }
}

#[test]
fn set1_on_32bit_word() {
    let f = fault(FaultType::Data, FaultModel::Set1, 0x0000_00FF, 4, 0);
    let mut memory = vec![0u8; 4];
    let n = fault_size(&f) as usize;
    assert_eq!(n, 1);
    let pre = memory[0..n].to_vec();
    let post = faulted_memory(&pre, &f);
    memory[0..n].copy_from_slice(&post);
    assert_eq!(u32::from_le_bytes([memory[0], memory[1], memory[2], memory[3]]), 0x0000_00FF);
}

#[test]
fn set0_clears_masked_bits() {
    let f = fault(FaultType::Data, FaultModel::Set0, 0x0F, 4, 3);
    let mut memory = vec![0xFFu8; 4];
    let n = fault_size(&f) as usize;
    let post = faulted_memory(&memory[0..n].to_vec(), &f);
    memory[0..n].copy_from_slice(&post);
    assert_eq!(u32::from_le_bytes([memory[0], memory[1], memory[2], memory[3]]), 0xFFFF_FFF0);
}

#[test]
fn set0_keeps_width_when_result_is_zero() {
    let f = fault(FaultType::Data, FaultModel::Set0, 0xFFFF, 0, 0);
    assert_eq!(fault_size(&f), 2);
    assert_eq!(faulted_memory(&vec![0x34, 0x12], &f), vec![0x00, 0x00]);
}

#[test]
fn register_toggle_on_r0() {
    let f = fault(FaultType::Register, FaultModel::Toggle, 0, 0, 0);
    assert_eq!(faulted_register(0xA5, &f), 0x5A);
}

#[test]
fn toggle_flips_up_to_highest_bit() {
    let f = fault(FaultType::Data, FaultModel::Toggle, 0xFF, 0, 0);
    assert_eq!(faulted_memory(&vec![0xA5, 0x00], &f), vec![0x5A, 0x00]);
    assert_eq!(faulted_memory(&vec![0x00, 0x01], &f), vec![0xFF, 0x00]);
    assert_eq!(faulted_register(0, &f), 0);
}

#[test]
fn overwrite_wider_than_64_bits() {
    let mask: u128 = 0x1122_3344_5566_7788_99AA_BBCC_DDEE_FF00;
    let f = fault(FaultType::Data, FaultModel::Overwrite, mask, 16, 0);
    assert_eq!(fault_size(&f), 16);
    let post = faulted_memory(&vec![0u8; 16], &f);
    assert_eq!(post, mask.to_le_bytes().to_vec());
}

#[test]
fn overwrite_pads_and_cuts_to_num_bytes() {
    let f = fault(FaultType::Data, FaultModel::Overwrite, 0x1234, 4, 0);
    assert_eq!(faulted_memory(&vec![9, 9, 9, 9], &f), vec![0x34, 0x12, 0, 0]);
    let g = fault(FaultType::Data, FaultModel::Overwrite, 0x1234, 1, 0);
    assert_eq!(faulted_memory(&vec![9], &g), vec![0x34]);
}

#[test]
fn register_overwrite_is_cut_to_64_bits() {
    let f = fault(FaultType::Register, FaultModel::Overwrite, 0x1_0000_0000_0000_0002, 16, 0);
    assert_eq!(faulted_register(7, &f), 2);
}

#[test]
fn register_set1_with_wide_mask() {
    let f = fault(FaultType::Register, FaultModel::Set1, 0xF0, 0, 0);
    assert_eq!(faulted_register(0x0F, &f), 0xFF);
}

#[test]
fn apply_model_returns_shortest_form() {
    let f = fault(FaultType::Data, FaultModel::Set1, 0x0100, 0, 0);
    assert_eq!(apply_model(&vec![0x01, 0x00, 0x00], &f), vec![0x01, 0x01]);
    let g = fault(FaultType::Data, FaultModel::Set0, 0xFF, 0, 0);
    assert_eq!(apply_model(&vec![0x0F], &g), vec![0x00]);
}

#[test]
fn fault_size_counts_mask_bytes() {
    assert_eq!(fault_size(&fault(FaultType::Data, FaultModel::Set1, 0x01, 0, 0)), 1);
    assert_eq!(fault_size(&fault(FaultType::Data, FaultModel::Set1, 0x100, 0, 0)), 2);
    assert_eq!(fault_size(&fault(FaultType::Data, FaultModel::Toggle, u128::MAX, 0, 0)), 16);
    assert_eq!(fault_size(&fault(FaultType::Data, FaultModel::Set0, 0, 0, 0)), 0);
    assert_eq!(fault_size(&fault(FaultType::Data, FaultModel::Overwrite, 1, 7, 0)), 7);
}

#[test]
fn fault_ids_are_read() {
    let t = Trigger { address: 1, hitcounter: 2 };
    let f = Fault::from_ids(t, 3, 2, 3, 4, 5, 6).unwrap();
    assert_eq!(f.kind, FaultType::Register);
    assert_eq!(f.model, FaultModel::Overwrite);
    assert_eq!(Fault::from_ids(t, 3, 3, 0, 4, 5, 6), Err(FaultInputError::UnknownType(3)));
    assert_eq!(Fault::from_ids(t, 3, 0, 4, 4, 5, 6), Err(FaultInputError::UnknownModel(4)));
    assert_eq!(FaultType::from_id(1), Some(FaultType::Instruction));
    assert_eq!(FaultModel::from_id(0), Some(FaultModel::Set0));
}
