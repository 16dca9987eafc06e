use emulation_worker::architecture::{
    dump_arm_registers, initialize_arm_registers, Architecture, ArchitectureDependentOperator,
};

fn arm_dump(xpsr: u64) -> Vec<(String, u64)> {
    let mut dump = vec![("pc".to_string(), 0x8000)];
    for i in 0..16 {
        dump.push((format!("r{i}"), i as u64));
    }
    dump.push(("xpsr".to_string(), xpsr));
    dump
}

#[test]
fn arm_start_address_thumb_bit() {
    let op = ArchitectureDependentOperator { architecture: Architecture::Arm };
    let mut start: u64 = 0x8000;
    let values = op.initialize_registers(&arm_dump(0x0100_0000), &mut start).unwrap();
    assert_eq!(start, 0x8001);
    assert_eq!(values.len(), 18);
    assert_eq!(values[17], 0x0100_0000);
    assert_eq!(values[1], 0);
}

#[test]
fn arm_start_address_without_thumb_bit() {
    let op = ArchitectureDependentOperator { architecture: Architecture::Arm };
    let mut start: u64 = 0x8000;
    op.initialize_registers(&arm_dump(0), &mut start).unwrap();
    assert_eq!(start, 0x8000);
}

#[test]
fn riscv_start_address_unchanged() {
    let op = ArchitectureDependentOperator { architecture: Architecture::Riscv };
    let mut dump = vec![("pc".to_string(), 4)];
    for i in 0..32 {
        dump.push((format!("x{i}"), 100 + i as u64));
    }
    let mut start: u64 = 0x8000;
    let values = op.initialize_registers(&dump, &mut start).unwrap();
    assert_eq!(start, 0x8000);
    assert_eq!(values.len(), 33);
    assert_eq!(values[32], 131);
}

#[test]
fn missing_register_is_reported() {
    let op = ArchitectureDependentOperator { architecture: Architecture::Arm };
    let mut dump = arm_dump(0x0100_0000);
    dump.remove(5);
    let mut start: u64 = 0x8000;
    assert_eq!(op.initialize_registers(&dump, &mut start), Err(5));
    assert_eq!(start, 0x8000);
    assert_eq!(initialize_arm_registers(&dump), Err(5));
}

#[test]
fn first_entry_of_a_name_wins() {
    let mut dump = arm_dump(0);
    dump.push(("r3".to_string(), 77));
    let values = initialize_arm_registers(&dump).unwrap();
    assert_eq!(values[4], 3);
}

#[test]
fn register_snapshot_has_names_and_counter() {
    let values: Vec<u64> = (0..18).collect();
    let snap = dump_arm_registers(&values, 9);
    assert_eq!(snap.len(), 19);
    assert_eq!(snap[0], ("pc".to_string(), 0));
    assert_eq!(snap[16], ("r15".to_string(), 16));
    assert_eq!(snap[17], ("xpsr".to_string(), 17));
    assert_eq!(snap[18], ("tbcounter".to_string(), 9));
}

#[test]
fn register_names_per_architecture() {
    let arm = ArchitectureDependentOperator { architecture: Architecture::Arm }.register_names();
    assert_eq!(arm.len(), 18);
    assert_eq!(arm[17], "xpsr");
    let rv = ArchitectureDependentOperator { architecture: Architecture::Riscv }.register_names();
    assert_eq!(rv.len(), 33);
    assert_eq!(rv[32], "x31");
}

#[test]
fn architecture_names() {
    assert_eq!(Architecture::from_name("arm"), Some(Architecture::Arm));
    assert_eq!(Architecture::from_name("riscv64"), Some(Architecture::Riscv));
    assert_eq!(Architecture::from_name("x86"), None);
}
