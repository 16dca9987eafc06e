use emulation_worker::architecture::{Architecture, ArchitectureDependentOperator};
use emulation_worker::disasm::Disassembler;
use emulation_worker::driver::{map_failure_tolerated, map_region, MapFailure};
use emulation_worker::fault::{Fault, FaultModel, FaultType, Trigger};
use emulation_worker::hooks::{
    initialize_hooks, DumpRegion, EndOutcome, Endpoint, FaultAccess, FaultTarget, Restore, SetupError,
    State,
};
use emulation_worker::logs::{end_reason, endpoint_flag, tbexec_trace, TbExecEntry};

fn data_fault(trigger: u64, hitcounter: u32, model: FaultModel, mask: u128, lifespan: u32) -> Fault {
    Fault {
        trigger: Trigger { address: trigger, hitcounter },
        address: 0x1000,
        kind: FaultType::Data,
        model,
        mask,
        lifespan,
        num_bytes: 4,
    }
}

fn state(faults: Vec<Fault>, endpoints: Vec<Endpoint>) -> State {
    let op = ArchitectureDependentOperator { architecture: Architecture::Arm };
    let cs = Disassembler::new(Architecture::Arm).unwrap();
    initialize_hooks(faults, &endpoints, Vec::new(), op, cs).unwrap()
}

#[test]
fn set1_fires_without_lifespan() {
    let mut s = state(vec![data_fault(0x200, 1, FaultModel::Set1, 0xFF, 0)], vec![]);
    let access = s.fault_hook(0x200).unwrap();
    assert_eq!(access, FaultAccess { index: 0, target: FaultTarget::Memory { address: 0x1000, size: 1 } });
    let written = s.fire_memory_fault(0, vec![0x00]);
    assert_eq!(written, vec![0xFF]);
    assert!(s.live_faults.is_empty());
    assert_eq!(s.logs.memdumps.len(), 1);
    assert_eq!(s.logs.memdumps[0].dumps, vec![vec![0x00], vec![0xFF]]);
    assert_eq!(s.fault_hook(0x200), None);
}

#[test]
fn set0_with_lifespan_three() {
    let mut s = state(vec![data_fault(0x200, 1, FaultModel::Set0, 0x0F, 3)], vec![]);
    s.instruction_count = 10;
    s.fault_hook(0x200).unwrap();
    let written = s.fire_memory_fault(0, vec![0xFF]);
    assert_eq!(written, vec![0xF0]);
    assert_eq!(s.live_faults.len(), 1);
    for _ in 10..13 {
        let out = s.single_step_hook(0x300);
        assert!(out.undo.is_none());
        assert!(!out.snapshot);
    }
    assert_eq!(s.instruction_count, 13);
    let out = s.single_step_hook(0x302);
    let undo = out.undo.unwrap();
    match undo.restore {
        Restore::Memory { address, bytes } => {
            assert_eq!(address, 0x1000);
            assert_eq!(bytes, vec![0xFF]);
        }
        Restore::Register { .. } => panic!("memory fault reverted as a register"),
    }
    assert_eq!(out.dump, Some((0x302, 1)));
    assert!(out.snapshot);
    assert!(s.live_faults.is_empty());
    assert_eq!(s.instruction_count, 14);
}

#[test]
fn register_fault_is_reverted_to_its_value() {
    let f = Fault {
        trigger: Trigger { address: 0x200, hitcounter: 1 },
        address: 66,
        kind: FaultType::Register,
        model: FaultModel::Toggle,
        mask: 0,
        lifespan: 1,
        num_bytes: 0,
    };
    let mut s = state(vec![f], vec![]);
    assert_eq!(s.fault_hook(0x200).unwrap().target, FaultTarget::Register { id: 66 });
    assert_eq!(s.fire_register_fault(0, 0xA5), 0x5A);
    assert!(s.single_step_hook(0x202).undo.is_none());
    let out = s.single_step_hook(0x204);
    match out.undo.unwrap().restore {
        Restore::Register { id, value } => {
            assert_eq!(id, 66);
            assert_eq!(value, 0xA5);
        }
        Restore::Memory { .. } => panic!("register fault reverted as memory"),
    }
    assert_eq!(out.dump, None);
    assert!(out.snapshot);
}

#[test]
fn undo_restores_the_bytes_read() {
    let f = Fault { num_bytes: 3, ..data_fault(0x200, 1, FaultModel::Overwrite, 0xABCDEF, 1) };
    let mut s = state(vec![f], vec![]);
    s.fault_hook(0x200).unwrap();
    let pre = vec![1u8, 2, 3];
    assert_eq!(s.fire_memory_fault(0, pre.clone()), vec![0xEF, 0xCD, 0xAB]);
    s.single_step_hook(0x202);
    match s.single_step_hook(0x204).undo.unwrap().restore {
        Restore::Memory { bytes, .. } => assert_eq!(bytes, pre),
        Restore::Register { .. } => panic!("memory fault reverted as a register"),
    }
}

#[test]
fn earliest_due_fault_is_reverted_first() {
    let faults = vec![
        data_fault(0x200, 1, FaultModel::Set1, 0x01, 5),
        data_fault(0x210, 1, FaultModel::Set1, 0x02, 1),
    ];
    let mut s = state(faults, vec![]);
    s.fault_hook(0x200).unwrap();
    s.fire_memory_fault(0, vec![0]);
    s.fault_hook(0x210).unwrap();
    s.fire_memory_fault(1, vec![0]);
    assert!(s.single_step_hook(0x300).undo.is_none());
    let first = s.single_step_hook(0x302).undo.unwrap();
    assert_eq!(first.fault.trigger.address, 0x210);
    for _ in 0..3 {
        assert!(s.single_step_hook(0x304).undo.is_none());
    }
    let second = s.single_step_hook(0x306).undo.unwrap();
    assert_eq!(second.fault.trigger.address, 0x200);
}

#[test]
fn fault_fires_on_its_hitcounter() {
    let mut s = state(vec![data_fault(0x200, 3, FaultModel::Set1, 0x01, 0)], vec![]);
    assert_eq!(s.fault_hook(0x200), None);
    assert_eq!(s.faults[0].trigger.hitcounter, 2);
    assert_eq!(s.fault_hook(0x200), None);
    assert!(s.fault_hook(0x200).is_some());
    assert_eq!(s.faults[0].trigger.hitcounter, 0);
    assert_eq!(s.fault_hook(0x200), None);
    assert_eq!(s.fault_hook(0x999), None);
}

#[test]
fn single_step_lifecycle() {
    let mut s = state(vec![data_fault(0x204, 1, FaultModel::Set1, 0x01, 2)], vec![]);
    let out = s.block_hook(0x100, 8);
    assert!(!out.install_step_hook && out.log_block && !out.remove_step_hook);
    assert!(!s.single_step);
    let out = s.block_hook(0x200, 8);
    assert!(out.install_step_hook && !out.log_block);
    assert!(s.single_step);
    s.single_step_hook(0x200);
    s.single_step_hook(0x202);
    s.fault_hook(0x204).unwrap();
    s.fire_memory_fault(0, vec![0]);
    let out = s.block_hook(0x206, 4);
    assert!(!out.remove_step_hook && !out.install_step_hook && !out.log_block);
    assert!(s.single_step);
    s.single_step_hook(0x206);
    assert!(s.single_step_hook(0x208).undo.is_none());
    assert!(s.single_step_hook(0x20a).undo.is_some());
    let out = s.block_hook(0x20c, 4);
    assert!(out.remove_step_hook && !out.install_step_hook && out.log_block);
    assert!(!s.single_step);
    let out = s.block_hook(0x210, 4);
    assert!(!out.remove_step_hook && !out.install_step_hook && out.log_block);
}

#[test]
fn persistent_fault_needs_no_single_step() {
    let mut s = state(vec![data_fault(0x204, 1, FaultModel::Set1, 0x01, 0)], vec![]);
    let out = s.block_hook(0x200, 8);
    assert!(!out.install_step_hook && out.log_block);
}

#[test]
fn tbcounter_counts_block_hooks() {
    let mut s = state(vec![], vec![]);
    for i in 0..5u64 {
        s.block_hook(0x100 + 4 * i, 4);
        assert_eq!(s.tbcounter, i + 1);
        assert_eq!(s.last_tbid, 0x100 + 4 * i);
    }
    s.mem_hook(true, 0x10, 4, 0x100);
    assert_eq!(s.tbcounter, 5);
}

#[test]
fn endpoint_with_counter_two() {
    let mut s = state(vec![], vec![Endpoint { address: 0x8000, counter: 2 }]);
    assert_eq!(s.end_hook(0x8000), EndOutcome::Continue);
    assert_eq!(s.endpoints[0].counter, 1);
    assert_eq!(s.logs.endpoint, (false, 0, 0));
    assert_eq!(s.end_hook(0x8000), EndOutcome::Stop { step: false });
    assert_eq!(s.logs.endpoint, (true, 0x8000, 1));
    assert_eq!(end_reason(s.logs.endpoint), "32768/1");
    assert_eq!(endpoint_flag(s.logs.endpoint), 1);
}

#[test]
fn endpoint_counting_three_hits() {
    let endpoints = vec![Endpoint { address: 0x10, counter: 9 }, Endpoint { address: 0x20, counter: 3 }];
    let mut s = state(vec![], endpoints);
    assert_eq!(s.end_hook(0x20), EndOutcome::Continue);
    assert_eq!(s.end_hook(0x20), EndOutcome::Continue);
    s.single_step = true;
    assert_eq!(s.end_hook(0x20), EndOutcome::Stop { step: true });
    assert_eq!(s.logs.endpoint, (false, 0x20, 1));
    assert_eq!(endpoint_flag(s.logs.endpoint), 0);
    assert_eq!(end_reason(s.logs.endpoint), "32/1");
    assert_eq!(s.end_hook(0x30), EndOutcome::Continue);
}

#[test]
fn endpoint_with_counter_zero_ends_at_once() {
    let mut s = state(vec![], vec![Endpoint { address: 0x10, counter: 0 }]);
    assert_eq!(s.end_hook(0x10), EndOutcome::Stop { step: false });
}

#[test]
fn later_endpoint_entry_replaces_counter() {
    let endpoints = vec![Endpoint { address: 0x10, counter: 5 }, Endpoint { address: 0x10, counter: 1 }];
    let s = state(vec![], endpoints);
    assert_eq!(s.endpoints, vec![Endpoint { address: 0x10, counter: 1 }]);
}

#[test]
fn run_without_endpoint_reports_max_tb() {
    let s = state(vec![], vec![]);
    assert_eq!(end_reason(s.logs.endpoint), "max tb");
}

#[test]
fn setup_rejects_bad_campaigns() {
    let op = ArchitectureDependentOperator { architecture: Architecture::Arm };
    let dup = vec![
        data_fault(0x200, 1, FaultModel::Set1, 1, 0),
        data_fault(0x200, 2, FaultModel::Set0, 1, 0),
    ];
    let cs = Disassembler::new(Architecture::Arm).unwrap();
    let r = initialize_hooks(dup, &vec![], Vec::new(), op, cs);
    assert_eq!(r.err(), Some(SetupError::DuplicateTrigger(0x200)));
    let empty = vec![data_fault(0x300, 1, FaultModel::Set1, 0, 0)];
    let cs = Disassembler::new(Architecture::Arm).unwrap();
    let r = initialize_hooks(empty, &vec![], Vec::new(), op, cs);
    assert_eq!(r.err(), Some(SetupError::EmptyFault(0x300)));
    let zero_overwrite = vec![Fault { num_bytes: 0, ..data_fault(0x400, 1, FaultModel::Overwrite, 5, 0) }];
    let cs = Disassembler::new(Architecture::Arm).unwrap();
    let r = initialize_hooks(zero_overwrite, &vec![], Vec::new(), op, cs);
    assert_eq!(r.err(), Some(SetupError::EmptyFault(0x400)));
}

#[test]
fn register_fault_with_zero_mask_is_accepted() {
    let f = Fault { kind: FaultType::Register, ..data_fault(0x200, 1, FaultModel::Toggle, 0, 0) };
    let s = state(vec![f], vec![]);
    assert_eq!(s.faults.len(), 1);
    assert_eq!(s.prefaults.len(), 1);
}

#[test]
fn meminfo_same_site_twice() {
    let mut s = state(vec![], vec![]);
    s.block_hook(0x100, 8);
    s.mem_hook(true, 0x2000, 4, 0x104);
    s.mem_hook(true, 0x2000, 4, 0x104);
    assert_eq!(s.logs.meminfo.len(), 1);
    let m = s.logs.meminfo[0];
    assert_eq!(m.counter, 2);
    assert_eq!(m.ins, 0x104);
    assert_eq!(m.address, 0x2000);
    assert_eq!(m.direction, 0);
    assert_eq!(m.tbid, 0x100);
    s.mem_hook(false, 0x2004, 2, 0x104);
    assert_eq!(s.logs.meminfo.len(), 2);
    assert_eq!(s.logs.meminfo[1].direction, 1);
    assert_eq!(s.logs.meminfo[1].size, 2);
}

#[test]
fn tbexec_order_after_sentinel() {
    let mut s = state(vec![], vec![]);
    let code = vec![0x01, 0x20];
    for a in [0x100u64, 0x200, 0x300, 0x200] {
        s.block_hook(a, 2);
        s.log_block(a, 2, &code);
    }
    let trace = tbexec_trace(&s.logs.tbexec);
    assert_eq!(
        trace,
        vec![
            TbExecEntry { pos: 0, tb: 0x200 },
            TbExecEntry { pos: 1, tb: 0x300 },
            TbExecEntry { pos: 2, tb: 0x200 },
        ]
    );
    assert_eq!(s.logs.tbinfo.len(), 3);
    assert_eq!(s.logs.tbinfo[1].num_exec, 2);
    assert!(!s.block_needs_code(0x200, 2));
    assert!(s.block_needs_code(0x200, 4));
}

#[test]
fn register_snapshot_takes_tbcounter() {
    let mut s = state(vec![], vec![]);
    s.block_hook(0x100, 2);
    s.block_hook(0x102, 2);
    let values: Vec<u64> = (0..18).collect();
    s.record_registers(&values);
    let snap = &s.logs.registerlist[0];
    assert_eq!(snap.len(), 19);
    assert_eq!(snap[18], ("tbcounter".to_string(), 2));
}

#[test]
fn memdumps_append_per_address() {
    let mut s = state(vec![], vec![]);
    s.record_dump(0x10, vec![1, 2]);
    s.record_dump(0x20, vec![3]);
    s.record_dump(0x10, vec![4, 5]);
    assert_eq!(s.logs.memdumps.len(), 2);
    assert_eq!(s.logs.memdumps[0].address, 0x10);
    assert_eq!(s.logs.memdumps[0].len, 2);
    assert_eq!(s.logs.memdumps[0].dumps, vec![vec![1, 2], vec![4, 5]]);
}

#[test]
fn dump_regions_are_kept() {
    let op = ArchitectureDependentOperator { architecture: Architecture::Riscv };
    let cs = Disassembler::new(Architecture::Riscv).unwrap();
    let regions = vec![DumpRegion { address: 0x100, length: 8 }];
    let s = initialize_hooks(vec![], &vec![], regions.clone(), op, cs).unwrap();
    assert_eq!(s.dump_regions, regions);
}

#[test]
fn map_region_rounds_to_pages() {
    assert_eq!(map_region(0x1234, 0x10), (0x1000, 0x1000));
    assert_eq!(map_region(0x8000, 0x3000), (0x8000, 0x3000));
    assert!(map_failure_tolerated(MapFailure::AlreadyMapped));
    assert!(map_failure_tolerated(MapFailure::NoMemory));
    assert!(!map_failure_tolerated(MapFailure::Other));
}

#[test]
fn undo_faults_waits_for_due_instruction() {
    let faults = vec![data_fault(0x200, 0, FaultModel::Set1, 0x01, 4)];
    let prefaults = vec![vec![7u8, 8]];
    let mut live = priority_queue::PriorityQueue::new();
    live.push(0x200u64, u64::MAX - 6);
    assert!(emulation_worker::hooks::undo_faults(5, &faults, &prefaults, &mut live).is_none());
    assert_eq!(live.len(), 1);
    let undo = emulation_worker::hooks::undo_faults(6, &faults, &prefaults, &mut live).unwrap();
    assert_eq!(undo.fault, faults[0]);
    match undo.restore {
        Restore::Memory { address, bytes } => {
            assert_eq!(address, 0x1000);
            assert_eq!(bytes, vec![7, 8]);
        }
        Restore::Register { .. } => panic!("memory fault reverted as a register"),
    }
    assert!(live.is_empty());
    assert!(emulation_worker::hooks::undo_faults(7, &faults, &prefaults, &mut live).is_none());
}

#[test]
fn setup_reports_first_bad_fault() {
    let op = ArchitectureDependentOperator { architecture: Architecture::Arm };
    let faults = vec![
        data_fault(0x200, 1, FaultModel::Set1, 1, 0),
        data_fault(0x300, 1, FaultModel::Set1, 0, 0),
        data_fault(0x200, 1, FaultModel::Set1, 1, 0),
    ];
    let cs = Disassembler::new(Architecture::Arm).unwrap();
    let r = initialize_hooks(faults, &vec![], Vec::new(), op, cs);
    assert_eq!(r.err(), Some(SetupError::EmptyFault(0x300)));
}
