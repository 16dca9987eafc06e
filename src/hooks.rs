//! The hook engine: the state that every emulator hook shares, and what each
//! hook decides. The emulator side (reading and writing memory and
//! registers, adding and removing hooks, stopping) is done by the caller,
//! which hands the values it read to these functions and carries out what
//! they return.
use crate::architecture::{
    entries_view, spec_register_names, spec_snapshot, ArchitectureDependentOperator,
};
use crate::bignum::fit;
use crate::disasm::{block_listing, Disassembler};
use crate::fault::{
    fault_size, faulted_memory, faulted_register, model_bytes, spec_fault_size, Fault, FaultType,
};
use crate::live::{
    is_top, no_entries, queue_entries, queue_is_empty, queue_new, queue_peek, queue_pop,
    queue_push, LiveQueue,
};
use crate::logs::{
    dumps_view, has_tb_info, log_tb_info, record_memdump, record_meminfo, spec_log_tb_info,
    spec_record_memdump, spec_record_meminfo, tbinfo_view, Logs, READ, WRITE,
};
use vstd::bytes::{spec_u64_from_le_bytes, spec_u64_to_le_bytes, u64_from_le_bytes, u64_to_le_bytes};
use vstd::prelude::*;

verus! {

/// Instruction counts at or below which a fault's revert instruction
/// (count plus lifespan) still fits in 64 bits.
pub const INSTRUCTION_LIMIT: u64 = 0xFFFF_FFFF_0000_0000;

/// An address at which the run may end, and how many more hits it takes.
#[derive(Clone, Copy, PartialEq, Eq, Structural, Debug)]
pub struct Endpoint {
    pub address: u64,
    pub counter: u32,
}

/// A memory region to dump when the run ends.
#[derive(Clone, Copy, PartialEq, Eq, Structural, Debug)]
pub struct DumpRegion {
    pub address: u64,
    pub length: u64,
}

/// Why a campaign cannot run.
#[derive(Clone, Copy, PartialEq, Eq, Structural, Debug)]
pub enum SetupError {
    /// Two faults share this trigger address.
    DuplicateTrigger(u64),
    /// The memory fault with this trigger address has no width: a zero mask
    /// with a bit model, or an overwrite of zero bytes.
    EmptyFault(u64),
}

/// What the emulator must read for a fault that fires.
#[derive(Clone, Copy, PartialEq, Eq, Structural, Debug)]
pub enum FaultTarget {
    /// `size` bytes of memory at `address`.
    Memory { address: u64, size: u32 },
    /// The register with the emulator's id `id`.
    Register { id: u64 },
}

/// A fault that fires, by its index in the fault table.
#[derive(Clone, Copy, PartialEq, Eq, Structural, Debug)]
pub struct FaultAccess {
    pub index: usize,
    pub target: FaultTarget,
}

/// What the emulator must write back to revert a fault.
#[derive(Debug)]
pub enum Restore {
    Memory { address: u64, bytes: Vec<u8> },
    Register { id: u64, value: u64 },
}

/// A reverted fault and what reverts it.
#[derive(Debug)]
pub struct Undo {
    pub fault: Fault,
    pub restore: Restore,
}

/// What the block hook asks of the emulator side.
#[derive(Clone, Copy, PartialEq, Eq, Structural, Debug)]
pub struct BlockOutcome {
    /// Remove the single-step hook (before anything else).
    pub remove_step_hook: bool,
    /// Install the single-step hook over all addresses.
    pub install_step_hook: bool,
    /// Log the block with `State::log_block`.
    pub log_block: bool,
}

/// What the single-step hook asks of the emulator side, in this order,
/// before the instruction is logged with `State::log_block`.
#[derive(Debug)]
pub struct StepOutcome {
    /// A reverted fault, whose restore is to be written.
    pub undo: Option<Undo>,
    /// Dump this many bytes at this address.
    pub dump: Option<(u64, u32)>,
    /// Take a register snapshot.
    pub snapshot: bool,
}

/// What the endpoint hook asks of the emulator side.
#[derive(Clone, Copy, PartialEq, Eq, Structural, Debug)]
pub enum EndOutcome {
    /// Run on.
    Continue,
    /// End the run: first run the single-step hook once if `step` (it is
    /// installed and would miss this instruction), then dump the
    /// configured regions, then stop the emulator.
    Stop { step: bool },
}

pub open spec fn fault_at(f: Seq<Fault>, i: int, address: u64) -> bool {
    0 <= i < f.len() && f[i].trigger.address == address
}

/// No two faults share a trigger address.
pub open spec fn triggers_unique(f: Seq<Fault>) -> bool {
    forall|i: int, j: int|
        0 <= i < f.len() && 0 <= j < f.len() && #[trigger] f[i].trigger.address
            == #[trigger] f[j].trigger.address ==> i == j
}

pub open spec fn has_fault(f: Seq<Fault>, address: u64) -> bool {
    exists|i: int| fault_at(f, i, address)
}

pub open spec fn fault_index(f: Seq<Fault>, address: u64) -> int {
    choose|i: int| fault_at(f, i, address)
}

pub open spec fn is_memory_fault(f: Fault) -> bool {
    f.kind != FaultType::Register
}

/// A memory fault must have a width.
pub open spec fn fault_well_formed(f: Fault) -> bool {
    is_memory_fault(f) ==> spec_fault_size(f) > 0
}

/// No two endpoints share an address.
pub open spec fn endpoints_unique(e: Seq<Endpoint>) -> bool {
    forall|i: int, j: int|
        0 <= i < e.len() && 0 <= j < e.len() && #[trigger] e[i].address == #[trigger] e[j].address
            ==> i == j
}

pub open spec fn endpoint_at(e: Seq<Endpoint>, i: int, address: u64) -> bool {
    0 <= i < e.len() && e[i].address == address
}

/// The endpoint table with `e` added, or its counter replaced.
pub open spec fn endpoint_upsert(t: Seq<Endpoint>, e: Endpoint) -> Seq<Endpoint> {
    if exists|i: int| endpoint_at(t, i, e.address) {
        t.update(choose|i: int| endpoint_at(t, i, e.address), e)
    } else {
        t.push(e)
    }
}

/// The endpoint table of a configuration: a later entry for an address
/// replaces an earlier one.
pub open spec fn endpoint_table(c: Seq<Endpoint>) -> Seq<Endpoint>
    decreases c.len(),
{
    if c.len() == 0 {
        Seq::empty()
    } else {
        endpoint_upsert(endpoint_table(c.drop_last()), c.last())
    }
}

/// Some fault with a lifespan fires on its next hit, at an address of the
/// block `[address, address + size]`.
pub open spec fn pending_step_fault(f: Seq<Fault>, address: u64, size: u32) -> bool {
    exists|i: int|
        0 <= i < f.len() && #[trigger] f[i].lifespan > 0 && f[i].trigger.hitcounter == 1 && address
            <= f[i].trigger.address <= address + size
}

/// The priority of a live fault: greatest for the earliest revert.
pub open spec fn live_priority(instruction_count: u64, lifespan: u32) -> u64 {
    (u64::MAX - (instruction_count + lifespan)) as u64
}

/// The instruction count at which a live fault of this priority is due.
pub open spec fn due_instruction(priority: u64) -> u64 {
    (u64::MAX - priority) as u64
}

pub open spec fn access_of(i: int, f: Fault) -> FaultAccess {
    FaultAccess {
        index: i as usize,
        target: if is_memory_fault(f) {
            FaultTarget::Memory { address: f.address, size: spec_fault_size(f) as u32 }
        } else {
            FaultTarget::Register { id: f.address }
        },
    }
}

/// The value that reverts a register fault: the register's value before it.
pub open spec fn register_restore(prefault: Seq<u8>) -> u64 {
    spec_u64_from_le_bytes(fit(prefault, 8))
}

/// `restore` reverts the fault `f` that read `prefault` when it fired.
pub open spec fn restores(restore: Restore, f: Fault, prefault: Seq<u8>) -> bool {
    match restore {
        Restore::Memory { address, bytes } => is_memory_fault(f) && address == f.address
            && bytes@ == prefault,
        Restore::Register { id, value } => !is_memory_fault(f) && id == f.address && value
            == register_restore(prefault),
    }
}

/// One endpoint hit on a counter: the counter after it, and whether the hit
/// ends the run.
pub open spec fn end_step(counter: u32) -> (u32, bool) {
    if counter > 1 {
        ((counter - 1) as u32, false)
    } else {
        (counter, true)
    }
}

/// The counter after `k` hits that did not end the run.
pub open spec fn counter_after(counter: u32, k: nat) -> u32
    decreases k,
{
    if k == 0 {
        counter
    } else {
        end_step(counter_after(counter, (k - 1) as nat)).0
    }
}

/// Adds `e` to an endpoint table, or replaces the counter of its address.
fn upsert_endpoint(table: &mut Vec<Endpoint>, e: Endpoint)
    requires
        endpoints_unique(old(table)@),
    ensures
        endpoints_unique(final(table)@),
        final(table)@ == endpoint_upsert(old(table)@, e),
{
    let mut i: usize = 0;
    while i < table.len()
        invariant
            i <= table@.len(),
            table@ == old(table)@,
            endpoints_unique(table@),
            forall|j: int| 0 <= j < i ==> !endpoint_at(table@, j, e.address),
        decreases table@.len() - i,
    {
        if table[i].address == e.address {
            proof {
                assert(endpoint_at(table@, i as int, e.address));
                let k = choose|k: int| endpoint_at(table@, k, e.address);
                assert(table@[k].address == table@[i as int].address);
            }
            table.set(i, e);
            proof {
                assert forall|a: int, b: int|
                    0 <= a < table@.len() && 0 <= b < table@.len() && #[trigger] table@[a].address
                        == #[trigger] table@[b].address implies a == b by {
                    assert(old(table)@[a].address == table@[a].address);
                    assert(old(table)@[b].address == table@[b].address);
                }
            }
            return;
        }
        i = i + 1;
    }
    table.push(e);
    proof {
        assert forall|a: int, b: int|
            0 <= a < table@.len() && 0 <= b < table@.len() && #[trigger] table@[a].address
                == #[trigger] table@[b].address implies a == b by {
            if a < old(table)@.len() && b == old(table)@.len() {
                assert(endpoint_at(old(table)@, a, e.address));
            }
            if b < old(table)@.len() && a == old(table)@.len() {
                assert(endpoint_at(old(table)@, b, e.address));
            }
            if a < old(table)@.len() {
                assert(old(table)@[a] == table@[a]);
            }
            if b < old(table)@.len() {
                assert(old(table)@[b] == table@[b]);
            }
        }
    }
}

/// A fault table is usable: no two triggers share an address and every
/// memory fault has a width.
pub open spec fn faults_valid(f: Seq<Fault>) -> bool {
    &&& triggers_unique(f)
    &&& forall|i: int| 0 <= i < f.len() ==> #[trigger] fault_well_formed(f[i])
}

/// What an undo step returns and leaves in the queue of live faults, at
/// `instruction_count`: nothing when no live fault is due; else a live fault
/// of earliest revert, taken out of the queue, with the restore of what it
/// read when it fired.
pub open spec fn undo_result(
    instruction_count: u64,
    faults: Seq<Fault>,
    prefaults: Seq<Seq<u8>>,
    queue_before: Map<u64, u64>,
    queue_after: Map<u64, u64>,
    r: Option<Undo>,
) -> bool {
    let q = queue_before;
    match r {
        None => {
            &&& queue_after == q
            &&& forall|t: u64| #[trigger]
                q.contains_key(t) ==> due_instruction(q[t]) > instruction_count
        },
        Some(u) => {
            let t = u.fault.trigger.address;
            let i = fault_index(faults, t);
            &&& is_top(q, t, q[t])
            &&& due_instruction(q[t]) <= instruction_count
            &&& queue_after == q.remove(t)
            &&& has_fault(faults, t)
            &&& u.fault == faults[i]
            &&& restores(u.restore, u.fault, prefaults[i])
        },
    }
}

/// Index of the fault whose trigger is at `address`.
fn find_fault(faults: &Vec<Fault>, address: u64) -> (r: Option<usize>)
    requires
        triggers_unique(faults@),
    ensures
        r is None <==> !has_fault(faults@, address),
        r matches Some(i) ==> i == fault_index(faults@, address) && fault_at(faults@, i as int, address),
{
    let mut i: usize = 0;
    while i < faults.len()
        invariant
            i <= faults@.len(),
            triggers_unique(faults@),
            forall|j: int| 0 <= j < i ==> !fault_at(faults@, j, address),
        decreases faults@.len() - i,
    {
        if faults[i].trigger.address == address {
            proof {
                assert(fault_at(faults@, i as int, address));
                let k = fault_index(faults@, address);
                assert(faults@[k].trigger.address == faults@[i as int].trigger.address);
            }
            return Some(i);
        }
        i = i + 1;
    }
    None
}

/// Every live fault has a fault in the table.
pub open spec fn live_faults_known(q: Map<u64, u64>, faults: Seq<Fault>) -> bool {
    forall|t: u64| #[trigger] q.contains_key(t) ==> has_fault(faults, t)
}

/// Reverts the live fault that is due first, if one is due at
/// `instruction_count`, and returns what reverts it: the bytes or the
/// register value that the fault read when it fired.
pub fn undo_faults(
    instruction_count: u64,
    faults: &Vec<Fault>,
    prefaults: &Vec<Vec<u8>>,
    live_faults: &mut LiveQueue,
) -> (r: Option<Undo>)
    requires
        triggers_unique(faults@),
        prefaults@.len() == faults@.len(),
        live_faults_known(queue_entries(*old(live_faults)), faults@),
    ensures
        live_faults_known(queue_entries(*final(live_faults)), faults@),
        undo_result(
            instruction_count,
            faults@,
            prefaults_view(prefaults@),
            queue_entries(*old(live_faults)),
            queue_entries(*final(live_faults)),
            r,
        ),
{
    let ghost q = queue_entries(*live_faults);
    let top = queue_peek(live_faults);
    let (_, priority) = match top {
        None => return None,
        Some(top) => top,
    };
    if u64::MAX - priority > instruction_count {
        proof {
            assert forall|t: u64| #[trigger]
                q.contains_key(t) implies due_instruction(q[t]) > instruction_count by {
                assert(q[t] <= priority);
            }
        }
        return None;
    }
    let popped = queue_pop(live_faults);
    let (trigger, _) = match popped {
        None => return None,
        Some(p) => p,
    };
    proof {
        assert(q[trigger] == priority) by {
            assert(q[trigger] <= priority);
            assert(priority <= q[trigger]);
        }
        assert(has_fault(faults@, trigger));
    }
    let found = find_fault(faults, trigger);
    let i = match found {
        Some(i) => i,
        None => return None,
    };
    let f = faults[i];
    let restore = if f.kind == FaultType::Register {
        let bytes = crate::bignum::fit_bytes(&prefaults[i], 8);
        Restore::Register { id: f.address, value: u64_from_le_bytes(bytes.as_slice()) }
    } else {
        let bytes = prefaults[i].clone();
        proof {
            assert(bytes@ =~= prefaults@[i as int]@);
        }
        Restore::Memory { address: f.address, bytes }
    };
    proof {
        assert(prefaults_view(prefaults@)[i as int] == prefaults@[i as int]@);
        assert forall|t: u64| #[trigger]
            queue_entries(*live_faults).contains_key(t) implies has_fault(faults@, t) by {
            assert(q.contains_key(t));
        }
    }
    Some(Undo { fault: f, restore })
}

/// Fault `i` is well formed and its trigger address is not used by an
/// earlier fault.
pub open spec fn fault_ok_at(f: Seq<Fault>, i: int) -> bool {
    &&& fault_well_formed(f[i])
    &&& forall|j: int| 0 <= j < i ==> f[j].trigger.address != f[i].trigger.address
}

/// Fault `i` is the first one that is not usable.
pub open spec fn first_bad_fault(f: Seq<Fault>, i: int) -> bool {
    &&& 0 <= i < f.len()
    &&& !fault_ok_at(f, i)
    &&& forall|k: int| 0 <= k < i ==> #[trigger] fault_ok_at(f, k)
}

/// The set-up error for fault `i`: no width, else a repeated trigger.
pub open spec fn setup_error_at(f: Seq<Fault>, i: int) -> SetupError {
    if !fault_well_formed(f[i]) {
        SetupError::EmptyFault(f[i].trigger.address)
    } else {
        SetupError::DuplicateTrigger(f[i].trigger.address)
    }
}

proof fn lemma_faults_valid(f: Seq<Fault>)
    ensures
        faults_valid(f) <==> forall|k: int| 0 <= k < f.len() ==> #[trigger] fault_ok_at(f, k),
{
    if forall|k: int| 0 <= k < f.len() ==> #[trigger] fault_ok_at(f, k) {
        assert forall|a: int, b: int|
            0 <= a < f.len() && 0 <= b < f.len() && #[trigger] f[a].trigger.address
                == #[trigger] f[b].trigger.address implies a == b by {
            if a < b {
                assert(fault_ok_at(f, b));
            } else if b < a {
                assert(fault_ok_at(f, a));
            }
        }
        assert forall|i: int| 0 <= i < f.len() implies #[trigger] fault_well_formed(f[i]) by {
            assert(fault_ok_at(f, i));
        }
    }
    if faults_valid(f) {
        assert forall|k: int| 0 <= k < f.len() implies #[trigger] fault_ok_at(f, k) by {
            assert(fault_well_formed(f[k]));
            assert forall|j: int| 0 <= j < k implies f[j].trigger.address != f[k].trigger.address by {
                if f[j].trigger.address == f[k].trigger.address {
                    assert(j == k);
                }
            }
        }
    }
}

/// The state that every hook of a run shares.
pub struct State {
    /// Address of the block that runs.
    pub last_tbid: u64,
    /// Blocks entered so far.
    pub tbcounter: u64,
    /// Instructions single-stepped so far.
    pub instruction_count: u64,
    /// Whether the single-step hook is installed.
    pub single_step: bool,
    /// Address of the first configured endpoint.
    pub first_endpoint: u64,
    pub endpoints: Vec<Endpoint>,
    pub faults: Vec<Fault>,
    /// For each fault, the bytes it read when it fired.
    pub prefaults: Vec<Vec<u8>>,
    pub live_faults: LiveQueue,
    pub dump_regions: Vec<DumpRegion>,
    pub arch_operator: ArchitectureDependentOperator,
    pub cs_engine: Disassembler,
    pub logs: Logs,
}

pub open spec fn prefaults_view(p: Seq<Vec<u8>>) -> Seq<Seq<u8>> {
    p.map_values(|v: Vec<u8>| v@)
}

/// Sets up the state of a run: the fault table (every fault checked),
/// the endpoint table, the regions to dump at the end, the architecture
/// and its disassembler. Counters start at zero, no fault is live and
/// the single-step hook is not installed. The first configured endpoint
/// is the one the endpoint result compares with.
pub fn initialize_hooks(
    faults: Vec<Fault>,
    endpoints: &Vec<Endpoint>,
    dump_regions: Vec<DumpRegion>,
    arch_operator: ArchitectureDependentOperator,
    cs_engine: Disassembler,
) -> (r: Result<State, SetupError>)
    ensures
        r is Ok <==> faults_valid(faults@),
        r matches Err(e) ==> exists|i: int| first_bad_fault(faults@, i) && e == setup_error_at(
            faults@,
            i,
        ),
        r matches Ok(s) ==> {
            &&& s.wf()
            &&& s.faults@ == faults@
            &&& s.endpoints@ == endpoint_table(endpoints@)
            &&& s.first_endpoint == if endpoints@.len() > 0 {
                endpoints@[0].address
            } else {
                0u64
            }
            &&& s.dump_regions == dump_regions
            &&& s.arch_operator == arch_operator
            &&& s.cs_engine == cs_engine
            &&& s.last_tbid == 0 && s.tbcounter == 0 && s.instruction_count == 0
            &&& !s.single_step
            &&& no_entries(queue_entries(s.live_faults))
            &&& s.logs.meminfo@.len() == 0 && s.logs.tbinfo@.len() == 0
            &&& s.logs.tbexec@.len() == 0 && s.logs.registerlist@.len() == 0
            &&& s.logs.memdumps@.len() == 0
            &&& s.logs.endpoint == (false, 0u64, 0u32)
        },
{
    let mut i: usize = 0;
    while i < faults.len()
        invariant
            i <= faults@.len(),
            forall|k: int| 0 <= k < i ==> #[trigger] fault_ok_at(faults@, k),
        decreases faults@.len() - i,
    {
        let f = faults[i];
        if f.kind != FaultType::Register && fault_size(&f) == 0 {
            proof {
                assert(!fault_well_formed(faults@[i as int]));
                assert(first_bad_fault(faults@, i as int));
                lemma_faults_valid(faults@);
            }
            return Err(SetupError::EmptyFault(f.trigger.address));
        }
        let mut j: usize = 0;
        while j < i
            invariant
                j <= i,
                i < faults@.len(),
                f == faults@[i as int],
                fault_well_formed(f),
                forall|k: int| 0 <= k < i ==> #[trigger] fault_ok_at(faults@, k),
                forall|b: int| 0 <= b < j ==> faults@[b].trigger.address != f.trigger.address,
            decreases i - j,
        {
            if faults[j].trigger.address == f.trigger.address {
                proof {
                    assert(!fault_ok_at(faults@, i as int));
                    assert(first_bad_fault(faults@, i as int));
                    lemma_faults_valid(faults@);
                }
                return Err(SetupError::DuplicateTrigger(f.trigger.address));
            }
            j = j + 1;
        }
        assert(fault_ok_at(faults@, i as int));
        i = i + 1;
    }
    proof {
        lemma_faults_valid(faults@);
    }
    let mut table: Vec<Endpoint> = Vec::new();
    let mut k: usize = 0;
    while k < endpoints.len()
        invariant
            k <= endpoints@.len(),
            endpoints_unique(table@),
            table@ == endpoint_table(endpoints@.take(k as int)),
        decreases endpoints@.len() - k,
    {
        upsert_endpoint(&mut table, endpoints[k]);
        proof {
            assert(endpoints@.take(k + 1).drop_last() =~= endpoints@.take(k as int));
        }
        k = k + 1;
    }
    proof {
        assert(endpoints@.take(endpoints@.len() as int) =~= endpoints@);
    }
    let first_endpoint: u64 = if endpoints.len() > 0 {
        endpoints[0].address
    } else {
        0
    };
    let mut prefaults: Vec<Vec<u8>> = Vec::new();
    let mut p: usize = 0;
    while p < faults.len()
        invariant
            p <= faults@.len(),
            prefaults@.len() == p,
        decreases faults@.len() - p,
    {
        prefaults.push(Vec::new());
        p = p + 1;
    }
    Ok(
        State {
            last_tbid: 0,
            tbcounter: 0,
            instruction_count: 0,
            single_step: false,
            first_endpoint,
            endpoints: table,
            faults,
            prefaults,
            live_faults: queue_new(),
            dump_regions,
            arch_operator,
            cs_engine,
            logs: Logs::new(),
        },
    )
}

impl State {
    pub open spec fn wf(&self) -> bool {
        &&& triggers_unique(self.faults@)
        &&& self.prefaults@.len() == self.faults@.len()
        &&& endpoints_unique(self.endpoints@)
        &&& self.logs.wf()
        &&& live_faults_known(queue_entries(self.live_faults), self.faults@)
    }

    /// Everything but the counters, the single-step flag and the logs.
    pub open spec fn same_tables(&self, other: &State) -> bool {
        &&& self.faults == other.faults
        &&& self.prefaults == other.prefaults
        &&& self.endpoints == other.endpoints
        &&& self.live_faults == other.live_faults
        &&& self.first_endpoint == other.first_endpoint
        &&& self.dump_regions == other.dump_regions
        &&& self.arch_operator == other.arch_operator
        &&& self.cs_engine == other.cs_engine
    }

    /// The configuration that no hook changes.
    pub open spec fn same_config(&self, other: &State) -> bool {
        &&& self.first_endpoint == other.first_endpoint
        &&& self.dump_regions == other.dump_regions
        &&& self.arch_operator == other.arch_operator
        &&& self.cs_engine == other.cs_engine
    }

    /// The counters and the single-step flag.
    pub open spec fn same_counters(&self, other: &State) -> bool {
        &&& self.last_tbid == other.last_tbid
        &&& self.tbcounter == other.tbcounter
        &&& self.instruction_count == other.instruction_count
        &&& self.single_step == other.single_step
    }

    /// Whether a fault with a lifespan fires on its next hit inside the
    /// block `[address, address + size]`.
    fn scan_pending(&self, address: u64, size: u32) -> (r: bool)
        ensures
            r == pending_step_fault(self.faults@, address, size),
    {
        let mut i: usize = 0;
        while i < self.faults.len()
            invariant
                i <= self.faults@.len(),
                forall|j: int|
                    0 <= j < i ==> !(#[trigger] self.faults@[j].lifespan > 0
                        && self.faults@[j].trigger.hitcounter == 1 && address
                        <= self.faults@[j].trigger.address <= address + size),
            decreases self.faults@.len() - i,
        {
            let f = self.faults[i];
            if f.lifespan > 0 && f.trigger.hitcounter == 1 && f.trigger.address >= address
                && f.trigger.address - address <= size as u64 {
                return true;
            }
            i = i + 1;
        }
        false
    }

    /// The block hook, run before each basic block: counts the block,
    /// removes the single-step hook once no fault is live, installs it when
    /// a fault with a lifespan is about to fire in this block, and otherwise
    /// asks for the block to be logged.
    pub fn block_hook(&mut self, address: u64, size: u32) -> (r: BlockOutcome)
        requires
            old(self).wf(),
            old(self).tbcounter < u64::MAX,
        ensures
            final(self).wf(),
            final(self).same_tables(old(self)),
            final(self).logs == old(self).logs,
            final(self).instruction_count == old(self).instruction_count,
            final(self).last_tbid == address,
            final(self).tbcounter == old(self).tbcounter + 1,
            r.remove_step_hook == (old(self).single_step && no_entries(
                queue_entries(old(self).live_faults),
            )),
            r.install_step_hook == (!(old(self).single_step && !r.remove_step_hook)
                && pending_step_fault(old(self).faults@, address, size)),
            r.log_block == (!(old(self).single_step && !r.remove_step_hook)
                && !r.install_step_hook),
            final(self).single_step == ((old(self).single_step && !r.remove_step_hook)
                || r.install_step_hook),
            no_entries(queue_entries(old(self).live_faults)) && !pending_step_fault(
                old(self).faults@,
                address,
                size,
            ) ==> !final(self).single_step,
    {
        self.last_tbid = address;
        self.tbcounter = self.tbcounter + 1;
        let remove = self.single_step && queue_is_empty(&self.live_faults);
        if remove {
            self.single_step = false;
        }
        if self.single_step {
            return BlockOutcome { remove_step_hook: false, install_step_hook: false, log_block: false };
        }
        if self.scan_pending(address, size) {
            self.single_step = true;
            return BlockOutcome { remove_step_hook: remove, install_step_hook: true, log_block: false };
        }
        BlockOutcome { remove_step_hook: remove, install_step_hook: false, log_block: true }
    }

    /// Whether logging the block at `address` of `size` bytes needs its code.
    pub fn block_needs_code(&self, address: u64, size: u32) -> (r: bool)
        ensures
            r == !crate::logs::has_tb(tbinfo_view(self.logs.tbinfo@), address, size),
    {
        !has_tb_info(&self.logs.tbinfo, address, size)
    }

    /// Logs one execution of the block at `address` of `size` bytes: its
    /// footprint in the block log (disassembling `code`, the block's bytes,
    /// when the footprint is new) and its address in the block stream.
    pub fn log_block(&mut self, address: u64, size: u32, code: &Vec<u8>)
        requires
            old(self).wf(),
        ensures
            final(self).wf(),
            final(self).same_tables(old(self)),
            final(self).same_counters(old(self)),
            tbinfo_view(final(self).logs.tbinfo@) == spec_log_tb_info(
                tbinfo_view(old(self).logs.tbinfo@),
                address,
                size,
                block_listing(old(self).cs_engine.spec_architecture(), code@, address),
            ),
            final(self).logs.tbexec@ == old(self).logs.tbexec@.push(address),
            final(self).logs.meminfo == old(self).logs.meminfo,
            final(self).logs.registerlist == old(self).logs.registerlist,
            final(self).logs.memdumps == old(self).logs.memdumps,
            final(self).logs.endpoint == old(self).logs.endpoint,
    {
        log_tb_info(&mut self.logs.tbinfo, &self.cs_engine, code, address, size);
        self.logs.tbexec.push(address);
    }

    /// The memory-access hook: records an access of `size` bytes at
    /// `address` by the instruction at `pc`.
    pub fn mem_hook(&mut self, is_read: bool, address: u64, size: usize, pc: u64)
        requires
            old(self).wf(),
        ensures
            final(self).wf(),
            final(self).same_tables(old(self)),
            final(self).same_counters(old(self)),
            final(self).logs.meminfo@ == spec_record_meminfo(
                old(self).logs.meminfo@,
                address,
                pc,
                if is_read {
                    READ
                } else {
                    WRITE
                },
                size,
                old(self).last_tbid,
            ),
            final(self).logs.tbinfo == old(self).logs.tbinfo,
            final(self).logs.tbexec == old(self).logs.tbexec,
            final(self).logs.registerlist == old(self).logs.registerlist,
            final(self).logs.memdumps == old(self).logs.memdumps,
            final(self).logs.endpoint == old(self).logs.endpoint,
    {
        let direction: u8 = if is_read {
            READ
        } else {
            WRITE
        };
        record_meminfo(&mut self.logs.meminfo, address, pc, direction, size, self.last_tbid);
    }

    /// Appends a register snapshot of `values` (in the order of the
    /// architecture's register names), tagged with the block counter.
    pub fn record_registers(&mut self, values: &Vec<u64>)
        requires
            old(self).wf(),
            values@.len() == spec_register_names(old(self).arch_operator.architecture).len(),
        ensures
            final(self).wf(),
            final(self).same_tables(old(self)),
            final(self).same_counters(old(self)),
            final(self).logs.registerlist@.len() == old(self).logs.registerlist@.len() + 1,
            forall|i: int| 0 <= i < old(self).logs.registerlist@.len() ==>
                final(self).logs.registerlist@[i] == old(self).logs.registerlist@[i],
            entries_view(final(self).logs.registerlist@.last()@) == spec_snapshot(
                spec_register_names(old(self).arch_operator.architecture),
                values@,
                old(self).tbcounter,
            ),
            final(self).logs.meminfo == old(self).logs.meminfo,
            final(self).logs.tbinfo == old(self).logs.tbinfo,
            final(self).logs.tbexec == old(self).logs.tbexec,
            final(self).logs.memdumps == old(self).logs.memdumps,
            final(self).logs.endpoint == old(self).logs.endpoint,
    {
        let snapshot = self.arch_operator.dump_registers(values, self.tbcounter);
        self.logs.registerlist.push(snapshot);
    }

    /// The fault hook, run at a fault's trigger address: counts the hit,
    /// and when the fault's hit counter reaches zero says what the fault
    /// reads. A fault that already fired, or an address without a fault,
    /// does nothing.
    pub fn fault_hook(&mut self, address: u64) -> (r: Option<FaultAccess>)
        requires
            old(self).wf(),
        ensures
            final(self).wf(),
            final(self).same_counters(old(self)),
            final(self).logs == old(self).logs,
            final(self).prefaults == old(self).prefaults,
            final(self).live_faults == old(self).live_faults,
            final(self).endpoints == old(self).endpoints,
            ({
                let f = old(self).faults@;
                if !has_fault(f, address) || f[fault_index(f, address)].trigger.hitcounter == 0 {
                    r is None && final(self).faults@ == f
                } else {
                    let i = fault_index(f, address);
                    let fired = Fault {
                        trigger: crate::fault::Trigger {
                            hitcounter: (f[i].trigger.hitcounter - 1) as u32,
                            ..f[i].trigger
                        },
                        ..f[i]
                    };
                    &&& final(self).faults@ == f.update(i, fired)
                    &&& r == if fired.trigger.hitcounter == 0 {
                        Some(access_of(i, fired))
                    } else {
                        None
                    }
                }
            }),
    {
        let found = find_fault(&self.faults, address);
        let i = match found {
            Some(i) => i,
            None => return None,
        };
        let f = self.faults[i];
        if f.trigger.hitcounter == 0 {
            return None;
        }
        let mut fired = f;
        fired.trigger.hitcounter = f.trigger.hitcounter - 1;
        self.faults.set(i, fired);
        proof {
            assert forall|t: u64| #[trigger]
                queue_entries(self.live_faults).contains_key(t) implies has_fault(self.faults@, t) by {
                let k = fault_index(old(self).faults@, t);
                assert(fault_at(self.faults@, k, t));
            }
            assert forall|a: int, b: int|
                0 <= a < self.faults@.len() && 0 <= b < self.faults@.len()
                    && #[trigger] self.faults@[a].trigger.address
                    == #[trigger] self.faults@[b].trigger.address implies a == b by {
                assert(old(self).faults@[a].trigger.address == self.faults@[a].trigger.address);
                assert(old(self).faults@[b].trigger.address == self.faults@[b].trigger.address);
            }
        }
        if fired.trigger.hitcounter != 0 {
            return None;
        }
        let target = if fired.kind != FaultType::Register {
            FaultTarget::Memory { address: fired.address, size: fault_size(&fired) }
        } else {
            FaultTarget::Register { id: fired.address }
        };
        Some(FaultAccess { index: i, target })
    }

    /// Makes a fired fault live when it has a lifespan: it is to be reverted
    /// `lifespan` instructions from now.
    fn make_live(&mut self, index: usize)
        requires
            old(self).wf(),
            index < old(self).faults@.len(),
            old(self).instruction_count <= INSTRUCTION_LIMIT,
        ensures
            final(self).wf(),
            final(self).same_counters(old(self)),
            final(self).logs == old(self).logs,
            final(self).faults == old(self).faults,
            final(self).prefaults == old(self).prefaults,
            final(self).endpoints == old(self).endpoints,
            queue_entries(final(self).live_faults) == if old(self).faults@[index as int].lifespan
                != 0 {
                queue_entries(old(self).live_faults).insert(
                    old(self).faults@[index as int].trigger.address,
                    live_priority(
                        old(self).instruction_count,
                        old(self).faults@[index as int].lifespan,
                    ),
                )
            } else {
                queue_entries(old(self).live_faults)
            },
    {
        let f = self.faults[index];
        if f.lifespan != 0 {
            let due: u64 = self.instruction_count + f.lifespan as u64;
            queue_push(&mut self.live_faults, f.trigger.address, u64::MAX - due);
            proof {
                assert forall|t: u64| #[trigger]
                    queue_entries(self.live_faults).contains_key(t) implies has_fault(self.faults@, t) by {
                    if t == f.trigger.address {
                        assert(fault_at(self.faults@, index as int, t));
                    } else {
                        assert(queue_entries(old(self).live_faults).contains_key(t));
                    }
                }
            }
        }
    }

    /// Fires the memory fault `index` on `data`, the bytes it read, and
    /// returns the bytes to write in their place. The read and the written
    /// bytes are dumped, `data` is kept to revert the fault, and a fault
    /// with a lifespan becomes live.
    pub fn fire_memory_fault(&mut self, index: usize, data: Vec<u8>) -> (r: Vec<u8>)
        requires
            old(self).wf(),
            index < old(self).faults@.len(),
            old(self).instruction_count <= INSTRUCTION_LIMIT,
        ensures
            final(self).wf(),
            final(self).same_counters(old(self)),
            final(self).faults == old(self).faults,
            final(self).endpoints == old(self).endpoints,
            ({
                let f = old(self).faults@[index as int];
                &&& r@ == fit(model_bytes(data@, f), data@.len())
                &&& prefaults_view(final(self).prefaults@) == prefaults_view(old(self).prefaults@).update(index as int, data@)
                &&& dumps_view(final(self).logs.memdumps@) == spec_record_memdump(
                    spec_record_memdump(dumps_view(old(self).logs.memdumps@), f.address, data@),
                    f.address,
                    r@,
                )
                &&& queue_entries(final(self).live_faults) == if f.lifespan != 0 {
                    queue_entries(old(self).live_faults).insert(
                        f.trigger.address,
                        live_priority(old(self).instruction_count, f.lifespan),
                    )
                } else {
                    queue_entries(old(self).live_faults)
                }
            }),
            final(self).logs.meminfo == old(self).logs.meminfo,
            final(self).logs.tbinfo == old(self).logs.tbinfo,
            final(self).logs.tbexec == old(self).logs.tbexec,
            final(self).logs.registerlist == old(self).logs.registerlist,
            final(self).logs.endpoint == old(self).logs.endpoint,
    {
        let f = self.faults[index];
        let faulted = faulted_memory(&data, &f);
        let before = data.clone();
        proof {
            assert(before@ =~= data@);
        }
        record_memdump(&mut self.logs.memdumps, f.address, before);
        let after = faulted.clone();
        proof {
            assert(after@ =~= faulted@);
        }
        record_memdump(&mut self.logs.memdumps, f.address, after);
        let ghost old_prefaults = prefaults_view(self.prefaults@);
        self.prefaults.set(index, data);
        proof {
            assert(prefaults_view(self.prefaults@) =~= old_prefaults.update(index as int, data@));
        }
        self.make_live(index);
        faulted
    }

    /// Fires the register fault `index` on `value`, the register's value,
    /// and returns the value to write in its place. The value is kept to
    /// revert the fault, and a fault with a lifespan becomes live.
    pub fn fire_register_fault(&mut self, index: usize, value: u64) -> (r: u64)
        requires
            old(self).wf(),
            index < old(self).faults@.len(),
            old(self).instruction_count <= INSTRUCTION_LIMIT,
        ensures
            final(self).wf(),
            final(self).same_counters(old(self)),
            final(self).faults == old(self).faults,
            final(self).endpoints == old(self).endpoints,
            final(self).logs == old(self).logs,
            ({
                let f = old(self).faults@[index as int];
                &&& r == spec_u64_from_le_bytes(fit(model_bytes(spec_u64_to_le_bytes(value), f), 8))
                &&& prefaults_view(final(self).prefaults@) == prefaults_view(old(self).prefaults@).update(index as int, spec_u64_to_le_bytes(value))
                &&& queue_entries(final(self).live_faults) == if f.lifespan != 0 {
                    queue_entries(old(self).live_faults).insert(
                        f.trigger.address,
                        live_priority(old(self).instruction_count, f.lifespan),
                    )
                } else {
                    queue_entries(old(self).live_faults)
                }
            }),
    {
        let f = self.faults[index];
        let faulted = faulted_register(value, &f);
        let ghost old_prefaults = prefaults_view(self.prefaults@);
        self.prefaults.set(index, u64_to_le_bytes(value));
        proof {
            assert(prefaults_view(self.prefaults@) =~= old_prefaults.update(index as int, spec_u64_to_le_bytes(value)));
        }
        self.make_live(index);
        faulted
    }

    /// The single-step hook, run before each instruction while a fault is
    /// live: reverts the fault that is due, if any, asks for a dump at the
    /// instruction of the reverted memory and for a register snapshot, and
    /// counts the instruction. The instruction is then logged with
    /// `log_block`.
    pub fn single_step_hook(&mut self, address: u64) -> (r: StepOutcome)
        requires
            old(self).wf(),
            old(self).instruction_count < u64::MAX,
        ensures
            final(self).wf(),
            final(self).same_config(old(self)),
            final(self).faults == old(self).faults,
            final(self).prefaults == old(self).prefaults,
            final(self).endpoints == old(self).endpoints,
            final(self).logs == old(self).logs,
            final(self).last_tbid == old(self).last_tbid,
            final(self).tbcounter == old(self).tbcounter,
            final(self).single_step == old(self).single_step,
            final(self).instruction_count == old(self).instruction_count + 1,
            undo_result(
                old(self).instruction_count,
                old(self).faults@,
                prefaults_view(old(self).prefaults@),
                queue_entries(old(self).live_faults),
                queue_entries(final(self).live_faults),
                r.undo,
            ),
            r.snapshot == r.undo is Some,
            r.dump == match r.undo {
                Some(u) => if is_memory_fault(u.fault) {
                    Some((address, spec_fault_size(u.fault) as u32))
                } else {
                    None
                },
                None => None,
            },
    {
        let undo = undo_faults(
            self.instruction_count,
            &self.faults,
            &self.prefaults,
            &mut self.live_faults,
        );
        let dump = match &undo {
            Some(u) => if u.fault.kind != FaultType::Register {
                Some((address, fault_size(&u.fault)))
            } else {
                None
            },
            None => None,
        };
        let snapshot = undo.is_some();
        self.instruction_count = self.instruction_count + 1;
        StepOutcome { undo, dump, snapshot }
    }

    /// Index of the endpoint at `address`.
    fn find_endpoint(&self, address: u64) -> (r: Option<usize>)
        requires
            endpoints_unique(self.endpoints@),
        ensures
            r is None <==> !(exists|i: int| endpoint_at(self.endpoints@, i, address)),
            r matches Some(i) ==> endpoint_at(self.endpoints@, i as int, address),
    {
        let mut i: usize = 0;
        while i < self.endpoints.len()
            invariant
                i <= self.endpoints@.len(),
                forall|j: int| 0 <= j < i ==> !endpoint_at(self.endpoints@, j, address),
            decreases self.endpoints@.len() - i,
        {
            if self.endpoints[i].address == address {
                assert(endpoint_at(self.endpoints@, i as int, address));
                return Some(i);
            }
            i = i + 1;
        }
        None
    }

    /// The endpoint hook, run at an endpoint address: counts the hit down
    /// while more than one hit remains; otherwise records the endpoint
    /// result and ends the run. An address without an endpoint does
    /// nothing.
    pub fn end_hook(&mut self, address: u64) -> (r: EndOutcome)
        requires
            old(self).wf(),
        ensures
            final(self).wf(),
            final(self).same_counters(old(self)),
            final(self).faults == old(self).faults,
            final(self).prefaults == old(self).prefaults,
            final(self).live_faults == old(self).live_faults,
            final(self).logs.meminfo == old(self).logs.meminfo,
            final(self).logs.tbinfo == old(self).logs.tbinfo,
            final(self).logs.tbexec == old(self).logs.tbexec,
            final(self).logs.registerlist == old(self).logs.registerlist,
            final(self).logs.memdumps == old(self).logs.memdumps,
            ({
                let e = old(self).endpoints@;
                if !(exists|i: int| endpoint_at(e, i, address)) {
                    &&& r == EndOutcome::Continue
                    &&& final(self).endpoints == old(self).endpoints
                    &&& final(self).logs.endpoint == old(self).logs.endpoint
                } else {
                    let i = choose|i: int| endpoint_at(e, i, address);
                    let (counter, stop) = end_step(e[i].counter);
                    &&& final(self).endpoints@ == e.update(i, Endpoint { address, counter })
                    &&& if stop {
                        &&& r == EndOutcome::Stop { step: old(self).single_step }
                        &&& final(self).logs.endpoint == (address == old(self).first_endpoint, address, 1u32)
                    } else {
                        &&& r == EndOutcome::Continue
                        &&& final(self).logs.endpoint == old(self).logs.endpoint
                    }
                }
            }),
    {
        let found = self.find_endpoint(address);
        let i = match found {
            Some(i) => i,
            None => return EndOutcome::Continue,
        };
        proof {
            let k = choose|k: int| endpoint_at(self.endpoints@, k, address);
            assert(self.endpoints@[k].address == self.endpoints@[i as int].address);
        }
        let counter = self.endpoints[i].counter;
        if counter > 1 {
            self.endpoints.set(i, Endpoint { address, counter: counter - 1 });
            proof {
                assert forall|a: int, b: int|
                    0 <= a < self.endpoints@.len() && 0 <= b < self.endpoints@.len()
                        && #[trigger] self.endpoints@[a].address
                        == #[trigger] self.endpoints@[b].address implies a == b by {
                    assert(old(self).endpoints@[a].address == self.endpoints@[a].address);
                    assert(old(self).endpoints@[b].address == self.endpoints@[b].address);
                }
            }
            return EndOutcome::Continue;
        }
        proof {
            assert(self.endpoints@ =~= old(self).endpoints@.update(i as int, Endpoint { address, counter }));
        }
        self.logs.endpoint = (address == self.first_endpoint, address, 1);
        EndOutcome::Stop { step: self.single_step }
    }

    /// Appends a snapshot of memory at `address` to the memory dumps.
    pub fn record_dump(&mut self, address: u64, bytes: Vec<u8>)
        requires
            old(self).wf(),
        ensures
            final(self).wf(),
            final(self).same_tables(old(self)),
            final(self).same_counters(old(self)),
            dumps_view(final(self).logs.memdumps@) == spec_record_memdump(
                dumps_view(old(self).logs.memdumps@),
                address,
                bytes@,
            ),
            final(self).logs.meminfo == old(self).logs.meminfo,
            final(self).logs.tbinfo == old(self).logs.tbinfo,
            final(self).logs.tbexec == old(self).logs.tbexec,
            final(self).logs.registerlist == old(self).logs.registerlist,
            final(self).logs.endpoint == old(self).logs.endpoint,
    {
        record_memdump(&mut self.logs.memdumps, address, bytes);
    }
}

/// Memory `mem` with `bytes` written at offset `at`.
pub open spec fn write_bytes(mem: Seq<u8>, at: int, bytes: Seq<u8>) -> Seq<u8> {
    Seq::new(mem.len(), |i: int| if at <= i < at + bytes.len() { bytes[i - at] } else { mem[i] })
}

/// Undo restores exact bytes: a memory fault reads `fault_size` bytes,
/// writes its faulted bytes over them (which then read back as written),
/// and writing back the bytes it read leaves memory exactly as it was.
pub proof fn lemma_undo_restores_memory(mem: Seq<u8>, at: int, fault: Fault)
    requires
        0 <= at,
        at + spec_fault_size(fault) <= mem.len(),
    ensures
        ({
            let n = spec_fault_size(fault);
            let pre = mem.subrange(at, at + n);
            let post = fit(model_bytes(pre, fault), n);
            let faulted = write_bytes(mem, at, post);
            &&& faulted.subrange(at, at + n) == post
            &&& write_bytes(faulted, at, pre) == mem
        }),
{
    let n = spec_fault_size(fault);
    let pre = mem.subrange(at, at + n);
    let post = fit(model_bytes(pre, fault), n);
    let faulted = write_bytes(mem, at, post);
    assert(faulted.subrange(at, at + n) =~= post);
    assert(write_bytes(faulted, at, pre) =~= mem);
}

/// A register fault is reverted exactly: the value that reverts it, taken
/// from what it read, is the register's value before the fault.
pub proof fn lemma_register_fault_inverse(value: u64)
    ensures
        register_restore(spec_u64_to_le_bytes(value)) == value,
{
    vstd::bytes::lemma_auto_spec_u64_to_from_le_bytes();
    assert(fit(spec_u64_to_le_bytes(value), 8) =~= spec_u64_to_le_bytes(value));
}

proof fn lemma_counter_after(n: u32, k: nat)
    requires
        n >= 1,
        k < n,
    ensures
        counter_after(n, k) == n - k,
    decreases k,
{
    if k > 0 {
        lemma_counter_after(n, (k - 1) as nat);
    }
}

/// Endpoint counting: an endpoint with counter `n` lets its first `n - 1`
/// hits only count down, and its `n`-th hit ends the run.
pub proof fn lemma_endpoint_counting(n: u32)
    requires
        n >= 1,
    ensures
        forall|k: nat| k + 1 < n ==> {
            &&& #[trigger] counter_after(n, k) == n - k
            &&& !end_step(counter_after(n, k)).1
        },
        counter_after(n, (n - 1) as nat) == 1,
        end_step(counter_after(n, (n - 1) as nat)).1,
{
    assert forall|k: nat| k + 1 < n implies {
        &&& #[trigger] counter_after(n, k) == n - k
        &&& !end_step(counter_after(n, k)).1
    } by {
        lemma_counter_after(n, k);
    }
    lemma_counter_after(n, (n - 1) as nat);
}

} // verus!
