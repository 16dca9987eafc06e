//! The trace that a run returns: memory accesses, executed blocks, register
//! snapshots and memory dumps, each kept by an upsert or an append.
use crate::disasm::{block_listing, disassemble_block, ins_count, spec_ins_count, Disassembler};
use vstd::prelude::*;
use vstd::std_specs::vec::vec_index_mut;
use vstd::string::StringExecFns;

verus! {

/// Direction of a memory access.
pub const READ: u8 = 0;

pub const WRITE: u8 = 1;

/// One memory access site: the access address and the instruction that made
/// it, with how often it happened.
#[derive(Clone, Copy, PartialEq, Eq, Structural, Debug)]
pub struct MemInfo {
    /// The instruction (program counter) that made the access.
    pub ins: u64,
    pub counter: u32,
    /// `READ` or `WRITE`.
    pub direction: u8,
    /// The address that was accessed.
    pub address: u64,
    /// The block that was executing.
    pub tbid: u64,
    pub size: usize,
}

/// One entry of the executed-block stream.
#[derive(Clone, Copy, PartialEq, Eq, Structural, Debug)]
pub struct TbExecEntry {
    pub pos: u64,
    pub tb: u64,
}

/// Snapshots of one memory region, oldest first.
#[derive(Debug)]
pub struct MemDump {
    pub address: u64,
    pub len: usize,
    pub dumps: Vec<Vec<u8>>,
}

pub open spec fn dump_view(d: MemDump) -> (u64, usize, Seq<Seq<u8>>) {
    (d.address, d.len, d.dumps@.map_values(|b: Vec<u8>| b@))
}

pub open spec fn dumps_view(s: Seq<MemDump>) -> Seq<(u64, usize, Seq<Seq<u8>>)> {
    s.map_values(|d: MemDump| dump_view(d))
}

pub open spec fn meminfo_key_at(s: Seq<MemInfo>, i: int, address: u64, pc: u64) -> bool {
    0 <= i < s.len() && s[i].address == address && s[i].ins == pc
}

/// No two records share an `(address, pc)` key.
pub open spec fn meminfo_unique(s: Seq<MemInfo>) -> bool {
    forall|i: int, j: int|
        0 <= i < s.len() && 0 <= j < s.len() && #[trigger] s[i].address == #[trigger] s[j].address
            && s[i].ins == s[j].ins ==> i == j
}

pub open spec fn has_meminfo(s: Seq<MemInfo>, address: u64, pc: u64) -> bool {
    exists|i: int| meminfo_key_at(s, i, address, pc)
}

pub open spec fn meminfo_index(s: Seq<MemInfo>, address: u64, pc: u64) -> int {
    choose|i: int| meminfo_key_at(s, i, address, pc)
}

/// The records after one access: the counter of its key goes up by one, or
/// a new record with counter 1 comes last.
pub open spec fn spec_record_meminfo(
    s: Seq<MemInfo>,
    address: u64,
    pc: u64,
    direction: u8,
    size: usize,
    tbid: u64,
) -> Seq<MemInfo> {
    if has_meminfo(s, address, pc) {
        let i = meminfo_index(s, address, pc);
        s.update(i, MemInfo { counter: s[i].counter.saturating_add(1), ..s[i] })
    } else {
        s.push(MemInfo { ins: pc, counter: 1, direction, address, tbid, size })
    }
}

/// No two regions share an address.
pub open spec fn dumps_unique(s: Seq<(u64, usize, Seq<Seq<u8>>)>) -> bool {
    forall|i: int, j: int|
        0 <= i < s.len() && 0 <= j < s.len() && #[trigger] s[i].0 == #[trigger] s[j].0 ==> i == j
}

/// Memory dumps after one more snapshot of `address`: appended to the
/// region's dumps, or a new region.
pub open spec fn spec_record_memdump(
    s: Seq<(u64, usize, Seq<Seq<u8>>)>,
    address: u64,
    bytes: Seq<u8>,
) -> Seq<(u64, usize, Seq<Seq<u8>>)> {
    if exists|i: int| 0 <= i < s.len() && s[i].0 == address {
        let i = choose|i: int| 0 <= i < s.len() && s[i].0 == address;
        s.update(i, (s[i].0, s[i].1, s[i].2.push(bytes)))
    } else {
        s.push((address, bytes.len() as usize, seq![bytes]))
    }
}

/// The returned block stream: the raw stream without its first (sentinel)
/// entry, numbered from zero.
pub open spec fn spec_tbexec_trace(stream: Seq<u64>) -> Seq<TbExecEntry> {
    Seq::new(
        if stream.len() == 0 { 0nat } else { (stream.len() - 1) as nat },
        |i: int| TbExecEntry { pos: i as u64, tb: stream[i + 1] },
    )
}

proof fn lemma_meminfo_index(s: Seq<MemInfo>, i: int, address: u64, pc: u64)
    requires
        meminfo_unique(s),
        meminfo_key_at(s, i, address, pc),
    ensures
        has_meminfo(s, address, pc),
        meminfo_index(s, address, pc) == i,
{
    let k = meminfo_index(s, address, pc);
    assert(s[k].address == s[i].address);
}

proof fn lemma_dump_index(s: Seq<(u64, usize, Seq<Seq<u8>>)>, i: int, address: u64)
    requires
        dumps_unique(s),
        0 <= i < s.len(),
        s[i].0 == address,
    ensures
        (choose|k: int| 0 <= k < s.len() && s[k].0 == address) == i,
{
    let k = choose|k: int| 0 <= k < s.len() && s[k].0 == address;
    assert(s[k].0 == s[i].0);
}

/// Records a memory access at `address` made by the instruction at `pc`.
pub fn record_meminfo(
    meminfo: &mut Vec<MemInfo>,
    address: u64,
    pc: u64,
    direction: u8,
    size: usize,
    tbid: u64,
)
    requires
        meminfo_unique(old(meminfo)@),
    ensures
        final(meminfo)@ == spec_record_meminfo(old(meminfo)@, address, pc, direction, size, tbid),
        meminfo_unique(final(meminfo)@),
{
    let mut i: usize = 0;
    while i < meminfo.len()
        invariant
            i <= meminfo@.len(),
            meminfo@ == old(meminfo)@,
            meminfo_unique(meminfo@),
            forall|j: int| 0 <= j < i ==> !meminfo_key_at(meminfo@, j, address, pc),
        decreases meminfo@.len() - i,
    {
        if meminfo[i].address == address && meminfo[i].ins == pc {
            let old_info = meminfo[i];
            let info = MemInfo { counter: old_info.counter.saturating_add(1), ..old_info };
            proof {
                lemma_meminfo_index(meminfo@, i as int, address, pc);
            }
            meminfo.set(i, info);
            proof {
                assert(meminfo_unique(meminfo@)) by {
                    assert forall|a: int, b: int|
                        0 <= a < meminfo@.len() && 0 <= b < meminfo@.len()
                            && #[trigger] meminfo@[a].address == #[trigger] meminfo@[b].address
                            && meminfo@[a].ins == meminfo@[b].ins implies a == b by {
                        assert(old(meminfo)@[a].address == old(meminfo)@[b].address ==> a == b);
                        assert(old(meminfo)@[a].address == meminfo@[a].address);
                        assert(old(meminfo)@[b].address == meminfo@[b].address);
                        assert(old(meminfo)@[a].ins == meminfo@[a].ins);
                        assert(old(meminfo)@[b].ins == meminfo@[b].ins);
                    }
                }
            }
            return;
        }
        i = i + 1;
    }
    let info = MemInfo { ins: pc, counter: 1, direction, address, tbid, size };
    meminfo.push(info);
    proof {
        assert(!has_meminfo(old(meminfo)@, address, pc));
        assert(meminfo_unique(meminfo@)) by {
            assert forall|a: int, b: int|
                0 <= a < meminfo@.len() && 0 <= b < meminfo@.len()
                    && #[trigger] meminfo@[a].address == #[trigger] meminfo@[b].address
                    && meminfo@[a].ins == meminfo@[b].ins implies a == b by {
                if a < old(meminfo)@.len() && b == old(meminfo)@.len() {
                    assert(meminfo_key_at(old(meminfo)@, a, address, pc));
                }
                if b < old(meminfo)@.len() && a == old(meminfo)@.len() {
                    assert(meminfo_key_at(old(meminfo)@, b, address, pc));
                }
            }
        }
    }
}

/// Appends a snapshot of `bytes` to the dumps of the region at `address`,
/// creating the region if it has none.
pub fn record_memdump(memdumps: &mut Vec<MemDump>, address: u64, bytes: Vec<u8>)
    requires
        dumps_unique(dumps_view(old(memdumps)@)),
    ensures
        dumps_unique(dumps_view(final(memdumps)@)),
        dumps_view(final(memdumps)@) == spec_record_memdump(dumps_view(old(memdumps)@), address, bytes@),
{
    let ghost s = dumps_view(memdumps@);
    let mut i: usize = 0;
    while i < memdumps.len()
        invariant
            i <= memdumps@.len(),
            s == dumps_view(memdumps@),
            memdumps@ == old(memdumps)@,
            dumps_unique(s),
            forall|j: int| 0 <= j < i ==> s[j].0 != address,
        decreases memdumps@.len() - i,
    {
        if memdumps[i].address == address {
            proof {
                lemma_dump_index(s, i as int, address);
            }
            let entry = vec_index_mut(memdumps, i);
            entry.dumps.push(bytes);
            proof {
                assert(dumps_view(memdumps@) =~= spec_record_memdump(s, address, bytes@)) by {
                    assert(dump_view(memdumps@[i as int]) == (s[i as int].0, s[i as int].1, s[i as int].2.push(bytes@))) by {
                        assert(memdumps@[i as int].dumps@.map_values(|b: Vec<u8>| b@) =~= s[i as int].2.push(bytes@));
                    }
                }
                let t = dumps_view(memdumps@);
                assert forall|a: int, b: int|
                    0 <= a < t.len() && 0 <= b < t.len() && #[trigger] t[a].0 == #[trigger] t[b].0 implies a == b by {
                    assert(t[a].0 == s[a].0);
                    assert(t[b].0 == s[b].0);
                }
            }
            return;
        }
        i = i + 1;
    }
    let len = bytes.len();
    let mut dumps: Vec<Vec<u8>> = Vec::new();
    dumps.push(bytes);
    memdumps.push(MemDump { address, len, dumps });
    proof {
        assert(dumps_view(memdumps@) =~= spec_record_memdump(s, address, bytes@)) by {
            assert(dump_view(memdumps@.last()).2 =~= seq![bytes@]);
        }
        let t = dumps_view(memdumps@);
        assert forall|a: int, b: int|
            0 <= a < t.len() && 0 <= b < t.len() && #[trigger] t[a].0 == #[trigger] t[b].0 implies a == b by {
            if a < s.len() {
                assert(t[a].0 == s[a].0);
            }
            if b < s.len() {
                assert(t[b].0 == s[b].0);
            }
        }
    }
}

/// One block footprint (address and size) that was executed, with its
/// listing and how often it ran.
#[derive(Debug)]
pub struct TbInfoBlock {
    pub id: u64,
    pub size: u32,
    pub ins_count: u64,
    pub num_exec: u64,
    pub assembler: String,
}

pub type TbInfoView = (u64, u32, u64, u64, Seq<char>);

pub open spec fn tb_view(b: TbInfoBlock) -> TbInfoView {
    (b.id, b.size, b.ins_count, b.num_exec, b.assembler@)
}

pub open spec fn tbinfo_view(s: Seq<TbInfoBlock>) -> Seq<TbInfoView> {
    s.map_values(|b: TbInfoBlock| tb_view(b))
}

pub open spec fn tb_key_at(s: Seq<TbInfoView>, i: int, address: u64, size: u32) -> bool {
    0 <= i < s.len() && s[i].0 == address && s[i].1 == size
}

/// No two blocks share an `(address, size)` footprint.
pub open spec fn tbinfo_unique(s: Seq<TbInfoView>) -> bool {
    forall|i: int, j: int|
        0 <= i < s.len() && 0 <= j < s.len() && #[trigger] s[i].0 == #[trigger] s[j].0 && s[i].1
            == s[j].1 ==> i == j
}

pub open spec fn has_tb(s: Seq<TbInfoView>, address: u64, size: u32) -> bool {
    exists|i: int| tb_key_at(s, i, address, size)
}

/// The block log after one execution of the block at `address` of `size`
/// bytes: one more execution of a known footprint, or a new entry with the
/// listing of `listing`, run once.
pub open spec fn spec_log_tb_info(
    s: Seq<TbInfoView>,
    address: u64,
    size: u32,
    listing: Seq<char>,
) -> Seq<TbInfoView> {
    if has_tb(s, address, size) {
        let i = choose|i: int| tb_key_at(s, i, address, size);
        s.update(i, (s[i].0, s[i].1, s[i].2, s[i].3.saturating_add(1), s[i].4))
    } else {
        s.push((address, size, spec_ins_count(listing) as u64, 1u64, listing))
    }
}

proof fn lemma_tb_index(s: Seq<TbInfoView>, i: int, address: u64, size: u32)
    requires
        tbinfo_unique(s),
        tb_key_at(s, i, address, size),
    ensures
        has_tb(s, address, size),
        (choose|k: int| tb_key_at(s, k, address, size)) == i,
{
    let k = choose|k: int| tb_key_at(s, k, address, size);
    assert(s[k].0 == s[i].0);
}

/// Whether the block log knows the footprint `(address, size)`.
pub fn has_tb_info(tbinfo: &Vec<TbInfoBlock>, address: u64, size: u32) -> (r: bool)
    ensures
        r == has_tb(tbinfo_view(tbinfo@), address, size),
{
    let ghost s = tbinfo_view(tbinfo@);
    let mut i: usize = 0;
    while i < tbinfo.len()
        invariant
            i <= tbinfo@.len(),
            s == tbinfo_view(tbinfo@),
            forall|j: int| 0 <= j < i ==> !tb_key_at(s, j, address, size),
        decreases tbinfo@.len() - i,
    {
        if tbinfo[i].id == address && tbinfo[i].size == size {
            assert(tb_key_at(s, i as int, address, size));
            return true;
        }
        i = i + 1;
    }
    false
}

/// Logs one execution of the block at `address` of `size` bytes. A new
/// footprint is disassembled from `code`, the block's bytes; a known one
/// only counts one more execution, and `code` is not read.
pub fn log_tb_info(
    tbinfo: &mut Vec<TbInfoBlock>,
    cs: &Disassembler,
    code: &Vec<u8>,
    address: u64,
    size: u32,
)
    requires
        tbinfo_unique(tbinfo_view(old(tbinfo)@)),
    ensures
        tbinfo_unique(tbinfo_view(final(tbinfo)@)),
        tbinfo_view(final(tbinfo)@) == spec_log_tb_info(
            tbinfo_view(old(tbinfo)@),
            address,
            size,
            block_listing(cs.spec_architecture(), code@, address),
        ),
{
    let ghost s = tbinfo_view(tbinfo@);
    let mut i: usize = 0;
    while i < tbinfo.len()
        invariant
            i <= tbinfo@.len(),
            s == tbinfo_view(tbinfo@),
            tbinfo@ == old(tbinfo)@,
            tbinfo_unique(s),
            forall|j: int| 0 <= j < i ==> !tb_key_at(s, j, address, size),
        decreases tbinfo@.len() - i,
    {
        if tbinfo[i].id == address && tbinfo[i].size == size {
            proof {
                lemma_tb_index(s, i as int, address, size);
            }
            let entry = vec_index_mut(tbinfo, i);
            entry.num_exec = entry.num_exec.saturating_add(1);
            proof {
                let t = tbinfo_view(tbinfo@);
                assert(t =~= spec_log_tb_info(s, address, size, block_listing(cs.spec_architecture(), code@, address)));
                assert forall|a: int, b: int|
                    0 <= a < t.len() && 0 <= b < t.len() && #[trigger] t[a].0 == #[trigger] t[b].0
                        && t[a].1 == t[b].1 implies a == b by {
                    assert(t[a].0 == s[a].0 && t[a].1 == s[a].1);
                    assert(t[b].0 == s[b].0 && t[b].1 == s[b].1);
                }
            }
            return;
        }
        i = i + 1;
    }
    let assembler = disassemble_block(cs, code, address);
    let count = ins_count(&assembler);
    tbinfo.push(TbInfoBlock { id: address, size, ins_count: count, num_exec: 1, assembler });
    proof {
        let t = tbinfo_view(tbinfo@);
        assert(t =~= spec_log_tb_info(s, address, size, block_listing(cs.spec_architecture(), code@, address)));
        assert forall|a: int, b: int|
            0 <= a < t.len() && 0 <= b < t.len() && #[trigger] t[a].0 == #[trigger] t[b].0 && t[a].1
                == t[b].1 implies a == b by {
            if a < s.len() && b == s.len() {
                assert(tb_key_at(s, a, address, size));
            }
            if b < s.len() && a == s.len() {
                assert(tb_key_at(s, b, address, size));
            }
            if a < s.len() {
                assert(t[a] == s[a]);
            }
            if b < s.len() {
                assert(t[b] == s[b]);
            }
        }
    }
}

/// The raw block stream, numbered from zero after dropping its first
/// (sentinel) entry.
pub fn tbexec_trace(tbexec: &Vec<u64>) -> (r: Vec<TbExecEntry>)
    ensures
        r@ == spec_tbexec_trace(tbexec@),
{
    let mut r: Vec<TbExecEntry> = Vec::new();
    let mut i: usize = 1;
    while i < tbexec.len()
        invariant
            1 <= i,
            tbexec@.len() == 0 ==> i == 1,
            tbexec@.len() > 0 ==> i <= tbexec@.len(),
            r@ == Seq::new((i - 1) as nat, |j: int| TbExecEntry { pos: j as u64, tb: tbexec@[j + 1] }),
        decreases tbexec@.len() - i,
    {
        r.push(TbExecEntry { pos: (i - 1) as u64, tb: tbexec[i] });
        i = i + 1;
        assert(r@ =~= Seq::new((i - 1) as nat, |j: int| TbExecEntry { pos: j as u64, tb: tbexec@[j + 1] }));
    }
    assert(r@ =~= spec_tbexec_trace(tbexec@));
    r
}

/// Decimal digits of `v`.
pub open spec fn decimal_digits(v: nat) -> Seq<char>
    decreases v,
{
    if v < 10 {
        seq![decimal_digit(v)]
    } else {
        decimal_digits(v / 10).push(decimal_digit(v % 10))
    }
}

pub open spec fn decimal_digit(d: nat) -> char {
    seq!['0', '1', '2', '3', '4', '5', '6', '7', '8', '9'][d as int]
}

/// Relies on std's `to_string` of an integer: its decimal digits.
#[verifier::external_body]
fn decimal_text(v: u64) -> (r: String)
    ensures
        r@ == decimal_digits(v as nat),
{
    v.to_string()
}

/// The result of a run's endpoint: whether the endpoint that ended it was
/// the first configured one, its address, and 1 once an endpoint ended the
/// run (0 before).
pub type EndpointResult = (bool, u64, u32);

/// Why a run ended: `"<address>/1"` when an endpoint stopped it, else
/// `"max tb"`.
pub open spec fn spec_end_reason(endpoint: EndpointResult) -> Seq<char> {
    if endpoint.2 == 1 {
        decimal_digits(endpoint.1 as nat) + "/1"@
    } else {
        "max tb"@
    }
}

/// Why a run ended: `"<address>/1"` when an endpoint stopped it, else
/// `"max tb"`.
pub fn end_reason(endpoint: EndpointResult) -> (r: String)
    ensures
        r@ == spec_end_reason(endpoint),
{
    if endpoint.2 == 1 {
        decimal_text(endpoint.1).concat("/1")
    } else {
        String::from_str("max tb")
    }
}

/// The reported endpoint flag: 1 when the first configured endpoint ended
/// the run, else 0.
pub fn endpoint_flag(endpoint: EndpointResult) -> (r: u8)
    ensures
        r == if endpoint.0 {
            1u8
        } else {
            0u8
        },
{
    if endpoint.0 {
        1
    } else {
        0
    }
}

/// Everything a run records.
pub struct Logs {
    pub meminfo: Vec<MemInfo>,
    pub tbinfo: Vec<TbInfoBlock>,
    /// Addresses of executed blocks in order; the first one is a sentinel.
    pub tbexec: Vec<u64>,
    pub registerlist: Vec<Vec<(String, u64)>>,
    pub memdumps: Vec<MemDump>,
    pub endpoint: EndpointResult,
}

impl Logs {
    pub open spec fn wf(&self) -> bool {
        &&& meminfo_unique(self.meminfo@)
        &&& tbinfo_unique(tbinfo_view(self.tbinfo@))
        &&& dumps_unique(dumps_view(self.memdumps@))
    }

    /// Empty logs; no endpoint reached.
    pub fn new() -> (r: Logs)
        ensures
            r.wf(),
            r.meminfo@.len() == 0,
            r.tbinfo@.len() == 0,
            r.tbexec@.len() == 0,
            r.registerlist@.len() == 0,
            r.memdumps@.len() == 0,
            r.endpoint == (false, 0u64, 0u32),
    {
        Logs {
            meminfo: Vec::new(),
            tbinfo: Vec::new(),
            tbexec: Vec::new(),
            registerlist: Vec::new(),
            memdumps: Vec::new(),
            endpoint: (false, 0, 0),
        }
    }
}

/// Memory-access records are kept once per site: two accesses at the same
/// `(address, pc)` in the same direction leave one record for that site,
/// with counter 2.
pub proof fn lemma_meminfo_twice(
    s: Seq<MemInfo>,
    address: u64,
    pc: u64,
    direction: u8,
    size: usize,
    tbid: u64,
    size2: usize,
    tbid2: u64,
)
    requires
        meminfo_unique(s),
        !has_meminfo(s, address, pc),
    ensures
        ({
            let t = spec_record_meminfo(
                spec_record_meminfo(s, address, pc, direction, size, tbid),
                address,
                pc,
                direction,
                size2,
                tbid2,
            );
            &&& t.len() == s.len() + 1
            &&& meminfo_key_at(t, s.len() as int, address, pc)
            &&& t[s.len() as int].counter == 2
            &&& t[s.len() as int].direction == direction
            &&& forall|i: int| 0 <= i < s.len() ==> !meminfo_key_at(t, i, address, pc)
        }),
{
    let once = spec_record_meminfo(s, address, pc, direction, size, tbid);
    assert(once == s.push(MemInfo { ins: pc, counter: 1, direction, address, tbid, size }));
    assert(meminfo_key_at(once, s.len() as int, address, pc));
    assert(meminfo_unique(once)) by {
        assert forall|a: int, b: int|
            0 <= a < once.len() && 0 <= b < once.len() && #[trigger] once[a].address
                == #[trigger] once[b].address && once[a].ins == once[b].ins implies a == b by {
            if a < s.len() && b == s.len() {
                assert(meminfo_key_at(s, a, address, pc));
            }
            if b < s.len() && a == s.len() {
                assert(meminfo_key_at(s, b, address, pc));
            }
            if a < s.len() {
                assert(once[a] == s[a]);
            }
            if b < s.len() {
                assert(once[b] == s[b]);
            }
        }
    }
    lemma_meminfo_index(once, s.len() as int, address, pc);
    assert forall|i: int| 0 <= i < s.len() implies !meminfo_key_at(
        spec_record_meminfo(once, address, pc, direction, size2, tbid2),
        i,
        address,
        pc,
    ) by {
        assert(once[i] == s[i]);
        assert(!meminfo_key_at(s, i, address, pc));
    }
    assert(1u32.saturating_add(1) == 2u32);
}

} // verus!
