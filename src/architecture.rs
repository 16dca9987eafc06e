//! The architecture adapter: which registers a register dump names for each
//! architecture, and how the start address follows from them.
use vstd::prelude::*;
use vstd::string::StringExecFns;

verus! {

/// Processor architectures the worker can drive.
#[derive(Clone, Copy, PartialEq, Eq, Structural, Debug)]
pub enum Architecture {
    /// ARM in Thumb mode.
    Arm,
    /// 64-bit RISC-V.
    Riscv,
}

impl Architecture {
    pub open spec fn spec_from_name(name: Seq<char>) -> Option<Architecture> {
        if name == "arm"@ {
            Some(Architecture::Arm)
        } else if name == "riscv64"@ {
            Some(Architecture::Riscv)
        } else {
            None
        }
    }

    /// Reads an architecture tag: `"arm"` or `"riscv64"`.
    pub fn from_name(name: &str) -> (r: Option<Architecture>)
        ensures
            r == Self::spec_from_name(name@),
    {
        let n = String::from_str(name);
        if n == String::from_str("arm") {
            Some(Architecture::Arm)
        } else if n == String::from_str("riscv64") {
            Some(Architecture::Riscv)
        } else {
            None
        }
    }
}

/// Register names of an architecture, in the order they are written, read
/// and reported.
pub open spec fn spec_register_names(arch: Architecture) -> Seq<Seq<char>> {
    match arch {
        Architecture::Arm => seq![
            "pc"@,
            "r0"@,
            "r1"@,
            "r2"@,
            "r3"@,
            "r4"@,
            "r5"@,
            "r6"@,
            "r7"@,
            "r8"@,
            "r9"@,
            "r10"@,
            "r11"@,
            "r12"@,
            "r13"@,
            "r14"@,
            "r15"@,
            "xpsr"@
        ],
        Architecture::Riscv => seq![
            "pc"@,
            "x0"@,
            "x1"@,
            "x2"@,
            "x3"@,
            "x4"@,
            "x5"@,
            "x6"@,
            "x7"@,
            "x8"@,
            "x9"@,
            "x10"@,
            "x11"@,
            "x12"@,
            "x13"@,
            "x14"@,
            "x15"@,
            "x16"@,
            "x17"@,
            "x18"@,
            "x19"@,
            "x20"@,
            "x21"@,
            "x22"@,
            "x23"@,
            "x24"@,
            "x25"@,
            "x26"@,
            "x27"@,
            "x28"@,
            "x29"@,
            "x30"@,
            "x31"@
        ],
    }
}

pub open spec fn strings_view(v: Seq<String>) -> Seq<Seq<char>> {
    v.map_values(|s: String| s@)
}

pub open spec fn entries_view(v: Seq<(String, u64)>) -> Seq<(Seq<char>, u64)> {
    v.map_values(|p: (String, u64)| (p.0@, p.1))
}

/// Index of the first entry of a register dump named `name`.
pub open spec fn is_first_entry(dump: Seq<(Seq<char>, u64)>, name: Seq<char>, i: int) -> bool {
    &&& 0 <= i < dump.len()
    &&& dump[i].0 == name
    &&& forall|j: int| 0 <= j < i ==> dump[j].0 != name
}

/// The value that a register dump gives `name`: its first entry of that name.
pub open spec fn dump_value(dump: Seq<(Seq<char>, u64)>, name: Seq<char>) -> Option<u64> {
    if exists|i: int| is_first_entry(dump, name, i) {
        Some(dump[choose|i: int| is_first_entry(dump, name, i)].1)
    } else {
        None
    }
}

/// The start address with the Thumb bit of `xpsr` (bit 24) moved into bit 0.
pub open spec fn spec_thumb_start(start: u64, xpsr: u64) -> u64 {
    start | ((xpsr >> 24u64) & 1u64)
}

/// The register values of `names`, in order, that a register dump gives.
pub open spec fn dump_values(dump: Seq<(Seq<char>, u64)>, names: Seq<Seq<char>>) -> Seq<u64> {
    Seq::new(names.len(), |i: int| dump_value(dump, names[i]).unwrap())
}

/// Every one of `names` has an entry in the dump.
pub open spec fn dump_complete(dump: Seq<(Seq<char>, u64)>, names: Seq<Seq<char>>) -> bool {
    forall|i: int| 0 <= i < names.len() ==> (#[trigger] dump_value(dump, names[i])) is Some
}

/// The snapshot of `values` under `names`, with the block counter last.
pub open spec fn spec_snapshot(names: Seq<Seq<char>>, values: Seq<u64>, tbcounter: u64) -> Seq<
    (Seq<char>, u64),
> {
    Seq::new(names.len(), |i: int| (names[i], values[i])).push(("tbcounter"@, tbcounter))
}

/// Looks up `name` in a register dump.
fn find_register(dump: &Vec<(String, u64)>, name: &String) -> (r: Option<u64>)
    ensures
        r == dump_value(entries_view(dump@), name@),
{
    let ghost d = entries_view(dump@);
    let mut i: usize = 0;
    while i < dump.len()
        invariant
            i <= dump@.len(),
            d == entries_view(dump@),
            forall|j: int| 0 <= j < i ==> d[j].0 != name@,
        decreases dump@.len() - i,
    {
        if dump[i].0 == *name {
            proof {
                assert(is_first_entry(d, name@, i as int));
                let k = choose|k: int| is_first_entry(d, name@, k);
                assert(k == i);
            }
            return Some(dump[i].1);
        }
        i = i + 1;
    }
    None
}

/// The architecture-dependent operations of a run.
#[derive(Clone, Copy, PartialEq, Eq, Structural, Debug)]
pub struct ArchitectureDependentOperator {
    pub architecture: Architecture,
}

impl ArchitectureDependentOperator {
    /// The names of the registers of this architecture.
    pub fn register_names(&self) -> (r: Vec<String>)
        ensures
            strings_view(r@) == spec_register_names(self.architecture),
    {
        let mut v: Vec<String> = Vec::new();
        match self.architecture {
            Architecture::Arm => {
                v.push(String::from_str("pc"));
                v.push(String::from_str("r0"));
                v.push(String::from_str("r1"));
                v.push(String::from_str("r2"));
                v.push(String::from_str("r3"));
                v.push(String::from_str("r4"));
                v.push(String::from_str("r5"));
                v.push(String::from_str("r6"));
                v.push(String::from_str("r7"));
                v.push(String::from_str("r8"));
                v.push(String::from_str("r9"));
                v.push(String::from_str("r10"));
                v.push(String::from_str("r11"));
                v.push(String::from_str("r12"));
                v.push(String::from_str("r13"));
                v.push(String::from_str("r14"));
                v.push(String::from_str("r15"));
                v.push(String::from_str("xpsr"));
            },
            Architecture::Riscv => {
                v.push(String::from_str("pc"));
                v.push(String::from_str("x0"));
                v.push(String::from_str("x1"));
                v.push(String::from_str("x2"));
                v.push(String::from_str("x3"));
                v.push(String::from_str("x4"));
                v.push(String::from_str("x5"));
                v.push(String::from_str("x6"));
                v.push(String::from_str("x7"));
                v.push(String::from_str("x8"));
                v.push(String::from_str("x9"));
                v.push(String::from_str("x10"));
                v.push(String::from_str("x11"));
                v.push(String::from_str("x12"));
                v.push(String::from_str("x13"));
                v.push(String::from_str("x14"));
                v.push(String::from_str("x15"));
                v.push(String::from_str("x16"));
                v.push(String::from_str("x17"));
                v.push(String::from_str("x18"));
                v.push(String::from_str("x19"));
                v.push(String::from_str("x20"));
                v.push(String::from_str("x21"));
                v.push(String::from_str("x22"));
                v.push(String::from_str("x23"));
                v.push(String::from_str("x24"));
                v.push(String::from_str("x25"));
                v.push(String::from_str("x26"));
                v.push(String::from_str("x27"));
                v.push(String::from_str("x28"));
                v.push(String::from_str("x29"));
                v.push(String::from_str("x30"));
                v.push(String::from_str("x31"));
            },
        }
        assert(strings_view(v@) =~= spec_register_names(self.architecture));
        v
    }

    /// Reads the values of this architecture's registers from a register
    /// dump, in the order of `register_names`. On ARM the Thumb bit of
    /// `xpsr` goes into bit 0 of `start_address`. When a register is
    /// missing, its index in `register_names` comes back and the start
    /// address is left alone.
    pub fn initialize_registers(&self, registerdump: &Vec<(String, u64)>, start_address: &mut u64) -> (r: Result<Vec<u64>, usize>)
        ensures
            ({
                let names = spec_register_names(self.architecture);
                let dump = entries_view(registerdump@);
                match r {
                    Ok(values) => {
                        &&& dump_complete(dump, names)
                        &&& values@ == dump_values(dump, names)
                        &&& *final(start_address) == (if self.architecture == Architecture::Arm {
                            spec_thumb_start(*old(start_address), dump_value(dump, "xpsr"@).unwrap())
                        } else {
                            *old(start_address)
                        })
                    },
                    Err(i) => {
                        &&& i < names.len()
                        &&& dump_value(dump, names[i as int]) is None
                        &&& forall|j: int| 0 <= j < i ==> (#[trigger] dump_value(dump, names[j])) is Some
                        &&& *final(start_address) == *old(start_address)
                    },
                }
            }),
    {
        let names = self.register_names();
        let ghost dump = entries_view(registerdump@);
        let mut values: Vec<u64> = Vec::new();
        let mut i: usize = 0;
        while i < names.len()
            invariant
                i <= names@.len(),
                strings_view(names@) == spec_register_names(self.architecture),
                dump == entries_view(registerdump@),
                values@.len() == i,
                forall|j: int| 0 <= j < i ==> (#[trigger] dump_value(dump, names@[j]@)) is Some
                    && values@[j] == dump_value(dump, names@[j]@).unwrap(),
            decreases names@.len() - i,
        {
            match find_register(registerdump, &names[i]) {
                Some(v) => values.push(v),
                None => {
                    proof {
                        assert(strings_view(names@)[i as int] == names@[i as int]@);
                        assert forall|j: int| 0 <= j < i implies (#[trigger] dump_value(dump, spec_register_names(self.architecture)[j])) is Some by {
                            assert(strings_view(names@)[j] == names@[j]@);
                        }
                    }
                    return Err(i);
                },
            }
            i = i + 1;
        }
        proof {
            let names_s = spec_register_names(self.architecture);
            assert forall|j: int| 0 <= j < names_s.len() implies (#[trigger] dump_value(dump, names_s[j])) is Some by {
                assert(strings_view(names@)[j] == names@[j]@);
            }
            assert forall|j: int| 0 <= j < names_s.len() implies values@[j] == dump_values(dump, names_s)[j] by {
                assert(strings_view(names@)[j] == names@[j]@);
            }
            assert(values@ =~= dump_values(dump, names_s));
        }
        if self.architecture == Architecture::Arm {
            let xpsr_index: usize = 17;
            proof {
                assert(strings_view(names@)[17] == names@[17]@);
                assert(names@[17]@ == "xpsr"@);
            }
            let xpsr = values[xpsr_index];
            *start_address = *start_address | ((xpsr >> 24u64) & 1u64);
        }
        Ok(values)
    }

    /// A register snapshot: each register name with its value, in the
    /// order of `register_names`, then `tbcounter`.
    pub fn dump_registers(&self, values: &Vec<u64>, tbcounter: u64) -> (r: Vec<(String, u64)>)
        requires
            values@.len() == spec_register_names(self.architecture).len(),
        ensures
            entries_view(r@) == spec_snapshot(spec_register_names(self.architecture), values@, tbcounter),
    {
        let names = self.register_names();
        let ghost n = spec_register_names(self.architecture);
        let mut r: Vec<(String, u64)> = Vec::new();
        let mut i: usize = 0;
        while i < names.len()
            invariant
                i <= names@.len(),
                strings_view(names@) == n,
                values@.len() == n.len(),
                r@.len() == i,
                entries_view(r@) == Seq::new(i as nat, |j: int| (n[j], values@[j])),
            decreases names@.len() - i,
        {
            let name = names[i].clone();
            let ghost before = r@;
            r.push((name, values[i]));
            proof {
                assert(strings_view(names@)[i as int] == names@[i as int]@);
                assert(r@ == before.push((name, values@[i as int])));
                assert(entries_view(r@)[i as int] == (n[i as int], values@[i as int]));
                assert forall|j: int| 0 <= j < i implies entries_view(r@)[j] == (n[j], values@[j]) by {
                    assert(r@[j] == before[j]);
                    assert(entries_view(before)[j] == (n[j], values@[j]));
                }
                assert(entries_view(r@) =~= Seq::new((i + 1) as nat, |j: int| (n[j], values@[j])));
            }
            i = i + 1;
        }
        r.push((String::from_str("tbcounter"), tbcounter));
        proof {
            assert(entries_view(r@) =~= spec_snapshot(n, values@, tbcounter));
        }
        r
    }
}

/// The ARM register values that a register dump gives, in register order;
/// the index of the first missing register otherwise.
pub fn initialize_arm_registers(registerdump: &Vec<(String, u64)>) -> (r: Result<Vec<u64>, usize>)
    ensures
        ({
            let names = spec_register_names(Architecture::Arm);
            let dump = entries_view(registerdump@);
            match r {
                Ok(values) => dump_complete(dump, names) && values@ == dump_values(dump, names),
                Err(i) => i < names.len() && dump_value(dump, names[i as int]) is None,
            }
        }),
{
    let op = ArchitectureDependentOperator { architecture: Architecture::Arm };
    let mut start: u64 = 0;
    op.initialize_registers(registerdump, &mut start)
}

/// An ARM register snapshot of `values` with the block counter.
pub fn dump_arm_registers(values: &Vec<u64>, tbcounter: u64) -> (r: Vec<(String, u64)>)
    requires
        values@.len() == spec_register_names(Architecture::Arm).len(),
    ensures
        entries_view(r@) == spec_snapshot(spec_register_names(Architecture::Arm), values@, tbcounter),
{
    let op = ArchitectureDependentOperator { architecture: Architecture::Arm };
    op.dump_registers(values, tbcounter)
}

} // verus!
