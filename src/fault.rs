//! Fault descriptors and the fault models: what a fault does to the value it
//! hits.
use crate::bignum::{
    and_bytes, big_and, big_bits, big_or, big_xor, bit_length, byte_at, canonical, clear_bytes,
    fit, fit_bytes, lemma_canonical_same_number, lemma_fit_same_number, low_ones, low_ones_bytes,
    or_bytes, same_number, xor_bytes,
};
use vstd::bytes::{
    spec_u128_to_le_bytes, spec_u64_from_le_bytes, spec_u64_to_le_bytes, u128_to_le_bytes,
    u64_from_le_bytes, u64_to_le_bytes,
};
use vstd::prelude::*;

verus! {

/// What a fault hits: memory that holds data, memory that holds code, or a
/// register.
#[derive(Clone, Copy, PartialEq, Eq, Structural, Debug)]
pub enum FaultType {
    Data,
    Instruction,
    Register,
}

/// How a fault changes the value it hits.
#[derive(Clone, Copy, PartialEq, Eq, Structural, Debug)]
pub enum FaultModel {
    /// Clears the bits that the mask selects.
    Set0,
    /// Sets the bits that the mask selects.
    Set1,
    /// Flips every bit of the value up to its highest set bit.
    Toggle,
    /// Replaces the value by the mask, cut to `num_bytes` bytes.
    Overwrite,
}

/// Where and when a fault fires: on the `hitcounter`-th execution of the
/// instruction at `address`.
#[derive(Clone, Copy, PartialEq, Eq, Structural, Debug)]
pub struct Trigger {
    pub address: u64,
    pub hitcounter: u32,
}

/// One fault of a campaign.
#[derive(Clone, Copy, PartialEq, Eq, Structural, Debug)]
pub struct Fault {
    pub trigger: Trigger,
    /// Target memory address, or the emulator's id of the target register.
    pub address: u64,
    pub kind: FaultType,
    pub model: FaultModel,
    pub mask: u128,
    /// Instructions after which the fault is reverted; zero keeps it.
    pub lifespan: u32,
    pub num_bytes: u32,
}

impl FaultType {
    pub open spec fn spec_from_id(id: u64) -> Option<FaultType> {
        if id == 0 {
            Some(FaultType::Data)
        } else if id == 1 {
            Some(FaultType::Instruction)
        } else if id == 2 {
            Some(FaultType::Register)
        } else {
            None
        }
    }

    /// Reads the numeric fault type of a campaign: 0 data, 1 instruction,
    /// 2 register.
    pub fn from_id(id: u64) -> (r: Option<FaultType>)
        ensures
            r == Self::spec_from_id(id),
    {
        if id == 0 {
            Some(FaultType::Data)
        } else if id == 1 {
            Some(FaultType::Instruction)
        } else if id == 2 {
            Some(FaultType::Register)
        } else {
            None
        }
    }
}

impl FaultModel {
    pub open spec fn spec_from_id(id: u64) -> Option<FaultModel> {
        if id == 0 {
            Some(FaultModel::Set0)
        } else if id == 1 {
            Some(FaultModel::Set1)
        } else if id == 2 {
            Some(FaultModel::Toggle)
        } else if id == 3 {
            Some(FaultModel::Overwrite)
        } else {
            None
        }
    }

    /// Reads the numeric fault model of a campaign: 0 set0, 1 set1,
    /// 2 toggle, 3 overwrite.
    pub fn from_id(id: u64) -> (r: Option<FaultModel>)
        ensures
            r == Self::spec_from_id(id),
    {
        if id == 0 {
            Some(FaultModel::Set0)
        } else if id == 1 {
            Some(FaultModel::Set1)
        } else if id == 2 {
            Some(FaultModel::Toggle)
        } else if id == 3 {
            Some(FaultModel::Overwrite)
        } else {
            None
        }
    }
}

/// Why a fault descriptor cannot be read.
#[derive(Clone, Copy, PartialEq, Eq, Structural, Debug)]
pub enum FaultInputError {
    UnknownType(u64),
    UnknownModel(u64),
}

impl Fault {
    /// Builds a fault from the numeric type and model ids of a campaign.
    pub fn from_ids(
        trigger: Trigger,
        address: u64,
        type_id: u64,
        model_id: u64,
        mask: u128,
        lifespan: u32,
        num_bytes: u32,
    ) -> (r: Result<Fault, FaultInputError>)
        ensures
            FaultType::spec_from_id(type_id) is None ==> r == Err::<Fault, FaultInputError>(
                FaultInputError::UnknownType(type_id),
            ),
            FaultType::spec_from_id(type_id) is Some && FaultModel::spec_from_id(model_id) is None
                ==> r == Err::<Fault, FaultInputError>(FaultInputError::UnknownModel(model_id)),
            FaultType::spec_from_id(type_id) is Some && FaultModel::spec_from_id(model_id) is Some
                ==> r == Ok::<Fault, FaultInputError>(
                Fault {
                    trigger,
                    address,
                    kind: FaultType::spec_from_id(type_id).unwrap(),
                    model: FaultModel::spec_from_id(model_id).unwrap(),
                    mask,
                    lifespan,
                    num_bytes,
                },
            ),
    {
        let kind = match FaultType::from_id(type_id) {
            Some(k) => k,
            None => return Err(FaultInputError::UnknownType(type_id)),
        };
        let model = match FaultModel::from_id(model_id) {
            Some(m) => m,
            None => return Err(FaultInputError::UnknownModel(model_id)),
        };
        Ok(Fault { trigger, address, kind, model, mask, lifespan, num_bytes })
    }
}

/// Number of bytes that hold `m`: `floor(log2(m) / 8) + 1`, and zero for zero.
pub open spec fn mask_byte_len(m: u128) -> nat
    decreases m,
{
    if m == 0 {
        0
    } else {
        1 + mask_byte_len(m / 256)
    }
}

/// Width in bytes of the memory that a fault reads and writes.
pub open spec fn spec_fault_size(fault: Fault) -> nat {
    if fault.model == FaultModel::Overwrite {
        fault.num_bytes as nat
    } else {
        mask_byte_len(fault.mask)
    }
}

proof fn lemma_mask_byte_len_steps(m: u128, n: nat)
    requires
        m as nat <= pow256(n) - 1,
    ensures
        mask_byte_len(m) <= n,
    decreases n,
{
    if m != 0 {
        if n == 0 {
        } else {
            assert(pow256(n) == 256 * pow256((n - 1) as nat));
            assert((m / 256) as nat <= pow256((n - 1) as nat) - 1);
            lemma_mask_byte_len_steps(m / 256, (n - 1) as nat);
        }
    }
}

pub open spec fn pow256(n: nat) -> nat
    decreases n,
{
    if n == 0 {
        1
    } else {
        256 * pow256((n - 1) as nat)
    }
}

/// Width in bytes of the memory that `fault` reads and writes: `num_bytes`
/// for an overwrite, else the bytes that hold the mask.
pub fn fault_size(fault: &Fault) -> (r: u32)
    ensures
        r == spec_fault_size(*fault),
{
    if fault.model == FaultModel::Overwrite {
        fault.num_bytes
    } else {
        let mut m: u128 = fault.mask;
        let mut n: u32 = 0;
        proof {
            lemma_pow256_16();
            lemma_mask_byte_len_steps(m, 16);
        }
        while m != 0
            invariant
                n + mask_byte_len(m) == mask_byte_len(fault.mask),
                mask_byte_len(fault.mask) <= 16,
            decreases m,
        {
            m = m / 256;
            n = n + 1;
        }
        n
    }
}

proof fn lemma_pow256_16()
    ensures
        pow256(16) == 0x1_0000_0000_0000_0000_0000_0000_0000_0000,
{
    reveal_with_fuel(pow256, 17);
}

/// The little-endian bytes of a mask.
pub open spec fn mask_bytes(mask: u128) -> Seq<u8> {
    spec_u128_to_le_bytes(mask)
}

/// What a fault makes of the number `v` (little-endian bytes).
pub open spec fn model_bytes(v: Seq<u8>, fault: Fault) -> Seq<u8> {
    match fault.model {
        FaultModel::Set0 => clear_bytes(v, mask_bytes(fault.mask)),
        FaultModel::Set1 => or_bytes(v, mask_bytes(fault.mask)),
        FaultModel::Toggle => xor_bytes(v, low_ones(bit_length(v))),
        FaultModel::Overwrite => fit(mask_bytes(fault.mask), fault.num_bytes as nat),
    }
}

proof fn lemma_set0_bytes(v: Seq<u8>, m: Seq<u8>, a: Seq<u8>, r: Seq<u8>)
    requires
        a == canonical(and_bytes(v, m)),
        r == canonical(xor_bytes(v, a)),
    ensures
        same_number(r, clear_bytes(v, m)),
{
    lemma_canonical_same_number(and_bytes(v, m));
    lemma_canonical_same_number(xor_bytes(v, a));
    assert forall|i: int| 0 <= i implies #[trigger] byte_at(r, i) == byte_at(clear_bytes(v, m), i) by {
        let x = byte_at(v, i);
        let y = byte_at(m, i);
        assert(byte_at(r, i) == byte_at(xor_bytes(v, a), i));
        assert(byte_at(a, i) == byte_at(and_bytes(v, m), i));
        assert(0u8 & 0u8 == 0u8) by (bit_vector);
        assert(0u8 ^ 0u8 == 0u8) by (bit_vector);
        assert(0u8 & !0u8 == 0u8) by (bit_vector);
        assert(x ^ (x & y) == x & !y) by (bit_vector);
        assert(byte_at(and_bytes(v, m), i) == x & y);
        assert(byte_at(xor_bytes(v, a), i) == x ^ byte_at(a, i));
        assert(byte_at(clear_bytes(v, m), i) == x & !y);
    }
}

/// Applies the fault model of `fault` to the number `data` (little-endian
/// bytes). The result is the number in its shortest form.
pub fn apply_model(data: &Vec<u8>, fault: &Fault) -> (r: Vec<u8>)
    ensures
        same_number(r@, model_bytes(data@, *fault)),
{
    let m = u128_to_le_bytes(fault.mask);
    match fault.model {
        FaultModel::Set0 => {
            let a = big_and(data, &m);
            let r = big_xor(data, &a);
            proof {
                lemma_set0_bytes(data@, m@, a@, r@);
            }
            r
        },
        FaultModel::Set1 => {
            let r = big_or(data, &m);
            proof {
                lemma_canonical_same_number(or_bytes(data@, m@));
            }
            r
        },
        FaultModel::Toggle => {
            let k = big_bits(data);
            let ones = low_ones_bytes(k);
            let r = big_xor(data, &ones);
            proof {
                lemma_canonical_same_number(xor_bytes(data@, ones@));
            }
            r
        },
        FaultModel::Overwrite => {
            let r = fit_bytes(&m, fault.num_bytes as usize);
            r
        },
    }
}

/// The bytes that a fault writes over the `data` it read from memory: the
/// faulted number, zero-padded (or cut) to the width of what was read.
pub fn faulted_memory(data: &Vec<u8>, fault: &Fault) -> (r: Vec<u8>)
    ensures
        r@ == fit(model_bytes(data@, *fault), data@.len()),
        r@.len() == data@.len(),
{
    let v = apply_model(data, fault);
    let r = fit_bytes(&v, data.len());
    proof {
        lemma_fit_same_number(v@, model_bytes(data@, *fault), data@.len());
    }
    r
}

/// The value a fault writes into a register that held `value`: the faulted
/// number cut to 64 bits.
pub fn faulted_register(value: u64, fault: &Fault) -> (r: u64)
    ensures
        r == spec_u64_from_le_bytes(fit(model_bytes(spec_u64_to_le_bytes(value), *fault), 8)),
{
    let data = u64_to_le_bytes(value);
    let v = apply_model(&data, fault);
    let bytes = fit_bytes(&v, 8);
    proof {
        lemma_fit_same_number(v@, model_bytes(data@, *fault), 8);
    }
    u64_from_le_bytes(bytes.as_slice())
}

} // verus!
