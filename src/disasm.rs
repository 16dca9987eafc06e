//! Disassembly of executed blocks, through the `capstone` disassembler, into
//! the listing that the block log keeps.
use crate::architecture::Architecture;
use capstone::arch::BuildsCapstone;
use capstone::Capstone;
use vstd::prelude::*;
use vstd::string::{StrSliceExecFns, StringExecFns};

verus! {

#[verifier::external_type_specification]
#[verifier::external_body]
pub struct ExCapstone(Capstone);

/// One decoded instruction: its address, mnemonic and operand text.
pub type InsnView = (u64, Option<Seq<char>>, Option<Seq<char>>);

/// What the disassembler makes of `code` placed at `address`: the decoded
/// instructions, or nothing when it reports an error.
pub uninterp spec fn disassembly(arch: Architecture, code: Seq<u8>, address: u64) -> Option<
    Seq<InsnView>,
>;

/// One instruction that the disassembler decoded.
pub struct DecodedInsn {
    pub address: u64,
    pub mnemonic: Option<String>,
    pub op_str: Option<String>,
}

pub open spec fn opt_view(s: Option<String>) -> Option<Seq<char>> {
    match s {
        Some(t) => Some(t@),
        None => None,
    }
}

pub open spec fn insn_view(i: DecodedInsn) -> InsnView {
    (i.address, opt_view(i.mnemonic), opt_view(i.op_str))
}

pub open spec fn decoded_view(r: Option<Vec<DecodedInsn>>) -> Option<Seq<InsnView>> {
    match r {
        Some(v) => Some(v@.map_values(|i: DecodedInsn| insn_view(i))),
        None => None,
    }
}

/// A disassembler set up for one architecture.
pub struct Disassembler {
    architecture: Architecture,
    engine: Capstone,
}

/// Relies on capstone's builder: a disassembler for ARM in Thumb mode, or
/// nothing when capstone cannot make one.
#[verifier::external_body]
fn thumb_engine() -> Option<Capstone> {
    Capstone::new().arm().mode(capstone::arch::arm::ArchMode::Thumb).build().ok()
}

/// Relies on capstone's builder: a disassembler for 64-bit RISC-V, or
/// nothing when capstone cannot make one.
#[verifier::external_body]
fn riscv_engine() -> Option<Capstone> {
    Capstone::new().riscv().mode(capstone::arch::riscv::ArchMode::RiscV64).build().ok()
}

/// Relies on `Capstone::disasm_all`: decodes every instruction of `code`
/// placed at `address`; the result depends on the architecture, the bytes
/// and the address alone.
#[verifier::external_body]
fn disasm_all(d: &Disassembler, code: &Vec<u8>, address: u64) -> (r: Option<Vec<DecodedInsn>>)
    ensures
        decoded_view(r) == disassembly(d.spec_architecture(), code@, address),
{
    let insns = d.engine.disasm_all(code, address).ok()?;
    Some(
        insns.iter().map(
            |i|
                DecodedInsn {
                    address: i.address(),
                    mnemonic: i.mnemonic().map(String::from),
                    op_str: i.op_str().map(String::from),
                },
        ).collect(),
    )
}

impl Disassembler {
    pub closed spec fn spec_architecture(&self) -> Architecture {
        self.architecture
    }

    /// A disassembler for `architecture` (Thumb mode on ARM), or nothing
    /// when the disassembler library cannot make one.
    pub fn new(architecture: Architecture) -> (r: Option<Disassembler>)
        ensures
            r matches Some(d) ==> d.spec_architecture() == architecture,
    {
        let engine = match architecture {
            Architecture::Arm => thumb_engine(),
            Architecture::Riscv => riscv_engine(),
        };
        match engine {
            Some(engine) => Some(Disassembler { architecture, engine }),
            None => None,
        }
    }

    pub fn architecture(&self) -> (r: Architecture)
        ensures
            r == self.spec_architecture(),
    {
        self.architecture
    }
}

pub open spec fn hex_digit(d: nat) -> char {
    seq!['0', '1', '2', '3', '4', '5', '6', '7', '8', '9', 'a', 'b', 'c', 'd', 'e', 'f'][d as int]
}

/// Lower-case hexadecimal digits of `v`, without prefix.
pub open spec fn hex_digits(v: nat) -> Seq<char>
    decreases v,
{
    if v < 16 {
        seq![hex_digit(v)]
    } else {
        hex_digits(v / 16).push(hex_digit(v % 16))
    }
}

/// Relies on std's `{:x}` formatting: lower-case hexadecimal digits.
#[verifier::external_body]
fn hex_text(v: u64) -> (r: String)
    ensures
        r@ == hex_digits(v as nat),
{
    format!("{:x}", v)
}

pub open spec fn opt_text(s: Option<Seq<char>>) -> Seq<char> {
    match s {
        Some(t) => t,
        None => Seq::empty(),
    }
}

/// The listing line of one instruction: ` [  <hex address> ]: <mnemonic> <operands> \n`.
pub open spec fn insn_line(i: InsnView) -> Seq<char> {
    " [  "@ + hex_digits(i.0 as nat) + " ]: "@ + opt_text(i.1) + " "@ + opt_text(i.2) + " \n"@
}

pub open spec fn listing_lines(insns: Seq<InsnView>) -> Seq<char>
    decreases insns.len(),
{
    if insns.len() == 0 {
        Seq::empty()
    } else {
        listing_lines(insns.drop_last()) + insn_line(insns.last())
    }
}

/// A listing: one line per instruction, then ` \n`. Nothing decoded lists
/// no instruction.
pub open spec fn listing_of(insns: Option<Seq<InsnView>>) -> Seq<char> {
    match insns {
        Some(insns) => listing_lines(insns) + " \n"@,
        None => " \n"@,
    }
}

/// The listing of the block of `code` placed at `address`.
pub open spec fn block_listing(arch: Architecture, code: Seq<u8>, address: u64) -> Seq<char> {
    listing_of(disassembly(arch, code, address))
}

fn append_opt(text: &mut String, s: &Option<String>)
    ensures
        final(text)@ == old(text)@ + opt_text(opt_view(*s)),
{
    match s {
        Some(t) => text.append(t.as_str()),
        None => {
            assert(old(text)@ + opt_text(opt_view(*s)) =~= old(text)@);
        },
    }
}

/// The listing of decoded instructions.
pub fn listing_text(decoded: &Option<Vec<DecodedInsn>>) -> (r: String)
    ensures
        r@ == listing_of(decoded_view(*decoded)),
{
    let mut text = String::new();
    match decoded {
        Some(insns) => {
            let ghost view = insns@.map_values(|i: DecodedInsn| insn_view(i));
            let mut k: usize = 0;
            while k < insns.len()
                invariant
                    k <= insns@.len(),
                    view == insns@.map_values(|i: DecodedInsn| insn_view(i)),
                    text@ == listing_lines(view.take(k as int)),
                decreases insns@.len() - k,
            {
                let insn = &insns[k];
                let ghost before = text@;
                text.append(" [  ");
                let hex = hex_text(insn.address);
                text.append(hex.as_str());
                text.append(" ]: ");
                append_opt(&mut text, &insn.mnemonic);
                text.append(" ");
                append_opt(&mut text, &insn.op_str);
                text.append(" \n");
                proof {
                    assert(view.take(k + 1).drop_last() =~= view.take(k as int));
                    assert(view.take(k + 1).last() == insn_view(insns@[k as int]));
                    assert(text@ =~= before + insn_line(view[k as int]));
                }
                k = k + 1;
            }
            text.append(" \n");
            proof {
                assert(view.take(insns@.len() as int) =~= view);
            }
        },
        None => {
            text.append(" \n");
        },
    }
    proof {
        assert(text@ =~= listing_of(decoded_view(*decoded)));
    }
    text
}

/// The listing of the block of `code` placed at `address`.
pub fn disassemble_block(d: &Disassembler, code: &Vec<u8>, address: u64) -> (r: String)
    ensures
        r@ == block_listing(d.spec_architecture(), code@, address),
{
    let decoded = disasm_all(d, code, address);
    listing_text(&decoded)
}

/// How often `c` occurs in `s`.
pub open spec fn count_char(s: Seq<char>, c: char) -> nat
    decreases s.len(),
{
    if s.len() == 0 {
        0
    } else {
        count_char(s.drop_last(), c) + if s.last() == c {
            1nat
        } else {
            0nat
        }
    }
}

/// Number of instructions in a listing: its line breaks less the closing one.
pub open spec fn spec_ins_count(text: Seq<char>) -> nat {
    let n = count_char(text, '\n');
    if n == 0 {
        0
    } else {
        (n - 1) as nat
    }
}

/// Counts the instructions of a listing.
pub fn ins_count(text: &String) -> (r: u64)
    ensures
        r == spec_ins_count(text@),
{
    let s = text.as_str();
    let len = s.unicode_len();
    let mut n: usize = 0;
    let mut i: usize = 0;
    while i < len
        invariant
            i <= len,
            len == text@.len(),
            s@ == text@,
            n == count_char(text@.take(i as int), '\n'),
            n <= i,
        decreases len - i,
    {
        let c = s.get_char(i);
        proof {
            assert(text@.take(i + 1).drop_last() =~= text@.take(i as int));
        }
        if c == '\n' {
            n = n + 1;
        }
        i = i + 1;
    }
    proof {
        assert(text@.take(len as int) =~= text@);
    }
    if n == 0 {
        0
    } else {
        (n - 1) as u64
    }
}

} // verus!
