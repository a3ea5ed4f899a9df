//! The fuzzing harness: how one test case becomes a call of the function
//! under test.
//!
//! A test case is a byte buffer. Its first 24 bytes are six little-endian
//! words, the six register arguments of the call. A shorter buffer is no
//! call at all.

use crate::config::Config;
use crate::machine::{EmuError, Machine, MachineView, Reg};
use vstd::prelude::*;

verus! {

/// Number of bytes of a test case that are looked at, at most.
pub const MAX_INPUT_SIZE: usize = 50;

/// Number of bytes that a test case needs to make a call.
pub const MIN_INPUT_SIZE: usize = 24;

/// The little-endian 32-bit word that `bytes` holds at position `at`.
pub open spec fn le_word(bytes: Seq<u8>, at: int) -> u32 {
    (bytes[at] + bytes[at + 1] * 0x100 + bytes[at + 2] * 0x1_0000 + bytes[at + 3] * 0x100_0000) as u32
}

/// The six arguments that a test case holds, if it is long enough.
pub open spec fn harness_arguments(input: Seq<u8>) -> Option<Seq<u32>> {
    if input.len() < MIN_INPUT_SIZE {
        None
    } else {
        Some(Seq::new(6, |i: int| le_word(input, 4 * i)))
    }
}

/// The machine set up for a call of the function under test: the six
/// arguments in `R0` to `R5` of the current CPU, its program counter at the
/// function's entry, and a breakpoint where the function returns to.
pub open spec fn harness_setup(m: MachineView, config: Config, args: Seq<u32>) -> MachineView {
    m.with_current_reg(Reg::Pc, config.fuzz_target_address).with_current_reg(
        Reg::R0,
        args[0],
    ).with_current_reg(Reg::R1, args[1]).with_current_reg(Reg::R2, args[2]).with_current_reg(
        Reg::R3,
        args[3],
    ).with_current_reg(Reg::R4, args[4]).with_current_reg(Reg::R5, args[5]).with_breakpoint(
        config.fuzz_target_return_address,
    )
}

fn read_le_word(input: &[u8], at: usize) -> (w: u32)
    requires
        at + 4 <= input@.len(),
    ensures
        w == le_word(input@, at as int),
{
    let b0: u32 = input[at] as u32;
    let b1: u32 = input[at + 1] as u32;
    let b2: u32 = input[at + 2] as u32;
    let b3: u32 = input[at + 3] as u32;
    b0 + b1 * 0x100 + b2 * 0x1_0000 + b3 * 0x100_0000
}

/// Splits a test case into the six arguments of the call.
pub fn harness_input(input: &[u8]) -> (r: Option<[u32; 6]>)
    ensures
        match harness_arguments(input@) {
            Some(args) => r matches Some(words) && words@ == args,
            None => r is None,
        },
{
    if input.len() < MIN_INPUT_SIZE {
        return None;
    }
    let words: [u32; 6] = [
        read_le_word(input, 0),
        read_le_word(input, 4),
        read_le_word(input, 8),
        read_le_word(input, 12),
        read_le_word(input, 16),
        read_le_word(input, 20),
    ];
    proof {
        assert(words@ =~= harness_arguments(input@).unwrap());
    }
    Some(words)
}

/// Prepares the machine for one test case and says whether the emulator is
/// to run.
///
/// A test case that is too short changes nothing and runs nothing. Any other
/// is set up as `harness_setup` says, and fails only where there is no
/// current CPU to write to; the machine is then as it was.
pub fn harness(emu: &mut Machine, config: &Config, input: &[u8]) -> (r: Result<bool, EmuError>)
    ensures
        match harness_arguments(input@) {
            None => r == Ok::<bool, EmuError>(false) && final(emu)@ == old(emu)@,
            Some(args) => if old(emu)@.has_current() {
                r == Ok::<bool, EmuError>(true) && final(emu)@ == harness_setup(
                    old(emu)@,
                    *config,
                    args,
                )
            } else {
                r == Err::<bool, EmuError>(old(emu)@.current_failure()) && final(emu)@ == old(
                    emu,
                )@
            },
        },
{
    let words = match harness_input(input) {
        Some(words) => words,
        None => {
            return Ok(false);
        },
    };
    match emu.current_cpu() {
        Ok(_) => {},
        Err(e) => {
            return Err(e);
        },
    }
    let _ = emu.write_reg(Reg::Pc, config.fuzz_target_address);
    let _ = emu.write_reg(Reg::R0, words[0]);
    let _ = emu.write_reg(Reg::R1, words[1]);
    let _ = emu.write_reg(Reg::R2, words[2]);
    let _ = emu.write_reg(Reg::R3, words[3]);
    let _ = emu.write_reg(Reg::R4, words[4]);
    let _ = emu.write_reg(Reg::R5, words[5]);
    emu.set_breakpoint(config.fuzz_target_return_address);
    Ok(true)
}

/// True when a run of the harness ended where the function under test
/// returns to.
pub fn harness_returned(config: &Config, pc: u32) -> (returned: bool)
    ensures
        returned == (pc == config.fuzz_target_return_address),
{
    pc == config.fuzz_target_return_address
}

} // verus!
