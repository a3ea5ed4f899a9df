//! Breakpoint dispatch: which handler runs at a stop, and what it does to the
//! machine.

use crate::config::{
    first_entry, lemma_first_entry, unique_addresses, Config, FirmwareFunction, HandlerFunction,
};
use crate::machine::{Cpu, EmuError, Machine, MachineView, Memory, Reg, CSTRING_CAPACITY};
use crate::text::{
    decimal, lower_hex, prefixed_hex, push_decimal, push_lower_hex, utf8_to_str,
};
use crate::unwinder::{
    backtrace_text, lemma_walk_reads_the_chain, register_frames, same_chain, unwind_frames,
    HexagonUnwinder, SymbolView,
};
use vstd::prelude::*;
use vstd::string::{StrSliceExecFns, StringExecFns};
use vstd::utf8::{decode_utf8, valid_utf8};

verus! {

/// The exit status that reports a fatal firmware condition.
pub const FATAL_EXIT_CODE: i32 = 1337;

/// Where `HandleZeroingYetAnother` continues.
pub const ZEROING_RESUME_ADDRESS: u32 = 0xfe10_12c0;

/// What `HandleSecondClade` puts into `R3`.
pub const SECOND_CLADE_VALUE: u32 = 28;

/// The position, at or after `from`, of the first zero byte.
pub open spec fn first_nul(bytes: Seq<u8>, from: int) -> Option<int>
    decreases bytes.len() - from,
{
    if from < 0 || from >= bytes.len() {
        None
    } else if bytes[from] == 0 {
        Some(from)
    } else {
        first_nul(bytes, from + 1)
    }
}

/// What stands for a C string that cannot be shown.
pub open spec fn cstring_placeholder() -> Seq<char> {
    "Invalid utf-8 string"@
}

/// The C string that a buffer holds: the bytes before the first zero byte,
/// read as UTF-8. What follows the zero byte does not matter.
///
/// A buffer without a zero byte holds no string, and bytes that are not
/// UTF-8 are no text; either gives the placeholder instead.
pub open spec fn cstring_text(bytes: Seq<u8>) -> Seq<char> {
    match first_nul(bytes, 0) {
        None => cstring_placeholder(),
        Some(end) => if valid_utf8(bytes.take(end)) {
            decode_utf8(bytes.take(end))
        } else {
            cstring_placeholder()
        },
    }
}

/// The C string that memory holds at `ptr`, read from a buffer of
/// `CSTRING_CAPACITY` bytes.
pub open spec fn cstring_at(mem: Memory, ptr: u32) -> Seq<char> {
    cstring_text(mem.bytes_at(ptr as int, CSTRING_CAPACITY as nat))
}

/// `first_nul` finds a zero byte that no zero byte precedes, and finds
/// nothing only where no byte is zero.
pub proof fn lemma_first_nul(bytes: Seq<u8>, from: int)
    requires
        0 <= from,
    ensures
        match first_nul(bytes, from) {
            Some(end) => from <= end < bytes.len() && bytes[end] == 0 && forall|j: int|
                from <= j < end ==> #[trigger] bytes[j] != 0,
            None => forall|j: int| from <= j < bytes.len() ==> #[trigger] bytes[j] != 0,
        },
    decreases bytes.len() - from,
{
    if from < bytes.len() && bytes[from] != 0 {
        lemma_first_nul(bytes, from + 1);
    }
}

/// The C string that a buffer holds.
pub fn cstring_from_bytes(bytes: &[u8]) -> (s: String)
    ensures
        s@ == cstring_text(bytes@),
{
    let n = bytes.len();
    let mut i: usize = 0;
    while i < n
        invariant
            i <= n,
            n == bytes@.len(),
            first_nul(bytes@, 0) == first_nul(bytes@, i as int),
        decreases n - i,
    {
        if bytes[i] == 0 {
            let text = vstd::slice::slice_subrange(bytes, 0, i);
            return match utf8_to_str(text) {
                Some(text) => String::from_str(text),
                None => String::from_str("Invalid utf-8 string"),
            };
        }
        i += 1;
    }
    String::from_str("Invalid utf-8 string")
}

/// Reads the C string at `ptr`.
pub fn read_cstring_from_ptr(mem: &Memory, ptr: u32) -> (s: String)
    ensures
        s@ == cstring_at(*mem, ptr),
{
    let bytes = mem.read_bytes(ptr, CSTRING_CAPACITY);
    cstring_from_bytes(bytes.as_slice())
}

/// `head` in front of a rendering, where there is one.
pub open spec fn prefixed(head: Seq<char>, rest: Result<Seq<char>, EmuError>) -> Result<
    Seq<char>,
    EmuError,
> {
    match rest {
        Ok(tail) => Ok(head + tail),
        Err(e) => Err(e),
    }
}

/// True for the conversions that consume an argument: `d`, `s` and `x`.
pub open spec fn takes_argument(kind: char) -> bool {
    kind == 'd' || kind == 's' || kind == 'x'
}

/// What a conversion shows for the argument `value`: the number in decimal
/// for `d`, in lower-case hexadecimal for `x`, and for `s` the C string that
/// it points to.
pub open spec fn argument_text(kind: char, value: u32, mem: Memory) -> Seq<char> {
    if kind == 'd' {
        decimal(value as nat)
    } else if kind == 'x' {
        lower_hex(value as nat)
    } else {
        cstring_at(mem, value)
    }
}

/// What a format string shows from character `pos` on, where `slot` is the
/// next argument slot.
///
/// Each `%d`, `%s` and `%x` is replaced by the next argument of the call in
/// progress; `%%` by one percent sign, taking no argument. Everything else,
/// a `%` before any other character included, stands as it is. Rendering
/// fails where a conversion asks for an argument that the calling convention
/// does not pass in a register.
pub open spec fn render(format: Seq<char>, pos: int, slot: u8, cpu: Cpu, mem: Memory) -> Result<
    Seq<char>,
    EmuError,
>
    decreases format.len() - pos,
{
    if pos < 0 || pos >= format.len() {
        Ok(Seq::empty())
    } else if format[pos] == '%' && pos + 1 < format.len() && takes_argument(format[pos + 1]) {
        match cpu.function_argument(slot) {
            Ok(value) => prefixed(
                argument_text(format[pos + 1], value, mem),
                render(format, pos + 2, (slot + 1) as u8, cpu, mem),
            ),
            Err(e) => Err(e),
        }
    } else if format[pos] == '%' && pos + 1 < format.len() && format[pos + 1] == '%' {
        prefixed(seq!['%'], render(format, pos + 2, slot, cpu, mem))
    } else {
        prefixed(seq![format[pos]], render(format, pos + 1, slot, cpu, mem))
    }
}

/// What a `printf`-like call shows: its format string with the arguments
/// filled in. The format string is argument slot 0, so the values start at
/// slot 1.
pub open spec fn printf_text(format: Seq<char>, cpu: Cpu, mem: Memory) -> Result<
    Seq<char>,
    EmuError,
> {
    render(format, 0, 1, cpu, mem)
}

proof fn lemma_prefixed_twice(a: Seq<char>, b: Seq<char>, rest: Result<Seq<char>, EmuError>)
    ensures
        prefixed(a, prefixed(b, rest)) == prefixed(a + b, rest),
{
    match rest {
        Ok(tail) => {
            assert(a + (b + tail) =~= (a + b) + tail);
        },
        Err(_) => {},
    }
}

proof fn lemma_prefixed_empty(rest: Result<Seq<char>, EmuError>)
    ensures
        prefixed(Seq::empty(), rest) == rest,
{
    match rest {
        Ok(tail) => {
            assert(Seq::<char>::empty() + tail =~= tail);
        },
        Err(_) => {},
    }
}

/// Fills the arguments of the call in progress on `cpu` into `format`.
pub fn format_printf(format: &str, cpu: &Cpu, mem: &Memory) -> (r: Result<String, EmuError>)
    ensures
        match printf_text(format@, *cpu, *mem) {
            Ok(text) => r matches Ok(s) && s@ == text,
            Err(e) => r matches Err(got) && got == e,
        },
{
    let n = format.unicode_len();
    let mut out = String::new();
    let mut pos: usize = 0;
    let mut slot: u8 = 1;
    proof {
        lemma_prefixed_empty(render(format@, 0, 1, *cpu, *mem));
    }
    while pos < n
        invariant
            pos <= n,
            n == format@.len(),
            1 <= slot <= 6,
            printf_text(format@, *cpu, *mem) == prefixed(
                out@,
                render(format@, pos as int, slot, *cpu, *mem),
            ),
        decreases n - pos,
    {
        let ghost before = out@;
        let c = format.get_char(pos);
        let mut kind = ' ';
        if c == '%' && n - pos > 1 {
            kind = format.get_char(pos + 1);
        }
        if c == '%' && (kind == 'd' || kind == 's' || kind == 'x') {
            let value = match cpu.read_function_argument(slot) {
                Ok(value) => value,
                Err(e) => {
                    return Err(e);
                },
            };
            if kind == 'd' {
                push_decimal(&mut out, value as u64);
            } else if kind == 'x' {
                push_lower_hex(&mut out, value as u64);
            } else {
                let text = read_cstring_from_ptr(mem, value);
                out.append(text.as_str());
            }
            proof {
                lemma_prefixed_twice(
                    before,
                    argument_text(kind, value, *mem),
                    render(format@, pos + 2, (slot + 1) as u8, *cpu, *mem),
                );
            }
            slot = slot + 1;
            pos = pos + 2;
        } else if c == '%' && kind == '%' {
            out.push('%');
            proof {
                assert(out@ =~= before + seq!['%']);
                lemma_prefixed_twice(
                    before,
                    seq!['%'],
                    render(format@, pos + 2, slot, *cpu, *mem),
                );
            }
            pos = pos + 2;
        } else {
            out.push(c);
            proof {
                assert(out@ =~= before + seq![c]);
                lemma_prefixed_twice(before, seq![c], render(format@, pos + 1, slot, *cpu, *mem));
            }
            pos = pos + 1;
        }
    }
    proof {
        assert(out@ + Seq::<char>::empty() =~= out@);
    }
    Ok(out)
}

/// The program counter after one four-byte instruction. The counter is a
/// 32-bit register: past the last word it starts again at zero.
pub open spec fn next_pc(pc: u32) -> u32 {
    if pc + 4 > u32::MAX {
        (pc + 4 - 0x1_0000_0000) as u32
    } else {
        (pc + 4) as u32
    }
}

/// The symbols of an unwinder that knows none.
pub open spec fn no_symbols() -> Seq<SymbolView> {
    Seq::empty()
}

/// The backtrace report of the current CPU, with the default frame limit and
/// without symbols.
pub open spec fn fatal_report(m: MachineView) -> Seq<char> {
    backtrace_text(
        unwind_frames(
            m.current_cpu(),
            m.memory,
            no_symbols(),
            crate::unwinder::DEFAULT_MAX_FRAMES as nat,
        ),
    )
}

impl HandlerFunction {
    /// The machine after this handler ran on it.
    ///
    /// Every handler acts on the current CPU and fails where there is none,
    /// or none whose registers could be read.
    /// Apart from that only `HandlePrintln` can fail, where its format asks
    /// for more arguments than registers carry.
    pub open spec fn effect(self, m: MachineView) -> Result<MachineView, EmuError> {
        if !m.has_current() {
            Err(m.current_failure())
        } else {
            let cpu = m.current_cpu();
            match self {
                HandlerFunction::HandlerEmpty => Ok(m),
                HandlerFunction::HandleNextPc => Ok(
                    m.with_current_reg(Reg::Pc, next_pc(cpu.reg(Reg::Pc))),
                ),
                HandlerFunction::HandleJumpOver => Ok(
                    m.with_current_reg(Reg::Pc, cpu.return_address()),
                ),
                HandlerFunction::HandleSecondClade => Ok(
                    m.with_current_reg(Reg::R3, SECOND_CLADE_VALUE),
                ),
                HandlerFunction::HandleZeroingYetAnother => Ok(
                    m.with_current_reg(Reg::Pc, ZEROING_RESUME_ADDRESS),
                ),
                HandlerFunction::HandlePrintln => match printf_text(
                    cstring_at(m.memory, cpu.reg(Reg::R0)),
                    cpu,
                    m.memory,
                ) {
                    Ok(line) => Ok(
                        m.with_line(line).with_current_reg(Reg::Pc, cpu.return_address()),
                    ),
                    Err(e) => Err(e),
                },
                HandlerFunction::HandleFatalError => Ok(
                    MachineView {
                        exit_code: Some(FATAL_EXIT_CODE),
                        ..m.with_line(fatal_report(m))
                    },
                ),
            }
        }
    }

    /// Runs this handler on the machine. On failure the machine is as it was.
    pub fn call(&self, emu: &mut Machine) -> (r: Result<(), EmuError>)
        ensures
            match self.effect(old(emu)@) {
                Ok(after) => r is Ok && final(emu)@ == after,
                Err(e) => r matches Err(got) && got == e && final(emu)@ == old(emu)@,
            },
    {
        match self {
            HandlerFunction::HandlePrintln => handle_println(emu),
            HandlerFunction::HandleNextPc => handle_next_pc(emu),
            HandlerFunction::HandleJumpOver => handle_jump_over(emu),
            HandlerFunction::HandleSecondClade => handle_second_clade(emu),
            HandlerFunction::HandleFatalError => handle_fatal_error(emu),
            HandlerFunction::HandleZeroingYetAnother => handle_zeroing_yet_another(emu),
            HandlerFunction::HandlerEmpty => handler_empty(emu),
        }
    }
}

fn handler_empty(emu: &mut Machine) -> (r: Result<(), EmuError>)
    ensures
        match HandlerFunction::HandlerEmpty.effect(old(emu)@) {
            Ok(after) => r is Ok && final(emu)@ == after,
            Err(e) => r matches Err(got) && got == e && final(emu)@ == old(emu)@,
        },
{
    match emu.current_cpu() {
        Ok(_) => Ok(()),
        Err(e) => Err(e),
    }
}

fn handle_println(emu: &mut Machine) -> (r: Result<(), EmuError>)
    ensures
        match HandlerFunction::HandlePrintln.effect(old(emu)@) {
            Ok(after) => r is Ok && final(emu)@ == after,
            Err(e) => r matches Err(got) && got == e && final(emu)@ == old(emu)@,
        },
{
    let cpu = match emu.current_cpu() {
        Ok(cpu) => cpu,
        Err(e) => {
            return Err(e);
        },
    };
    let format_ptr = cpu.read_reg(Reg::R0);
    let format_string = read_cstring_from_ptr(&emu.memory, format_ptr);
    let formatted_output = match format_printf(format_string.as_str(), &cpu, &emu.memory) {
        Ok(text) => text,
        Err(e) => {
            return Err(e);
        },
    };
    let return_address = cpu.read_return_address();
    emu.emit(formatted_output);
    emu.write_reg(Reg::Pc, return_address)
}

fn handle_jump_over(emu: &mut Machine) -> (r: Result<(), EmuError>)
    ensures
        match HandlerFunction::HandleJumpOver.effect(old(emu)@) {
            Ok(after) => r is Ok && final(emu)@ == after,
            Err(e) => r matches Err(got) && got == e && final(emu)@ == old(emu)@,
        },
{
    let cpu = match emu.current_cpu() {
        Ok(cpu) => cpu,
        Err(e) => {
            return Err(e);
        },
    };
    let return_address = cpu.read_return_address();
    emu.write_reg(Reg::Pc, return_address)
}

fn handle_second_clade(emu: &mut Machine) -> (r: Result<(), EmuError>)
    ensures
        match HandlerFunction::HandleSecondClade.effect(old(emu)@) {
            Ok(after) => r is Ok && final(emu)@ == after,
            Err(e) => r matches Err(got) && got == e && final(emu)@ == old(emu)@,
        },
{
    emu.write_reg(Reg::R3, SECOND_CLADE_VALUE)
}

fn handle_next_pc(emu: &mut Machine) -> (r: Result<(), EmuError>)
    ensures
        match HandlerFunction::HandleNextPc.effect(old(emu)@) {
            Ok(after) => r is Ok && final(emu)@ == after,
            Err(e) => r matches Err(got) && got == e && final(emu)@ == old(emu)@,
        },
{
    let cpu = match emu.current_cpu() {
        Ok(cpu) => cpu,
        Err(e) => {
            return Err(e);
        },
    };
    let current_pc = cpu.read_reg(Reg::Pc);
    let next: u32 = if current_pc > u32::MAX - 4 {
        current_pc - (u32::MAX - 3)
    } else {
        current_pc + 4
    };
    emu.write_reg(Reg::Pc, next)
}

fn handle_fatal_error(emu: &mut Machine) -> (r: Result<(), EmuError>)
    ensures
        match HandlerFunction::HandleFatalError.effect(old(emu)@) {
            Ok(after) => r is Ok && final(emu)@ == after,
            Err(e) => r matches Err(got) && got == e && final(emu)@ == old(emu)@,
        },
{
    match backtrace(emu) {
        Ok(()) => {
            emu.exit_code = Some(FATAL_EXIT_CODE);
            Ok(())
        },
        Err(e) => Err(e),
    }
}

fn handle_zeroing_yet_another(emu: &mut Machine) -> (r: Result<(), EmuError>)
    ensures
        match HandlerFunction::HandleZeroingYetAnother.effect(old(emu)@) {
            Ok(after) => r is Ok && final(emu)@ == after,
            Err(e) => r matches Err(got) && got == e && final(emu)@ == old(emu)@,
        },
{
    emu.write_reg(Reg::Pc, ZEROING_RESUME_ADDRESS)
}

/// Emits the backtrace of the current CPU for the operator.
pub fn backtrace(emu: &mut Machine) -> (r: Result<(), EmuError>)
    ensures
        old(emu)@.has_current() ==> r is Ok && final(emu)@ == old(emu)@.with_line(
            fatal_report(old(emu)@),
        ),
        !old(emu)@.has_current() ==> (r matches Err(e) && e == old(emu)@.current_failure())
            && final(emu)@ == old(emu)@,
{
    let unwinder = HexagonUnwinder::new();
    match unwinder.generate_backtrace(emu) {
        Ok(report) => {
            emu.emit(report);
            Ok(())
        },
        Err(_) => Err(emu.current_failure()),
    }
}

/// Makes the machine trap at the first `count` of the configured addresses.
pub open spec fn with_breakpoints(m: MachineView, entries: Seq<FirmwareFunction>, count: nat)
    -> MachineView
    decreases count,
{
    if count == 0 {
        m
    } else {
        with_breakpoints(m, entries, (count - 1) as nat).with_breakpoint(
            entries[count - 1].address,
        )
    }
}

/// Sets a breakpoint at every configured address, in configuration order.
pub fn set_breakpoints(emu: &mut Machine, config: &Config)
    ensures
        final(emu)@ == with_breakpoints(
            old(emu)@,
            config.breakpoints@,
            config.breakpoints@.len(),
        ),
{
    let mut i: usize = 0;
    while i < config.breakpoints.len()
        invariant
            i <= config.breakpoints@.len(),
            emu@ == with_breakpoints(old(emu)@, config.breakpoints@, i as nat),
        decreases config.breakpoints@.len() - i,
    {
        emu.set_breakpoint(config.breakpoints[i].address);
        i += 1;
    }
}

/// After `set_breakpoints` the machine traps at every configured address and
/// wherever it trapped before, and nowhere else; nothing but the breakpoint
/// set has changed.
pub proof fn lemma_with_breakpoints(
    m: MachineView,
    entries: Seq<FirmwareFunction>,
    count: nat,
    addr: u32,
)
    requires
        count <= entries.len(),
    ensures
        with_breakpoints(m, entries, count) == (MachineView {
            breakpoints: with_breakpoints(m, entries, count).breakpoints,
            ..m
        }),
        with_breakpoints(m, entries, count).breakpoints.contains(addr) <==> (
        m.breakpoints.contains(addr) || exists|i: int|
            0 <= i < count && (#[trigger] entries[i]).address == addr),
    decreases count,
{
    if count > 0 {
        let before = with_breakpoints(m, entries, (count - 1) as nat);
        let last = entries[count - 1].address;
        lemma_with_breakpoints(m, entries, (count - 1) as nat, addr);
        let after = before.with_breakpoint(last);
        if !before.breakpoints.contains(last) {
            let pushed = before.breakpoints.push(last);
            assert(pushed[pushed.len() - 1] == last);
            if before.breakpoints.contains(addr) {
                let k = choose|k: int|
                    0 <= k < before.breakpoints.len() && before.breakpoints[k] == addr;
                assert(pushed[k] == addr);
            }
            if pushed.contains(addr) {
                let k = choose|k: int| 0 <= k < pushed.len() && pushed[k] == addr;
                if k < before.breakpoints.len() {
                    assert(before.breakpoints[k] == addr);
                }
            }
        }
        if after.breakpoints.contains(addr) {
            if addr == last {
                assert(entries[count - 1].address == addr);
            }
        }
    }
}

/// What a scan of the CPUs finds.
pub enum Scan {
    /// CPU `cpu` stands at the address of entry `entry`.
    Hit { cpu: int, entry: int },
    /// The program counter of CPU `cpu` could not be read.
    Unreadable { cpu: int },
    /// Every CPU could be read and none stands at a configured address.
    Nothing,
}

/// What a scan of the CPUs from index `from` on finds first: a CPU whose
/// program counter is a configured address, together with the first entry at
/// that address, or a CPU whose program counter could not be read.
pub open spec fn scan(m: MachineView, entries: Seq<FirmwareFunction>, from: int) -> Scan
    decreases m.cpus.len() - from,
{
    if from < 0 || from >= m.cpus.len() {
        Scan::Nothing
    } else if m.is_unreadable(from) {
        Scan::Unreadable { cpu: from }
    } else {
        match first_entry(entries, 0, m.cpus[from].reg(Reg::Pc)) {
            Some(j) => Scan::Hit { cpu: from, entry: j },
            None => scan(m, entries, from + 1),
        }
    }
}

/// What an unexpected stop is called: a fixed phrase and the program counter
/// of each of the first `count` CPUs, each followed by a blank.
pub open spec fn unexpected_stop(cpus: Seq<Cpu>, count: nat) -> Seq<char>
    decreases count,
{
    if count == 0 {
        "unexpected break at: "@
    } else {
        unexpected_stop(cpus, (count - 1) as nat) + prefixed_hex(
            cpus[count - 1].reg(Reg::Pc) as nat,
        ) + " "@
    }
}

/// What a scan found, for the code that acts on it.
enum Found {
    Entry(usize),
    Unreadable(usize),
    Unexpected(String),
}

/// Scans the CPUs of a machine at a stop.
fn scan_stop(emu: &Machine, config: &Config) -> (r: Found)
    ensures
        match scan(emu@, config.breakpoints@, 0) {
            Scan::Hit { cpu, entry } => r matches Found::Entry(j) && j == entry && j
                < config.breakpoints@.len(),
            Scan::Unreadable { cpu } => r matches Found::Unreadable(i) && i == cpu,
            Scan::Nothing => r matches Found::Unexpected(text) && text@ == unexpected_stop(
                emu@.cpus,
                emu@.cpus.len(),
            ),
        },
{
    let mut broken_pcs = String::from_str("unexpected break at: ");
    let n = emu.num_cpus();
    let mut i: usize = 0;
    while i < n
        invariant
            i <= n,
            n == emu@.cpus.len(),
            scan(emu@, config.breakpoints@, 0) == scan(emu@, config.breakpoints@, i as int),
            broken_pcs@ == unexpected_stop(emu@.cpus, i as nat),
        decreases n - i,
    {
        if !emu.is_readable(i) {
            return Found::Unreadable(i);
        }
        let pc = emu.cpus[i].read_reg(Reg::Pc);
        match config.position(pc) {
            Some(j) => {
                proof {
                    assert(scan(emu@, config.breakpoints@, i as int) == (Scan::Hit {
                        cpu: i as int,
                        entry: j as int,
                    }));
                }
                return Found::Entry(j);
            },
            None => {},
        }
        broken_pcs.append("0x");
        push_lower_hex(&mut broken_pcs, pc as u64);
        broken_pcs.append(" ");
        proof {
            assert(broken_pcs@ =~= unexpected_stop(emu@.cpus, i as nat) + prefixed_hex(
                pc as nat,
            ) + " "@);
        }
        i += 1;
    }
    Found::Unexpected(broken_pcs)
}

/// What handling a stop amounts to: the name to report and the machine
/// afterwards, or the failure of the scan or of the handler that ran.
///
/// The CPUs are scanned in index order. For the first whose program counter
/// is a configured address, the handler of the first entry at that address
/// runs on the current CPU, and the entry's name is reported; the CPUs after
/// it are not looked at. A CPU whose program counter could not be read ends
/// the scan with a failure, and no handler runs. Where no program counter is
/// configured the stop is unexpected but no failure: its description is
/// reported and the machine is as it was.
pub open spec fn dispatch(m: MachineView, entries: Seq<FirmwareFunction>) -> Result<
    (Seq<char>, MachineView),
    EmuError,
> {
    match scan(m, entries, 0) {
        Scan::Hit { cpu, entry } => match entries[entry].handler.effect(m) {
            Ok(after) => Ok((entries[entry].name@, after)),
            Err(e) => Err(e),
        },
        Scan::Unreadable { cpu } => Err(EmuError::UnreadableCpu(cpu as usize)),
        Scan::Nothing => Ok((unexpected_stop(m.cpus, m.cpus.len()), m)),
    }
}

/// What a handler reads from memory when it runs.
#[derive(Clone, Copy, Debug, PartialEq, Eq, Structural)]
pub enum MemoryNeed {
    /// Nothing: the handler works on registers alone.
    Nothing,
    /// The C strings that the argument registers of the current CPU may
    /// point to.
    ArgumentStrings,
    /// The frame records along the frame-pointer chain of the current CPU.
    FrameChain,
}

impl HandlerFunction {
    /// What this handler reads from memory.
    pub open spec fn reads(self) -> MemoryNeed {
        match self {
            HandlerFunction::HandlePrintln => MemoryNeed::ArgumentStrings,
            HandlerFunction::HandleFatalError => MemoryNeed::FrameChain,
            _ => MemoryNeed::Nothing,
        }
    }

    /// What this handler reads from memory, for whoever captures memory
    /// before the handler runs.
    pub fn memory_need(&self) -> (need: MemoryNeed)
        ensures
            need == self.reads(),
    {
        match self {
            HandlerFunction::HandlePrintln => MemoryNeed::ArgumentStrings,
            HandlerFunction::HandleFatalError => MemoryNeed::FrameChain,
            _ => MemoryNeed::Nothing,
        }
    }
}

/// Where the C strings stand that a call in progress on `cpu` may pass: one
/// address for each argument register.
pub open spec fn argument_pointers(cpu: Cpu) -> Seq<u32> {
    seq![
        cpu.reg(Reg::R0),
        cpu.reg(Reg::R1),
        cpu.reg(Reg::R2),
        cpu.reg(Reg::R3),
        cpu.reg(Reg::R4),
        cpu.reg(Reg::R5),
    ]
}

/// Where the C strings stand that a call in progress on `cpu` may pass. A
/// string is read from `CSTRING_CAPACITY` bytes at its address.
pub fn argument_windows(cpu: &Cpu) -> (windows: Vec<u32>)
    ensures
        windows@ == argument_pointers(*cpu),
{
    let mut windows: Vec<u32> = Vec::new();
    windows.push(cpu.read_reg(Reg::R0));
    windows.push(cpu.read_reg(Reg::R1));
    windows.push(cpu.read_reg(Reg::R2));
    windows.push(cpu.read_reg(Reg::R3));
    windows.push(cpu.read_reg(Reg::R4));
    windows.push(cpu.read_reg(Reg::R5));
    proof {
        assert(windows@ =~= argument_pointers(*cpu));
    }
    windows
}

/// True when `mem` holds what `handler` reads from the memory of `m`: the
/// same bytes in each window that an argument register points to, or the
/// same frame records along the frame-pointer chain.
pub open spec fn same_to_handler(handler: HandlerFunction, m: MachineView, mem: Memory) -> bool {
    match handler.reads() {
        MemoryNeed::Nothing => true,
        MemoryNeed::ArgumentStrings => forall|k: int|
            0 <= k < 6 ==> m.memory.bytes_at(
                #[trigger] argument_pointers(m.current_cpu())[k] as int,
                CSTRING_CAPACITY as nat,
            ) == mem.bytes_at(
                argument_pointers(m.current_cpu())[k] as int,
                CSTRING_CAPACITY as nat,
            ),
        MemoryNeed::FrameChain => same_chain(m.memory, mem, m.current_cpu().reg(Reg::R30)),
    }
}

/// `m` with `mem` as its memory.
pub open spec fn with_memory(m: MachineView, mem: Memory) -> MachineView {
    MachineView { memory: mem, ..m }
}

proof fn lemma_render_reads_the_windows(
    format: Seq<char>,
    pos: int,
    slot: u8,
    cpu: Cpu,
    mem: Memory,
    other: Memory,
)
    requires
        forall|k: int|
            0 <= k < 6 ==> mem.bytes_at(
                #[trigger] argument_pointers(cpu)[k] as int,
                CSTRING_CAPACITY as nat,
            ) == other.bytes_at(argument_pointers(cpu)[k] as int, CSTRING_CAPACITY as nat),
    ensures
        render(format, pos, slot, cpu, mem) == render(format, pos, slot, cpu, other),
    decreases format.len() - pos,
{
    if 0 <= pos < format.len() {
        if format[pos] == '%' && pos + 1 < format.len() && takes_argument(format[pos + 1]) {
            if slot < 6 {
                let value = cpu.function_argument(slot).unwrap();
                assert(value == argument_pointers(cpu)[slot as int]);
                lemma_render_reads_the_windows(
                    format,
                    pos + 2,
                    (slot + 1) as u8,
                    cpu,
                    mem,
                    other,
                );
            }
        } else if format[pos] == '%' && pos + 1 < format.len() && format[pos + 1] == '%' {
            lemma_render_reads_the_windows(format, pos + 2, slot, cpu, mem, other);
        } else {
            lemma_render_reads_the_windows(format, pos + 1, slot, cpu, mem, other);
        }
    }
}

/// A handler reads from memory what `HandlerFunction::reads` says and
/// nothing else: run on a machine with another memory that holds the same
/// there, it does the same to the machine.
pub proof fn lemma_handler_reads_what_it_needs(
    handler: HandlerFunction,
    m: MachineView,
    mem: Memory,
)
    requires
        m.has_current() ==> same_to_handler(handler, m, mem),
    ensures
        handler.effect(with_memory(m, mem)) == (match handler.effect(m) {
            Ok(after) => Ok::<MachineView, EmuError>(with_memory(after, mem)),
            Err(e) => Err::<MachineView, EmuError>(e),
        }),
{
    if m.has_current() {
        let cpu = m.current_cpu();
        match handler {
            HandlerFunction::HandlePrintln => {
                assert(cpu.reg(Reg::R0) == argument_pointers(cpu)[0]);
                assert(cstring_at(m.memory, cpu.reg(Reg::R0)) == cstring_at(
                    mem,
                    cpu.reg(Reg::R0),
                ));
                lemma_render_reads_the_windows(
                    cstring_at(mem, cpu.reg(Reg::R0)),
                    0,
                    1,
                    cpu,
                    m.memory,
                    mem,
                );
            },
            HandlerFunction::HandleFatalError => {
                let head = register_frames(cpu, no_symbols());
                lemma_walk_reads_the_chain(
                    m.memory,
                    mem,
                    no_symbols(),
                    cpu.reg(Reg::R30),
                    head.last().pc,
                    crate::unwinder::chain_room(
                        cpu,
                        no_symbols(),
                        crate::unwinder::DEFAULT_MAX_FRAMES as nat,
                    ),
                );
            },
            _ => {},
        }
    }
}

/// The handler that handling the stop will run, where the scan finds a
/// configured address.
pub open spec fn pending(m: MachineView, entries: Seq<FirmwareFunction>) -> Option<
    HandlerFunction,
> {
    match scan(m, entries, 0) {
        Scan::Hit { cpu, entry } => Some(entries[entry].handler),
        _ => None,
    }
}

/// The handler that `handle_breakpoint` will run on this machine, if any.
pub fn pending_handler(emu: &Machine, config: &Config) -> (handler: Option<HandlerFunction>)
    ensures
        handler == pending(emu@, config.breakpoints@),
{
    match scan_stop(emu, config) {
        Found::Entry(j) => Some(config.breakpoints[j].handler),
        _ => None,
    }
}

/// True when a scan that reaches CPU `index` ends there: its program counter
/// could not be read, or it stands at a configured address. The CPUs after
/// it are then not looked at.
pub fn scan_ends_at(emu: &Machine, config: &Config, index: usize) -> (ends: bool)
    ensures
        ends == (index < emu@.cpus.len() && (emu@.is_unreadable(index as int) || first_entry(
            config.breakpoints@,
            0,
            emu@.cpus[index as int].reg(Reg::Pc),
        ) is Some)),
{
    if index >= emu.num_cpus() {
        false
    } else if !emu.is_readable(index) {
        true
    } else {
        config.position(emu.cpus[index].read_reg(Reg::Pc)).is_some()
    }
}

/// True when two machines show the same of CPU `index` to a scan: both could
/// read it or both could not, and its program counter is the same.
pub open spec fn same_to_scan(m: MachineView, other: MachineView, index: int) -> bool {
    m.is_unreadable(index) == other.is_unreadable(index) && m.cpus[index].reg(Reg::Pc)
        == other.cpus[index].reg(Reg::Pc)
}

/// A scan does not depend on the CPUs after the one at which it ends: two
/// machines that agree on the program counters and on what could be read up
/// to and including CPU `last`, where the scan of the first ends at or
/// before `last`, give the same scan.
pub proof fn lemma_scan_ignores_later_cpus(
    m: MachineView,
    other: MachineView,
    entries: Seq<FirmwareFunction>,
    from: int,
    last: int,
)
    requires
        0 <= from <= last < m.cpus.len(),
        last < other.cpus.len(),
        forall|c: int| from <= c <= last ==> #[trigger] same_to_scan(m, other, c),
        m.is_unreadable(last) || first_entry(entries, 0, m.cpus[last].reg(Reg::Pc)) is Some,
    ensures
        scan(m, entries, from) == scan(other, entries, from),
        !(scan(m, entries, from) is Nothing),
    decreases last - from,
{
    assert(same_to_scan(m, other, from));
    if from < last {
        lemma_scan_ignores_later_cpus(m, other, entries, from + 1, last);
    }
}

/// Handles one stop of the emulator: finds the breakpoint that was hit, runs
/// its handler, and reports its name. On failure the machine is as it was.
pub fn handle_breakpoint(emu: &mut Machine, config: &Config) -> (r: Result<String, EmuError>)
    ensures
        match dispatch(old(emu)@, config.breakpoints@) {
            Ok((name, after)) => (r matches Ok(reported) && reported@ == name) && final(emu)@
                == after,
            Err(e) => (r matches Err(got) && got == e) && final(emu)@ == old(emu)@,
        },
{
    match scan_stop(emu, config) {
        Found::Entry(j) => {
            let bp = &config.breakpoints[j];
            match bp.handler.call(emu) {
                Ok(()) => Ok(bp.name.clone()),
                Err(e) => Err(e),
            }
        },
        Found::Unreadable(i) => Err(EmuError::UnreadableCpu(i)),
        Found::Unexpected(text) => Ok(text),
    }
}

/// Where no two entries share an address and the first CPU can be read and
/// stands at the address of an entry, handling the stop runs the handler of
/// that entry and of no other, and reports that entry's name. Where the
/// handler fails, so does the handling of the stop.
pub proof fn lemma_dispatch_finds_the_entry(
    m: MachineView,
    entries: Seq<FirmwareFunction>,
    k: int,
)
    requires
        unique_addresses(entries),
        0 <= k < entries.len(),
        m.cpus.len() >= 1,
        !m.is_unreadable(0),
        m.cpus[0].reg(Reg::Pc) == entries[k].address,
    ensures
        dispatch(m, entries) == (match entries[k].handler.effect(m) {
            Ok(after) => Ok::<(Seq<char>, MachineView), EmuError>((entries[k].name@, after)),
            Err(e) => Err::<(Seq<char>, MachineView), EmuError>(e),
        }),
{
    lemma_first_entry(entries, 0, entries[k].address);
    assert(first_entry(entries, 0, m.cpus[0].reg(Reg::Pc)) == Some(k));
    assert(scan(m, entries, 0) == (Scan::Hit { cpu: 0int, entry: k }));
}

/// Where every CPU can be read and none stands at a configured address,
/// handling the stop runs no handler: it reports the unexpected stop and
/// leaves the machine as it was.
pub proof fn lemma_dispatch_of_unknown_stop(m: MachineView, entries: Seq<FirmwareFunction>)
    requires
        forall|i: int| 0 <= i < m.cpus.len() ==> !m.is_unreadable(i),
        forall|i: int, j: int|
            0 <= i < m.cpus.len() && 0 <= j < entries.len() ==> (#[trigger] m.cpus[i]).reg(
                Reg::Pc,
            ) != (#[trigger] entries[j]).address,
    ensures
        dispatch(m, entries) == Ok::<(Seq<char>, MachineView), EmuError>(
            (unexpected_stop(m.cpus, m.cpus.len()), m),
        ),
{
    lemma_scan_passes(m, entries, 0, m.cpus.len() as int);
}

/// A program counter that cannot be read fails the stop: where CPU `i`
/// cannot be read, and every CPU before it can and stands at no configured
/// address, handling the stop fails with that CPU, and no handler runs.
pub proof fn lemma_dispatch_of_unreadable_cpu(
    m: MachineView,
    entries: Seq<FirmwareFunction>,
    i: int,
)
    requires
        0 <= i < m.cpus.len(),
        m.is_unreadable(i),
        forall|c: int| 0 <= c < i ==> !m.is_unreadable(c),
        forall|c: int, j: int|
            0 <= c < i && 0 <= j < entries.len() ==> (#[trigger] m.cpus[c]).reg(Reg::Pc) != (
            #[trigger] entries[j]).address,
    ensures
        dispatch(m, entries) == Err::<(Seq<char>, MachineView), EmuError>(
            EmuError::UnreadableCpu(i as usize),
        ),
{
    lemma_scan_passes(m, entries, 0, i);
}

/// A scan passes over CPUs that can be read and stand at no configured
/// address.
proof fn lemma_scan_passes(m: MachineView, entries: Seq<FirmwareFunction>, from: int, to: int)
    requires
        0 <= from <= to <= m.cpus.len(),
        forall|c: int| from <= c < to ==> !m.is_unreadable(c),
        forall|c: int, j: int|
            from <= c < to && 0 <= j < entries.len() ==> (#[trigger] m.cpus[c]).reg(Reg::Pc) != (
            #[trigger] entries[j]).address,
    ensures
        scan(m, entries, from) == scan(m, entries, to),
    decreases to - from,
{
    if from < to {
        lemma_first_entry(entries, 0, m.cpus[from].reg(Reg::Pc));
        lemma_scan_passes(m, entries, from + 1, to);
    }
}

/// `HandleJumpOver` and `HandleNextPc` change the program counter of the
/// current CPU and nothing else: every other register of every CPU, memory,
/// the breakpoints, the console and the exit status are as they were.
pub proof fn lemma_redirect_changes_only_pc(handler: HandlerFunction, m: MachineView)
    requires
        handler == HandlerFunction::HandleJumpOver || handler == HandlerFunction::HandleNextPc,
    ensures
        handler.effect(m) matches Ok(after) ==> {
            &&& after == MachineView { cpus: after.cpus, ..m }
            &&& after.cpus.len() == m.cpus.len()
            &&& forall|i: int, r: Reg|
                0 <= i < m.cpus.len() && (i != m.current->0 || r != Reg::Pc)
                    ==> #[trigger] after.cpus[i].reg(r) == m.cpus[i].reg(r)
        },
        HandlerFunction::HandleJumpOver.effect(m) matches Ok(after) ==> after.current_cpu().reg(
            Reg::Pc,
        ) == m.current_cpu().return_address(),
        HandlerFunction::HandleNextPc.effect(m) matches Ok(after) ==> after.current_cpu().reg(
            Reg::Pc,
        ) == next_pc(m.current_cpu().reg(Reg::Pc)),
{
}

/// `HandleSecondClade` puts its fixed value into `R3` of the current CPU and
/// changes nothing else: the program counter and every other register of
/// every CPU, memory, the breakpoints, the console and the exit status are
/// as they were.
pub proof fn lemma_patch_changes_only_its_register(m: MachineView)
    ensures
        HandlerFunction::HandleSecondClade.effect(m) matches Ok(after) ==> {
            &&& after == MachineView { cpus: after.cpus, ..m }
            &&& after.cpus.len() == m.cpus.len()
            &&& after.current_cpu().reg(Reg::R3) == SECOND_CLADE_VALUE
            &&& after.current_cpu().reg(Reg::Pc) == m.current_cpu().reg(Reg::Pc)
            &&& forall|i: int, r: Reg|
                0 <= i < m.cpus.len() && (i != m.current->0 || r != Reg::R3)
                    ==> #[trigger] after.cpus[i].reg(r) == m.cpus[i].reg(r)
        },
{
}

/// A fatal stop always leaves a report and the fatal exit status behind: the
/// console grows by exactly one line, which is not empty.
pub proof fn lemma_fatal_reports_and_exits(m: MachineView)
    ensures
        HandlerFunction::HandleFatalError.effect(m) matches Ok(after) ==> {
            &&& after.exit_code == Some(FATAL_EXIT_CODE)
            &&& after.console.len() == m.console.len() + 1
            &&& after.console.last().len() > 0
            &&& after.console.last() == fatal_report(m)
        },
{
    reveal_strlit("----- Backtrace -----\n");
}

} // verus!
