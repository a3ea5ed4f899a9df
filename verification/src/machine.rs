//! A plain-value model of the emulated machine.
//!
//! The harness never keeps emulator state across calls. Instead, every
//! decision is taken on a [`Machine`]: the registers of each virtual CPU, the
//! memory windows that were captured for this stop, the breakpoint set, and
//! what the harness has emitted so far. Whoever owns the real emulator fills
//! a `Machine` before a call and carries the differences back afterwards.

use vstd::prelude::*;

verus! {

/// Number of general purpose registers of a Hexagon core.
pub const GPR_COUNT: usize = 32;

/// Largest number of bytes read for one C string.
pub const CSTRING_CAPACITY: usize = 100;

/// The registers that the harness reads or writes.
///
/// `R29` is the stack pointer, `R30` the frame pointer and `R31` the link
/// register.
#[derive(Clone, Copy, Debug, PartialEq, Eq, Structural)]
pub enum Reg {
    R0,
    R1,
    R2,
    R3,
    R4,
    R5,
    R6,
    R7,
    R8,
    R9,
    R10,
    R11,
    R12,
    R13,
    R14,
    R15,
    R16,
    R17,
    R18,
    R19,
    R20,
    R21,
    R22,
    R23,
    R24,
    R25,
    R26,
    R27,
    R28,
    R29,
    R30,
    R31,
    Usr,
    Pc,
}

impl Reg {
    /// The position of a general purpose register in the register file, and
    /// `None` for the two special registers.
    pub open spec fn gpr_slot(self) -> Option<int> {
        match self {
            Reg::R0 => Some(0),
            Reg::R1 => Some(1),
            Reg::R2 => Some(2),
            Reg::R3 => Some(3),
            Reg::R4 => Some(4),
            Reg::R5 => Some(5),
            Reg::R6 => Some(6),
            Reg::R7 => Some(7),
            Reg::R8 => Some(8),
            Reg::R9 => Some(9),
            Reg::R10 => Some(10),
            Reg::R11 => Some(11),
            Reg::R12 => Some(12),
            Reg::R13 => Some(13),
            Reg::R14 => Some(14),
            Reg::R15 => Some(15),
            Reg::R16 => Some(16),
            Reg::R17 => Some(17),
            Reg::R18 => Some(18),
            Reg::R19 => Some(19),
            Reg::R20 => Some(20),
            Reg::R21 => Some(21),
            Reg::R22 => Some(22),
            Reg::R23 => Some(23),
            Reg::R24 => Some(24),
            Reg::R25 => Some(25),
            Reg::R26 => Some(26),
            Reg::R27 => Some(27),
            Reg::R28 => Some(28),
            Reg::R29 => Some(29),
            Reg::R30 => Some(30),
            Reg::R31 => Some(31),
            Reg::Usr => None,
            Reg::Pc => None,
        }
    }

    /// Executable form of [`Reg::gpr_slot`].
    pub fn slot(self) -> (s: Option<usize>)
        ensures
            s is Some <==> self.gpr_slot() is Some,
            s matches Some(i) ==> i == self.gpr_slot()->0 && i < GPR_COUNT,
    {
        match self {
            Reg::R0 => Some(0),
            Reg::R1 => Some(1),
            Reg::R2 => Some(2),
            Reg::R3 => Some(3),
            Reg::R4 => Some(4),
            Reg::R5 => Some(5),
            Reg::R6 => Some(6),
            Reg::R7 => Some(7),
            Reg::R8 => Some(8),
            Reg::R9 => Some(9),
            Reg::R10 => Some(10),
            Reg::R11 => Some(11),
            Reg::R12 => Some(12),
            Reg::R13 => Some(13),
            Reg::R14 => Some(14),
            Reg::R15 => Some(15),
            Reg::R16 => Some(16),
            Reg::R17 => Some(17),
            Reg::R18 => Some(18),
            Reg::R19 => Some(19),
            Reg::R20 => Some(20),
            Reg::R21 => Some(21),
            Reg::R22 => Some(22),
            Reg::R23 => Some(23),
            Reg::R24 => Some(24),
            Reg::R25 => Some(25),
            Reg::R26 => Some(26),
            Reg::R27 => Some(27),
            Reg::R28 => Some(28),
            Reg::R29 => Some(29),
            Reg::R30 => Some(30),
            Reg::R31 => Some(31),
            Reg::Usr => None,
            Reg::Pc => None,
        }
    }
}

/// The register that carries argument slot `idx` of a call, if the calling
/// convention passes that slot in a register.
pub open spec fn argument_register(idx: u8) -> Option<Reg> {
    if idx == 0 {
        Some(Reg::R0)
    } else if idx == 1 {
        Some(Reg::R1)
    } else if idx == 2 {
        Some(Reg::R2)
    } else if idx == 3 {
        Some(Reg::R3)
    } else if idx == 4 {
        Some(Reg::R4)
    } else if idx == 5 {
        Some(Reg::R5)
    } else {
        None
    }
}

/// Why an access to the machine failed.
#[derive(Clone, Copy, Debug, PartialEq, Eq, Structural)]
pub enum EmuError {
    /// No virtual CPU is current, so there is no context to act on.
    NoCurrentCpu,
    /// The registers of the virtual CPU with this index could not be read.
    UnreadableCpu(usize),
    /// The calling convention has no register for this argument slot.
    UnsupportedArgument(u8),
}

/// The register file of one virtual CPU.
#[derive(Clone, Copy, Debug)]
pub struct Cpu {
    pub gpr: [u32; 32],
    pub usr: u32,
    pub pc: u32,
}

impl Cpu {
    /// The value that register `r` holds.
    pub open spec fn reg(self, r: Reg) -> u32 {
        match r.gpr_slot() {
            Some(i) => self.gpr@[i],
            None => if r == Reg::Pc {
                self.pc
            } else {
                self.usr
            },
        }
    }

    /// This register file with `v` in register `r` and every other register
    /// as it was.
    pub open spec fn with_reg(self, r: Reg, v: u32) -> Cpu {
        match r.gpr_slot() {
            Some(i) => Cpu { gpr: vstd::array::spec_array_update(self.gpr, i, v), ..self },
            None => if r == Reg::Pc {
                Cpu { pc: v, ..self }
            } else {
                Cpu { usr: v, ..self }
            },
        }
    }

    /// The return address of the call in progress: the link register.
    pub open spec fn return_address(self) -> u32 {
        self.reg(Reg::R31)
    }

    /// What the calling convention reports for argument slot `idx`.
    pub open spec fn function_argument(self, idx: u8) -> Result<u32, EmuError> {
        match argument_register(idx) {
            Some(r) => Ok(self.reg(r)),
            None => Err(EmuError::UnsupportedArgument(idx)),
        }
    }

    /// True when every register holds zero.
    pub open spec fn is_zeroed(self) -> bool {
        &&& self.pc == 0
        &&& self.usr == 0
        &&& forall|i: int| 0 <= i < 32 ==> self.gpr@[i] == 0
    }

    /// A register file with every register zero.
    pub fn new() -> (cpu: Cpu)
        ensures
            cpu.is_zeroed(),
    {
        Cpu { gpr: [0u32;32], usr: 0, pc: 0 }
    }

    /// Reads register `r`.
    pub fn read_reg(&self, r: Reg) -> (v: u32)
        ensures
            v == self.reg(r),
    {
        match r.slot() {
            Some(i) => self.gpr[i],
            None => if r == Reg::Pc {
                self.pc
            } else {
                self.usr
            },
        }
    }

    /// Writes `v` to register `r`.
    pub fn write_reg(&mut self, r: Reg, v: u32)
        ensures
            *final(self) == old(self).with_reg(r, v),
    {
        match r.slot() {
            Some(i) => {
                self.gpr[i] = v;
            },
            None => if r == Reg::Pc {
                self.pc = v;
            } else {
                self.usr = v;
            },
        }
    }

    /// Where the call in progress returns to. On Hexagon a call leaves its
    /// return address in the link register.
    pub fn read_return_address(&self) -> (v: u32)
        ensures
            v == self.return_address(),
    {
        self.gpr[31]
    }

    /// Reads argument slot `idx` of the call in progress. The first six slots
    /// are `R0` to `R5`; the later ones live on the stack and are not
    /// supported.
    pub fn read_function_argument(&self, idx: u8) -> (r: Result<u32, EmuError>)
        ensures
            r == self.function_argument(idx),
    {
        if idx == 0 {
            Ok(self.gpr[0])
        } else if idx == 1 {
            Ok(self.gpr[1])
        } else if idx == 2 {
            Ok(self.gpr[2])
        } else if idx == 3 {
            Ok(self.gpr[3])
        } else if idx == 4 {
            Ok(self.gpr[4])
        } else if idx == 5 {
            Ok(self.gpr[5])
        } else {
            Err(EmuError::UnsupportedArgument(idx))
        }
    }
}

/// Writing a register changes that register and no other.
pub proof fn lemma_write_reg_frame(cpu: Cpu, r: Reg, v: u32, q: Reg)
    ensures
        cpu.with_reg(r, v).reg(q) == if q == r {
            v
        } else {
            cpu.reg(q)
        },
{
}

/// A run of bytes captured from emulated memory, starting at `base`.
#[derive(Clone, Debug)]
pub struct Region {
    pub base: u32,
    pub data: Vec<u8>,
}

impl Region {
    /// True when `addr` falls inside this region.
    pub open spec fn covers(self, addr: int) -> bool {
        self.base <= addr < self.base + self.data@.len()
    }
}

/// The byte that the regions from position `from` on hold for `addr`: that of
/// the first region that covers it, and zero where none does.
pub open spec fn byte_from(regions: Seq<Region>, from: int, addr: int) -> u8
    decreases regions.len() - from,
{
    if from < 0 || from >= regions.len() {
        0
    } else if regions[from].covers(addr) {
        regions[from].data@[addr - regions[from].base]
    } else {
        byte_from(regions, from + 1, addr)
    }
}

/// The part of emulated memory that was captured.
///
/// Memory that no region covers reads as zero, which is also what a buffer
/// holds after the emulator failed to fill it.
#[derive(Clone, Debug)]
pub struct Memory {
    pub regions: Vec<Region>,
}

impl Memory {
    /// The byte at `addr`. Addresses outside the 32-bit space hold zero.
    pub open spec fn byte_at(self, addr: int) -> u8 {
        if 0 <= addr <= u32::MAX {
            byte_from(self.regions@, 0, addr)
        } else {
            0
        }
    }

    /// The `len` bytes from `addr` on.
    pub open spec fn bytes_at(self, addr: int, len: nat) -> Seq<u8> {
        Seq::new(len, |i: int| self.byte_at(addr + i))
    }

    /// The little-endian 32-bit word at `addr`.
    pub open spec fn word_at(self, addr: int) -> u32 {
        (self.byte_at(addr) + self.byte_at(addr + 1) * 0x100 + self.byte_at(addr + 2) * 0x1_0000
            + self.byte_at(addr + 3) * 0x100_0000) as u32
    }

    /// A memory in which nothing is mapped.
    pub fn new() -> (mem: Memory)
        ensures
            mem.regions@.len() == 0,
            forall|addr: int| #[trigger] mem.byte_at(addr) == 0,
    {
        Memory { regions: Vec::new() }
    }

    /// Adds a captured region. Regions added earlier take precedence where
    /// two overlap.
    pub fn map(&mut self, base: u32, data: Vec<u8>)
        ensures
            final(self).regions@ == old(self).regions@.push(Region { base, data }),
            forall|addr: int|
                0 <= addr <= u32::MAX ==> #[trigger] final(self).byte_at(addr) == (if exists|
                    i: int,
                | 0 <= i < old(self).regions@.len() && #[trigger] old(self).regions@[i].covers(addr) {
                    old(self).byte_at(addr)
                } else if base <= addr < base + data@.len() {
                    data@[addr - base]
                } else {
                    0
                }),
    {
        let ghost before = self.regions@;
        let ghost region = Region { base, data };
        self.regions.push(Region { base, data });
        proof {
            assert forall|addr: int| 0 <= addr <= u32::MAX implies #[trigger] self.byte_at(addr)
                == (if exists|i: int| 0 <= i < before.len() && #[trigger] before[i].covers(addr) {
                byte_from(before, 0, addr)
            } else if region.covers(addr) {
                region.data@[addr - region.base]
            } else {
                0
            }) by {
                lemma_byte_from_push(before, region, 0, addr);
            }
        }
    }

    /// Reads the byte at `addr`.
    pub fn read_byte(&self, addr: u32) -> (b: u8)
        ensures
            b == self.byte_at(addr as int),
    {
        let mut i: usize = 0;
        while i < self.regions.len()
            invariant
                i <= self.regions@.len(),
                byte_from(self.regions@, 0, addr as int) == byte_from(
                    self.regions@,
                    i as int,
                    addr as int,
                ),
            decreases self.regions@.len() - i,
        {
            let region = &self.regions[i];
            if addr >= region.base {
                let offset: u32 = addr - region.base;
                if (offset as usize) < region.data.len() {
                    return region.data[offset as usize];
                }
            }
            i += 1;
        }
        0
    }

    /// Reads `len` bytes from `addr` on. A read that runs past the end of the
    /// address space yields zeros there.
    pub fn read_bytes(&self, addr: u32, len: usize) -> (out: Vec<u8>)
        ensures
            out@ == self.bytes_at(addr as int, len as nat),
    {
        let mut out: Vec<u8> = Vec::new();
        let mut i: usize = 0;
        while i < len
            invariant
                i <= len,
                out@ == self.bytes_at(addr as int, i as nat),
            decreases len - i,
        {
            let room: u32 = u32::MAX - addr;
            let b: u8 = if i <= room as usize {
                self.read_byte(addr + i as u32)
            } else {
                0
            };
            out.push(b);
            i += 1;
            assert(out@ =~= self.bytes_at(addr as int, i as nat));
        }
        out
    }

    /// Reads the little-endian 32-bit word at `addr`.
    pub fn read_u32(&self, addr: u32) -> (w: u32)
        ensures
            w == self.word_at(addr as int),
    {
        let bytes = self.read_bytes(addr, 4);
        let b0: u32 = bytes[0] as u32;
        let b1: u32 = bytes[1] as u32;
        let b2: u32 = bytes[2] as u32;
        let b3: u32 = bytes[3] as u32;
        b0 + b1 * 0x100 + b2 * 0x1_0000 + b3 * 0x100_0000
    }
}

/// Appending a region changes no byte that an earlier region covers, and
/// gives the others what the new region holds.
pub proof fn lemma_byte_from_push(regions: Seq<Region>, region: Region, from: int, addr: int)
    requires
        0 <= from <= regions.len(),
    ensures
        byte_from(regions.push(region), from, addr) == (if exists|i: int|
            from <= i < regions.len() && #[trigger] regions[i].covers(addr) {
            byte_from(regions, from, addr)
        } else if region.covers(addr) {
            region.data@[addr - region.base]
        } else {
            0
        }),
    decreases regions.len() - from,
{
    let extended = regions.push(region);
    if from == regions.len() {
        assert(extended[from] == region);
        assert(byte_from(extended, from + 1, addr) == 0);
    } else {
        assert(extended[from] == regions[from]);
        if regions[from].covers(addr) {
        } else {
            lemma_byte_from_push(regions, region, from + 1, addr);
            if exists|i: int| from <= i < regions.len() && #[trigger] regions[i].covers(addr) {
                let i = choose|i: int| from <= i < regions.len() && #[trigger] regions[i].covers(addr);
                assert(from + 1 <= i);
            }
        }
    }
}

impl Memory {
    /// True when every region is a copy of what `source` holds at its place.
    pub open spec fn copies(self, source: Memory) -> bool {
        forall|i: int, addr: int|
            0 <= i < self.regions@.len() && 0 <= addr <= u32::MAX && (
            #[trigger] self.regions@[i]).covers(addr) ==> self.regions@[i].data@[addr
                - self.regions@[i].base] == #[trigger] source.byte_at(addr)
    }

    /// True when a region was captured at `addr` that is at least `len`
    /// bytes long.
    pub open spec fn holds(self, addr: u32, len: nat) -> bool {
        exists|i: int|
            0 <= i < self.regions@.len() && (#[trigger] self.regions@[i]).base == addr
                && self.regions@[i].data@.len() >= len
    }
}

/// Memory that copies another reads, wherever it holds a window, what the
/// other holds there.
pub proof fn lemma_held_window(mem: Memory, source: Memory, addr: u32, len: nat)
    requires
        mem.copies(source),
        mem.holds(addr, len),
    ensures
        mem.bytes_at(addr as int, len) == source.bytes_at(addr as int, len),
        len >= 8 ==> mem.word_at(addr as int) == source.word_at(addr as int) && mem.word_at(
            addr + 4,
        ) == source.word_at(addr + 4),
{
    let held = choose|i: int|
        0 <= i < mem.regions@.len() && (#[trigger] mem.regions@[i]).base == addr
            && mem.regions@[i].data@.len() >= len;
    assert forall|a: int| addr <= a < addr + len implies #[trigger] mem.byte_at(a)
        == source.byte_at(a) by {
        if a <= u32::MAX {
            assert(mem.regions@[held].covers(a));
            lemma_copied_byte(mem, source, 0, held, a);
        }
    }
    assert(mem.bytes_at(addr as int, len) =~= source.bytes_at(addr as int, len));
    if len >= 8 {
        assert(mem.byte_at(addr + 0) == source.byte_at(addr + 0));
        assert(mem.byte_at(addr + 1) == source.byte_at(addr + 1));
        assert(mem.byte_at(addr + 2) == source.byte_at(addr + 2));
        assert(mem.byte_at(addr + 3) == source.byte_at(addr + 3));
        assert(mem.byte_at(addr + 4) == source.byte_at(addr + 4));
        assert(mem.byte_at(addr + 5) == source.byte_at(addr + 5));
        assert(mem.byte_at(addr + 6) == source.byte_at(addr + 6));
        assert(mem.byte_at(addr + 7) == source.byte_at(addr + 7));
    }
}

proof fn lemma_copied_byte(mem: Memory, source: Memory, from: int, covering: int, addr: int)
    requires
        mem.copies(source),
        0 <= from <= covering < mem.regions@.len(),
        0 <= addr <= u32::MAX,
        mem.regions@[covering].covers(addr),
    ensures
        byte_from(mem.regions@, from, addr) == source.byte_at(addr),
    decreases covering - from,
{
    if mem.regions@[from].covers(addr) {
    } else {
        lemma_copied_byte(mem, source, from + 1, covering, addr);
    }
}

/// What the harness sees of a machine: its view for contracts.
pub struct MachineView {
    pub cpus: Seq<Cpu>,
    pub unreadable: Seq<usize>,
    pub current: Option<usize>,
    pub memory: Memory,
    pub breakpoints: Seq<u32>,
    pub console: Seq<Seq<char>>,
    pub exit_code: Option<i32>,
}

impl MachineView {
    /// True when the registers of CPU `index` could not be read.
    pub open spec fn is_unreadable(self, index: int) -> bool {
        exists|k: int| 0 <= k < self.unreadable.len() && #[trigger] self.unreadable[k] == index
    }

    /// True when a CPU is current and its registers could be read.
    pub open spec fn has_current(self) -> bool {
        self.current is Some && self.current->0 < self.cpus.len() && !self.is_unreadable(
            self.current->0 as int,
        )
    }

    /// Why there is no current CPU to act on, where there is none.
    pub open spec fn current_failure(self) -> EmuError
        recommends
            !self.has_current(),
    {
        if self.current is Some && self.current->0 < self.cpus.len() {
            EmuError::UnreadableCpu(self.current->0)
        } else {
            EmuError::NoCurrentCpu
        }
    }

    /// The current CPU's register file.
    pub open spec fn current_cpu(self) -> Cpu
        recommends
            self.has_current(),
    {
        self.cpus[self.current->0 as int]
    }

    /// This machine with `cpu` as the register file of the current CPU.
    pub open spec fn with_current_cpu(self, cpu: Cpu) -> MachineView
        recommends
            self.has_current(),
    {
        MachineView { cpus: self.cpus.update(self.current->0 as int, cpu), ..self }
    }

    /// This machine after register `r` of the current CPU was set to `v`.
    pub open spec fn with_current_reg(self, r: Reg, v: u32) -> MachineView
        recommends
            self.has_current(),
    {
        self.with_current_cpu(self.current_cpu().with_reg(r, v))
    }

    /// This machine with a breakpoint at `addr`.
    pub open spec fn with_breakpoint(self, addr: u32) -> MachineView {
        if self.breakpoints.contains(addr) {
            self
        } else {
            MachineView { breakpoints: self.breakpoints.push(addr), ..self }
        }
    }

    /// This machine without a breakpoint at `addr`.
    pub open spec fn without_breakpoint(self, addr: u32) -> MachineView {
        MachineView { breakpoints: without(self.breakpoints, addr), ..self }
    }

    /// This machine after `line` was emitted.
    pub open spec fn with_line(self, line: Seq<char>) -> MachineView {
        MachineView { console: self.console.push(line), ..self }
    }
}

/// `addrs` with every occurrence of `addr` taken out, the rest in order.
pub open spec fn without(addrs: Seq<u32>, addr: u32) -> Seq<u32>
    decreases addrs.len(),
{
    if addrs.len() == 0 {
        addrs
    } else if addrs.last() == addr {
        without(addrs.drop_last(), addr)
    } else {
        without(addrs.drop_last(), addr).push(addrs.last())
    }
}

/// The lines of a console, each as its characters.
pub open spec fn lines_view(lines: Seq<String>) -> Seq<Seq<char>> {
    Seq::new(lines.len(), |i: int| lines[i]@)
}

/// The emulated machine as the harness sees it at one stop.
#[derive(Clone, Debug)]
pub struct Machine {
    /// One register file per virtual CPU, by CPU index.
    pub cpus: Vec<Cpu>,
    /// The indices of the CPUs whose registers could not be read. What
    /// `cpus` holds for them means nothing.
    pub unreadable: Vec<usize>,
    /// The index of the CPU that stopped, if any.
    pub current: Option<usize>,
    /// The memory captured for this stop.
    pub memory: Memory,
    /// The addresses at which execution traps. No address occurs twice
    /// unless the caller put it there.
    pub breakpoints: Vec<u32>,
    /// What the harness has emitted for the operator, oldest first.
    pub console: Vec<String>,
    /// The exit status with which the process has to end, once set.
    pub exit_code: Option<i32>,
}

impl View for Machine {
    type V = MachineView;

    open spec fn view(&self) -> MachineView {
        MachineView {
            cpus: self.cpus@,
            unreadable: self.unreadable@,
            current: self.current,
            memory: self.memory,
            breakpoints: self.breakpoints@,
            console: lines_view(self.console@),
            exit_code: self.exit_code,
        }
    }
}

impl Machine {
    /// A machine with `num_cpus` zeroed and readable CPUs, the first of them
    /// current, no memory captured and no breakpoint set.
    pub fn new(num_cpus: usize) -> (m: Machine)
        ensures
            m@.cpus.len() == num_cpus,
            forall|i: int| 0 <= i < num_cpus ==> (#[trigger] m@.cpus[i]).is_zeroed(),
            m@.unreadable.len() == 0,
            m@.current == (if num_cpus > 0 {
                Some(0usize)
            } else {
                None
            }),
            m@.memory.regions@.len() == 0,
            m@.breakpoints.len() == 0,
            m@.console.len() == 0,
            m@.exit_code is None,
    {
        let mut cpus: Vec<Cpu> = Vec::new();
        let mut i: usize = 0;
        while i < num_cpus
            invariant
                i <= num_cpus,
                cpus@.len() == i,
                forall|k: int| 0 <= k < i ==> (#[trigger] cpus@[k]).is_zeroed(),
            decreases num_cpus - i,
        {
            cpus.push(Cpu::new());
            i += 1;
        }
        let current: Option<usize> = if num_cpus > 0 {
            Some(0)
        } else {
            None
        };
        Machine {
            cpus,
            unreadable: Vec::new(),
            current,
            memory: Memory::new(),
            breakpoints: Vec::new(),
            console: Vec::new(),
            exit_code: None,
        }
    }

    /// Number of virtual CPUs.
    pub fn num_cpus(&self) -> (n: usize)
        ensures
            n == self@.cpus.len(),
    {
        self.cpus.len()
    }

    /// True when the registers of CPU `index` could be read.
    pub fn is_readable(&self, index: usize) -> (readable: bool)
        ensures
            readable == !self@.is_unreadable(index as int),
    {
        let mut k: usize = 0;
        while k < self.unreadable.len()
            invariant
                k <= self.unreadable@.len(),
                forall|j: int| 0 <= j < k ==> self.unreadable@[j] != index,
            decreases self.unreadable@.len() - k,
        {
            if self.unreadable[k] == index {
                proof {
                    assert(self@.unreadable[k as int] == index);
                }
                return false;
            }
            k += 1;
        }
        true
    }

    /// Takes note that the registers of CPU `index` could not be read.
    pub fn mark_unreadable(&mut self, index: usize)
        ensures
            final(self)@ == (MachineView {
                unreadable: old(self)@.unreadable.push(index),
                ..old(self)@
            }),
            final(self)@.is_unreadable(index as int),
            forall|i: int| old(self)@.is_unreadable(i) ==> final(self)@.is_unreadable(i),
            forall|i: int| i != index && final(self)@.is_unreadable(i) ==> old(self)@.is_unreadable(i),
    {
        self.unreadable.push(index);
        proof {
            let before = old(self)@.unreadable;
            let after = self@.unreadable;
            assert(after[after.len() - 1] == index);
            assert forall|i: int| old(self)@.is_unreadable(i) implies self@.is_unreadable(i) by {
                let k = choose|k: int| 0 <= k < before.len() && #[trigger] before[k] == i;
                assert(after[k] == i);
            }
            assert forall|i: int| i != index && self@.is_unreadable(i) implies old(
                self,
            )@.is_unreadable(i) by {
                let k = choose|k: int| 0 <= k < after.len() && #[trigger] after[k] == i;
                assert(before[k] == i);
            }
        }
    }

    /// The index of the current CPU, where there is one whose registers
    /// could be read.
    pub fn current_index(&self) -> (r: Option<usize>)
        ensures
            r is Some <==> self@.has_current(),
            r is Some ==> r == self@.current,
    {
        match self.current {
            Some(i) => if i < self.cpus.len() && self.is_readable(i) {
                Some(i)
            } else {
                None
            },
            None => None,
        }
    }

    /// Why there is no current CPU to act on.
    pub(crate) fn current_failure(&self) -> (e: EmuError)
        requires
            !self@.has_current(),
        ensures
            e == self@.current_failure(),
    {
        match self.current {
            Some(i) => if i < self.cpus.len() {
                EmuError::UnreadableCpu(i)
            } else {
                EmuError::NoCurrentCpu
            },
            None => EmuError::NoCurrentCpu,
        }
    }

    /// The register file of the current CPU. Fails where no CPU is current,
    /// and where the registers of the current CPU could not be read.
    pub fn current_cpu(&self) -> (r: Result<Cpu, EmuError>)
        ensures
            self@.has_current() ==> r == Ok::<Cpu, EmuError>(self@.current_cpu()),
            !self@.has_current() ==> r == Err::<Cpu, EmuError>(self@.current_failure()),
    {
        match self.current_index() {
            Some(i) => Ok(self.cpus[i]),
            None => Err(self.current_failure()),
        }
    }

    /// Writes `v` to register `r` of the current CPU.
    pub fn write_reg(&mut self, r: Reg, v: u32) -> (res: Result<(), EmuError>)
        ensures
            old(self)@.has_current() ==> res is Ok && final(self)@ == old(self)@.with_current_reg(
                r,
                v,
            ),
            !old(self)@.has_current() ==> res == Err::<(), EmuError>(
                old(self)@.current_failure(),
            ) && final(self)@ == old(self)@,
    {
        match self.current_index() {
            Some(i) => {
                let mut cpu = self.cpus[i];
                cpu.write_reg(r, v);
                self.cpus[i] = cpu;
                Ok(())
            },
            None => Err(self.current_failure()),
        }
    }

    /// True when execution traps at `addr`.
    pub fn has_breakpoint(&self, addr: u32) -> (b: bool)
        ensures
            b == self@.breakpoints.contains(addr),
    {
        let mut i: usize = 0;
        while i < self.breakpoints.len()
            invariant
                i <= self.breakpoints@.len(),
                forall|k: int| 0 <= k < i ==> self.breakpoints@[k] != addr,
            decreases self.breakpoints@.len() - i,
        {
            if self.breakpoints[i] == addr {
                return true;
            }
            i += 1;
        }
        false
    }

    /// Makes execution trap at `addr`.
    pub fn set_breakpoint(&mut self, addr: u32)
        ensures
            final(self)@ == old(self)@.with_breakpoint(addr),
    {
        if !self.has_breakpoint(addr) {
            self.breakpoints.push(addr);
        }
    }

    /// Stops execution from trapping at `addr`.
    pub fn remove_breakpoint(&mut self, addr: u32)
        ensures
            final(self)@ == old(self)@.without_breakpoint(addr),
    {
        let mut kept: Vec<u32> = Vec::new();
        let mut i: usize = 0;
        while i < self.breakpoints.len()
            invariant
                i <= self.breakpoints@.len(),
                kept@ == without(self.breakpoints@.take(i as int), addr),
            decreases self.breakpoints@.len() - i,
        {
            let a = self.breakpoints[i];
            proof {
                let next = self.breakpoints@.take(i + 1);
                assert(next.drop_last() =~= self.breakpoints@.take(i as int));
                assert(next.last() == a);
            }
            if a != addr {
                kept.push(a);
            }
            i += 1;
        }
        proof {
            assert(self.breakpoints@.take(i as int) =~= self.breakpoints@);
        }
        self.breakpoints = kept;
    }

    /// Emits `line` for the operator.
    pub fn emit(&mut self, line: String)
        ensures
            final(self)@ == old(self)@.with_line(line@),
    {
        self.console.push(line);
        proof {
            assert(lines_view(self.console@) =~= lines_view(old(self).console@).push(line@));
        }
    }
}

/// After a breakpoint is removed, execution no longer traps at its address,
/// and traps at every other address exactly where it did before.
pub proof fn lemma_without(addrs: Seq<u32>, addr: u32, other: u32)
    ensures
        !without(addrs, addr).contains(addr),
        other != addr ==> (without(addrs, addr).contains(other) <==> addrs.contains(other)),
    decreases addrs.len(),
{
    if addrs.len() > 0 {
        let rest = addrs.drop_last();
        lemma_without(rest, addr, other);
        let kept = without(rest, addr);
        if addrs.last() != addr {
            let out = kept.push(addrs.last());
            assert forall|i: int| 0 <= i < out.len() implies out[i] != addr by {
                if i < kept.len() {
                    assert(kept.contains(kept[i]));
                }
            }
            if other != addr {
                if out.contains(other) {
                    let i = choose|i: int| 0 <= i < out.len() && out[i] == other;
                    if i < kept.len() {
                        assert(kept.contains(other));
                        let j = choose|j: int| 0 <= j < rest.len() && rest[j] == other;
                        assert(addrs[j] == other);
                    } else {
                        assert(addrs[addrs.len() - 1] == other);
                    }
                }
                if addrs.contains(other) {
                    let i = choose|i: int| 0 <= i < addrs.len() && addrs[i] == other;
                    if i < rest.len() {
                        assert(rest[i] == other);
                        assert(rest.contains(other));
                        let j = choose|j: int| 0 <= j < kept.len() && kept[j] == other;
                        assert(out[j] == other);
                    } else {
                        assert(out[out.len() - 1] == other);
                    }
                }
            }
        } else {
            if other != addr {
                if kept.contains(other) {
                    let j = choose|j: int| 0 <= j < rest.len() && rest[j] == other;
                    assert(addrs[j] == other);
                }
                if addrs.contains(other) {
                    let i = choose|i: int| 0 <= i < addrs.len() && addrs[i] == other;
                    assert(rest[i] == other);
                    assert(rest.contains(other));
                }
            }
        }
    }
}

} // verus!
