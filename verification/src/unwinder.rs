//! Symbol resolution and frame-pointer stack unwinding.
//!
//! A backtrace starts from the registers of the current CPU and follows the
//! chain of frame records in memory: the word at a frame pointer holds the
//! caller's frame pointer, the word after it the return address. The walk is
//! a diagnostic aid. It trusts nothing it reads, and ends quietly at the
//! first record that looks wrong.

use crate::machine::{Cpu, EmuError, Machine, MachineView, Memory, Reg};
use crate::text::{decimal, hex8, push_decimal, push_hex8};
use vstd::prelude::*;
use vstd::string::StringExecFns;

verus! {

/// Number of frames that a backtrace holds at most unless told otherwise.
pub const DEFAULT_MAX_FRAMES: usize = 32;

/// A named half-open address range `[start, end)`, as a value for contracts.
pub struct SymbolView {
    pub start: u32,
    pub end: u32,
    pub name: Seq<char>,
}

impl SymbolView {
    /// True when `addr` lies in the range.
    pub open spec fn contains(self, addr: u32) -> bool {
        self.start <= addr && addr < self.end
    }
}

/// The position, at or after `from`, of the first symbol whose range holds
/// `addr`.
pub open spec fn first_symbol(symbols: Seq<SymbolView>, from: int, addr: u32) -> Option<int>
    decreases symbols.len() - from,
{
    if from < 0 || from >= symbols.len() {
        None
    } else if symbols[from].contains(addr) {
        Some(from)
    } else {
        first_symbol(symbols, from + 1, addr)
    }
}

/// The name that `symbols` gives to `addr`: that of the first range holding
/// it.
pub open spec fn resolve(symbols: Seq<SymbolView>, addr: u32) -> Option<Seq<char>> {
    match first_symbol(symbols, 0, addr) {
        Some(i) => Some(symbols[i].name),
        None => None,
    }
}

/// `first_symbol` finds a range that holds the address, no earlier range
/// does, and it finds nothing only where no range holds it.
pub proof fn lemma_first_symbol(symbols: Seq<SymbolView>, from: int, addr: u32)
    requires
        0 <= from,
    ensures
        match first_symbol(symbols, from, addr) {
            Some(i) => from <= i < symbols.len() && symbols[i].contains(addr) && forall|j: int|
                from <= j < i ==> !(#[trigger] symbols[j]).contains(addr),
            None => forall|j: int| from <= j < symbols.len() ==> !(#[trigger] symbols[j]).contains(addr),
        },
    decreases symbols.len() - from,
{
    if from < symbols.len() && !symbols[from].contains(addr) {
        lemma_first_symbol(symbols, from + 1, addr);
    }
}

/// An address-to-name table, searched in the order in which the ranges were
/// added.
#[derive(Clone, Debug)]
pub struct SymbolMap {
    symbols: Vec<(u32, u32, String)>,
}

impl View for SymbolMap {
    type V = Seq<SymbolView>;

    closed spec fn view(&self) -> Seq<SymbolView> {
        Seq::new(
            self.symbols@.len(),
            |i: int|
                SymbolView {
                    start: self.symbols@[i].0,
                    end: self.symbols@[i].1,
                    name: self.symbols@[i].2@,
                },
        )
    }
}

impl SymbolMap {
    /// A table without symbols.
    pub fn new() -> (map: SymbolMap)
        ensures
            map@ == Seq::<SymbolView>::empty(),
    {
        let map = SymbolMap { symbols: Vec::new() };
        proof {
            assert(map@ =~= Seq::<SymbolView>::empty());
        }
        map
    }

    /// Appends the range `[start_addr, end_addr)` under `name`. Ranges that
    /// were added before keep their precedence; an empty or inverted range
    /// never matches.
    pub fn add_symbol(&mut self, start_addr: u32, end_addr: u32, name: String)
        ensures
            final(self)@ == old(self)@.push(
                SymbolView { start: start_addr, end: end_addr, name: name@ },
            ),
    {
        self.symbols.push((start_addr, end_addr, name));
        proof {
            assert(final(self)@ =~= old(self)@.push(
                SymbolView { start: start_addr, end: end_addr, name: name@ },
            ));
        }
    }

    /// The name of the first range that holds `addr`.
    pub fn lookup(&self, addr: u32) -> (found: Option<&str>)
        ensures
            found is Some <==> resolve(self@, addr) is Some,
            found matches Some(name) ==> Some(name@) == resolve(self@, addr),
    {
        let mut i: usize = 0;
        while i < self.symbols.len()
            invariant
                i <= self.symbols@.len(),
                self@.len() == self.symbols@.len(),
                first_symbol(self@, 0, addr) == first_symbol(self@, i as int, addr),
            decreases self.symbols@.len() - i,
        {
            let entry = &self.symbols[i];
            if addr >= entry.0 && addr < entry.1 {
                return Some(entry.2.as_str());
            }
            i += 1;
        }
        None
    }
}

/// Why no backtrace could be produced.
#[derive(Debug)]
pub struct UnwindError {
    message: String,
}

impl View for UnwindError {
    type V = Seq<char>;

    closed spec fn view(&self) -> Seq<char> {
        self.message@
    }
}

impl UnwindError {
    /// An error that says `message`.
    pub fn new(message: &str) -> (e: UnwindError)
        ensures
            e@ == message@,
    {
        UnwindError { message: String::from_str(message) }
    }

    /// What went wrong, in words.
    pub fn message(&self) -> (s: &str)
        ensures
            s@ == self@,
    {
        self.message.as_str()
    }

    /// The error as it is shown to the operator.
    pub fn to_string(&self) -> (s: String)
        ensures
            s@ == "Unwinding error: "@ + self@,
    {
        let mut s = String::from_str("Unwinding error: ");
        s.append(self.message.as_str());
        s
    }
}

/// One stack frame, as a value for contracts.
pub struct FrameView {
    pub pc: u32,
    pub sp: u32,
    pub fp: u32,
    pub function_name: Option<Seq<char>>,
}

/// How a frame is shown: its name, if it has one, and its program counter.
pub open spec fn frame_text(frame: FrameView) -> Seq<char> {
    match frame.function_name {
        Some(name) => name + " (0x"@ + hex8(frame.pc) + ")"@,
        None => "0x"@ + hex8(frame.pc),
    }
}

/// One line of a backtrace: the frame's position, the frame, and its frame
/// and stack pointers.
pub open spec fn frame_line(index: nat, frame: FrameView) -> Seq<char> {
    "#"@ + decimal(index) + ": "@ + frame_text(frame) + " (FP: 0x"@ + hex8(frame.fp) + ", SP: 0x"@
        + hex8(frame.sp) + ")\n"@
}

/// The lines of the first `count` frames, innermost first.
pub open spec fn frame_lines(frames: Seq<FrameView>, count: nat) -> Seq<char>
    decreases count,
{
    if count == 0 {
        Seq::empty()
    } else {
        frame_lines(frames, (count - 1) as nat) + frame_line(
            (count - 1) as nat,
            frames[count - 1],
        )
    }
}

/// A backtrace as text: a header, one line per frame, a footer.
pub open spec fn backtrace_text(frames: Seq<FrameView>) -> Seq<char> {
    "----- Backtrace -----\n"@ + frame_lines(frames, frames.len()) + "----- End of Backtrace -----\n"@
}

/// One frame of a backtrace.
#[derive(Clone, Debug)]
pub struct StackFrame {
    /// Program counter.
    pub pc: u32,
    /// Stack pointer.
    pub sp: u32,
    /// Frame pointer.
    pub fp: u32,
    /// The symbol that holds `pc`, where one is known.
    pub function_name: Option<String>,
}

impl View for StackFrame {
    type V = FrameView;

    open spec fn view(&self) -> FrameView {
        FrameView {
            pc: self.pc,
            sp: self.sp,
            fp: self.fp,
            function_name: match self.function_name {
                Some(name) => Some(name@),
                None => None,
            },
        }
    }
}

impl StackFrame {
    /// The frame as it is shown in a backtrace.
    pub fn to_string(&self) -> (s: String)
        ensures
            s@ == frame_text(self@),
    {
        match &self.function_name {
            Some(name) => {
                let mut s = String::from_str(name.as_str());
                s.append(" (0x");
                push_hex8(&mut s, self.pc);
                s.append(")");
                s
            },
            None => {
                let mut s = String::from_str("0x");
                push_hex8(&mut s, self.pc);
                s
            },
        }
    }

    /// The frame's line in a backtrace, where it is frame number `index`.
    pub fn to_line(&self, index: usize) -> (line: String)
        ensures
            line@ == frame_line(index as nat, self@),
    {
        let mut line = String::from_str("#");
        push_decimal(&mut line, index as u64);
        line.append(": ");
        let shown = self.to_string();
        line.append(shown.as_str());
        line.append(" (FP: 0x");
        push_hex8(&mut line, self.fp);
        line.append(", SP: 0x");
        push_hex8(&mut line, self.sp);
        line.append(")\n");
        line
    }
}

/// The frames of a vector, each as its view.
pub open spec fn frames_view(frames: Seq<StackFrame>) -> Seq<FrameView> {
    Seq::new(frames.len(), |i: int| frames[i]@)
}

/// An address that may hold code or a frame record: not null, not the
/// all-ones sentinel, and aligned to four bytes.
pub open spec fn is_valid_address(addr: u32) -> bool {
    addr != 0 && addr < 0xFFFF_FFFF && addr % 4 == 0
}

/// True when a frame record can stand at `fp`: the address is valid and the
/// eight bytes of the record end inside the address space.
pub open spec fn frame_record_at(fp: u32) -> bool {
    is_valid_address(fp) && fp + 8 <= u32::MAX
}

/// Where the chain goes on after the record at `fp`, which holds the caller's
/// frame pointer `prev_fp` and the return address `return_addr`: at `prev_fp`,
/// provided that the record can stand at its address, that neither word is
/// zero, and that `prev_fp` lies strictly above `fp`.
pub open spec fn chain_successor(fp: u32, prev_fp: u32, return_addr: u32) -> Option<u32> {
    if frame_record_at(fp) && return_addr != 0 && prev_fp != 0 && prev_fp > fp {
        Some(prev_fp)
    } else {
        None
    }
}

/// The frames that the chain of frame records contributes, starting at the
/// record at `fp`, after a frame whose program counter is `last_pc`, where
/// `room` more frames may be added.
///
/// A record is read as the caller's frame pointer at `fp` and the return
/// address at `fp + 4`. The walk ends when there is no room for another
/// frame, and at a record that cannot stand at its address or that holds a
/// zero word. A record adds a frame unless its return address is invalid or
/// repeats the program counter of the frame before. The walk goes on only to
/// a strictly greater frame pointer, so it cannot run in a circle.
pub open spec fn walk_frames(
    mem: Memory,
    symbols: Seq<SymbolView>,
    fp: u32,
    last_pc: u32,
    room: nat,
) -> Seq<FrameView>
    decreases u32::MAX - fp,
{
    if room == 0 || !frame_record_at(fp) {
        Seq::empty()
    } else {
        let return_addr = mem.word_at(fp + 4);
        let prev_fp = mem.word_at(fp as int);
        if return_addr == 0 || prev_fp == 0 {
            Seq::empty()
        } else {
            let fresh = return_addr != last_pc && is_valid_address(return_addr);
            let here = if fresh {
                seq![
                    FrameView {
                        pc: return_addr,
                        sp: (fp + 8) as u32,
                        fp: prev_fp,
                        function_name: resolve(symbols, return_addr),
                    },
                ]
            } else {
                Seq::empty()
            };
            match chain_successor(fp, prev_fp, return_addr) {
                None => here,
                Some(next) => here + walk_frames(
                    mem,
                    symbols,
                    next,
                    if fresh {
                        return_addr
                    } else {
                        last_pc
                    },
                    (room - here.len()) as nat,
                ),
            }
        }
    }
}

/// The frames that stand before the chain walk: the current frame and, where
/// the link register holds a non-zero address other than the program
/// counter, a frame for the caller. The caller's stack and frame pointers are
/// not known at that point; the frame repeats those of the current frame.
pub open spec fn register_frames(cpu: Cpu, symbols: Seq<SymbolView>) -> Seq<FrameView> {
    let pc = cpu.reg(Reg::Pc);
    let sp = cpu.reg(Reg::R29);
    let fp = cpu.reg(Reg::R30);
    let lr = cpu.reg(Reg::R31);
    let current = FrameView { pc, sp, fp, function_name: resolve(symbols, pc) };
    if lr != 0 && lr != pc {
        seq![current, FrameView { pc: lr, sp, fp, function_name: resolve(symbols, lr) }]
    } else {
        seq![current]
    }
}

/// The room that the frames from the registers leave for the chain walk
/// under a limit of `max_frames` frames.
pub open spec fn chain_room(cpu: Cpu, symbols: Seq<SymbolView>, max_frames: nat) -> nat {
    let head = register_frames(cpu, symbols);
    if max_frames > head.len() {
        (max_frames - head.len()) as nat
    } else {
        0
    }
}

/// The whole backtrace of `cpu` over `mem`, innermost frame first: the
/// frames from the registers, whatever the limit, and after them frames from
/// the chain up to `max_frames` in all.
pub open spec fn unwind_frames(
    cpu: Cpu,
    mem: Memory,
    symbols: Seq<SymbolView>,
    max_frames: nat,
) -> Seq<FrameView> {
    let head = register_frames(cpu, symbols);
    head + walk_frames(
        mem,
        symbols,
        cpu.reg(Reg::R30),
        head.last().pc,
        chain_room(cpu, symbols, max_frames),
    )
}

/// `frames` with each frame named as `symbols` names its program counter.
pub open spec fn renamed(frames: Seq<FrameView>, symbols: Seq<SymbolView>) -> Seq<FrameView> {
    Seq::new(
        frames.len(),
        |i: int| FrameView { function_name: resolve(symbols, frames[i].pc), ..frames[i] },
    )
}

/// A walk adds no more frames than it has room for, and the symbols decide
/// the names of its frames and nothing else.
pub proof fn lemma_walk_frames(
    mem: Memory,
    symbols: Seq<SymbolView>,
    other: Seq<SymbolView>,
    fp: u32,
    last_pc: u32,
    room: nat,
)
    ensures
        walk_frames(mem, symbols, fp, last_pc, room).len() <= room,
        walk_frames(mem, symbols, fp, last_pc, room) == renamed(
            walk_frames(mem, other, fp, last_pc, room),
            symbols,
        ),
    decreases u32::MAX - fp,
{
    let mine = walk_frames(mem, symbols, fp, last_pc, room);
    let theirs = walk_frames(mem, other, fp, last_pc, room);
    if room == 0 || !frame_record_at(fp) {
        assert(mine =~= renamed(theirs, symbols));
    } else {
        let return_addr = mem.word_at(fp + 4);
        let prev_fp = mem.word_at(fp as int);
        if return_addr == 0 || prev_fp == 0 {
            assert(mine =~= renamed(theirs, symbols));
        } else {
            let fresh = return_addr != last_pc && is_valid_address(return_addr);
            let next_pc = if fresh {
                return_addr
            } else {
                last_pc
            };
            let added: nat = if fresh {
                1
            } else {
                0
            };
            if prev_fp > fp {
                lemma_walk_frames(mem, symbols, other, prev_fp, next_pc, (room - added) as nat);
            }
            assert(mine =~= renamed(theirs, symbols));
        }
    }
}

/// A backtrace always starts with the frames from the registers, the current
/// frame first, and holds at most `max_frames` frames, or else the frames
/// from the registers alone: those are never left out.
pub proof fn lemma_unwind_shape(cpu: Cpu, mem: Memory, symbols: Seq<SymbolView>, max_frames: nat)
    ensures
        unwind_frames(cpu, mem, symbols, max_frames).len() <= max_frames || unwind_frames(
            cpu,
            mem,
            symbols,
            max_frames,
        ) == register_frames(cpu, symbols),
        register_frames(cpu, symbols).is_prefix_of(
            unwind_frames(cpu, mem, symbols, max_frames),
        ),
        1 <= register_frames(cpu, symbols).len() <= 2,
        unwind_frames(cpu, mem, symbols, max_frames)[0] == (FrameView {
            pc: cpu.reg(Reg::Pc),
            sp: cpu.reg(Reg::R29),
            fp: cpu.reg(Reg::R30),
            function_name: resolve(symbols, cpu.reg(Reg::Pc)),
        }),
{
    let head = register_frames(cpu, symbols);
    let room = chain_room(cpu, symbols, max_frames);
    let tail = walk_frames(mem, symbols, cpu.reg(Reg::R30), head.last().pc, room);
    lemma_walk_frames(mem, symbols, symbols, cpu.reg(Reg::R30), head.last().pc, room);
    if room == 0 {
        assert(head + tail =~= head);
    }
}

/// Symbols are for display only: with other symbols a backtrace holds the
/// same frames, under other names.
pub proof fn lemma_symbols_only_name_frames(
    cpu: Cpu,
    mem: Memory,
    symbols: Seq<SymbolView>,
    other: Seq<SymbolView>,
    max_frames: nat,
)
    ensures
        unwind_frames(cpu, mem, symbols, max_frames) == renamed(
            unwind_frames(cpu, mem, other, max_frames),
            symbols,
        ),
{
    let mine = register_frames(cpu, symbols);
    let theirs = register_frames(cpu, other);
    assert(mine.last().pc == theirs.last().pc);
    let room = chain_room(cpu, symbols, max_frames);
    assert(room == chain_room(cpu, other, max_frames));
    lemma_walk_frames(mem, symbols, other, cpu.reg(Reg::R30), mine.last().pc, room);
    assert(unwind_frames(cpu, mem, symbols, max_frames) =~= renamed(
        unwind_frames(cpu, mem, other, max_frames),
        symbols,
    ));
}

/// The frame that the record at `fp` adds: its return address as program
/// counter, the address after the record as stack pointer, and the caller's
/// frame pointer.
pub open spec fn record_frame(mem: Memory, symbols: Seq<SymbolView>, fp: u32) -> FrameView {
    FrameView {
        pc: mem.word_at(fp + 4),
        sp: (fp + 8) as u32,
        fp: mem.word_at(fp as int),
        function_name: resolve(symbols, mem.word_at(fp + 4)),
    }
}

/// A chain of three frame records at rising addresses, with three distinct
/// valid return addresses of which the first repeats neither the program
/// counter nor the link register, and whose last record points to no higher
/// record, gives the frames from the registers and after them one frame for
/// each record, innermost first: five frames at most.
pub proof fn lemma_unwind_chain_of_three(
    cpu: Cpu,
    mem: Memory,
    symbols: Seq<SymbolView>,
    max_frames: nat,
    f0: u32,
    f1: u32,
    f2: u32,
)
    requires
        max_frames >= 5,
        cpu.reg(Reg::R30) == f0,
        f0 < f1 < f2,
        frame_record_at(f0),
        frame_record_at(f1),
        frame_record_at(f2),
        mem.word_at(f0 as int) == f1,
        mem.word_at(f1 as int) == f2,
        mem.word_at(f2 as int) != 0,
        mem.word_at(f2 as int) <= f2,
        is_valid_address(mem.word_at(f0 + 4)),
        is_valid_address(mem.word_at(f1 + 4)),
        is_valid_address(mem.word_at(f2 + 4)),
        mem.word_at(f0 + 4) != mem.word_at(f1 + 4),
        mem.word_at(f1 + 4) != mem.word_at(f2 + 4),
        mem.word_at(f0 + 4) != cpu.reg(Reg::R31),
        mem.word_at(f0 + 4) != cpu.reg(Reg::Pc),
    ensures
        unwind_frames(cpu, mem, symbols, max_frames) == register_frames(cpu, symbols) + seq![
            record_frame(mem, symbols, f0),
            record_frame(mem, symbols, f1),
            record_frame(mem, symbols, f2),
        ],
        unwind_frames(cpu, mem, symbols, max_frames).len() <= 5,
        unwind_frames(cpu, mem, symbols, max_frames)[0].pc == cpu.reg(Reg::Pc),
{
    let head = register_frames(cpu, symbols);
    let room = chain_room(cpu, symbols, max_frames);
    let r0 = mem.word_at(f0 + 4);
    let r1 = mem.word_at(f1 + 4);
    let r2 = mem.word_at(f2 + 4);
    assert(room >= 3);
    let third = walk_frames(mem, symbols, f2, r1, (room - 2) as nat);
    assert(third =~= seq![record_frame(mem, symbols, f2)]);
    let second = walk_frames(mem, symbols, f1, r0, (room - 1) as nat);
    assert(second =~= seq![record_frame(mem, symbols, f1)] + third);
    let first = walk_frames(mem, symbols, f0, head.last().pc, room);
    assert(first =~= seq![record_frame(mem, symbols, f0)] + second);
    assert(first =~= seq![
        record_frame(mem, symbols, f0),
        record_frame(mem, symbols, f1),
        record_frame(mem, symbols, f2),
    ]);
}

/// True when two memories hold the same frame records along the chain that
/// starts at `fp`, as the first of them shows it.
pub open spec fn same_chain(mem: Memory, other: Memory, fp: u32) -> bool
    decreases u32::MAX - fp,
{
    &&& mem.word_at(fp as int) == other.word_at(fp as int)
    &&& mem.word_at(fp + 4) == other.word_at(fp + 4)
    &&& match chain_successor(fp, mem.word_at(fp as int), mem.word_at(fp + 4)) {
        Some(next) => same_chain(mem, other, next),
        None => true,
    }
}

/// A walk reads memory along its chain and nowhere else: over two memories
/// that hold the same records along the chain it finds the same frames.
pub proof fn lemma_walk_reads_the_chain(
    mem: Memory,
    other: Memory,
    symbols: Seq<SymbolView>,
    fp: u32,
    last_pc: u32,
    room: nat,
)
    requires
        same_chain(mem, other, fp),
    ensures
        walk_frames(mem, symbols, fp, last_pc, room) == walk_frames(
            other,
            symbols,
            fp,
            last_pc,
            room,
        ),
    decreases u32::MAX - fp,
{
    if room > 0 && frame_record_at(fp) {
        let return_addr = mem.word_at(fp + 4);
        let prev_fp = mem.word_at(fp as int);
        if return_addr != 0 && prev_fp != 0 && prev_fp > fp {
            let fresh = return_addr != last_pc && is_valid_address(return_addr);
            let added: nat = if fresh {
                1
            } else {
                0
            };
            lemma_walk_reads_the_chain(
                mem,
                other,
                symbols,
                prev_fp,
                if fresh {
                    return_addr
                } else {
                    last_pc
                },
                (room - added) as nat,
            );
        }
    }
}

/// Where the chain goes on after the record at `fp`. Whoever captures memory
/// for a backtrace follows the chain with this, record by record.
pub fn next_frame_record(fp: u32, prev_fp: u32, return_addr: u32) -> (next: Option<u32>)
    ensures
        next == chain_successor(fp, prev_fp, return_addr),
{
    if fp != 0 && fp % 4 == 0 && fp <= 0xFFFF_FFF7 && return_addr != 0 && prev_fp != 0 && prev_fp
        > fp {
        Some(prev_fp)
    } else {
        None
    }
}

/// What a backtrace fails with on a machine without a current CPU to read.
pub open spec fn unwind_failure(m: MachineView) -> Seq<char> {
    match m.current_failure() {
        EmuError::UnreadableCpu(_) => "Cannot read the registers of the current CPU"@,
        _ => "No current CPU"@,
    }
}

/// What configures an unwinder, as a value for contracts.
pub struct UnwinderView {
    pub max_frames: nat,
    pub symbols: Seq<SymbolView>,
}

/// Walks the stack of the current CPU of a machine.
#[derive(Clone, Debug)]
pub struct HexagonUnwinder {
    max_frames: usize,
    symbol_map: Option<SymbolMap>,
}

impl View for HexagonUnwinder {
    type V = UnwinderView;

    closed spec fn view(&self) -> UnwinderView {
        UnwinderView {
            max_frames: self.max_frames as nat,
            symbols: match self.symbol_map {
                Some(map) => map@,
                None => Seq::empty(),
            },
        }
    }
}

impl HexagonUnwinder {
    /// An unwinder whose backtraces hold at most `DEFAULT_MAX_FRAMES` frames,
    /// and which knows no symbols.
    pub fn new() -> (u: HexagonUnwinder)
        ensures
            u@.max_frames == DEFAULT_MAX_FRAMES,
            u@.symbols == Seq::<SymbolView>::empty(),
    {
        HexagonUnwinder { max_frames: DEFAULT_MAX_FRAMES, symbol_map: None }
    }

    /// This unwinder with `symbol_map` as its symbols.
    pub fn with_symbol_map(self, symbol_map: SymbolMap) -> (u: HexagonUnwinder)
        ensures
            u@.max_frames == self@.max_frames,
            u@.symbols == symbol_map@,
    {
        let mut u = self;
        u.symbol_map = Some(symbol_map);
        u
    }

    /// This unwinder with backtraces of at most `max_frames` frames. The
    /// frames from the registers are part of every backtrace, whatever the
    /// limit.
    pub fn with_max_frames(self, max_frames: usize) -> (u: HexagonUnwinder)
        ensures
            u@.max_frames == max_frames,
            u@.symbols == self@.symbols,
    {
        let mut u = self;
        u.max_frames = max_frames;
        u
    }

    fn lookup_symbol(&self, addr: u32) -> (name: Option<String>)
        ensures
            name is Some <==> resolve(self@.symbols, addr) is Some,
            name matches Some(n) ==> Some(n@) == resolve(self@.symbols, addr),
    {
        match &self.symbol_map {
            Some(map) => match map.lookup(addr) {
                Some(name) => Some(String::from_str(name)),
                None => None,
            },
            None => None,
        }
    }

    /// The backtrace of the current CPU, innermost frame first. It holds the
    /// frames from the registers, and frames from the chain as far as the
    /// limit allows. Fails only where no CPU is current, or where the
    /// registers of the current CPU could not be read.
    pub fn unwind(&self, machine: &Machine) -> (r: Result<Vec<StackFrame>, UnwindError>)
        ensures
            machine@.has_current() ==> (r matches Ok(frames) && frames_view(frames@)
                == unwind_frames(
                machine@.current_cpu(),
                machine@.memory,
                self@.symbols,
                self@.max_frames,
            )),
            r matches Ok(frames) ==> 1 <= frames@.len() && (frames@.len() <= self@.max_frames
                || frames@.len() <= 2),
            !machine@.has_current() ==> (r matches Err(e) && e@ == unwind_failure(machine@)),
    {
        let cpu = match machine.current_cpu() {
            Ok(cpu) => cpu,
            Err(EmuError::UnreadableCpu(_)) => {
                return Err(UnwindError::new("Cannot read the registers of the current CPU"));
            },
            Err(_) => {
                return Err(UnwindError::new("No current CPU"));
            },
        };
        let pc = cpu.read_reg(Reg::Pc);
        let sp = cpu.read_reg(Reg::R29);
        let fp = cpu.read_reg(Reg::R30);
        let lr = cpu.read_reg(Reg::R31);
        let ghost total = unwind_frames(cpu, machine.memory, self@.symbols, self@.max_frames);

        let mut frames: Vec<StackFrame> = Vec::new();
        frames.push(StackFrame { pc, sp, fp, function_name: self.lookup_symbol(pc) });
        let mut last_pc = pc;
        if lr != 0 && lr != pc {
            frames.push(StackFrame { pc: lr, sp, fp, function_name: self.lookup_symbol(lr) });
            last_pc = lr;
        }
        proof {
            assert(frames_view(frames@) =~= register_frames(cpu, self@.symbols));
        }

        let mut current_fp = fp;
        let mut done = false;
        while !done && frames.len() < self.max_frames
            invariant
                frames@.len() >= 1,
                total == frames_view(frames@) + (if done {
                    Seq::<FrameView>::empty()
                } else {
                    walk_frames(
                        machine.memory,
                        self@.symbols,
                        current_fp,
                        last_pc,
                        if self.max_frames > frames@.len() {
                            (self.max_frames - frames@.len()) as nat
                        } else {
                            0
                        },
                    )
                }),
            decreases u32::MAX - current_fp, (if done { 0int } else { 1int }),
        {
            let ghost before = frames_view(frames@);
            let ghost room = (self.max_frames - frames@.len()) as nat;
            let ghost rest = walk_frames(
                machine.memory,
                self@.symbols,
                current_fp,
                last_pc,
                room,
            );
            if current_fp == 0 || current_fp % 4 != 0 || current_fp > 0xFFFF_FFF7 {
                done = true;
                proof {
                    assert(rest =~= Seq::<FrameView>::empty());
                }
            } else {
                let return_addr = machine.memory.read_u32(current_fp + 4);
                let prev_fp = machine.memory.read_u32(current_fp);
                if return_addr == 0 || prev_fp == 0 {
                    done = true;
                } else {
                    if return_addr != last_pc && return_addr != 0xFFFF_FFFF && return_addr % 4
                        == 0 {
                        frames.push(
                            StackFrame {
                                pc: return_addr,
                                sp: current_fp + 8,
                                fp: prev_fp,
                                function_name: self.lookup_symbol(return_addr),
                            },
                        );
                        last_pc = return_addr;
                    }
                    match next_frame_record(current_fp, prev_fp, return_addr) {
                        Some(next) => {
                            current_fp = next;
                        },
                        None => {
                            done = true;
                        },
                    }
                    proof {
                        let left: nat = if self.max_frames > frames@.len() {
                            (self.max_frames - frames@.len()) as nat
                        } else {
                            0
                        };
                        let step = walk_frames(
                            machine.memory,
                            self@.symbols,
                            current_fp,
                            last_pc,
                            left,
                        );
                        let tail = if done {
                            Seq::<FrameView>::empty()
                        } else {
                            step
                        };
                        assert(before + rest =~= frames_view(frames@) + tail);
                    }
                }
            }
        }
        proof {
            assert(total =~= frames_view(frames@));
            lemma_unwind_shape(cpu, machine.memory, self@.symbols, self@.max_frames);
        }
        Ok(frames)
    }

    /// The backtrace of the current CPU as text: a header line, one line per
    /// frame, and a footer line.
    pub fn generate_backtrace(&self, machine: &Machine) -> (r: Result<String, UnwindError>)
        ensures
            machine@.has_current() ==> (r matches Ok(text) && text@ == backtrace_text(
                unwind_frames(
                    machine@.current_cpu(),
                    machine@.memory,
                    self@.symbols,
                    self@.max_frames,
                ),
            )),
            !machine@.has_current() ==> (r matches Err(e) && e@ == unwind_failure(machine@)),
    {
        let frames = match self.unwind(machine) {
            Ok(frames) => frames,
            Err(e) => {
                return Err(e);
            },
        };
        let ghost views = frames_view(frames@);
        let mut output = String::from_str("----- Backtrace -----\n");
        let mut i: usize = 0;
        while i < frames.len()
            invariant
                i <= frames@.len(),
                views == frames_view(frames@),
                output@ == "----- Backtrace -----\n"@ + frame_lines(views, i as nat),
            decreases frames@.len() - i,
        {
            let line = frames[i].to_line(i);
            output.append(line.as_str());
            proof {
                assert(views[i as int] == frames@[i as int]@);
                assert(output@ =~= "----- Backtrace -----\n"@ + frame_lines(
                    views,
                    (i + 1) as nat,
                ));
            }
            i += 1;
        }
        output.append("----- End of Backtrace -----\n");
        Ok(output)
    }

    /// True when the current CPU reports an exception in its status register.
    /// Without a current CPU there is nothing to report.
    pub fn is_in_exception(&self, machine: &Machine) -> (b: bool)
        ensures
            b == (machine@.has_current() && machine@.current_cpu().reg(Reg::Usr) & 0x10 != 0),
    {
        match machine.current_cpu() {
            Ok(cpu) => (cpu.read_reg(Reg::Usr) & 0x10) != 0,
            Err(_) => false,
        }
    }

    /// The cause bits of the current CPU's status register.
    pub fn get_exception_cause(&self, machine: &Machine) -> (r: Result<u32, UnwindError>)
        ensures
            machine@.has_current() ==> (r matches Ok(cause) && cause
                == machine@.current_cpu().reg(Reg::Usr) & 0x7),
            !machine@.has_current() ==> (r matches Err(e) && e@
                == "Could not determine exception cause"@),
    {
        match machine.current_cpu() {
            Ok(cpu) => Ok(cpu.read_reg(Reg::Usr) & 0x7),
            Err(_) => Err(UnwindError::new("Could not determine exception cause")),
        }
    }
}

} // verus!
