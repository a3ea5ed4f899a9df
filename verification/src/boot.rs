//! The boot sequencer: from reset to the point where a snapshot is taken.
//!
//! Booting alternates between the emulator, which runs until it traps, and
//! the harness, which decides at every stop whether the firmware has come far
//! enough. The sequencer is that decision as a state machine. Whoever drives
//! the emulator starts it once, and from then on does at every stop what the
//! sequencer answers.

use crate::breakpoints::{dispatch, handle_breakpoint, set_breakpoints, with_breakpoints};
use crate::config::{init_done_marker, Config};
use crate::machine::{EmuError, Machine, MachineView, Reg};
use crate::text::str_equal;
use vstd::prelude::*;

verus! {

/// Where a boot stands.
#[derive(Clone, Copy, Debug, PartialEq, Eq, Structural)]
pub enum BootState {
    /// The emulator is running, or has stopped and waits for a decision.
    Running,
    /// The snapshot was taken at the end of firmware initialisation.
    SnapshotAtInit,
    /// The snapshot was taken at the entry of the function under test.
    SnapshotAtFuzzTarget,
}

/// What the driver of the emulator has to do after a stop.
#[derive(Clone, Copy, Debug, PartialEq, Eq, Structural)]
pub enum BootAction {
    /// Let the emulator run on.
    Resume,
    /// Take the snapshot and stop booting.
    Snapshot,
    /// Nothing: the snapshot has been taken before.
    Finished,
}

/// One stop of the emulator as the sequencer sees it: the program counter of
/// the current CPU before the stop was handled, and the name under which the
/// stop was reported.
pub struct Stop {
    pub pc: u32,
    pub name: Seq<char>,
}

/// The boot sequencer.
///
/// A new sequencer is `Running`: it stands for an emulator that has been
/// started once.
#[derive(Clone, Copy, Debug)]
pub struct BootSequencer {
    pub state: BootState,
    /// Whether reaching the function under test ends the boot.
    pub fuzz: bool,
    /// Entry of the function under test.
    pub fuzz_target_address: u32,
}

impl BootSequencer {
    /// The state after `stop`, and what to do about it.
    ///
    /// While running, a stop at the entry of the function under test ends
    /// the boot if fuzzing is configured; else the stop that reports the end
    /// of initialisation ends it; any other stop resumes. Once the snapshot
    /// has been taken nothing changes any more.
    pub open spec fn step(self, stop: Stop) -> (BootSequencer, BootAction) {
        if self.state != BootState::Running {
            (self, BootAction::Finished)
        } else if self.fuzz && stop.pc == self.fuzz_target_address {
            (
                BootSequencer { state: BootState::SnapshotAtFuzzTarget, ..self },
                BootAction::Snapshot,
            )
        } else if stop.name == init_done_marker() {
            (BootSequencer { state: BootState::SnapshotAtInit, ..self }, BootAction::Snapshot)
        } else {
            (self, BootAction::Resume)
        }
    }

    /// The sequencer after the first `count` of `stops`.
    pub open spec fn after(self, stops: Seq<Stop>, count: nat) -> BootSequencer
        decreases count,
    {
        if count == 0 {
            self
        } else {
            self.after(stops, (count - 1) as nat).step(stops[count - 1]).0
        }
    }

    /// How often the emulator was set running up to and including the first
    /// `count` of `stops`: once at the start, and once for every stop that
    /// was answered with `Resume`.
    pub open spec fn runs(self, stops: Seq<Stop>, count: nat) -> nat
        decreases count,
    {
        if count == 0 {
            1
        } else {
            let before = self.runs(stops, (count - 1) as nat);
            if self.after(stops, (count - 1) as nat).step(stops[count - 1]).1
                == BootAction::Resume {
                before + 1
            } else {
                before
            }
        }
    }

    /// How many snapshots were asked for over the first `count` of `stops`.
    pub open spec fn snapshots(self, stops: Seq<Stop>, count: nat) -> nat
        decreases count,
    {
        if count == 0 {
            0
        } else {
            let before = self.snapshots(stops, (count - 1) as nat);
            if self.after(stops, (count - 1) as nat).step(stops[count - 1]).1
                == BootAction::Snapshot {
                before + 1
            } else {
                before
            }
        }
    }

    /// The sequencer for a boot under `config`.
    pub fn new(config: &Config) -> (s: BootSequencer)
        ensures
            s.state == BootState::Running,
            s.fuzz == config.fuzz,
            s.fuzz_target_address == config.fuzz_target_address,
    {
        BootSequencer {
            state: BootState::Running,
            fuzz: config.fuzz,
            fuzz_target_address: config.fuzz_target_address,
        }
    }

    /// True once the snapshot has been taken.
    pub fn is_finished(&self) -> (done: bool)
        ensures
            done == (self.state != BootState::Running),
    {
        match self.state {
            BootState::Running => false,
            BootState::SnapshotAtInit => true,
            BootState::SnapshotAtFuzzTarget => true,
        }
    }

    /// Takes note of a stop and answers what to do. `pc` is the program
    /// counter of the current CPU before the stop was handled, `name` what
    /// handling the stop reported.
    pub fn on_stop(&mut self, pc: u32, name: &str) -> (action: BootAction)
        ensures
            (*final(self), action) == old(self).step(Stop { pc, name: name@ }),
    {
        if self.is_finished() {
            BootAction::Finished
        } else if self.fuzz && pc == self.fuzz_target_address {
            self.state = BootState::SnapshotAtFuzzTarget;
            BootAction::Snapshot
        } else if str_equal(name, "app_init_done") {
            self.state = BootState::SnapshotAtInit;
            BootAction::Snapshot
        } else {
            BootAction::Resume
        }
    }
}

/// The machine as a boot needs it: trapping at every configured address and,
/// where fuzzing is configured, at the entry of the function under test.
pub open spec fn armed(m: MachineView, config: Config) -> MachineView {
    let with_entries = with_breakpoints(m, config.breakpoints@, config.breakpoints@.len());
    if config.fuzz {
        with_entries.with_breakpoint(config.fuzz_target_address)
    } else {
        with_entries
    }
}

/// Sets the breakpoints that a boot needs.
pub fn arm_boot(emu: &mut Machine, config: &Config)
    ensures
        final(emu)@ == armed(old(emu)@, *config),
{
    set_breakpoints(emu, config);
    if config.fuzz {
        emu.set_breakpoint(config.fuzz_target_address);
    }
}

/// What one stop of a boot amounts to: the sequencer and the machine
/// afterwards, and what to do.
///
/// Once the snapshot has been taken the boot is over: nothing is handled any
/// more, and the machine stays as it is. While the boot is running, the stop
/// is handled first. Then the sequencer decides on the program counter that
/// the current CPU had before, and on the name that was reported. Where the
/// boot ends at the entry of the function under test, the breakpoint there is
/// removed, so that it does not trap again.
pub open spec fn boot_stop(seq: BootSequencer, m: MachineView, config: Config) -> Result<
    (BootSequencer, MachineView, BootAction),
    EmuError,
> {
    if seq.state != BootState::Running {
        Ok((seq, m, BootAction::Finished))
    } else if !m.has_current() {
        Err(m.current_failure())
    } else {
        match dispatch(m, config.breakpoints@) {
            Err(e) => Err(e),
            Ok((name, handled)) => {
                let (next, action) = seq.step(Stop { pc: m.current_cpu().reg(Reg::Pc), name });
                if next.state == BootState::SnapshotAtFuzzTarget {
                    Ok((next, handled.without_breakpoint(seq.fuzz_target_address), action))
                } else {
                    Ok((next, handled, action))
                }
            },
        }
    }
}

/// Handles one stop of a boot. On failure the sequencer and the machine are
/// as they were, and so they are once the boot is over.
pub fn boot_step(seq: &mut BootSequencer, emu: &mut Machine, config: &Config) -> (r: Result<
    BootAction,
    EmuError,
>)
    ensures
        match boot_stop(*old(seq), old(emu)@, *config) {
            Ok((next, after, action)) => r == Ok::<BootAction, EmuError>(action) && *final(seq)
                == next && final(emu)@ == after,
            Err(e) => r == Err::<BootAction, EmuError>(e) && *final(seq) == *old(seq)
                && final(emu)@ == old(emu)@,
        },
{
    if seq.is_finished() {
        return Ok(BootAction::Finished);
    }
    let cpu = match emu.current_cpu() {
        Ok(cpu) => cpu,
        Err(e) => {
            return Err(e);
        },
    };
    let current_pc = cpu.read_reg(Reg::Pc);
    let breakpoint_name = match handle_breakpoint(emu, config) {
        Ok(name) => name,
        Err(e) => {
            return Err(e);
        },
    };
    let action = seq.on_stop(current_pc, breakpoint_name.as_str());
    match seq.state {
        BootState::SnapshotAtFuzzTarget => {
            emu.remove_breakpoint(seq.fuzz_target_address);
        },
        _ => {},
    }
    Ok(action)
}

/// A boot whose stops are all answered with `Resume` is still running, and
/// has set the emulator running once more than it has seen stops.
pub proof fn lemma_boot_while_resuming(seq: BootSequencer, stops: Seq<Stop>, count: nat)
    requires
        seq.state == BootState::Running,
        count <= stops.len(),
        forall|i: int| 0 <= i < count ==> (#[trigger] seq.step(stops[i])).1 == BootAction::Resume,
    ensures
        seq.after(stops, count) == seq,
        seq.runs(stops, count) == count + 1,
        seq.snapshots(stops, count) == 0,
    decreases count,
{
    if count > 0 {
        lemma_boot_while_resuming(seq, stops, (count - 1) as nat);
        assert(seq.step(stops[count - 1]).1 == BootAction::Resume);
    }
}

/// Once the snapshot has been taken, no further stop makes the emulator run
/// or asks for another snapshot.
pub proof fn lemma_boot_stays_finished(seq: BootSequencer, stops: Seq<Stop>, from: nat, count: nat)
    requires
        from <= count <= stops.len(),
        seq.after(stops, from).state != BootState::Running,
    ensures
        seq.after(stops, count) == seq.after(stops, from),
        seq.runs(stops, count) == seq.runs(stops, from),
        seq.snapshots(stops, count) == seq.snapshots(stops, from),
    decreases count - from,
{
    if count > from {
        lemma_boot_stays_finished(seq, stops, from, (count - 1) as nat);
    }
}

/// A boot that sees `n` stops, of which the first `n - 1` are neither at the
/// entry of the function under test nor the end of initialisation and the
/// last reports the end of initialisation, sets the emulator running exactly
/// `n` times and takes exactly one snapshot; whatever stops follow, it sets
/// nothing running and takes no snapshot any more.
pub proof fn lemma_boot_until_init_done(seq: BootSequencer, stops: Seq<Stop>, n: nat, later: nat)
    requires
        seq.state == BootState::Running,
        1 <= n <= later <= stops.len(),
        forall|i: int|
            0 <= i < n - 1 ==> (#[trigger] stops[i]).name != init_done_marker() && !(seq.fuzz
                && stops[i].pc == seq.fuzz_target_address),
        stops[n - 1].name == init_done_marker(),
    ensures
        seq.runs(stops, n) == n,
        seq.snapshots(stops, n) == 1,
        seq.after(stops, n).state != BootState::Running,
        seq.runs(stops, later) == n,
        seq.snapshots(stops, later) == 1,
{
    assert forall|i: int| 0 <= i < n - 1 implies (#[trigger] seq.step(stops[i])).1
        == BootAction::Resume by {
        assert(stops[i].name != init_done_marker());
    }
    lemma_boot_while_resuming(seq, stops, (n - 1) as nat);
    lemma_boot_stays_finished(seq, stops, n, later);
}

} // verus!
