use hexagon_fuzz::machine::{Machine, Reg};
use hexagon_fuzz::unwinder::{
    next_frame_record, HexagonUnwinder, StackFrame, SymbolMap, UnwindError, DEFAULT_MAX_FRAMES,
};

fn word(w: u32) -> Vec<u8> {
    w.to_le_bytes().to_vec()
}

fn record(prev_fp: u32, return_addr: u32) -> Vec<u8> {
    let mut bytes = word(prev_fp);
    bytes.extend(word(return_addr));
    bytes
}

fn machine_at(pc: u32, sp: u32, fp: u32, lr: u32) -> Machine {
    let mut m = Machine::new(1);
    m.write_reg(Reg::Pc, pc).unwrap();
    m.write_reg(Reg::R29, sp).unwrap();
    m.write_reg(Reg::R30, fp).unwrap();
    m.write_reg(Reg::R31, lr).unwrap();
    m
}

fn pcs(frames: &[StackFrame]) -> Vec<u32> {
    frames.iter().map(|f| f.pc).collect()
}

#[test]
fn symbol_map_starts_empty() {
    let map = SymbolMap::new();
    assert_eq!(map.lookup(0), None);
    assert_eq!(map.lookup(0x1000), None);
}

#[test]
fn symbol_map_ranges_are_half_open() {
    let mut map = SymbolMap::new();
    map.add_symbol(0x1000, 0x2000, "main".to_string());
    assert_eq!(map.lookup(0x0fff), None);
    assert_eq!(map.lookup(0x1000), Some("main"));
    assert_eq!(map.lookup(0x1fff), Some("main"));
    assert_eq!(map.lookup(0x2000), None);
}

#[test]
fn symbol_map_first_containing_range_wins() {
    let mut map = SymbolMap::new();
    map.add_symbol(0x1000, 0x2000, "outer".to_string());
    map.add_symbol(0x1800, 0x1900, "inner".to_string());
    map.add_symbol(0x1f00, 0x3000, "late".to_string());
    assert_eq!(map.lookup(0x1800), Some("outer"));
    assert_eq!(map.lookup(0x1f00), Some("outer"));
    assert_eq!(map.lookup(0x2000), Some("late"));
}

#[test]
fn symbol_map_empty_and_inverted_ranges_match_nothing() {
    let mut map = SymbolMap::new();
    map.add_symbol(0x1000, 0x1000, "empty".to_string());
    map.add_symbol(0x3000, 0x2000, "inverted".to_string());
    assert_eq!(map.lookup(0x1000), None);
    assert_eq!(map.lookup(0x2800), None);
}

#[test]
fn unwind_error_text() {
    let e = UnwindError::new("No current CPU");
    assert_eq!(e.message(), "No current CPU");
    assert_eq!(e.to_string(), "Unwinding error: No current CPU");
}

#[test]
fn stack_frame_text() {
    let plain = StackFrame { pc: 0xabcd, sp: 1, fp: 2, function_name: None };
    assert_eq!(plain.to_string(), "0x0000abcd");
    let named = StackFrame { pc: 0xfe10_12c0, sp: 1, fp: 2, function_name: Some("boot".to_string()) };
    assert_eq!(named.to_string(), "boot (0xfe1012c0)");
    assert_eq!(named.to_line(3), "#3: boot (0xfe1012c0) (FP: 0x00000002, SP: 0x00000001)\n");
    assert_eq!(plain.to_line(12), "#12: 0x0000abcd (FP: 0x00000002, SP: 0x00000001)\n");
}

#[test]
fn unwind_without_cpu_fails() {
    let m = Machine::new(0);
    let unwinder = HexagonUnwinder::new();
    assert_eq!(unwinder.unwind(&m).err().unwrap().message(), "No current CPU");
    assert_eq!(unwinder.generate_backtrace(&m).err().unwrap().message(), "No current CPU");
    assert_eq!(
        unwinder.get_exception_cause(&m).err().unwrap().message(),
        "Could not determine exception cause"
    );
    assert!(!unwinder.is_in_exception(&m));
}

#[test]
fn unwind_first_frame_is_current_registers() {
    let m = machine_at(0x4000, 0x8000, 0, 0);
    let frames = HexagonUnwinder::new().unwind(&m).unwrap();
    assert_eq!(frames.len(), 1);
    assert_eq!(frames[0].pc, 0x4000);
    assert_eq!(frames[0].sp, 0x8000);
    assert_eq!(frames[0].fp, 0);
    assert_eq!(frames[0].function_name, None);
}

#[test]
fn unwind_link_register_frame() {
    let m = machine_at(0x4000, 0x8000, 0, 0x5000);
    let frames = HexagonUnwinder::new().unwind(&m).unwrap();
    assert_eq!(pcs(&frames), vec![0x4000, 0x5000]);
    assert_eq!(frames[1].sp, 0x8000);
    assert_eq!(frames[1].fp, 0);
}

#[test]
fn unwind_link_register_equal_to_pc_adds_no_frame() {
    let m = machine_at(0x4000, 0x8000, 0, 0x4000);
    let frames = HexagonUnwinder::new().unwind(&m).unwrap();
    assert_eq!(pcs(&frames), vec![0x4000]);
}

#[test]
fn unwind_chain_of_depth_three() {
    let mut m = machine_at(0x4000, 0x7ff0, 0x8000, 0x5000);
    m.memory.map(0x8000, record(0x8100, 0x5100));
    m.memory.map(0x8100, record(0x8200, 0x5200));
    m.memory.map(0x8200, record(0x8300, 0x5300));
    let frames = HexagonUnwinder::new().unwind(&m).unwrap();
    assert!(frames.len() <= 5);
    assert_eq!(pcs(&frames), vec![0x4000, 0x5000, 0x5100, 0x5200, 0x5300]);
    assert_eq!(frames[2].sp, 0x8008);
    assert_eq!(frames[2].fp, 0x8100);
    assert_eq!(frames[3].sp, 0x8108);
    assert_eq!(frames[3].fp, 0x8200);
    assert_eq!(frames[4].sp, 0x8208);
    assert_eq!(frames[4].fp, 0x8300);
}

#[test]
fn unwind_skips_return_address_that_repeats_previous_pc() {
    let mut m = machine_at(0x4000, 0x7ff0, 0x8000, 0x5000);
    m.memory.map(0x8000, record(0x8100, 0x5000));
    m.memory.map(0x8100, record(0x8200, 0x5200));
    let frames = HexagonUnwinder::new().unwind(&m).unwrap();
    assert_eq!(pcs(&frames), vec![0x4000, 0x5000, 0x5200]);
}

#[test]
fn unwind_cycle_guard_equal_frame_pointer() {
    let mut m = machine_at(0x4000, 0x7ff0, 0x8000, 0);
    m.memory.map(0x8000, record(0x8000, 0x5100));
    let frames = HexagonUnwinder::new().unwind(&m).unwrap();
    assert_eq!(pcs(&frames), vec![0x4000, 0x5100]);
}

#[test]
fn unwind_cycle_guard_lower_frame_pointer() {
    let mut m = machine_at(0x4000, 0x7ff0, 0x8000, 0);
    m.memory.map(0x8000, record(0x8100, 0x5100));
    m.memory.map(0x8100, record(0x8000, 0x5200));
    let frames = HexagonUnwinder::new().unwind(&m).unwrap();
    assert_eq!(pcs(&frames), vec![0x4000, 0x5100, 0x5200]);
}

#[test]
fn unwind_stops_at_zero_words() {
    let mut m = machine_at(0x4000, 0x7ff0, 0x8000, 0);
    m.memory.map(0x8000, record(0x8100, 0x5100));
    m.memory.map(0x8100, record(0, 0x5200));
    let frames = HexagonUnwinder::new().unwind(&m).unwrap();
    assert_eq!(pcs(&frames), vec![0x4000, 0x5100]);

    let mut m = machine_at(0x4000, 0x7ff0, 0x8000, 0);
    m.memory.map(0x8000, record(0x8100, 0));
    let frames = HexagonUnwinder::new().unwind(&m).unwrap();
    assert_eq!(pcs(&frames), vec![0x4000]);
}

#[test]
fn unwind_ignores_misaligned_frame_pointer() {
    let mut m = machine_at(0x4000, 0x7ff0, 0x8002, 0);
    m.memory.map(0x8002, record(0x8100, 0x5100));
    let frames = HexagonUnwinder::new().unwind(&m).unwrap();
    assert_eq!(pcs(&frames), vec![0x4000]);
}

#[test]
fn unwind_skips_invalid_return_address_but_walks_on() {
    let mut m = machine_at(0x4000, 0x7ff0, 0x8000, 0);
    m.memory.map(0x8000, record(0x8100, 0x5101));
    m.memory.map(0x8100, record(0x8200, 0xffff_ffff));
    m.memory.map(0x8200, record(0x8300, 0x5300));
    let frames = HexagonUnwinder::new().unwind(&m).unwrap();
    assert_eq!(pcs(&frames), vec![0x4000, 0x5300]);
}

#[test]
fn unwind_stops_at_the_end_of_the_address_space() {
    let mut m = machine_at(0x4000, 0x7ff0, 0xffff_fff8, 0);
    m.memory.map(0xffff_fff8, record(0xffff_fffc, 0x5100));
    let frames = HexagonUnwinder::new().unwind(&m).unwrap();
    assert_eq!(pcs(&frames), vec![0x4000]);

    let mut m = machine_at(0x4000, 0x7ff0, 0xffff_fff4, 0);
    m.memory.map(0xffff_fff4, record(0xffff_fff8, 0x5100));
    let frames = HexagonUnwinder::new().unwind(&m).unwrap();
    assert_eq!(pcs(&frames), vec![0x4000, 0x5100]);
    assert_eq!(frames[1].sp, 0xffff_fffc);
}

fn long_chain(records: u32) -> Machine {
    let mut m = machine_at(0x4000, 0x7ff0, 0x10000, 0);
    for i in 0..records {
        let fp = 0x10000 + 0x10 * i;
        m.memory.map(fp, record(fp + 0x10, 0x20000 + 4 * i));
    }
    m
}

#[test]
fn unwind_holds_at_most_thirty_two_frames_by_default() {
    assert_eq!(DEFAULT_MAX_FRAMES, 32);
    let m = long_chain(40);
    let frames = HexagonUnwinder::new().unwind(&m).unwrap();
    assert_eq!(frames.len(), 32);
    assert_eq!(frames[0].pc, 0x4000);
    assert_eq!(frames[1].pc, 0x20000);
    assert_eq!(frames[31].pc, 0x20000 + 4 * 30);
}

#[test]
fn unwind_counts_the_register_frames_towards_the_limit() {
    let mut m = long_chain(33);
    m.write_reg(Reg::R31, 0x5000).unwrap();
    let frames = HexagonUnwinder::new().unwind(&m).unwrap();
    assert_eq!(frames.len(), 32);
    assert_eq!(frames[0].pc, 0x4000);
    assert_eq!(frames[1].pc, 0x5000);
    assert_eq!(frames[2].pc, 0x20000);
    assert_eq!(frames[31].pc, 0x20000 + 4 * 29);
    let text = HexagonUnwinder::new().generate_backtrace(&m).unwrap();
    assert_eq!(text.lines().count(), 34);
}

#[test]
fn unwind_short_chain_is_not_cut() {
    let mut m = long_chain(30);
    m.write_reg(Reg::R31, 0x5000).unwrap();
    let frames = HexagonUnwinder::new().unwind(&m).unwrap();
    assert_eq!(frames.len(), 32);
    let m = long_chain(30);
    let frames = HexagonUnwinder::new().unwind(&m).unwrap();
    assert_eq!(frames.len(), 31);
}

#[test]
fn records_that_add_no_frame_do_not_count() {
    let mut m = machine_at(0x4000, 0x7ff0, 0x10000, 0);
    for i in 0..50u32 {
        let fp = 0x10000 + 0x10 * i;
        let return_addr = if i < 40 { 0x20001 } else { 0x30000 + 4 * i };
        m.memory.map(fp, record(fp + 0x10, return_addr));
    }
    let frames = HexagonUnwinder::new().with_max_frames(4).unwind(&m).unwrap();
    assert_eq!(pcs(&frames), vec![0x4000, 0x30000 + 160, 0x30000 + 164, 0x30000 + 168]);
    let frames = HexagonUnwinder::new().unwind(&m).unwrap();
    assert_eq!(frames.len(), 11);
}

#[test]
fn unwind_with_max_frames() {
    let m = long_chain(40);
    let frames = HexagonUnwinder::new().with_max_frames(3).unwind(&m).unwrap();
    assert_eq!(pcs(&frames), vec![0x4000, 0x20000, 0x20004]);
    let frames = HexagonUnwinder::new().with_max_frames(100).unwind(&m).unwrap();
    assert_eq!(frames.len(), 41);
}

#[test]
fn register_frames_are_never_left_out() {
    let mut m = long_chain(40);
    m.write_reg(Reg::R31, 0x5000).unwrap();
    let frames = HexagonUnwinder::new().with_max_frames(0).unwind(&m).unwrap();
    assert_eq!(pcs(&frames), vec![0x4000, 0x5000]);
    assert_eq!((frames[1].sp, frames[1].fp), (frames[0].sp, frames[0].fp));
    let frames = HexagonUnwinder::new().with_max_frames(1).unwind(&m).unwrap();
    assert_eq!(pcs(&frames), vec![0x4000, 0x5000]);
    let frames = HexagonUnwinder::new().with_max_frames(2).unwind(&m).unwrap();
    assert_eq!(pcs(&frames), vec![0x4000, 0x5000]);
    let frames = HexagonUnwinder::new().with_max_frames(3).unwind(&m).unwrap();
    assert_eq!(pcs(&frames), vec![0x4000, 0x5000, 0x20000]);

    let m = long_chain(40);
    let frames = HexagonUnwinder::new().with_max_frames(0).unwind(&m).unwrap();
    assert_eq!(pcs(&frames), vec![0x4000]);
    let frames = HexagonUnwinder::new().with_max_frames(1).unwind(&m).unwrap();
    assert_eq!(pcs(&frames), vec![0x4000]);
    let frames = HexagonUnwinder::new().with_max_frames(2).unwind(&m).unwrap();
    assert_eq!(pcs(&frames), vec![0x4000, 0x20000]);
}

#[test]
fn unwind_of_an_unreadable_cpu_fails() {
    let mut m = machine_at(0x4000, 0x8000, 0, 0);
    m.mark_unreadable(0);
    let unwinder = HexagonUnwinder::new();
    assert_eq!(
        unwinder.unwind(&m).err().unwrap().message(),
        "Cannot read the registers of the current CPU"
    );
    assert_eq!(
        unwinder.generate_backtrace(&m).err().unwrap().message(),
        "Cannot read the registers of the current CPU"
    );
    assert!(!unwinder.is_in_exception(&m));
    assert_eq!(
        unwinder.get_exception_cause(&m).err().unwrap().message(),
        "Could not determine exception cause"
    );
}

#[test]
fn chain_successor() {
    assert_eq!(next_frame_record(0x8000, 0x8100, 0x5000), Some(0x8100));
    assert_eq!(next_frame_record(0x8000, 0x8100, 0x5001), Some(0x8100));
    assert_eq!(next_frame_record(0x8000, 0x8002, 0x5000), Some(0x8002));
    assert_eq!(next_frame_record(0x8000, 0x8000, 0x5000), None);
    assert_eq!(next_frame_record(0x8000, 0x7ffc, 0x5000), None);
    assert_eq!(next_frame_record(0x8000, 0, 0x5000), None);
    assert_eq!(next_frame_record(0x8000, 0x8100, 0), None);
    assert_eq!(next_frame_record(0, 0x8100, 0x5000), None);
    assert_eq!(next_frame_record(0x8002, 0x8100, 0x5000), None);
    assert_eq!(next_frame_record(0xffff_fff4, 0xffff_fff8, 0x5000), Some(0xffff_fff8));
    assert_eq!(next_frame_record(0xffff_fff8, 0xffff_fffc, 0x5000), None);
}

#[test]
fn unwind_resolves_symbols() {
    let mut map = SymbolMap::new();
    map.add_symbol(0x4000, 0x4100, "leaf".to_string());
    map.add_symbol(0x5100, 0x5200, "caller".to_string());
    let mut m = machine_at(0x4010, 0x7ff0, 0x8000, 0x5000);
    m.memory.map(0x8000, record(0x8100, 0x5104));
    let unwinder = HexagonUnwinder::new().with_symbol_map(map);
    let frames = unwinder.unwind(&m).unwrap();
    assert_eq!(pcs(&frames), vec![0x4010, 0x5000, 0x5104]);
    assert_eq!(frames[0].function_name.as_deref(), Some("leaf"));
    assert_eq!(frames[1].function_name, None);
    assert_eq!(frames[2].function_name.as_deref(), Some("caller"));
}

#[test]
fn symbols_do_not_change_which_frames_are_found() {
    let mut map = SymbolMap::new();
    map.add_symbol(0, u32::MAX, "everything".to_string());
    let mut m = machine_at(0x4000, 0x7ff0, 0x8000, 0x5000);
    m.memory.map(0x8000, record(0x8100, 0x5100));
    m.memory.map(0x8100, record(0x8200, 0x5200));
    let bare = HexagonUnwinder::new().unwind(&m).unwrap();
    let named = HexagonUnwinder::new().with_symbol_map(map).unwind(&m).unwrap();
    assert_eq!(pcs(&bare), pcs(&named));
}

#[test]
fn unwind_acts_on_the_current_cpu() {
    let mut m = Machine::new(2);
    m.cpus[0].write_reg(Reg::Pc, 0x1111_0000);
    m.cpus[1].write_reg(Reg::Pc, 0x2222_0000);
    m.current = Some(1);
    let frames = HexagonUnwinder::new().unwind(&m).unwrap();
    assert_eq!(pcs(&frames), vec![0x2222_0000]);
}

#[test]
fn backtrace_text_is_exact() {
    let mut map = SymbolMap::new();
    map.add_symbol(0x4000, 0x4100, "leaf".to_string());
    let mut m = machine_at(0x4010, 0x7ff0, 0x8000, 0);
    m.memory.map(0x8000, record(0x8100, 0x5104));
    let text = HexagonUnwinder::new().with_symbol_map(map).generate_backtrace(&m).unwrap();
    assert_eq!(
        text,
        "----- Backtrace -----\n\
         #0: leaf (0x00004010) (FP: 0x00008000, SP: 0x00007ff0)\n\
         #1: 0x00005104 (FP: 0x00008100, SP: 0x00008008)\n\
         ----- End of Backtrace -----\n"
    );
}

#[test]
fn backtrace_numbers_frames_in_decimal() {
    let m = long_chain(11);
    let text = HexagonUnwinder::new().generate_backtrace(&m).unwrap();
    assert_eq!(text.lines().count(), 14);
    assert!(text.contains("\n#9: 0x00020020 "));
    assert!(text.contains("\n#10: 0x00020024 "));
    assert!(text.contains("\n#11: 0x00020028 (FP: 0x000100b0, SP: 0x000100a8)\n"));
}

#[test]
fn exception_state_comes_from_the_status_register() {
    let unwinder = HexagonUnwinder::new();
    let mut m = Machine::new(1);
    assert!(!unwinder.is_in_exception(&m));
    assert_eq!(unwinder.get_exception_cause(&m).unwrap(), 0);
    m.write_reg(Reg::Usr, 0x10).unwrap();
    assert!(unwinder.is_in_exception(&m));
    m.write_reg(Reg::Usr, 0xffff_ffef).unwrap();
    assert!(!unwinder.is_in_exception(&m));
    assert_eq!(unwinder.get_exception_cause(&m).unwrap(), 7);
    m.write_reg(Reg::Usr, 0x1d).unwrap();
    assert!(unwinder.is_in_exception(&m));
    assert_eq!(unwinder.get_exception_cause(&m).unwrap(), 5);
}
