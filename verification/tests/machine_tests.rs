use hexagon_fuzz::machine::{Cpu, EmuError, Machine, Memory, Reg};
use hexagon_fuzz::text::{str_equal, to_decimal, to_lower_hex};

const ALL_REGS: [Reg; 34] = [
    Reg::R0, Reg::R1, Reg::R2, Reg::R3, Reg::R4, Reg::R5, Reg::R6, Reg::R7, Reg::R8, Reg::R9,
    Reg::R10, Reg::R11, Reg::R12, Reg::R13, Reg::R14, Reg::R15, Reg::R16, Reg::R17, Reg::R18,
    Reg::R19, Reg::R20, Reg::R21, Reg::R22, Reg::R23, Reg::R24, Reg::R25, Reg::R26, Reg::R27,
    Reg::R28, Reg::R29, Reg::R30, Reg::R31, Reg::Usr, Reg::Pc,
];

#[test]
fn new_cpu_is_zeroed() {
    let cpu = Cpu::new();
    for r in ALL_REGS {
        assert_eq!(cpu.read_reg(r), 0);
    }
}

#[test]
fn write_reg_changes_that_register_only() {
    for (i, target) in ALL_REGS.iter().enumerate() {
        let mut cpu = Cpu::new();
        for (k, r) in ALL_REGS.iter().enumerate() {
            cpu.write_reg(*r, 1000 + k as u32);
        }
        cpu.write_reg(*target, 7);
        for (k, r) in ALL_REGS.iter().enumerate() {
            let expected = if k == i { 7 } else { 1000 + k as u32 };
            assert_eq!(cpu.read_reg(*r), expected);
        }
    }
}

#[test]
fn register_slots() {
    assert_eq!(Reg::R0.slot(), Some(0));
    assert_eq!(Reg::R17.slot(), Some(17));
    assert_eq!(Reg::R31.slot(), Some(31));
    assert_eq!(Reg::Pc.slot(), None);
    assert_eq!(Reg::Usr.slot(), None);
}

#[test]
fn return_address_is_link_register() {
    let mut cpu = Cpu::new();
    cpu.write_reg(Reg::R31, 0xcafe_0000);
    assert_eq!(cpu.read_return_address(), 0xcafe_0000);
}

#[test]
fn function_arguments_are_r0_to_r5() {
    let mut cpu = Cpu::new();
    cpu.write_reg(Reg::R0, 10);
    cpu.write_reg(Reg::R1, 11);
    cpu.write_reg(Reg::R2, 12);
    cpu.write_reg(Reg::R3, 13);
    cpu.write_reg(Reg::R4, 14);
    cpu.write_reg(Reg::R5, 15);
    cpu.write_reg(Reg::R6, 16);
    for idx in 0u8..6 {
        assert_eq!(cpu.read_function_argument(idx), Ok(10 + idx as u32));
    }
    assert_eq!(cpu.read_function_argument(6), Err(EmuError::UnsupportedArgument(6)));
    assert_eq!(cpu.read_function_argument(255), Err(EmuError::UnsupportedArgument(255)));
}

#[test]
fn unmapped_memory_reads_zero() {
    let mem = Memory::new();
    assert_eq!(mem.read_byte(0), 0);
    assert_eq!(mem.read_byte(0x1234), 0);
    assert_eq!(mem.read_u32(0xffff_fffc), 0);
    assert_eq!(mem.read_bytes(0x10, 3), vec![0, 0, 0]);
}

#[test]
fn mapped_memory_reads_back() {
    let mut mem = Memory::new();
    mem.map(0x1000, vec![1, 2, 3, 4, 5]);
    assert_eq!(mem.read_byte(0x0fff), 0);
    assert_eq!(mem.read_byte(0x1000), 1);
    assert_eq!(mem.read_byte(0x1004), 5);
    assert_eq!(mem.read_byte(0x1005), 0);
    assert_eq!(mem.read_bytes(0x0ffe, 9), vec![0, 0, 1, 2, 3, 4, 5, 0, 0]);
    assert_eq!(mem.read_bytes(0x1000, 0), Vec::<u8>::new());
}

#[test]
fn words_are_little_endian() {
    let mut mem = Memory::new();
    mem.map(0x2000, vec![0x78, 0x56, 0x34, 0x12, 0xff, 0xff, 0xff, 0xff]);
    assert_eq!(mem.read_u32(0x2000), 0x1234_5678);
    assert_eq!(mem.read_u32(0x2004), 0xffff_ffff);
    assert_eq!(mem.read_u32(0x2002), 0xffff_1234);
    assert_eq!(mem.read_u32(0x2006), 0x0000_ffff);
}

#[test]
fn earlier_region_takes_precedence() {
    let mut mem = Memory::new();
    mem.map(0x1000, vec![1, 1, 1, 1]);
    mem.map(0x0ffe, vec![2, 2, 2, 2, 2, 2, 2, 2]);
    assert_eq!(mem.read_bytes(0x0ffe, 8), vec![2, 2, 1, 1, 1, 1, 2, 2]);
}

#[test]
fn reads_past_the_address_space_yield_zero() {
    let mut mem = Memory::new();
    mem.map(0xffff_fffe, vec![0xaa, 0xbb, 0xcc, 0xdd]);
    assert_eq!(mem.read_byte(0xffff_ffff), 0xbb);
    assert_eq!(mem.read_bytes(0xffff_fffe, 4), vec![0xaa, 0xbb, 0, 0]);
    assert_eq!(mem.read_u32(0xffff_fffe), 0x0000_bbaa);
}

#[test]
fn new_machine() {
    let m = Machine::new(3);
    assert_eq!(m.num_cpus(), 3);
    assert_eq!(m.current_index(), Some(0));
    assert!(m.breakpoints.is_empty());
    assert!(m.console.is_empty());
    assert_eq!(m.exit_code, None);
    assert_eq!(m.current_cpu().unwrap().read_reg(Reg::Pc), 0);
    let none = Machine::new(0);
    assert_eq!(none.num_cpus(), 0);
    assert_eq!(none.current_index(), None);
    assert_eq!(none.current_cpu().err(), Some(EmuError::NoCurrentCpu));
}

#[test]
fn current_index_out_of_range_is_no_cpu() {
    let mut m = Machine::new(2);
    m.current = Some(2);
    assert_eq!(m.current_index(), None);
    assert_eq!(m.write_reg(Reg::Pc, 4), Err(EmuError::NoCurrentCpu));
    assert_eq!(m.cpus[0].pc, 0);
    assert_eq!(m.cpus[1].pc, 0);
}

#[test]
fn machine_write_reg_acts_on_current_cpu() {
    let mut m = Machine::new(3);
    m.current = Some(1);
    assert_eq!(m.write_reg(Reg::R7, 99), Ok(()));
    assert_eq!(m.cpus[0].read_reg(Reg::R7), 0);
    assert_eq!(m.cpus[1].read_reg(Reg::R7), 99);
    assert_eq!(m.cpus[2].read_reg(Reg::R7), 0);
}

#[test]
fn breakpoints_behave_as_a_set() {
    let mut m = Machine::new(1);
    m.set_breakpoint(0x10);
    m.set_breakpoint(0x20);
    m.set_breakpoint(0x10);
    assert_eq!(m.breakpoints, vec![0x10, 0x20]);
    assert!(m.has_breakpoint(0x10));
    assert!(!m.has_breakpoint(0x30));
    m.remove_breakpoint(0x10);
    assert_eq!(m.breakpoints, vec![0x20]);
    assert!(!m.has_breakpoint(0x10));
    m.remove_breakpoint(0x99);
    assert_eq!(m.breakpoints, vec![0x20]);
}

#[test]
fn remove_breakpoint_takes_every_occurrence() {
    let mut m = Machine::new(1);
    m.breakpoints = vec![1, 2, 1, 3, 1];
    m.remove_breakpoint(1);
    assert_eq!(m.breakpoints, vec![2, 3]);
}

#[test]
fn emitted_lines_are_kept_in_order() {
    let mut m = Machine::new(1);
    m.emit("one".to_string());
    m.emit("two".to_string());
    assert_eq!(m.console, vec!["one".to_string(), "two".to_string()]);
}

#[test]
fn decimal_rendering() {
    assert_eq!(to_decimal(0), "0");
    assert_eq!(to_decimal(7), "7");
    assert_eq!(to_decimal(10), "10");
    assert_eq!(to_decimal(1337), "1337");
    assert_eq!(to_decimal(u32::MAX), "4294967295");
}

#[test]
fn hex_rendering() {
    assert_eq!(to_lower_hex(0), "0");
    assert_eq!(to_lower_hex(15), "f");
    assert_eq!(to_lower_hex(16), "10");
    assert_eq!(to_lower_hex(255), "ff");
    assert_eq!(to_lower_hex(0xdead_beef), "deadbeef");
    assert_eq!(to_lower_hex(u32::MAX), "ffffffff");
}

#[test]
fn string_equality() {
    assert!(str_equal("", ""));
    assert!(str_equal("app_init_done", "app_init_done"));
    assert!(!str_equal("app_init_done", "app_init_don"));
    assert!(!str_equal("abc", "abd"));
    assert!(str_equal("h\u{e9}llo", "h\u{e9}llo"));
}

#[test]
fn unreadable_cpus() {
    let mut m = Machine::new(3);
    assert!(m.is_readable(0) && m.is_readable(1) && m.is_readable(2));
    m.mark_unreadable(1);
    assert!(m.is_readable(0));
    assert!(!m.is_readable(1));
    assert!(m.is_readable(2));
    assert_eq!(m.unreadable, vec![1]);
    assert_eq!(m.current_index(), Some(0));
    m.current = Some(1);
    assert_eq!(m.current_index(), None);
    assert_eq!(m.current_cpu().err(), Some(EmuError::UnreadableCpu(1)));
    assert_eq!(m.write_reg(Reg::Pc, 8), Err(EmuError::UnreadableCpu(1)));
    assert_eq!(m.cpus[1].pc, 0);
    m.current = Some(7);
    assert_eq!(m.current_cpu().err(), Some(EmuError::NoCurrentCpu));
}
