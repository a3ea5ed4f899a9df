use hexagon_fuzz::config::{
    decimal_string_to_u32, hex_address_string_to_u32, Config, ConfigError, FirmwareFunction,
    HandlerFunction,
};

fn entry(name: &str, address: u32, handler: HandlerFunction) -> FirmwareFunction {
    FirmwareFunction { name: name.to_string(), address, handler }
}

fn config_with(breakpoints: Vec<FirmwareFunction>) -> Config {
    Config {
        fuzz: false,
        fuzz_target_address: 0,
        fuzz_target_return_address: 0,
        firmware: String::new(),
        qemu_args: Vec::new(),
        broker_port: 0,
        timeout_seconds: 0,
        cores: 0,
        breakpoints,
    }
}

#[test]
fn hex_address_with_prefix() {
    assert_eq!(hex_address_string_to_u32("0x1000"), Ok(0x1000));
    assert_eq!(hex_address_string_to_u32("0xfe1012c0"), Ok(0xfe10_12c0));
}

#[test]
fn hex_address_without_prefix() {
    assert_eq!(hex_address_string_to_u32("1000"), Ok(0x1000));
    assert_eq!(hex_address_string_to_u32("0"), Ok(0));
}

#[test]
fn hex_address_accepts_both_cases_of_digits() {
    assert_eq!(hex_address_string_to_u32("0xDeadBeef"), Ok(0xdead_beef));
    assert_eq!(hex_address_string_to_u32("ABCDEF"), Ok(0x00ab_cdef));
}

#[test]
fn hex_address_takes_one_prefix_only() {
    assert_eq!(hex_address_string_to_u32("0x10"), Ok(0x10));
    assert_eq!(hex_address_string_to_u32("10"), Ok(0x10));
    assert_eq!(hex_address_string_to_u32("0x0x10"), Err(ConfigError::InvalidNumber));
    assert_eq!(hex_address_string_to_u32("0x0x"), Err(ConfigError::InvalidNumber));
    assert_eq!(hex_address_string_to_u32("0x0"), Ok(0));
    assert_eq!(hex_address_string_to_u32("0x00x1"), Err(ConfigError::InvalidNumber));
}

#[test]
fn hex_address_accepts_plus_sign() {
    assert_eq!(hex_address_string_to_u32("+ff"), Ok(0xff));
    assert_eq!(hex_address_string_to_u32("0x+ff"), Ok(0xff));
}

#[test]
fn hex_address_leading_zeros() {
    assert_eq!(hex_address_string_to_u32("0x0000000000001234"), Ok(0x1234));
}

#[test]
fn hex_address_largest_value() {
    assert_eq!(hex_address_string_to_u32("0xffffffff"), Ok(u32::MAX));
}

#[test]
fn hex_address_out_of_range() {
    assert_eq!(hex_address_string_to_u32("0x100000000"), Err(ConfigError::NumberOutOfRange));
    assert_eq!(
        hex_address_string_to_u32("ffffffffffffffffffffffff"),
        Err(ConfigError::NumberOutOfRange)
    );
}

#[test]
fn hex_address_rejects_empty_and_bare_prefix() {
    assert_eq!(hex_address_string_to_u32(""), Err(ConfigError::InvalidNumber));
    assert_eq!(hex_address_string_to_u32("0x"), Err(ConfigError::InvalidNumber));
    assert_eq!(hex_address_string_to_u32("+"), Err(ConfigError::InvalidNumber));
}

#[test]
fn hex_address_rejects_foreign_characters() {
    assert_eq!(hex_address_string_to_u32("0x12g4"), Err(ConfigError::InvalidNumber));
    assert_eq!(hex_address_string_to_u32("0X10"), Err(ConfigError::InvalidNumber));
    assert_eq!(hex_address_string_to_u32("-1"), Err(ConfigError::InvalidNumber));
    assert_eq!(hex_address_string_to_u32(" 10"), Err(ConfigError::InvalidNumber));
    assert_eq!(hex_address_string_to_u32("1_000"), Err(ConfigError::InvalidNumber));
    assert_eq!(hex_address_string_to_u32("++1"), Err(ConfigError::InvalidNumber));
    assert_eq!(hex_address_string_to_u32("0x\u{e9}"), Err(ConfigError::InvalidNumber));
}

#[test]
fn hex_address_invalid_digit_wins_over_size() {
    assert_eq!(
        hex_address_string_to_u32("fffffffffffffffffffz"),
        Err(ConfigError::InvalidNumber)
    );
}

#[test]
fn decimal_fields() {
    assert_eq!(decimal_string_to_u32("1337"), Ok(1337));
    assert_eq!(decimal_string_to_u32("0"), Ok(0));
    assert_eq!(decimal_string_to_u32("+5"), Ok(5));
    assert_eq!(decimal_string_to_u32("007"), Ok(7));
    assert_eq!(decimal_string_to_u32("4294967295"), Ok(u32::MAX));
}

#[test]
fn decimal_fields_refused() {
    assert_eq!(decimal_string_to_u32("4294967296"), Err(ConfigError::NumberOutOfRange));
    assert_eq!(decimal_string_to_u32("12a"), Err(ConfigError::InvalidNumber));
    assert_eq!(decimal_string_to_u32("0x10"), Err(ConfigError::InvalidNumber));
    assert_eq!(decimal_string_to_u32(""), Err(ConfigError::InvalidNumber));
    assert_eq!(decimal_string_to_u32("-3"), Err(ConfigError::InvalidNumber));
}

#[test]
fn handler_tags() {
    assert_eq!(HandlerFunction::from_tag("HandlePrintln"), Ok(HandlerFunction::HandlePrintln));
    assert_eq!(HandlerFunction::from_tag("HandleNextPc"), Ok(HandlerFunction::HandleNextPc));
    assert_eq!(HandlerFunction::from_tag("HandleJumpOver"), Ok(HandlerFunction::HandleJumpOver));
    assert_eq!(
        HandlerFunction::from_tag("HandleSecondClade"),
        Ok(HandlerFunction::HandleSecondClade)
    );
    assert_eq!(
        HandlerFunction::from_tag("HandleFatalError"),
        Ok(HandlerFunction::HandleFatalError)
    );
    assert_eq!(
        HandlerFunction::from_tag("HandleZeroingYetAnother"),
        Ok(HandlerFunction::HandleZeroingYetAnother)
    );
    assert_eq!(HandlerFunction::from_tag("HandlerEmpty"), Ok(HandlerFunction::HandlerEmpty));
}

#[test]
fn unknown_handler_tags() {
    assert_eq!(HandlerFunction::from_tag("HandleNothing"), Err(ConfigError::UnknownHandler));
    assert_eq!(HandlerFunction::from_tag("handleprintln"), Err(ConfigError::UnknownHandler));
    assert_eq!(HandlerFunction::from_tag(""), Err(ConfigError::UnknownHandler));
    assert_eq!(HandlerFunction::from_tag("HandlePrintln "), Err(ConfigError::UnknownHandler));
}

#[test]
fn firmware_function_from_fields() {
    let f = FirmwareFunction::from_fields("printf".to_string(), "0x4000", "HandlePrintln").unwrap();
    assert_eq!(f.name, "printf");
    assert_eq!(f.address, 0x4000);
    assert_eq!(f.handler, HandlerFunction::HandlePrintln);
}

#[test]
fn firmware_function_bad_address() {
    let r = FirmwareFunction::from_fields("f".to_string(), "0xzz", "HandlePrintln");
    assert_eq!(r.err(), Some(ConfigError::InvalidNumber));
    let r = FirmwareFunction::from_fields("f".to_string(), "0x123456789", "HandlePrintln");
    assert_eq!(r.err(), Some(ConfigError::NumberOutOfRange));
}

#[test]
fn firmware_function_bad_handler() {
    let r = FirmwareFunction::from_fields("f".to_string(), "0x10", "Nope");
    assert_eq!(r.err(), Some(ConfigError::UnknownHandler));
}

#[test]
fn firmware_function_address_is_checked_first() {
    let r = FirmwareFunction::from_fields("f".to_string(), "", "Nope");
    assert_eq!(r.err(), Some(ConfigError::InvalidNumber));
}

#[test]
fn lookup_finds_each_entry_of_a_unique_registry() {
    let config = config_with(vec![
        entry("a", 0x1000, HandlerFunction::HandleNextPc),
        entry("b", 0x2000, HandlerFunction::HandleJumpOver),
        entry("c", 0x3000, HandlerFunction::HandlerEmpty),
    ]);
    assert!(config.has_unique_addresses());
    for (i, expected) in config.breakpoints.iter().enumerate() {
        let found = config.lookup(expected.address).unwrap();
        assert!(std::ptr::eq(found, &config.breakpoints[i]));
        assert_eq!(found.name, expected.name);
        assert_eq!(found.handler, expected.handler);
        assert_eq!(config.position(expected.address), Some(i));
    }
}

#[test]
fn lookup_of_unknown_address_finds_nothing() {
    let config = config_with(vec![
        entry("a", 0x1000, HandlerFunction::HandleNextPc),
        entry("b", 0x2000, HandlerFunction::HandleJumpOver),
    ]);
    assert!(config.lookup(0x1004).is_none());
    assert!(config.lookup(0).is_none());
    assert!(config.lookup(u32::MAX).is_none());
    assert_eq!(config.position(0x1004), None);
}

#[test]
fn lookup_in_empty_registry() {
    let config = config_with(Vec::new());
    assert!(config.lookup(0x1000).is_none());
    assert!(config.has_unique_addresses());
}

#[test]
fn lookup_first_entry_wins_on_shared_address() {
    let config = config_with(vec![
        entry("first", 0x1000, HandlerFunction::HandleNextPc),
        entry("second", 0x1000, HandlerFunction::HandleJumpOver),
    ]);
    assert!(!config.has_unique_addresses());
    assert_eq!(config.lookup(0x1000).unwrap().name, "first");
}

#[test]
fn unique_addresses_detects_distant_duplicates() {
    let config = config_with(vec![
        entry("a", 1, HandlerFunction::HandlerEmpty),
        entry("b", 2, HandlerFunction::HandlerEmpty),
        entry("c", 3, HandlerFunction::HandlerEmpty),
        entry("d", 1, HandlerFunction::HandlerEmpty),
    ]);
    assert!(!config.has_unique_addresses());
}
