//! The harness configuration: where to intercept execution, and how.
//!
//! The numbers of a configuration document arrive as text. Addresses are
//! hexadecimal, with or without one leading `0x`; the other numbers are
//! decimal. Either kind may carry a `+` sign before its digits and must fit 32
//! bits.

use crate::text::str_equal;
use vstd::prelude::*;

verus! {

/// The name of the breakpoint that marks the end of firmware initialisation.
pub open spec fn init_done_marker() -> Seq<char> {
    "app_init_done"@
}

/// Why a configuration was refused.
#[derive(Clone, Copy, Debug, PartialEq, Eq, Structural)]
pub enum ConfigError {
    /// A number is empty, is a lone sign, or holds a character that is no
    /// digit of its base.
    InvalidNumber,
    /// A number is well formed but does not fit 32 bits.
    NumberOutOfRange,
    /// A handler tag names no handler.
    UnknownHandler,
}

/// What to do when execution reaches an intercepted address.
#[derive(Clone, Copy, Debug, PartialEq, Eq, Structural)]
pub enum HandlerFunction {
    /// Show what a `printf`-like call would print, then return to the caller.
    HandlePrintln,
    /// Skip one four-byte instruction.
    HandleNextPc,
    /// Return to the caller without running the function.
    HandleJumpOver,
    /// Put a fixed value into `R3` and go on.
    HandleSecondClade,
    /// Report a backtrace and end the process.
    HandleFatalError,
    /// Continue at a fixed address.
    HandleZeroingYetAnother,
    /// Do nothing.
    HandlerEmpty,
}

impl HandlerFunction {
    /// The handler that a tag names.
    pub open spec fn named(tag: Seq<char>) -> Option<HandlerFunction> {
        if tag == "HandlePrintln"@ {
            Some(HandlerFunction::HandlePrintln)
        } else if tag == "HandleNextPc"@ {
            Some(HandlerFunction::HandleNextPc)
        } else if tag == "HandleJumpOver"@ {
            Some(HandlerFunction::HandleJumpOver)
        } else if tag == "HandleSecondClade"@ {
            Some(HandlerFunction::HandleSecondClade)
        } else if tag == "HandleFatalError"@ {
            Some(HandlerFunction::HandleFatalError)
        } else if tag == "HandleZeroingYetAnother"@ {
            Some(HandlerFunction::HandleZeroingYetAnother)
        } else if tag == "HandlerEmpty"@ {
            Some(HandlerFunction::HandlerEmpty)
        } else {
            None
        }
    }

    /// Reads a handler tag. Tags are the variant names, letter for letter.
    pub fn from_tag(tag: &str) -> (r: Result<HandlerFunction, ConfigError>)
        ensures
            r == match HandlerFunction::named(tag@) {
                Some(h) => Ok::<HandlerFunction, ConfigError>(h),
                None => Err::<HandlerFunction, ConfigError>(ConfigError::UnknownHandler),
            },
    {
        if str_equal(tag, "HandlePrintln") {
            Ok(HandlerFunction::HandlePrintln)
        } else if str_equal(tag, "HandleNextPc") {
            Ok(HandlerFunction::HandleNextPc)
        } else if str_equal(tag, "HandleJumpOver") {
            Ok(HandlerFunction::HandleJumpOver)
        } else if str_equal(tag, "HandleSecondClade") {
            Ok(HandlerFunction::HandleSecondClade)
        } else if str_equal(tag, "HandleFatalError") {
            Ok(HandlerFunction::HandleFatalError)
        } else if str_equal(tag, "HandleZeroingYetAnother") {
            Ok(HandlerFunction::HandleZeroingYetAnother)
        } else if str_equal(tag, "HandlerEmpty") {
            Ok(HandlerFunction::HandlerEmpty)
        } else {
            Err(ConfigError::UnknownHandler)
        }
    }
}

/// The value of `c` as a digit, for the digits of bases up to sixteen. Letters
/// count in either case.
pub open spec fn digit_value(c: char) -> Option<nat> {
    if '0' <= c <= '9' {
        Some((c as int - '0' as int) as nat)
    } else if 'a' <= c <= 'f' {
        Some((c as int - 'a' as int + 10) as nat)
    } else if 'A' <= c <= 'F' {
        Some((c as int - 'A' as int + 10) as nat)
    } else {
        None
    }
}

/// True when `c` is a digit of base `radix`.
pub open spec fn is_digit(c: char, radix: nat) -> bool {
    digit_value(c) matches Some(v) && v < radix
}

/// True when `s` is one or more digits of base `radix`.
pub open spec fn all_digits(s: Seq<char>, radix: nat) -> bool {
    s.len() > 0 && forall|i: int| 0 <= i < s.len() ==> is_digit(#[trigger] s[i], radix)
}

/// The number that the digits `s` write in base `radix`.
pub open spec fn digits_value(s: Seq<char>, radix: nat) -> nat
    decreases s.len(),
{
    if s.len() == 0 {
        0
    } else {
        digits_value(s.drop_last(), radix) * radix + digit_value(s.last()).unwrap()
    }
}

/// `s` without a leading `+`.
pub open spec fn strip_sign(s: Seq<char>) -> Seq<char> {
    if s.len() > 0 && s[0] == '+' {
        s.skip(1)
    } else {
        s
    }
}

/// `s` without its `0x` prefix, where it has one. No more than one prefix is
/// taken off.
pub open spec fn strip_hex_prefix(s: Seq<char>) -> Seq<char> {
    if s.len() >= 2 && s[0] == '0' && s[1] == 'x' {
        s.skip(2)
    } else {
        s
    }
}

/// What `s` means as an unsigned 32-bit number in base `radix`.
pub open spec fn parse_number(s: Seq<char>, radix: nat) -> Result<u32, ConfigError> {
    let digits = strip_sign(s);
    if !all_digits(digits, radix) {
        Err(ConfigError::InvalidNumber)
    } else if digits_value(digits, radix) > u32::MAX {
        Err(ConfigError::NumberOutOfRange)
    } else {
        Ok(digits_value(digits, radix) as u32)
    }
}

/// What `s` means as an address.
pub open spec fn parse_address(s: Seq<char>) -> Result<u32, ConfigError> {
    parse_number(strip_hex_prefix(s), 16)
}

/// What `s` means as a decimal number.
pub open spec fn parse_decimal(s: Seq<char>) -> Result<u32, ConfigError> {
    parse_number(s, 10)
}

fn char_digit(c: char) -> (d: Option<u64>)
    ensures
        d is Some <==> digit_value(c) is Some,
        d matches Some(v) ==> v == digit_value(c).unwrap() && v < 16,
{
    if c >= '0' && c <= '9' {
        Some((c as u32 - '0' as u32) as u64)
    } else if c >= 'a' && c <= 'f' {
        Some((c as u32 - 'a' as u32 + 10) as u64)
    } else if c >= 'A' && c <= 'F' {
        Some((c as u32 - 'A' as u32 + 10) as u64)
    } else {
        None
    }
}

/// More digits never make a number smaller.
proof fn lemma_digits_value_grows(s: Seq<char>, radix: nat, k: int)
    requires
        radix >= 1,
        0 <= k <= s.len(),
    ensures
        digits_value(s.take(k), radix) <= digits_value(s, radix),
    decreases s.len() - k,
{
    if k < s.len() {
        let longer = s.take(k + 1);
        assert(longer.drop_last() =~= s.take(k));
        assert(digits_value(longer, radix) >= digits_value(s.take(k), radix)) by (nonlinear_arith)
            requires
                digits_value(longer, radix) == digits_value(s.take(k), radix) * radix
                    + digit_value(longer.last()).unwrap(),
                radix >= 1,
        ;
        lemma_digits_value_grows(s, radix, k + 1);
    } else {
        assert(s.take(k) =~= s);
    }
}

/// Reads the number that starts at character `start` of `s`.
fn parse_from(s: &str, start: usize, radix: u64) -> (r: Result<u32, ConfigError>)
    requires
        start <= s@.len(),
        2 <= radix <= 16,
    ensures
        r == parse_number(s@.skip(start as int), radix as nat),
{
    let n = s.unicode_len();
    let mut begin = start;
    if begin < n && s.get_char(begin) == '+' {
        begin = begin + 1;
    }
    let ghost digits = s@.skip(begin as int);
    proof {
        assert(digits =~= strip_sign(s@.skip(start as int)));
    }
    if begin == n {
        return Err(ConfigError::InvalidNumber);
    }
    let mut value: u64 = 0;
    let mut too_large = false;
    let mut i: usize = begin;
    while i < n
        invariant
            begin <= i <= n,
            n == s@.len(),
            digits == s@.skip(begin as int),
            digits == strip_sign(s@.skip(start as int)),
            2 <= radix <= 16,
            forall|k: int| 0 <= k < i - begin ==> is_digit(#[trigger] digits[k], radix as nat),
            !too_large ==> value == digits_value(digits.take(i - begin), radix as nat) && value
                <= u32::MAX,
            too_large ==> digits_value(digits.take(i - begin), radix as nat) > u32::MAX,
        decreases n - i,
    {
        let c = s.get_char(i);
        proof {
            assert(digits[i - begin] == c);
        }
        let d = match char_digit(c) {
            Some(d) => d,
            None => {
                return Err(ConfigError::InvalidNumber);
            },
        };
        if d >= radix {
            return Err(ConfigError::InvalidNumber);
        }
        proof {
            let longer = digits.take(i - begin + 1);
            assert(longer.drop_last() =~= digits.take(i - begin));
            assert(longer.last() == c);
            if too_large {
                lemma_digits_value_grows(longer, radix as nat, i - begin);
                assert(longer.take(i - begin) =~= digits.take(i - begin));
            } else {
                assert(value * radix <= 0xFFFF_FFFF * 16) by (nonlinear_arith)
                    requires
                        value <= 0xFFFF_FFFF,
                        radix <= 16,
                ;
            }
        }
        if !too_large {
            value = value * radix + d;
            if value > 0xFFFF_FFFF {
                too_large = true;
            }
        }
        i += 1;
    }
    proof {
        assert(digits.take(n - begin) =~= digits);
    }
    if too_large {
        Err(ConfigError::NumberOutOfRange)
    } else {
        Ok(value as u32)
    }
}

/// Reads an address: hexadecimal digits, with or without a `0x` before them.
pub fn hex_address_string_to_u32(s: &str) -> (r: Result<u32, ConfigError>)
    ensures
        r == parse_address(s@),
{
    let n = s.unicode_len();
    if n >= 2 && s.get_char(0) == '0' && s.get_char(1) == 'x' {
        parse_from(s, 2, 16)
    } else {
        proof {
            assert(s@.skip(0) =~= s@);
        }
        parse_from(s, 0, 16)
    }
}

/// Reads a decimal number.
pub fn decimal_string_to_u32(s: &str) -> (r: Result<u32, ConfigError>)
    ensures
        r == parse_decimal(s@),
{
    proof {
        assert(s@.skip(0) =~= s@);
    }
    parse_from(s, 0, 10)
}

/// One intercepted address: its name, where it is, and what to do there.
#[derive(Clone, Debug)]
pub struct FirmwareFunction {
    pub name: String,
    pub address: u32,
    pub handler: HandlerFunction,
}

impl FirmwareFunction {
    /// Builds an entry from the fields of a configuration document. Fails
    /// where the address is no hexadecimal number, and else where the tag
    /// names no handler.
    pub fn from_fields(name: String, address: &str, handler: &str) -> (r: Result<
        FirmwareFunction,
        ConfigError,
    >)
        ensures
            match parse_address(address@) {
                Err(e) => r matches Err(got) && got == e,
                Ok(a) => match HandlerFunction::named(handler@) {
                    None => r matches Err(got) && got == ConfigError::UnknownHandler,
                    Some(h) => r matches Ok(f) && f.name == name && f.address == a && f.handler
                        == h,
                },
            },
    {
        let address = match hex_address_string_to_u32(address) {
            Ok(a) => a,
            Err(e) => {
                return Err(e);
            },
        };
        let handler = match HandlerFunction::from_tag(handler) {
            Ok(h) => h,
            Err(e) => {
                return Err(e);
            },
        };
        Ok(FirmwareFunction { name, address, handler })
    }
}

/// The position, at or after `from`, of the first entry at `address`.
pub open spec fn first_entry(entries: Seq<FirmwareFunction>, from: int, address: u32) -> Option<
    int,
>
    decreases entries.len() - from,
{
    if from < 0 || from >= entries.len() {
        None
    } else if entries[from].address == address {
        Some(from)
    } else {
        first_entry(entries, from + 1, address)
    }
}

/// True when no two entries share an address.
pub open spec fn unique_addresses(entries: Seq<FirmwareFunction>) -> bool {
    forall|i: int, j: int|
        0 <= i < j < entries.len() ==> (#[trigger] entries[i]).address != (
        #[trigger] entries[j]).address
}

/// `first_entry` finds an entry at the address that no earlier entry shares,
/// and finds nothing only where no entry is at the address.
pub proof fn lemma_first_entry(entries: Seq<FirmwareFunction>, from: int, address: u32)
    requires
        0 <= from,
    ensures
        match first_entry(entries, from, address) {
            Some(i) => from <= i < entries.len() && entries[i].address == address && forall|
                j: int,
            | from <= j < i ==> (#[trigger] entries[j]).address != address,
            None => forall|j: int|
                from <= j < entries.len() ==> (#[trigger] entries[j]).address != address,
        },
    decreases entries.len() - from,
{
    if from < entries.len() && entries[from].address != address {
        lemma_first_entry(entries, from + 1, address);
    }
}

/// Where no two entries share an address, looking up the address of an entry
/// finds that very entry.
pub proof fn lemma_lookup_finds_each_entry(entries: Seq<FirmwareFunction>, i: int)
    requires
        unique_addresses(entries),
        0 <= i < entries.len(),
    ensures
        first_entry(entries, 0, entries[i].address) == Some(i),
{
    lemma_first_entry(entries, 0, entries[i].address);
}

/// Looking up an address at which no entry stands finds nothing.
pub proof fn lemma_lookup_misses_unknown(entries: Seq<FirmwareFunction>, address: u32)
    requires
        forall|i: int| 0 <= i < entries.len() ==> (#[trigger] entries[i]).address != address,
    ensures
        first_entry(entries, 0, address) is None,
{
    lemma_first_entry(entries, 0, address);
}

/// Everything the harness is told at start-up.
#[derive(Clone, Debug)]
pub struct Config {
    /// Whether to fuzz after boot.
    pub fuzz: bool,
    /// Entry of the function under test.
    pub fuzz_target_address: u32,
    /// Where the function under test returns to.
    pub fuzz_target_return_address: u32,
    /// Path of the firmware image.
    pub firmware: String,
    /// Arguments handed to the emulator as they are.
    pub qemu_args: Vec<String>,
    pub broker_port: u32,
    pub timeout_seconds: u32,
    pub cores: u32,
    /// The intercepted addresses, in configuration order.
    pub breakpoints: Vec<FirmwareFunction>,
}

impl Config {
    /// The position of the first configured entry at `address`.
    pub fn position(&self, address: u32) -> (found: Option<usize>)
        ensures
            found matches Some(i) ==> i < self.breakpoints@.len() && first_entry(
                self.breakpoints@,
                0,
                address,
            ) == Some(i as int),
            found is None ==> first_entry(self.breakpoints@, 0, address) is None,
    {
        let mut i: usize = 0;
        while i < self.breakpoints.len()
            invariant
                i <= self.breakpoints@.len(),
                first_entry(self.breakpoints@, 0, address) == first_entry(
                    self.breakpoints@,
                    i as int,
                    address,
                ),
            decreases self.breakpoints@.len() - i,
        {
            if self.breakpoints[i].address == address {
                return Some(i);
            }
            i += 1;
        }
        None
    }

    /// The first configured entry at `address`: the entry itself where one
    /// stands there, and nothing where none does.
    pub fn lookup(&self, address: u32) -> (found: Option<&FirmwareFunction>)
        ensures
            match first_entry(self.breakpoints@, 0, address) {
                Some(i) => found == Some(&self.breakpoints@[i]),
                None => found is None,
            },
    {
        match self.position(address) {
            Some(i) => Some(&self.breakpoints[i]),
            None => None,
        }
    }

    /// True when no two entries share an address, so that no entry hides
    /// another.
    pub fn has_unique_addresses(&self) -> (unique: bool)
        ensures
            unique == unique_addresses(self.breakpoints@),
    {
        let n = self.breakpoints.len();
        let mut j: usize = 0;
        while j < n
            invariant
                j <= n,
                n == self.breakpoints@.len(),
                forall|a: int, b: int|
                    0 <= a < b < j ==> (#[trigger] self.breakpoints@[a]).address != (
                    #[trigger] self.breakpoints@[b]).address,
            decreases n - j,
        {
            let mut i: usize = 0;
            while i < j
                invariant
                    i <= j,
                    j < n,
                    n == self.breakpoints@.len(),
                    forall|a: int|
                        0 <= a < i ==> (#[trigger] self.breakpoints@[a]).address
                            != self.breakpoints@[j as int].address,
                decreases j - i,
            {
                if self.breakpoints[i].address == self.breakpoints[j].address {
                    return false;
                }
                i += 1;
            }
            j += 1;
        }
        true
    }
}

} // verus!
