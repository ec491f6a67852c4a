//! Derivation of the linker directive text that carves flash and RAM into
//! the regions the bootloader and the application are built against, and
//! reserves the tail of RAM for the shared state record when asked to.

use vstd::prelude::*;
use vstd::string::StringExecFns;
use crate::hardware::{Config, LinkerConfig};
use crate::state::STATE_SERIALIZED_MAX_SIZE;

verus! {

/// The character for one digit value, lower case.
pub open spec fn spec_digit_char(d: int) -> char {
    if d == 0 {
        '0'
    } else if d == 1 {
        '1'
    } else if d == 2 {
        '2'
    } else if d == 3 {
        '3'
    } else if d == 4 {
        '4'
    } else if d == 5 {
        '5'
    } else if d == 6 {
        '6'
    } else if d == 7 {
        '7'
    } else if d == 8 {
        '8'
    } else if d == 9 {
        '9'
    } else if d == 10 {
        'a'
    } else if d == 11 {
        'b'
    } else if d == 12 {
        'c'
    } else if d == 13 {
        'd'
    } else if d == 14 {
        'e'
    } else {
        'f'
    }
}

/// The last `count` hexadecimal digits of `n`, most significant first.
pub open spec fn spec_hex_digits(n: int, count: nat) -> Seq<char>
    decreases count,
{
    if count == 0 {
        Seq::empty()
    } else {
        spec_hex_digits(n / 16, (count - 1) as nat) + seq![spec_digit_char(n % 16)]
    }
}

/// The eight-digit, zero-padded hexadecimal rendering of a word, as the
/// linker text prints origins.
pub open spec fn spec_hex8(n: u32) -> Seq<char> {
    spec_hex_digits(n as int, 8)
}

/// The decimal rendering of a non-negative number, without leading zeros.
pub open spec fn spec_dec(n: int) -> Seq<char>
    recommends
        n >= 0,
    decreases n,
{
    if n < 10 {
        seq![spec_digit_char(n)]
    } else {
        spec_dec(n / 10) + seq![spec_digit_char(n % 10)]
    }
}

/// The one-character string for a digit value.
fn digit_str(d: u32) -> (r: &'static str)
    requires
        d < 16,
    ensures
        r@.len() == 1,
        r@[0] == spec_digit_char(d as int),
{
    proof {
        reveal_strlit("0");
        reveal_strlit("1");
        reveal_strlit("2");
        reveal_strlit("3");
        reveal_strlit("4");
        reveal_strlit("5");
        reveal_strlit("6");
        reveal_strlit("7");
        reveal_strlit("8");
        reveal_strlit("9");
        reveal_strlit("a");
        reveal_strlit("b");
        reveal_strlit("c");
        reveal_strlit("d");
        reveal_strlit("e");
        reveal_strlit("f");
    }
    if d == 0 {
        "0"
    } else if d == 1 {
        "1"
    } else if d == 2 {
        "2"
    } else if d == 3 {
        "3"
    } else if d == 4 {
        "4"
    } else if d == 5 {
        "5"
    } else if d == 6 {
        "6"
    } else if d == 7 {
        "7"
    } else if d == 8 {
        "8"
    } else if d == 9 {
        "9"
    } else if d == 10 {
        "a"
    } else if d == 11 {
        "b"
    } else if d == 12 {
        "c"
    } else if d == 13 {
        "d"
    } else if d == 14 {
        "e"
    } else {
        "f"
    }
}

/// The last `count` hexadecimal digits of `n`.
fn hex_digits(n: u32, count: usize) -> (s: String)
    ensures
        s@ == spec_hex_digits(n as int, count as nat),
    decreases count,
{
    if count == 0 {
        let s = String::new();
        proof {
            assert(s@ =~= spec_hex_digits(n as int, 0));
        }
        s
    } else {
        let mut s = hex_digits(n / 16, count - 1);
        let ds = digit_str(n % 16);
        s.append(ds);
        proof {
            assert(ds@ =~= seq![spec_digit_char(n as int % 16)]);
            assert(s@ =~= spec_hex_digits(n as int, count as nat));
        }
        s
    }
}

/// Render a word as eight zero-padded hexadecimal digits.
fn u32_to_hex8(n: u32) -> (s: String)
    ensures
        s@ == spec_hex8(n),
{
    hex_digits(n, 8)
}

/// Render a number in decimal.
fn u32_to_dec(n: u32) -> (s: String)
    ensures
        s@ == spec_dec(n as int),
    decreases n,
{
    if n < 10 {
        let mut s = String::new();
        let ds = digit_str(n);
        s.append(ds);
        proof {
            assert(s@ =~= spec_dec(n as int));
        }
        s
    } else {
        let mut s = u32_to_dec(n / 10);
        let ds = digit_str(n % 10);
        s.append(ds);
        proof {
            assert(ds@ =~= seq![spec_digit_char(n as int % 10)]);
            assert(s@ =~= spec_dec(n as int));
        }
        s
    }
}

/// The whole linker text for the given regions.  When the RAM state is
/// enabled, the RAM region shrinks by the footprint of the state record
/// (its payload plus the CRC word and the length word), the reserved
/// region begins immediately after the shrunk RAM, and the three state
/// symbols are exported.
pub open spec fn spec_linker_text(
    flash_origin: u32,
    flash_length: u32,
    ram_origin: u32,
    ram_length: u32,
    with_ram_state: bool,
) -> Seq<char> {
    if with_ram_state {
        let reduced = ram_length - STATE_SERIALIZED_MAX_SIZE - 4 - 4;
        let state_origin = ram_origin + reduced;
        "\n\n    MEMORY {\n        FLASH : ORIGIN = 0x"@ + spec_hex8(flash_origin)
            + ", LENGTH = "@ + spec_dec(flash_length as int) + "\n        RAM : ORIGIN = 0x"@
            + spec_hex8(ram_origin) + ", LENGTH = "@ + spec_dec(reduced)
            + "\n        MOONBOOT_STATE: ORIGIN = 0x"@ + spec_hex8(state_origin as u32)
            + ", LENGTH = "@ + spec_dec(STATE_SERIALIZED_MAX_SIZE + 4 + 4)
            + "\n    }\n\n    _moonboot_state_crc_start = ORIGIN(MOONBOOT_STATE);\n    _moonboot_state_len_start = ORIGIN(MOONBOOT_STATE) + 4;\n    _moonboot_state_data_start = ORIGIN(MOONBOOT_STATE) + 4 + 4;\n    PROVIDE(_moonboots_pre_jump = __moonboots_default_pre_jump);\n"@
    } else {
        "\n    MEMORY {\n        FLASH : ORIGIN = 0x"@ + spec_hex8(flash_origin) + ", LENGTH = "@
            + spec_dec(flash_length as int) + "\n        RAM : ORIGIN = 0x"@ + spec_hex8(ram_origin)
            + ", LENGTH = "@ + spec_dec(ram_length as int)
            + "\n    }\n    \n    PROVIDE(_moonboots_pre_jump = __moonboots_default_pre_jump);\n"@
    }
}

/// Produce the body of a linker directive for one image: its flash region,
/// the (possibly shrunk) RAM region, and, when the RAM state is enabled,
/// the reserved state region with its symbols.  For fixed inputs the
/// output is one fixed text.
pub fn generate_linker_script(
    flash_origin: u32,
    flash_length: u32,
    ram_origin: u32,
    ram_length: u32,
    with_ram_state: bool,
) -> (r: String)
    requires
        with_ram_state ==> ram_length >= STATE_SERIALIZED_MAX_SIZE + 4 + 4,
        ram_origin + ram_length <= u32::MAX + 1,
    ensures
        r@ == spec_linker_text(flash_origin, flash_length, ram_origin, ram_length, with_ram_state),
{
    let footprint: u32 = STATE_SERIALIZED_MAX_SIZE as u32 + 4 + 4;
    if with_ram_state {
        let reduced: u32 = ram_length - footprint;
        let state_origin: u32 = ram_origin + reduced;
        let mut s = String::from_str("\n\n    MEMORY {\n        FLASH : ORIGIN = 0x");
        s.append(u32_to_hex8(flash_origin).as_str());
        s.append(", LENGTH = ");
        s.append(u32_to_dec(flash_length).as_str());
        s.append("\n        RAM : ORIGIN = 0x");
        s.append(u32_to_hex8(ram_origin).as_str());
        s.append(", LENGTH = ");
        s.append(u32_to_dec(reduced).as_str());
        s.append("\n        MOONBOOT_STATE: ORIGIN = 0x");
        s.append(u32_to_hex8(state_origin).as_str());
        s.append(", LENGTH = ");
        s.append(u32_to_dec(footprint).as_str());
        s.append(
            "\n    }\n\n    _moonboot_state_crc_start = ORIGIN(MOONBOOT_STATE);\n    _moonboot_state_len_start = ORIGIN(MOONBOOT_STATE) + 4;\n    _moonboot_state_data_start = ORIGIN(MOONBOOT_STATE) + 4 + 4;\n    PROVIDE(_moonboots_pre_jump = __moonboots_default_pre_jump);\n",
        );
        proof {
            assert(s@ =~= spec_linker_text(
                flash_origin,
                flash_length,
                ram_origin,
                ram_length,
                true,
            ));
        }
        s
    } else {
        let mut s = String::from_str("\n    MEMORY {\n        FLASH : ORIGIN = 0x");
        s.append(u32_to_hex8(flash_origin).as_str());
        s.append(", LENGTH = ");
        s.append(u32_to_dec(flash_length).as_str());
        s.append("\n        RAM : ORIGIN = 0x");
        s.append(u32_to_hex8(ram_origin).as_str());
        s.append(", LENGTH = ");
        s.append(u32_to_dec(ram_length).as_str());
        s.append("\n    }\n    \n    PROVIDE(_moonboots_pre_jump = __moonboots_default_pre_jump);\n");
        proof {
            assert(s@ =~= spec_linker_text(
                flash_origin,
                flash_length,
                ram_origin,
                ram_length,
                false,
            ));
        }
        s
    }
}

/// The linker text for the bootloader image: its flash region is the
/// bootloader bank.
pub fn generate_bootloader_script(config: Config, linker_config: LinkerConfig) -> (r: String)
    requires
        linker_config.flash_origin + config.bootloader_bank.location <= u32::MAX,
        linker_config.has_ram_state ==> config.ram_bank.size >= STATE_SERIALIZED_MAX_SIZE + 4 + 4,
        linker_config.ram_origin + config.ram_bank.location <= u32::MAX,
        linker_config.ram_origin + config.ram_bank.location + config.ram_bank.size <= u32::MAX + 1,
    ensures
        r@ == spec_linker_text(
            (linker_config.flash_origin + config.bootloader_bank.location) as u32,
            config.bootloader_bank.size,
            (linker_config.ram_origin + config.ram_bank.location) as u32,
            config.ram_bank.size,
            linker_config.has_ram_state,
        ),
{
    generate_linker_script(
        linker_config.flash_origin + config.bootloader_bank.location,
        config.bootloader_bank.size,
        linker_config.ram_origin + config.ram_bank.location,
        config.ram_bank.size,
        linker_config.has_ram_state,
    )
}

/// The linker text for the application image: its flash region is the
/// bank the firmware boots from.
pub fn generate_application_script(config: Config, linker_config: LinkerConfig) -> (r: String)
    requires
        linker_config.flash_origin + config.boot_bank.location <= u32::MAX,
        linker_config.has_ram_state ==> config.ram_bank.size >= STATE_SERIALIZED_MAX_SIZE + 4 + 4,
        linker_config.ram_origin + config.ram_bank.location <= u32::MAX,
        linker_config.ram_origin + config.ram_bank.location + config.ram_bank.size <= u32::MAX + 1,
    ensures
        r@ == spec_linker_text(
            (linker_config.flash_origin + config.boot_bank.location) as u32,
            config.boot_bank.size,
            (linker_config.ram_origin + config.ram_bank.location) as u32,
            config.ram_bank.size,
            linker_config.has_ram_state,
        ),
{
    generate_linker_script(
        linker_config.flash_origin + config.boot_bank.location,
        config.boot_bank.size,
        linker_config.ram_origin + config.ram_bank.location,
        config.ram_bank.size,
        linker_config.has_ram_state,
    )
}

} // verus!
