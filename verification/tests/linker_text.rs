//! The derived linker text: byte-identical output for fixed inputs, the
//! reserved state region, and the exported symbols.

use moonboot::hardware::{Bank, Config, LinkerConfig, MemoryUnit};
use moonboot::linker::{generate_application_script, generate_bootloader_script};
use moonboot::state::STATE_SERIALIZED_MAX_SIZE;

fn bank(location: u32, size: u32) -> Bank {
    Bank {
        location,
        size,
        memory_unit: MemoryUnit::Internal,
    }
}

fn config() -> Config {
    Config {
        boot_bank: bank(0x10000, 0x8000),
        update_bank: bank(0x18000, 0x8000),
        bootloader_bank: bank(0x0, 0x10000),
        scratch_bank: bank(0x20000, 0x100),
        ram_bank: bank(0x0, 0x10000),
    }
}

#[test]
fn application_script_with_ram_state() {
    let linker = LinkerConfig {
        flash_origin: 0x0800_0000,
        ram_origin: 0x2000_0000,
        has_ram_state: true,
    };
    let text = generate_application_script(config(), linker);

    let footprint = STATE_SERIALIZED_MAX_SIZE + 8;
    let reduced = 0x10000 - footprint;
    let state_origin = 0x2000_0000usize + reduced;
    // The RAM region shrinks by exactly the state footprint and the state
    // region begins immediately after it.
    assert!(text.contains(&format!(
        "RAM : ORIGIN = 0x20000000, LENGTH = {reduced}"
    )));
    assert!(text.contains(&format!(
        "MOONBOOT_STATE: ORIGIN = 0x{state_origin:08x}, LENGTH = {footprint}"
    )));
    assert!(text.contains("FLASH : ORIGIN = 0x08010000, LENGTH = 32768"));
    assert!(text.contains("_moonboot_state_crc_start = ORIGIN(MOONBOOT_STATE);"));
    assert!(text.contains("_moonboot_state_len_start = ORIGIN(MOONBOOT_STATE) + 4;"));
    assert!(text.contains("_moonboot_state_data_start = ORIGIN(MOONBOOT_STATE) + 4 + 4;"));
    assert!(text.contains("PROVIDE(_moonboots_pre_jump = __moonboots_default_pre_jump);"));
}

#[test]
fn bootloader_script_without_ram_state() {
    let linker = LinkerConfig {
        flash_origin: 0x0800_0000,
        ram_origin: 0x2000_0000,
        has_ram_state: false,
    };
    let text = generate_bootloader_script(config(), linker);
    let expected = "\n    MEMORY {\n        FLASH : ORIGIN = 0x08000000, LENGTH = 65536\n        RAM : ORIGIN = 0x20000000, LENGTH = 65536\n    }\n    \n    PROVIDE(_moonboots_pre_jump = __moonboots_default_pre_jump);\n";
    assert_eq!(text, expected);
}

#[test]
fn linker_text_is_deterministic() {
    let linker = LinkerConfig {
        flash_origin: 0x0800_0000,
        ram_origin: 0x2000_0000,
        has_ram_state: true,
    };
    let one = generate_application_script(config(), linker);
    let two = generate_application_script(config(), linker);
    assert_eq!(one, two);
    let boot_script = generate_bootloader_script(config(), linker);
    assert_ne!(one, boot_script);
}

#[test]
fn full_script_with_ram_state_is_byte_exact() {
    let linker = LinkerConfig {
        flash_origin: 0x0800_0000,
        ram_origin: 0x2000_0000,
        has_ram_state: true,
    };
    let text = generate_bootloader_script(config(), linker);
    let expected = "\n\n    MEMORY {\n        FLASH : ORIGIN = 0x08000000, LENGTH = 65536\n        RAM : ORIGIN = 0x20000000, LENGTH = 65503\n        MOONBOOT_STATE: ORIGIN = 0x2000ffdf, LENGTH = 33\n    }\n\n    _moonboot_state_crc_start = ORIGIN(MOONBOOT_STATE);\n    _moonboot_state_len_start = ORIGIN(MOONBOOT_STATE) + 4;\n    _moonboot_state_data_start = ORIGIN(MOONBOOT_STATE) + 4 + 4;\n    PROVIDE(_moonboots_pre_jump = __moonboots_default_pre_jump);\n";
    assert_eq!(text, expected);
}
