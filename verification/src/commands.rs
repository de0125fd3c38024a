//! The command processor: single authority for decoding inbound SysEx
//! frames, encoding outbound ones, and owning the device-state snapshot.

use vstd::prelude::*;

use vstd::string::StringExecFns;

verus! {

/// Manufacturer byte of every frame of the vendor protocol
/// (educational/development range).
pub const MIDI_SYSEX_MANUFACTURER: u8 = 0x7d;

/// Device byte the device itself answers with.
pub const MIDI_SYSEX_OWL_DEVICE: u8 = 0x20;

/// Device byte addressing any device of the family.
pub const MIDI_SYSEX_OMNI_DEVICE: u8 = 0x52;

/// Controller number of the "request settings" Control Change.
pub const REQUEST_SETTINGS_CC: u8 = 67;

/// The SysEx commands of the device protocol, a stable numbering
/// defined by the device firmware.
#[derive(Clone, Copy, Debug, PartialEq, Eq, Structural)]
pub enum Command {
    PresetName,
    ParameterName,
    Configuration,
    ResourceName,
    FirmwareUpload,
    FirmwareStore,
    FirmwareRun,
    FirmwareFlash,
    FlashErase,
    SettingsReset,
    SettingsStore,
    FirmwareSave,
    FirmwareSend,
    FirmwareVersion,
    DeviceId,
    ProgramMessage,
    DeviceStats,
    ProgramStats,
    BootloaderVersion,
    ProgramError,
    DeviceReset,
    Bootloader,
}

/// The wire byte of each command.
pub open spec fn command_byte_spec(c: Command) -> u8 {
    match c {
        Command::PresetName => 0x01,
        Command::ParameterName => 0x02,
        Command::Configuration => 0x03,
        Command::ResourceName => 0x04,
        Command::FirmwareUpload => 0x10,
        Command::FirmwareStore => 0x11,
        Command::FirmwareRun => 0x12,
        Command::FirmwareFlash => 0x13,
        Command::FlashErase => 0x14,
        Command::SettingsReset => 0x15,
        Command::SettingsStore => 0x16,
        Command::FirmwareSave => 0x17,
        Command::FirmwareSend => 0x18,
        Command::FirmwareVersion => 0x20,
        Command::DeviceId => 0x21,
        Command::ProgramMessage => 0x22,
        Command::DeviceStats => 0x23,
        Command::ProgramStats => 0x24,
        Command::BootloaderVersion => 0x25,
        Command::ProgramError => 0x30,
        Command::DeviceReset => 0x7d,
        Command::Bootloader => 0x7e,
    }
}

/// The command a wire byte selects, `None` for a byte outside the
/// protocol.
pub open spec fn command_from_byte_spec(b: u8) -> Option<Command> {
    match b {
        0x01 => Some(Command::PresetName),
        0x02 => Some(Command::ParameterName),
        0x03 => Some(Command::Configuration),
        0x04 => Some(Command::ResourceName),
        0x10 => Some(Command::FirmwareUpload),
        0x11 => Some(Command::FirmwareStore),
        0x12 => Some(Command::FirmwareRun),
        0x13 => Some(Command::FirmwareFlash),
        0x14 => Some(Command::FlashErase),
        0x15 => Some(Command::SettingsReset),
        0x16 => Some(Command::SettingsStore),
        0x17 => Some(Command::FirmwareSave),
        0x18 => Some(Command::FirmwareSend),
        0x20 => Some(Command::FirmwareVersion),
        0x21 => Some(Command::DeviceId),
        0x22 => Some(Command::ProgramMessage),
        0x23 => Some(Command::DeviceStats),
        0x24 => Some(Command::ProgramStats),
        0x25 => Some(Command::BootloaderVersion),
        0x30 => Some(Command::ProgramError),
        0x7d => Some(Command::DeviceReset),
        0x7e => Some(Command::Bootloader),
        _ => None,
    }
}

/// The name of each command, as the log shows it.
pub open spec fn command_name_spec(c: Command) -> Seq<char> {
    match c {
        Command::PresetName => "SYSEX_PRESET_NAME_COMMAND"@,
        Command::ParameterName => "SYSEX_PARAMETER_NAME_COMMAND"@,
        Command::Configuration => "SYSEX_CONFIGURATION_COMMAND"@,
        Command::ResourceName => "SYSEX_RESOURCE_NAME_COMMAND"@,
        Command::FirmwareUpload => "SYSEX_FIRMWARE_UPLOAD"@,
        Command::FirmwareStore => "SYSEX_FIRMWARE_STORE"@,
        Command::FirmwareRun => "SYSEX_FIRMWARE_RUN"@,
        Command::FirmwareFlash => "SYSEX_FIRMWARE_FLASH"@,
        Command::FlashErase => "SYSEX_FLASH_ERASE"@,
        Command::SettingsReset => "SYSEX_SETTINGS_RESET"@,
        Command::SettingsStore => "SYSEX_SETTINGS_STORE"@,
        Command::FirmwareSave => "SYSEX_FIRMWARE_SAVE"@,
        Command::FirmwareSend => "SYSEX_FIRMWARE_SEND"@,
        Command::FirmwareVersion => "SYSEX_FIRMWARE_VERSION"@,
        Command::DeviceId => "SYSEX_DEVICE_ID"@,
        Command::ProgramMessage => "SYSEX_PROGRAM_MESSAGE"@,
        Command::DeviceStats => "SYSEX_DEVICE_STATS"@,
        Command::ProgramStats => "SYSEX_PROGRAM_STATS"@,
        Command::BootloaderVersion => "SYSEX_BOOTLOADER_VERSION"@,
        Command::ProgramError => "SYSEX_PROGRAM_ERROR"@,
        Command::DeviceReset => "SYSEX_DEVICE_RESET_COMMAND"@,
        Command::Bootloader => "SYSEX_BOOTLOADER_COMMAND"@,
    }
}

impl Command {
    /// The wire byte of this command.
    pub fn as_byte(&self) -> (r: u8)
        ensures
            r == command_byte_spec(*self),
    {
        match self {
            Command::PresetName => 0x01,
            Command::ParameterName => 0x02,
            Command::Configuration => 0x03,
            Command::ResourceName => 0x04,
            Command::FirmwareUpload => 0x10,
            Command::FirmwareStore => 0x11,
            Command::FirmwareRun => 0x12,
            Command::FirmwareFlash => 0x13,
            Command::FlashErase => 0x14,
            Command::SettingsReset => 0x15,
            Command::SettingsStore => 0x16,
            Command::FirmwareSave => 0x17,
            Command::FirmwareSend => 0x18,
            Command::FirmwareVersion => 0x20,
            Command::DeviceId => 0x21,
            Command::ProgramMessage => 0x22,
            Command::DeviceStats => 0x23,
            Command::ProgramStats => 0x24,
            Command::BootloaderVersion => 0x25,
            Command::ProgramError => 0x30,
            Command::DeviceReset => 0x7d,
            Command::Bootloader => 0x7e,
        }
    }

    /// The command a wire byte selects.
    pub fn from_byte(b: u8) -> (r: Option<Command>)
        ensures
            r == command_from_byte_spec(b),
    {
        match b {
            0x01 => Some(Command::PresetName),
            0x02 => Some(Command::ParameterName),
            0x03 => Some(Command::Configuration),
            0x04 => Some(Command::ResourceName),
            0x10 => Some(Command::FirmwareUpload),
            0x11 => Some(Command::FirmwareStore),
            0x12 => Some(Command::FirmwareRun),
            0x13 => Some(Command::FirmwareFlash),
            0x14 => Some(Command::FlashErase),
            0x15 => Some(Command::SettingsReset),
            0x16 => Some(Command::SettingsStore),
            0x17 => Some(Command::FirmwareSave),
            0x18 => Some(Command::FirmwareSend),
            0x20 => Some(Command::FirmwareVersion),
            0x21 => Some(Command::DeviceId),
            0x22 => Some(Command::ProgramMessage),
            0x23 => Some(Command::DeviceStats),
            0x24 => Some(Command::ProgramStats),
            0x25 => Some(Command::BootloaderVersion),
            0x30 => Some(Command::ProgramError),
            0x7d => Some(Command::DeviceReset),
            0x7e => Some(Command::Bootloader),
            _ => None,
        }
    }

    /// The name of this command, for the log.
    pub fn name(&self) -> (r: String)
        ensures
            r@ == command_name_spec(*self),
    {
        match self {
            Command::PresetName => String::from_str("SYSEX_PRESET_NAME_COMMAND"),
            Command::ParameterName => String::from_str("SYSEX_PARAMETER_NAME_COMMAND"),
            Command::Configuration => String::from_str("SYSEX_CONFIGURATION_COMMAND"),
            Command::ResourceName => String::from_str("SYSEX_RESOURCE_NAME_COMMAND"),
            Command::FirmwareUpload => String::from_str("SYSEX_FIRMWARE_UPLOAD"),
            Command::FirmwareStore => String::from_str("SYSEX_FIRMWARE_STORE"),
            Command::FirmwareRun => String::from_str("SYSEX_FIRMWARE_RUN"),
            Command::FirmwareFlash => String::from_str("SYSEX_FIRMWARE_FLASH"),
            Command::FlashErase => String::from_str("SYSEX_FLASH_ERASE"),
            Command::SettingsReset => String::from_str("SYSEX_SETTINGS_RESET"),
            Command::SettingsStore => String::from_str("SYSEX_SETTINGS_STORE"),
            Command::FirmwareSave => String::from_str("SYSEX_FIRMWARE_SAVE"),
            Command::FirmwareSend => String::from_str("SYSEX_FIRMWARE_SEND"),
            Command::FirmwareVersion => String::from_str("SYSEX_FIRMWARE_VERSION"),
            Command::DeviceId => String::from_str("SYSEX_DEVICE_ID"),
            Command::ProgramMessage => String::from_str("SYSEX_PROGRAM_MESSAGE"),
            Command::DeviceStats => String::from_str("SYSEX_DEVICE_STATS"),
            Command::ProgramStats => String::from_str("SYSEX_PROGRAM_STATS"),
            Command::BootloaderVersion => String::from_str("SYSEX_BOOTLOADER_VERSION"),
            Command::ProgramError => String::from_str("SYSEX_PROGRAM_ERROR"),
            Command::DeviceReset => String::from_str("SYSEX_DEVICE_RESET_COMMAND"),
            Command::Bootloader => String::from_str("SYSEX_BOOTLOADER_COMMAND"),
        }
    }
}

/// Whether a Control Change controller number is a device parameter
/// identifier: the protocol numbers its parameters 0 through 39.
pub open spec fn is_parameter_id(b: u8) -> bool {
    b < 40
}

/// The display name of each parameter identifier.
pub open spec fn parameter_name_spec(b: u8) -> Seq<char> {
    match b {
        0 => "A"@,
        1 => "B"@,
        2 => "C"@,
        3 => "D"@,
        4 => "E"@,
        5 => "F"@,
        6 => "G"@,
        7 => "H"@,
        8 => "AA"@,
        9 => "AB"@,
        10 => "AC"@,
        11 => "AD"@,
        12 => "AE"@,
        13 => "AF"@,
        14 => "AG"@,
        15 => "AH"@,
        16 => "BA"@,
        17 => "BB"@,
        18 => "BC"@,
        19 => "BD"@,
        20 => "BE"@,
        21 => "BF"@,
        22 => "BG"@,
        23 => "BH"@,
        24 => "CA"@,
        25 => "CB"@,
        26 => "CC"@,
        27 => "CD"@,
        28 => "CE"@,
        29 => "CF"@,
        30 => "CG"@,
        31 => "CH"@,
        32 => "DA"@,
        33 => "DB"@,
        34 => "DC"@,
        35 => "DD"@,
        36 => "DE"@,
        37 => "DF"@,
        38 => "DG"@,
        39 => "DH"@,
        _ => ""@,
    }
}

/// The display name of a parameter identifier.
pub fn parameter_name(b: u8) -> (r: String)
    ensures
        r@ == parameter_name_spec(b),
{
    match b {
        0 => String::from_str("A"),
        1 => String::from_str("B"),
        2 => String::from_str("C"),
        3 => String::from_str("D"),
        4 => String::from_str("E"),
        5 => String::from_str("F"),
        6 => String::from_str("G"),
        7 => String::from_str("H"),
        8 => String::from_str("AA"),
        9 => String::from_str("AB"),
        10 => String::from_str("AC"),
        11 => String::from_str("AD"),
        12 => String::from_str("AE"),
        13 => String::from_str("AF"),
        14 => String::from_str("AG"),
        15 => String::from_str("AH"),
        16 => String::from_str("BA"),
        17 => String::from_str("BB"),
        18 => String::from_str("BC"),
        19 => String::from_str("BD"),
        20 => String::from_str("BE"),
        21 => String::from_str("BF"),
        22 => String::from_str("BG"),
        23 => String::from_str("BH"),
        24 => String::from_str("CA"),
        25 => String::from_str("CB"),
        26 => String::from_str("CC"),
        27 => String::from_str("CD"),
        28 => String::from_str("CE"),
        29 => String::from_str("CF"),
        30 => String::from_str("CG"),
        31 => String::from_str("CH"),
        32 => String::from_str("DA"),
        33 => String::from_str("DB"),
        34 => String::from_str("DC"),
        35 => String::from_str("DD"),
        36 => String::from_str("DE"),
        37 => String::from_str("DF"),
        38 => String::from_str("DG"),
        39 => String::from_str("DH"),
        _ => String::from_str(""),
    }
}

} // verus!
