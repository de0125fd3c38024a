//! The command processor: single authority for decoding inbound SysEx
//! frames and encoding outbound ones, and owner of the device-state
//! snapshot.
//!
//! Inbound SysEx payloads (start/end delimiters already stripped by the
//! transport) go through [`OwlCommandProcessor::handle_sysex`]; plain
//! short messages the transport decodes, such as Control Change, go
//! through [`OwlCommandProcessor::handle_midi_message`].  Outbound
//! requests are built and returned as ready-to-send byte frames; the
//! surrounding application owns the transport and writes them out.

use vstd::prelude::*;

use crate::commands::Command;
use crate::commands::MIDI_SYSEX_MANUFACTURER;
use crate::commands::MIDI_SYSEX_OMNI_DEVICE;
use crate::commands::MIDI_SYSEX_OWL_DEVICE;
use crate::commands::REQUEST_SETTINGS_CC;
use crate::commands::command_byte_spec;
use crate::commands::command_from_byte_spec;
use crate::commands::command_name_spec;
use crate::commands::is_parameter_id;
use crate::commands::parameter_name;
use crate::commands::parameter_name_spec;
use crate::parameter::OwlParameter;
use crate::resources::Resource;
use crate::resources::ResourceData;
use crate::resources::fresh_transfer;
use crate::resources::transfer_step;
use crate::sysex::all_seven_bit;
use crate::sysex::decode32;
use crate::sysex::decode32_spec;
use crate::text::ascii_chars;
use crate::text::ascii_string;
use crate::text::bytes_to_list_string;
use crate::text::decimal_list;
use crate::text::decimal_str;
use crate::text::hex_parse_spec;
use crate::text::i64_magnitude_bound;
use crate::text::parse_hex_i64;
use crate::text::signed_decimal_str;
use crate::text::signed_to_string;
use crate::text::u64_to_string;
use vstd::string::StringExecFns;

verus! {

/// A short MIDI message at the transport boundary, already decoded
/// into its plain parts.
#[derive(Clone, Debug, PartialEq)]
pub enum MidiMsg {
    /// Channel, controller number and value of a Control Change.
    ControlChange(u8, u8, u8),
    /// Channel and program number of a Program Change.
    ProgramChange(u8, u8),
    /// Any other message, as its raw bytes.
    Other(Vec<u8>),
}

impl MidiMsg {
    /// The message is one the MIDI wire could carry: 4-bit channel,
    /// 7-bit data bytes.
    pub open spec fn wf(&self) -> bool {
        match *self {
            MidiMsg::ControlChange(ch, cc, v) => ch < 16 && cc < 128 && v < 128,
            MidiMsg::ProgramChange(ch, p) => ch < 16 && p < 128,
            MidiMsg::Other(_) => true,
        }
    }

    /// The raw bytes of the message.
    pub open spec fn bytes_spec(&self) -> Seq<u8> {
        match *self {
            MidiMsg::ControlChange(ch, cc, v) => seq![(0xb0u8 | ch) as u8, cc, v],
            MidiMsg::ProgramChange(ch, p) => seq![(0xc0u8 | ch) as u8, p],
            MidiMsg::Other(b) => b@,
        }
    }

    /// The log's one-line rendering of the message.
    pub open spec fn render_spec(&self) -> Seq<char> {
        match *self {
            MidiMsg::ControlChange(ch, cc, v) => "ControlChange "@ + decimal_str(cc as nat)
                + " "@ + decimal_str(v as nat),
            MidiMsg::ProgramChange(ch, p) => "ProgramChange "@ + decimal_str(p as nat),
            MidiMsg::Other(b) => "Other "@ + decimal_list(b@),
        }
    }
}

/// The index of `pid` in the parameter table, `-1` when absent.
pub open spec fn param_index(s: Seq<(u8, OwlParameter)>, pid: u8) -> int
    decreases s.len(),
{
    if s.len() == 0 {
        -1
    } else if s[0].0 == pid {
        0
    } else {
        let r = param_index(s.skip(1), pid);
        if r == -1 {
            -1
        } else {
            r + 1
        }
    }
}

/// The index of `key` in the configuration table, `-1` when absent.
pub open spec fn setting_index(s: Seq<(u16, String)>, key: u16) -> int
    decreases s.len(),
{
    if s.len() == 0 {
        -1
    } else if s[0].0 == key {
        0
    } else {
        let r = setting_index(s.skip(1), key);
        if r == -1 {
            -1
        } else {
            r + 1
        }
    }
}


/// The text of a payload minus its trailing terminator byte.
pub open spec fn trimmed_text(p: Seq<u8>) -> Seq<char> {
    if p.len() > 0 {
        ascii_chars(p.take(p.len() - 1))
    } else {
        ascii_chars(p)
    }
}

/// The position of the name terminator of a list-entry payload,
/// scanning from `i`: the first zero byte before the last position, or
/// the last position itself.
pub open spec fn name_end_from(p: Seq<u8>, i: int) -> int
    decreases p.len() - i,
{
    if i >= p.len() - 1 {
        p.len() - 1
    } else if p[i] == 0 {
        i
    } else {
        name_end_from(p, i + 1)
    }
}

/// The position of the name terminator of a list-entry payload: the
/// first zero byte after the index byte, or the last position.
pub open spec fn name_end_spec(p: Seq<u8>) -> int {
    name_end_from(p, 1)
}

/// A list-entry payload has room for its index byte, name and the two
/// five-word numbers after the terminator.
pub open spec fn list_entry_shape(p: Seq<u8>) -> bool {
    &&& p.len() >= 2
    &&& name_end_spec(p) + 11 <= p.len()
}

/// The size field of a list-entry payload.
pub open spec fn list_entry_size(p: Seq<u8>) -> u32 {
    decode32_spec(p.subrange(name_end_spec(p) + 1, name_end_spec(p) + 6))
}

/// The checksum field of a list-entry payload.
pub open spec fn list_entry_checksum(p: Seq<u8>) -> u32 {
    decode32_spec(p.subrange(name_end_spec(p) + 6, name_end_spec(p) + 11))
}

/// The name of a list-entry payload.
pub open spec fn list_entry_name(p: Seq<u8>) -> Seq<char> {
    ascii_chars(p.subrange(1, name_end_spec(p)))
}

/// The list after storing an entry at `pos`: grown with absent
/// entries as needed, every other entry kept, and `pos` holding the
/// announced name, size and checksum.
pub open spec fn list_entry_set(
    pre: Seq<Option<Resource>>,
    post: Seq<Option<Resource>>,
    pos: int,
    name: Seq<char>,
    size: u32,
    checksum: u32,
) -> bool {
    &&& post.len() == (if pos + 1 > pre.len() {
        pos + 1
    } else {
        pre.len() as int
    })
    &&& (forall|j: int| 0 <= j < post.len() && j != pos ==> #[trigger] post[j] == (if j
        < pre.len() {
        pre[j]
    } else {
        None::<Resource>
    }))
    &&& post[pos] matches Some(r) && r.id == pos as u8 && r.name@ == name && r.size == size
        && r.checksum == checksum
}

/// The parameter table after a name announcement for `pid`: an
/// existing entry keeps its numeric state and takes the new name; a
/// missing entry is appended fresh under that name.
pub open spec fn param_name_updated(
    pre: Seq<(u8, OwlParameter)>,
    post: Seq<(u8, OwlParameter)>,
    pid: u8,
    name: Seq<char>,
) -> bool {
    let i = param_index(pre, pid);
    if i == -1 {
        &&& post.len() == pre.len() + 1
        &&& post.take(pre.len() as int) == pre
        &&& post.last().0 == pid
        &&& post.last().1.name@ == name
        &&& post.last().1.value == 0
        &&& post.last().1.midi_value == 0
        &&& post.last().1.prev_midi_value == 0
    } else {
        &&& post.len() == pre.len()
        &&& (forall|j: int| 0 <= j < pre.len() && j != i ==> #[trigger] post[j] == pre[j])
        &&& post[i].0 == pid
        &&& post[i].1.name@ == name
        &&& post[i].1.value == pre[i].1.value
        &&& post[i].1.midi_value == pre[i].1.midi_value
        &&& post[i].1.prev_midi_value == pre[i].1.prev_midi_value
    }
}

/// The configuration table after a value arrives for `key`: an
/// existing entry takes the new value string, a missing one is
/// appended.
pub open spec fn setting_value_set(
    pre: Seq<(u16, String)>,
    post: Seq<(u16, String)>,
    key: u16,
    value: Seq<char>,
) -> bool {
    let i = setting_index(pre, key);
    if i == -1 {
        &&& post.len() == pre.len() + 1
        &&& post.take(pre.len() as int) == pre
        &&& post.last().0 == key
        &&& post.last().1@ == value
    } else {
        &&& post.len() == pre.len()
        &&& (forall|j: int| 0 <= j < pre.len() && j != i ==> #[trigger] post[j] == pre[j])
        &&& post[i].0 == key
        &&& post[i].1@ == value
    }
}

/// The 16-bit configuration key of a configuration payload.
pub open spec fn cfg_key_spec(p: Seq<u8>) -> u16 {
    (((p[0] as u16) << 8u16) | (p[1] as u16)) as u16
}

/// The value bytes of a configuration payload: everything between the
/// key and the trailing terminator.
pub open spec fn cfg_value_bytes(p: Seq<u8>) -> Seq<u8> {
    p.subrange(2, if p.len() > 2 { p.len() - 1 } else { 2 })
}

/// The single authority over the device-state snapshot: it decodes
/// inbound frames into state changes and builds outbound request
/// frames, appending a log line for everything it does.
pub struct OwlCommandProcessor {
    /// Firmware version string the device reported.
    pub firmware_version: Option<String>,
    /// Parameter table, one entry per announced or updated parameter
    /// identifier (each identifier at most once).
    pub parameters: Vec<(u8, OwlParameter)>,
    /// Last program message.
    pub program_message: Option<String>,
    /// Last program error.
    pub error_message: Option<String>,
    /// Name of the currently loaded patch (entry 0 of the patch list).
    pub patch_name: Option<String>,
    /// Patch list by device index; absent entries are `None`.
    pub patches: Vec<Option<Resource>>,
    /// Index the device numbers its first resource with; subtracted
    /// from every reported resource index.
    pub resource_offset: usize,
    /// Resource list by offset-corrected index.
    pub resources: Vec<Option<Resource>>,
    /// Last program statistics line.
    pub program_stats: Option<String>,
    /// Configuration settings, decimal value strings keyed by the
    /// 16-bit configuration key (each key at most once).
    pub settings: Vec<(u16, String)>,
    /// Append-only human-readable log of everything handled or sent.
    pub log: String,
    /// The in-flight chunked transfer.
    pub resource_data: ResourceData,
}

impl OwlCommandProcessor {
    /// Well-formedness: the transfer machine is well-formed, the
    /// parameter table holds each valid identifier at most once with a
    /// well-formed parameter, and the configuration table holds each
    /// key at most once.
    pub open spec fn inv(&self) -> bool {
        &&& self.resource_data.inv()
        &&& forall|i: int, j: int| 0 <= i < j < self.parameters@.len()
            ==> (#[trigger] self.parameters@[i]).0 != (#[trigger] self.parameters@[j]).0
        &&& forall|i: int| 0 <= i < self.parameters@.len() ==> is_parameter_id(
            (#[trigger] self.parameters@[i]).0,
        ) && self.parameters@[i].1.inv()
        &&& forall|i: int, j: int| 0 <= i < j < self.settings@.len()
            ==> (#[trigger] self.settings@[i]).0 != (#[trigger] self.settings@[j]).0
    }

    /// Everything except the log and the named exceptions is equal in
    /// `a` and `b`.
    pub open spec fn same_snapshot(a: &Self, b: &Self) -> bool {
        &&& a.firmware_version == b.firmware_version
        &&& a.parameters == b.parameters
        &&& a.program_message == b.program_message
        &&& a.error_message == b.error_message
        &&& a.patch_name == b.patch_name
        &&& a.patches == b.patches
        &&& a.resource_offset == b.resource_offset
        &&& a.resources == b.resources
        &&& a.program_stats == b.program_stats
        &&& a.settings == b.settings
        &&& a.resource_data == b.resource_data
    }

    pub fn new() -> (r: Self)
        ensures
            r.inv(),
            r.firmware_version is None,
            r.parameters@.len() == 0,
            r.program_message is None,
            r.error_message is None,
            r.patch_name is None,
            r.patches@.len() == 0,
            r.resource_offset == 0,
            r.resources@.len() == 0,
            r.program_stats is None,
            r.settings@.len() == 0,
            r.log@.len() == 0,
            r.resource_data@ == (crate::resources::TransferModel {
                state: crate::resources::ResourceState::New,
                data: Seq::<u8>::empty(),
                size: 0u32,
                checksum: 0u32,
            }),
    {
        OwlCommandProcessor {
            firmware_version: None,
            parameters: Vec::new(),
            program_message: None,
            error_message: None,
            patch_name: None,
            patches: Vec::new(),
            resource_offset: 0,
            resources: Vec::new(),
            program_stats: None,
            settings: Vec::new(),
            log: String::new(),
            resource_data: ResourceData::new(),
        }
    }


    /// The snapshot change of this text-bearing command: the field
    /// takes the payload text (minus the trailing terminator), one log
    /// line is appended, and nothing else moves.
    pub open spec fn fw_version_applied(pre: Self, post: Self, p: Seq<u8>) -> bool {
        &&& post.firmware_version matches Some(s) && s@ == trimmed_text(p)
        &&& post.log@ == pre.log@ + "< SYSEX_FIRMWARE_VERSION = "@ + trimmed_text(p) + "\n"@
        &&& post.parameters == pre.parameters
        &&& post.program_message == pre.program_message
        &&& post.error_message == pre.error_message
        &&& post.patch_name == pre.patch_name
        &&& post.patches == pre.patches
        &&& post.resource_offset == pre.resource_offset
        &&& post.resources == pre.resources
        &&& post.program_stats == pre.program_stats
        &&& post.settings == pre.settings
        &&& post.resource_data == pre.resource_data
    }

    /// The snapshot change of this text-bearing command: the field
    /// takes the payload text (minus the trailing terminator), one log
    /// line is appended, and nothing else moves.
    pub open spec fn program_message_applied(pre: Self, post: Self, p: Seq<u8>) -> bool {
        &&& post.program_message matches Some(s) && s@ == trimmed_text(p)
        &&& post.log@ == pre.log@ + "< SYSEX_PROGRAM_MESSAGE = "@ + trimmed_text(p) + "\n"@
        &&& post.firmware_version == pre.firmware_version
        &&& post.parameters == pre.parameters
        &&& post.error_message == pre.error_message
        &&& post.patch_name == pre.patch_name
        &&& post.patches == pre.patches
        &&& post.resource_offset == pre.resource_offset
        &&& post.resources == pre.resources
        &&& post.program_stats == pre.program_stats
        &&& post.settings == pre.settings
        &&& post.resource_data == pre.resource_data
    }

    /// The snapshot change of this text-bearing command: the field
    /// takes the payload text (minus the trailing terminator), one log
    /// line is appended, and nothing else moves.
    pub open spec fn program_error_applied(pre: Self, post: Self, p: Seq<u8>) -> bool {
        &&& post.error_message matches Some(s) && s@ == trimmed_text(p)
        &&& post.log@ == pre.log@ + "< SYSEX_PROGRAM_ERROR = "@ + trimmed_text(p) + "\n"@
        &&& post.firmware_version == pre.firmware_version
        &&& post.parameters == pre.parameters
        &&& post.program_message == pre.program_message
        &&& post.patch_name == pre.patch_name
        &&& post.patches == pre.patches
        &&& post.resource_offset == pre.resource_offset
        &&& post.resources == pre.resources
        &&& post.program_stats == pre.program_stats
        &&& post.settings == pre.settings
        &&& post.resource_data == pre.resource_data
    }

    /// The snapshot change of this text-bearing command: the field
    /// takes the payload text (minus the trailing terminator), one log
    /// line is appended, and nothing else moves.
    pub open spec fn program_stats_applied(pre: Self, post: Self, p: Seq<u8>) -> bool {
        &&& post.program_stats matches Some(s) && s@ == trimmed_text(p)
        &&& post.log@ == pre.log@ + "< SYSEX_PROGRAM_STATS "@ + trimmed_text(p) + "\n"@
        &&& post.firmware_version == pre.firmware_version
        &&& post.parameters == pre.parameters
        &&& post.program_message == pre.program_message
        &&& post.error_message == pre.error_message
        &&& post.patch_name == pre.patch_name
        &&& post.patches == pre.patches
        &&& post.resource_offset == pre.resource_offset
        &&& post.resources == pre.resources
        &&& post.settings == pre.settings
        &&& post.resource_data == pre.resource_data
    }

    /// The log line of a frame whose shape the handler rejects.
    pub open spec fn log_malformed_spec() -> Seq<char> {
        "! MalformedFrame\n"@
    }

    /// The log line of a command byte the processor does not handle.
    pub open spec fn log_unrecognized_spec(b: u8) -> Seq<char> {
        "< CMD "@ + decimal_str(b as nat) + "\n"@
    }

    /// Nothing changes but one appended log line.
    pub open spec fn only_logged(pre: Self, post: Self, line: Seq<char>) -> bool {
        &&& post.log@ == pre.log@ + line
        &&& post.firmware_version == pre.firmware_version
        &&& post.parameters == pre.parameters
        &&& post.program_message == pre.program_message
        &&& post.error_message == pre.error_message
        &&& post.patch_name == pre.patch_name
        &&& post.patches == pre.patches
        &&& post.resource_offset == pre.resource_offset
        &&& post.resources == pre.resources
        &&& post.program_stats == pre.program_stats
        &&& post.settings == pre.settings
        &&& post.resource_data == pre.resource_data
    }

    /// The snapshot change of a parameter-name announcement: the first
    /// payload byte selects the parameter, the rest (minus terminator)
    /// is its display name; numeric state of an existing entry is left
    /// untouched.  A short payload or an identifier outside the
    /// parameter namespace is a malformed frame and only logged.
    pub open spec fn parameter_name_applied(pre: Self, post: Self, p: Seq<u8>) -> bool {
        if p.len() >= 2 && is_parameter_id(p[0]) {
            let name = ascii_chars(p.subrange(1, p.len() - 1));
            &&& param_name_updated(pre.parameters@, post.parameters@, p[0], name)
            &&& post.log@ == pre.log@ + "< SYSEX_PARAMETER_NAME_COMMAND "@
                + parameter_name_spec(p[0]) + ": "@ + name + "\n"@
        &&& post.firmware_version == pre.firmware_version
        &&& post.program_message == pre.program_message
        &&& post.error_message == pre.error_message
        &&& post.patch_name == pre.patch_name
        &&& post.patches == pre.patches
        &&& post.resource_offset == pre.resource_offset
        &&& post.resources == pre.resources
        &&& post.program_stats == pre.program_stats
        &&& post.settings == pre.settings
        &&& post.resource_data == pre.resource_data
        } else {
            Self::only_logged(pre, post, Self::log_malformed_spec())
        }
    }

    /// The snapshot change of a patch-name announcement: the entry at
    /// the reported index is stored with its name, size and checksum,
    /// the list growing as needed, and the current patch name is
    /// refreshed from entry 0.  A payload without room for its fields
    /// is a malformed frame and only logged.
    pub open spec fn preset_name_applied(pre: Self, post: Self, p: Seq<u8>) -> bool {
        if list_entry_shape(p) {
            let pos = p[0] as int;
            &&& list_entry_set(
                pre.patches@,
                post.patches@,
                pos,
                list_entry_name(p),
                list_entry_size(p),
                list_entry_checksum(p),
            )
            &&& (post.patches@[0] matches Some(r) ==> post.patch_name matches Some(pn) && pn
                == r.name)
            &&& (post.patches@[0] is None ==> post.patch_name is None)
            &&& post.log@ == pre.log@ + "< SYSEX_PATCH_NAME_COMMAND "@ + decimal_str(
                p[0] as nat,
            ) + " = "@ + list_entry_name(p) + "\n"@
        &&& post.firmware_version == pre.firmware_version
        &&& post.parameters == pre.parameters
        &&& post.program_message == pre.program_message
        &&& post.error_message == pre.error_message
        &&& post.resource_offset == pre.resource_offset
        &&& post.resources == pre.resources
        &&& post.program_stats == pre.program_stats
        &&& post.settings == pre.settings
        &&& post.resource_data == pre.resource_data
        } else {
            Self::only_logged(pre, post, Self::log_malformed_spec())
        }
    }

    /// The snapshot change of a resource-name announcement: like a
    /// patch name, but on the resource list, with the first reported
    /// index since the list was cleared fixing the index offset that
    /// is subtracted from every reported index.  An index below the
    /// offset is a malformed frame and only logged.
    pub open spec fn resource_name_applied(pre: Self, post: Self, p: Seq<u8>) -> bool {
        if list_entry_shape(p) {
            let off = if pre.resources@.len() == 0 {
                p[0] as int
            } else {
                pre.resource_offset as int
            };
            if p[0] as int >= off {
                let pos = p[0] as int - off;
                &&& post.resource_offset == off
                &&& list_entry_set(
                    pre.resources@,
                    post.resources@,
                    pos,
                    list_entry_name(p),
                    list_entry_size(p),
                    list_entry_checksum(p),
                )
                &&& post.log@ == pre.log@ + "< SYSEX_RESOURCE_NAME_COMMAND "@ + decimal_str(
                    pos as nat,
                ) + " = "@ + list_entry_name(p) + "\n"@
        &&& post.firmware_version == pre.firmware_version
        &&& post.parameters == pre.parameters
        &&& post.program_message == pre.program_message
        &&& post.error_message == pre.error_message
        &&& post.patch_name == pre.patch_name
        &&& post.patches == pre.patches
        &&& post.program_stats == pre.program_stats
        &&& post.settings == pre.settings
        &&& post.resource_data == pre.resource_data
            } else {
                Self::only_logged(pre, post, Self::log_malformed_spec())
            }
        } else {
            Self::only_logged(pre, post, Self::log_malformed_spec())
        }
    }

    /// The snapshot change of a configuration value: the two key bytes
    /// select the setting; the remainder minus the terminator is an
    /// ASCII hexadecimal value, stored as its decimal rendering.  A
    /// value that does not parse as a signed 64-bit hexadecimal number
    /// stores nothing and logs the parse failure; a payload too short
    /// for its key is a malformed frame and only logged.
    pub open spec fn configuration_applied(pre: Self, post: Self, p: Seq<u8>) -> bool {
        if p.len() >= 2 {
            let key = cfg_key_spec(p);
            let v = cfg_value_bytes(p);
            match hex_parse_spec(v) {
                Some((negative, magnitude)) => {
                    if magnitude <= i64_magnitude_bound(negative) {
                        &&& setting_value_set(
                            pre.settings@,
                            post.settings@,
                            key,
                            signed_decimal_str(negative, magnitude),
                        )
                        &&& post.log@ == pre.log@ + "< SYSEX_CONFIGURATION_COMMAND "@
                            + decimal_str(key as nat) + "\n"@
        &&& post.firmware_version == pre.firmware_version
        &&& post.parameters == pre.parameters
        &&& post.program_message == pre.program_message
        &&& post.error_message == pre.error_message
        &&& post.patch_name == pre.patch_name
        &&& post.patches == pre.patches
        &&& post.resource_offset == pre.resource_offset
        &&& post.resources == pre.resources
        &&& post.program_stats == pre.program_stats
        &&& post.resource_data == pre.resource_data
                    } else {
                        Self::only_logged(
                            pre,
                            post,
                            "! Error parsing "@ + ascii_chars(v) + " as hex\n"@,
                        )
                    }
                },
                None => Self::only_logged(
                    pre,
                    post,
                    "! Error parsing "@ + ascii_chars(v) + " as hex\n"@,
                ),
            }
        } else {
            Self::only_logged(pre, post, Self::log_malformed_spec())
        }
    }

    /// The snapshot change of a firmware-upload chunk: the first five
    /// words carry the running chunk index, index zero resets the
    /// transfer, and the rest of the payload is fed to the transfer
    /// machine.  A payload too short for the index changes nothing.
    pub open spec fn firmware_upload_applied(pre: Self, post: Self, p: Seq<u8>) -> bool {
        if p.len() < 5 {
            post == pre
        } else {
            let idx = decode32_spec(p.take(5));
            let base = if idx == 0 {
                fresh_transfer()
            } else {
                pre.resource_data@
            };
            &&& post.resource_data@ == transfer_step(base, p.skip(5))
            &&& post.log@ == pre.log@ + "< SYSEX_FIRMWARE_UPLOAD #"@ + decimal_str(
                idx as nat,
            ) + "\n"@
        &&& post.firmware_version == pre.firmware_version
        &&& post.parameters == pre.parameters
        &&& post.program_message == pre.program_message
        &&& post.error_message == pre.error_message
        &&& post.patch_name == pre.patch_name
        &&& post.patches == pre.patches
        &&& post.resource_offset == pre.resource_offset
        &&& post.resources == pre.resources
        &&& post.program_stats == pre.program_stats
        &&& post.settings == pre.settings
        }
    }

    /// How one inbound SysEx payload changes the processor.  A frame
    /// not addressed by the manufacturer and device bytes is logged
    /// verbatim and otherwise ignored; one without a command byte
    /// changes nothing; a command byte the processor does not handle
    /// is logged and changes nothing else.
    pub open spec fn sysex_transition(pre: Self, post: Self, data: Seq<u8>) -> bool {
        if data.len() < 2 {
            post == pre
        } else if data[0] != MIDI_SYSEX_MANUFACTURER || data[1] != MIDI_SYSEX_OWL_DEVICE {
            Self::only_logged(pre, post, "< SYSEX "@ + decimal_list(data) + "\n"@)
        } else if data.len() == 2 {
            post == pre
        } else {
            let p = data.skip(3);
            match command_from_byte_spec(data[2]) {
                Some(Command::FirmwareVersion) => Self::fw_version_applied(pre, post, p),
                Some(Command::ProgramMessage) => Self::program_message_applied(pre, post, p),
                Some(Command::ProgramError) => Self::program_error_applied(pre, post, p),
                Some(Command::ProgramStats) => Self::program_stats_applied(pre, post, p),
                Some(Command::ParameterName) => Self::parameter_name_applied(pre, post, p),
                Some(Command::PresetName) => Self::preset_name_applied(pre, post, p),
                Some(Command::ResourceName) => Self::resource_name_applied(pre, post, p),
                Some(Command::Configuration) => Self::configuration_applied(pre, post, p),
                Some(Command::FirmwareUpload) => Self::firmware_upload_applied(pre, post, p),
                _ => Self::only_logged(pre, post, Self::log_unrecognized_spec(data[2])),
            }
        }
    }

    /// The log line of an outbound request.
    pub open spec fn log_request_spec(c: Command) -> Seq<char> {
        "> "@ + command_name_spec(c) + "\n"@
    }

    /// Builds the three-byte "request settings" Control Change for
    /// `command` and returns it for sending.  A listing request clears
    /// the list it refreshes: the patch list, or the resource list
    /// together with its index offset.
    pub fn request_settings(&mut self, command: Command) -> (msg: Vec<u8>)
        requires
            old(self).inv(),
        ensures
            final(self).inv(),
            msg@ == seq![0xb0u8, REQUEST_SETTINGS_CC, command_byte_spec(command)],
            final(self).log@ == old(self).log@ + Self::log_request_spec(command),
            final(self).firmware_version == old(self).firmware_version,
            final(self).parameters == old(self).parameters,
            final(self).program_message == old(self).program_message,
            final(self).error_message == old(self).error_message,
            final(self).patch_name == old(self).patch_name,
            final(self).program_stats == old(self).program_stats,
            final(self).settings == old(self).settings,
            final(self).resource_data == old(self).resource_data,
            command == Command::PresetName ==> final(self).patches@.len() == 0
                && final(self).resources == old(self).resources
                && final(self).resource_offset == old(self).resource_offset,
            command == Command::ResourceName ==> final(self).resources@.len() == 0
                && final(self).resource_offset == 0
                && final(self).patches == old(self).patches,
            command != Command::PresetName && command != Command::ResourceName ==> {
                &&& final(self).patches == old(self).patches
                &&& final(self).resources == old(self).resources
                &&& final(self).resource_offset == old(self).resource_offset
            },
    {
        self.log.append("> ");
        let name = command.name();
        self.log.append(name.as_str());
        self.log.append("\n");
        if command.as_byte() == 0x01 {
            self.patches.clear();
        } else if command.as_byte() == 0x04 {
            self.resource_offset = 0;
            self.resources.clear();
        }
        let mut msg: Vec<u8> = Vec::new();
        msg.push(0xb0);
        msg.push(REQUEST_SETTINGS_CC);
        msg.push(command.as_byte());
        proof {
            assert(msg@ =~= seq![0xb0u8, REQUEST_SETTINGS_CC, command_byte_spec(command)]);
            assert(self.log@ =~= old(self).log@ + Self::log_request_spec(command));
        }
        msg
    }

    /// Builds a minimal SysEx frame carrying only the command byte,
    /// addressed to any device of the family, and returns it for
    /// sending.
    pub fn send_sysex_command(&mut self, command: Command) -> (msg: Vec<u8>)
        requires
            old(self).inv(),
        ensures
            final(self).inv(),
            msg@ == seq![
                0xf0u8,
                MIDI_SYSEX_MANUFACTURER,
                MIDI_SYSEX_OMNI_DEVICE,
                command_byte_spec(command),
                0xf7u8,
            ],
            final(self).log@ == old(self).log@ + Self::log_request_spec(command),
            Self::same_snapshot(old(self), final(self)),
    {
        self.log.append("> ");
        let name = command.name();
        self.log.append(name.as_str());
        self.log.append("\n");
        let mut msg: Vec<u8> = Vec::new();
        msg.push(0xf0);
        msg.push(MIDI_SYSEX_MANUFACTURER);
        msg.push(MIDI_SYSEX_OMNI_DEVICE);
        msg.push(command.as_byte());
        msg.push(0xf7);
        proof {
            assert(msg@ =~= seq![
                0xf0u8,
                MIDI_SYSEX_MANUFACTURER,
                MIDI_SYSEX_OMNI_DEVICE,
                command_byte_spec(command),
                0xf7u8,
            ]);
            assert(self.log@ =~= old(self).log@ + Self::log_request_spec(command));
        }
        msg
    }

    /// The log line of an outbound SysEx frame with a payload.
    pub open spec fn log_send_string_spec(c: Command, payload: Seq<u8>) -> Seq<char> {
        "> "@ + command_name_spec(c) + " = "@ + ascii_chars(payload) + "\n"@
    }

    /// Builds a SysEx frame carrying the command byte and a 7-bit-safe
    /// payload (most often an ASCII string), and returns it for
    /// sending.
    pub fn send_sysex_string(&mut self, command: Command, payload: &[u8]) -> (msg: Vec<u8>)
        requires
            old(self).inv(),
            all_seven_bit(payload@),
        ensures
            final(self).inv(),
            msg@ == seq![
                0xf0u8,
                MIDI_SYSEX_MANUFACTURER,
                MIDI_SYSEX_OMNI_DEVICE,
                command_byte_spec(command),
            ] + payload@ + seq![0xf7u8],
            final(self).log@ == old(self).log@ + Self::log_send_string_spec(command, payload@),
            Self::same_snapshot(old(self), final(self)),
    {
        self.log.append("> ");
        let name = command.name();
        self.log.append(name.as_str());
        self.log.append(" = ");
        let text = ascii_string(payload);
        self.log.append(text.as_str());
        self.log.append("\n");
        let mut msg: Vec<u8> = Vec::new();
        msg.push(0xf0);
        msg.push(MIDI_SYSEX_MANUFACTURER);
        msg.push(MIDI_SYSEX_OMNI_DEVICE);
        msg.push(command.as_byte());
        let mut i: usize = 0;
        while i < payload.len()
            invariant
                i <= payload@.len(),
                msg@ == seq![
                    0xf0u8,
                    MIDI_SYSEX_MANUFACTURER,
                    MIDI_SYSEX_OMNI_DEVICE,
                    command_byte_spec(command),
                ] + payload@.take(i as int),
            decreases payload@.len() - i,
        {
            msg.push(payload[i]);
            proof {
                assert(payload@.take((i + 1) as int) =~= payload@.take(i as int).push(
                    payload@[i as int],
                ));
                assert(msg@ =~= seq![
                    0xf0u8,
                    MIDI_SYSEX_MANUFACTURER,
                    MIDI_SYSEX_OMNI_DEVICE,
                    command_byte_spec(command),
                ] + payload@.take((i + 1) as int));
            }
            i += 1;
        }
        msg.push(0xf7);
        proof {
            assert(payload@.take(payload@.len() as int) =~= payload@);
            assert(msg@ =~= seq![
                0xf0u8,
                MIDI_SYSEX_MANUFACTURER,
                MIDI_SYSEX_OMNI_DEVICE,
                command_byte_spec(command),
            ] + payload@ + seq![0xf7u8]);
            assert(self.log@ =~= old(self).log@ + Self::log_send_string_spec(command, payload@));
        }
        msg
    }

    /// The log line of an outbound plain MIDI message.
    pub open spec fn log_send_message_spec(m: &MidiMsg) -> Seq<char> {
        "> MIDI "@ + m.render_spec() + "\n"@
    }

    /// Serializes a plain MIDI message for sending and logs it.  An
    /// outbound Program Change clears the parameter table: the next
    /// program announces its own parameters.
    pub fn send_message(&mut self, message: &MidiMsg) -> (msg: Vec<u8>)
        requires
            old(self).inv(),
            message.wf(),
        ensures
            final(self).inv(),
            msg@ == message.bytes_spec(),
            final(self).log@ == old(self).log@ + Self::log_send_message_spec(message),
            message matches MidiMsg::ProgramChange(_, _) ==> final(self).parameters@.len() == 0,
            !(message matches MidiMsg::ProgramChange(_, _)) ==> final(self).parameters == old(
                self,
            ).parameters,
            final(self).firmware_version == old(self).firmware_version,
            final(self).program_message == old(self).program_message,
            final(self).error_message == old(self).error_message,
            final(self).patch_name == old(self).patch_name,
            final(self).patches == old(self).patches,
            final(self).resource_offset == old(self).resource_offset,
            final(self).resources == old(self).resources,
            final(self).program_stats == old(self).program_stats,
            final(self).settings == old(self).settings,
            final(self).resource_data == old(self).resource_data,
    {
        self.log.append("> MIDI ");
        let mut out: Vec<u8> = Vec::new();
        match message {
            MidiMsg::ControlChange(ch, cc, v) => {
                self.log.append("ControlChange ");
                let s = u64_to_string(*cc as u64);
                self.log.append(s.as_str());
                self.log.append(" ");
                let s = u64_to_string(*v as u64);
                self.log.append(s.as_str());
                out.push(0xb0 | *ch);
                out.push(*cc);
                out.push(*v);
            },
            MidiMsg::ProgramChange(ch, p) => {
                self.log.append("ProgramChange ");
                let s = u64_to_string(*p as u64);
                self.log.append(s.as_str());
                out.push(0xc0 | *ch);
                out.push(*p);
                self.parameters.clear();
            },
            MidiMsg::Other(bytes) => {
                self.log.append("Other ");
                let rendered = bytes_to_list_string(bytes.as_slice());
                self.log.append(rendered.as_str());
                let mut i: usize = 0;
                while i < bytes.len()
                    invariant
                        i <= bytes@.len(),
                        out@ == bytes@.take(i as int),
                    decreases bytes@.len() - i,
                {
                    out.push(bytes[i]);
                    proof {
                        assert(bytes@.take((i + 1) as int) =~= bytes@.take(i as int).push(
                            bytes@[i as int],
                        ));
                    }
                    i += 1;
                }
                proof {
                    assert(bytes@.take(bytes@.len() as int) =~= bytes@);
                }
            },
        }
        self.log.append("\n");
        proof {
            assert(out@ =~= message.bytes_spec());
            assert(self.log@ =~= old(self).log@ + Self::log_send_message_spec(message));
        }
        out
    }
}

/// `param_index` names the first entry with the identifier, and `-1`
/// means there is none.
pub proof fn lemma_param_index(s: Seq<(u8, OwlParameter)>, pid: u8)
    ensures
        param_index(s, pid) == -1 ==> forall|j: int| 0 <= j < s.len()
            ==> (#[trigger] s[j]).0 != pid,
        param_index(s, pid) != -1 ==> {
            &&& 0 <= param_index(s, pid) < s.len()
            &&& s[param_index(s, pid)].0 == pid
            &&& forall|j: int| 0 <= j < param_index(s, pid) ==> (#[trigger] s[j]).0 != pid
        },
    decreases s.len(),
{
    if s.len() > 0 && s[0].0 != pid {
        lemma_param_index(s.skip(1), pid);
        assert forall|j: int| 1 <= j < s.len() implies s[j] == s.skip(1)[j - 1] by {}
    }
}

/// `setting_index` names the first entry with the key, and `-1` means
/// there is none.
pub proof fn lemma_setting_index(s: Seq<(u16, String)>, key: u16)
    ensures
        setting_index(s, key) == -1 ==> forall|j: int| 0 <= j < s.len()
            ==> (#[trigger] s[j]).0 != key,
        setting_index(s, key) != -1 ==> {
            &&& 0 <= setting_index(s, key) < s.len()
            &&& s[setting_index(s, key)].0 == key
            &&& forall|j: int| 0 <= j < setting_index(s, key) ==> (#[trigger] s[j]).0 != key
        },
    decreases s.len(),
{
    if s.len() > 0 && s[0].0 != key {
        lemma_setting_index(s.skip(1), key);
        assert forall|j: int| 1 <= j < s.len() implies s[j] == s.skip(1)[j - 1] by {}
    }
}

/// The parameter table after a device-originated value update for
/// `pid`: an existing entry keeps everything but its MIDI value; a
/// missing entry is appended, named after the identifier, carrying the
/// value.
pub open spec fn param_value_updated(
    pre: Seq<(u8, OwlParameter)>,
    post: Seq<(u8, OwlParameter)>,
    pid: u8,
    v: u8,
) -> bool {
    let i = param_index(pre, pid);
    if i == -1 {
        &&& post.len() == pre.len() + 1
        &&& post.take(pre.len() as int) == pre
        &&& post.last().0 == pid
        &&& post.last().1.name@ == parameter_name_spec(pid)
        &&& post.last().1.value == 0
        &&& post.last().1.midi_value == v
        &&& post.last().1.prev_midi_value == 0
    } else {
        &&& post.len() == pre.len()
        &&& (forall|j: int| 0 <= j < pre.len() && j != i ==> #[trigger] post[j] == pre[j])
        &&& post[i].0 == pid
        &&& post[i].1.name == pre[i].1.name
        &&& post[i].1.value == pre[i].1.value
        &&& post[i].1.midi_value == v
        &&& post[i].1.prev_midi_value == pre[i].1.prev_midi_value
    }
}

impl OwlCommandProcessor {
    /// The index of `pid` in the parameter table, `None` when absent.
    fn find_param(&self, pid: u8) -> (r: Option<usize>)
        ensures
            r matches Some(i) ==> i == param_index(self.parameters@, pid),
            r is None ==> param_index(self.parameters@, pid) == -1,
    {
        proof {
            lemma_param_index(self.parameters@, pid);
        }
        let n = self.parameters.len();
        let mut i: usize = 0;
        while i < n
            invariant
                n == self.parameters@.len(),
                i <= n,
                forall|j: int| 0 <= j < i ==> (#[trigger] self.parameters@[j]).0 != pid,
            decreases n - i,
        {
            if self.parameters[i].0 == pid {
                proof {
                    lemma_param_index(self.parameters@, pid);
                }
                return Some(i);
            }
            i += 1;
        }
        None
    }

    /// The index of `key` in the configuration table, `None` when
    /// absent.
    fn find_setting(&self, key: u16) -> (r: Option<usize>)
        ensures
            r matches Some(i) ==> i == setting_index(self.settings@, key),
            r is None ==> setting_index(self.settings@, key) == -1,
    {
        proof {
            lemma_setting_index(self.settings@, key);
        }
        let n = self.settings.len();
        let mut i: usize = 0;
        while i < n
            invariant
                n == self.settings@.len(),
                i <= n,
                forall|j: int| 0 <= j < i ==> (#[trigger] self.settings@[j]).0 != key,
            decreases n - i,
        {
            if self.settings[i].0 == key {
                proof {
                    lemma_setting_index(self.settings@, key);
                }
                return Some(i);
            }
            i += 1;
        }
        None
    }

    /// The log line of an inbound parameter value update.
    pub open spec fn log_parameter_spec(pid: u8, value: u8) -> Seq<char> {
        "< PARAMETER "@ + parameter_name_spec(pid) + " = "@ + decimal_str(value as nat) + "\n"@
    }

    /// The log line of an inbound Control Change outside the parameter
    /// namespace.
    pub open spec fn log_cc_spec(cc: u8, value: u8) -> Seq<char> {
        "< CC"@ + decimal_str(cc as nat) + " = "@ + decimal_str(value as nat) + "\n"@
    }

    /// The log line of any other inbound plain message.
    pub open spec fn log_midi_spec(m: &MidiMsg) -> Seq<char> {
        "< MIDI "@ + m.render_spec() + "\n"@
    }

    /// Handles one plain (non-SysEx) inbound MIDI message.  A Control
    /// Change whose controller number is a parameter identifier
    /// updates that parameter's device-side MIDI value, creating the
    /// entry if the value arrives before the name announcement; every
    /// message leaves one log line.
    pub fn handle_midi_message(&mut self, message: &MidiMsg)
        requires
            old(self).inv(),
            message.wf(),
        ensures
            final(self).inv(),
            (match *message {
                MidiMsg::ControlChange(_, cc, v) => {
                    if is_parameter_id(cc) {
                        &&& final(self).log@ == old(self).log@ + Self::log_parameter_spec(cc, v)
                        &&& param_value_updated(
                            old(self).parameters@,
                            final(self).parameters@,
                            cc,
                            v,
                        )
                    } else {
                        &&& final(self).log@ == old(self).log@ + Self::log_cc_spec(cc, v)
                        &&& final(self).parameters == old(self).parameters
                    }
                },
                _ => {
                    &&& final(self).log@ == old(self).log@ + Self::log_midi_spec(message)
                    &&& final(self).parameters == old(self).parameters
                },
            }),
            final(self).firmware_version == old(self).firmware_version,
            final(self).program_message == old(self).program_message,
            final(self).error_message == old(self).error_message,
            final(self).patch_name == old(self).patch_name,
            final(self).patches == old(self).patches,
            final(self).resource_offset == old(self).resource_offset,
            final(self).resources == old(self).resources,
            final(self).program_stats == old(self).program_stats,
            final(self).settings == old(self).settings,
            final(self).resource_data == old(self).resource_data,
    {
        match message {
            MidiMsg::ControlChange(_ch, cc, v) => {
                if *cc < 40 {
                    self.log.append("< PARAMETER ");
                    let name = parameter_name(*cc);
                    self.log.append(name.as_str());
                    self.log.append(" = ");
                    let s = u64_to_string(*v as u64);
                    self.log.append(s.as_str());
                    self.log.append("\n");
                    match self.find_param(*cc) {
                        Some(i) => {
                            proof {
                                lemma_param_index(old(self).parameters@, *cc);
                            }
                            let (id0, p0) = self.parameters.remove(i);
                            let p1 = OwlParameter {
                                name: p0.name,
                                value: p0.value,
                                midi_value: *v,
                                prev_midi_value: p0.prev_midi_value,
                            };
                            self.parameters.insert(i, (id0, p1));
                            proof {
                                assert forall|j: int| 0 <= j < old(self).parameters@.len() && j
                                    != i implies #[trigger] self.parameters@[j] == old(
                                    self,
                                ).parameters@[j] by {}
                            }
                        },
                        None => {
                            proof {
                                lemma_param_index(old(self).parameters@, *cc);
                            }
                            let mut fresh = OwlParameter::new(parameter_name(*cc));
                            fresh.midi_value = *v;
                            self.parameters.push((*cc, fresh));
                            proof {
                                assert(self.parameters@.take(old(self).parameters@.len() as int)
                                    =~= old(self).parameters@);
                            }
                        },
                    }
                    proof {
                        assert(self.log@ =~= old(self).log@ + Self::log_parameter_spec(*cc, *v));
                    }
                } else {
                    self.log.append("< CC");
                    let s = u64_to_string(*cc as u64);
                    self.log.append(s.as_str());
                    self.log.append(" = ");
                    let s = u64_to_string(*v as u64);
                    self.log.append(s.as_str());
                    self.log.append("\n");
                    proof {
                        assert(self.log@ =~= old(self).log@ + Self::log_cc_spec(*cc, *v));
                    }
                }
            },
            MidiMsg::ProgramChange(_ch, p) => {
                self.log.append("< MIDI ");
                self.log.append("ProgramChange ");
                let s = u64_to_string(*p as u64);
                self.log.append(s.as_str());
                self.log.append("\n");
                proof {
                    assert(self.log@ =~= old(self).log@ + Self::log_midi_spec(message));
                }
            },
            MidiMsg::Other(bytes) => {
                self.log.append("< MIDI ");
                self.log.append("Other ");
                let rendered = bytes_to_list_string(bytes.as_slice());
                self.log.append(rendered.as_str());
                self.log.append("\n");
                proof {
                    assert(self.log@ =~= old(self).log@ + Self::log_midi_spec(message));
                }
            },
        }
    }
}


/// Finds the name terminator of a list-entry payload: the first zero
/// byte after the index byte, or the last position when none occurs.
fn scan_name_end(payload: &[u8]) -> (r: usize)
    requires
        payload@.len() >= 2,
    ensures
        r as int == name_end_spec(payload@),
        1 <= r <= payload@.len() - 1,
{
    let n = payload.len();
    let mut i: usize = 1;
    while i < n - 1
        invariant
            1 <= i <= n - 1,
            n == payload@.len(),
            n >= 2,
            name_end_from(payload@, 1) == name_end_from(payload@, i as int),
        decreases n - i,
    {
        if payload[i] == 0 {
            return i;
        }
        i += 1;
    }
    n - 1
}

impl OwlCommandProcessor {
    /// Appends the malformed-frame log line.
    fn log_malformed(&mut self)
        ensures
            Self::only_logged(*old(self), *final(self), Self::log_malformed_spec()),
            final(self).inv() == old(self).inv(),
    {
        self.log.append("! MalformedFrame\n");
        proof {
            assert(self.log@ =~= old(self).log@ + Self::log_malformed_spec());
        }
    }

    fn apply_firmware_version(&mut self, payload: &[u8])
        requires
            old(self).inv(),
            all_seven_bit(payload@),
        ensures
            final(self).inv(),
            Self::fw_version_applied(*old(self), *final(self), payload@),
    {
        let end = if payload.len() > 0 { payload.len() - 1 } else { 0 };
        let text = ascii_string(&payload[0..end]);
        self.log.append("< SYSEX_FIRMWARE_VERSION = ");
        self.log.append(text.as_str());
        self.log.append("\n");
        self.firmware_version = Some(text);
        proof {
            assert(payload@.subrange(0, end as int) =~= (if payload@.len() > 0 {
                payload@.take(payload@.len() - 1)
            } else {
                payload@
            }));
            assert(self.log@ =~= old(self).log@ + "< SYSEX_FIRMWARE_VERSION = "@ + trimmed_text(
                payload@,
            ) + "\n"@);
        }
    }

    fn apply_program_message(&mut self, payload: &[u8])
        requires
            old(self).inv(),
            all_seven_bit(payload@),
        ensures
            final(self).inv(),
            Self::program_message_applied(*old(self), *final(self), payload@),
    {
        let end = if payload.len() > 0 { payload.len() - 1 } else { 0 };
        let text = ascii_string(&payload[0..end]);
        self.log.append("< SYSEX_PROGRAM_MESSAGE = ");
        self.log.append(text.as_str());
        self.log.append("\n");
        self.program_message = Some(text);
        proof {
            assert(payload@.subrange(0, end as int) =~= (if payload@.len() > 0 {
                payload@.take(payload@.len() - 1)
            } else {
                payload@
            }));
            assert(self.log@ =~= old(self).log@ + "< SYSEX_PROGRAM_MESSAGE = "@ + trimmed_text(
                payload@,
            ) + "\n"@);
        }
    }

    fn apply_program_error(&mut self, payload: &[u8])
        requires
            old(self).inv(),
            all_seven_bit(payload@),
        ensures
            final(self).inv(),
            Self::program_error_applied(*old(self), *final(self), payload@),
    {
        let end = if payload.len() > 0 { payload.len() - 1 } else { 0 };
        let text = ascii_string(&payload[0..end]);
        self.log.append("< SYSEX_PROGRAM_ERROR = ");
        self.log.append(text.as_str());
        self.log.append("\n");
        self.error_message = Some(text);
        proof {
            assert(payload@.subrange(0, end as int) =~= (if payload@.len() > 0 {
                payload@.take(payload@.len() - 1)
            } else {
                payload@
            }));
            assert(self.log@ =~= old(self).log@ + "< SYSEX_PROGRAM_ERROR = "@ + trimmed_text(
                payload@,
            ) + "\n"@);
        }
    }

    fn apply_program_stats(&mut self, payload: &[u8])
        requires
            old(self).inv(),
            all_seven_bit(payload@),
        ensures
            final(self).inv(),
            Self::program_stats_applied(*old(self), *final(self), payload@),
    {
        let end = if payload.len() > 0 { payload.len() - 1 } else { 0 };
        let text = ascii_string(&payload[0..end]);
        self.log.append("< SYSEX_PROGRAM_STATS ");
        self.log.append(text.as_str());
        self.log.append("\n");
        self.program_stats = Some(text);
        proof {
            assert(payload@.subrange(0, end as int) =~= (if payload@.len() > 0 {
                payload@.take(payload@.len() - 1)
            } else {
                payload@
            }));
            assert(self.log@ =~= old(self).log@ + "< SYSEX_PROGRAM_STATS "@ + trimmed_text(
                payload@,
            ) + "\n"@);
        }
    }

    fn apply_parameter_name(&mut self, payload: &[u8])
        requires
            old(self).inv(),
            all_seven_bit(payload@),
        ensures
            final(self).inv(),
            Self::parameter_name_applied(*old(self), *final(self), payload@),
    {
        if payload.len() < 2 || payload[0] >= 40 {
            self.log_malformed();
            return;
        }
        let pid = payload[0];
        let name = ascii_string(&payload[1..payload.len() - 1]);
        self.log.append("< SYSEX_PARAMETER_NAME_COMMAND ");
        let pn = parameter_name(pid);
        self.log.append(pn.as_str());
        self.log.append(": ");
        self.log.append(name.as_str());
        self.log.append("\n");
        proof {
            assert(payload@.subrange(1, payload@.len() - 1) == payload@.subrange(
                1,
                payload@.len() - 1,
            ));
            assert(self.log@ =~= old(self).log@ + "< SYSEX_PARAMETER_NAME_COMMAND "@
                + parameter_name_spec(pid) + ": "@ + ascii_chars(
                payload@.subrange(1, payload@.len() - 1),
            ) + "\n"@);
        }
        match self.find_param(pid) {
            Some(i) => {
                proof {
                    lemma_param_index(old(self).parameters@, pid);
                }
                let (id0, p0) = self.parameters.remove(i);
                let p1 = OwlParameter {
                    name,
                    value: p0.value,
                    midi_value: p0.midi_value,
                    prev_midi_value: p0.prev_midi_value,
                };
                self.parameters.insert(i, (id0, p1));
                proof {
                    assert forall|j: int| 0 <= j < old(self).parameters@.len() && j
                        != i implies #[trigger] self.parameters@[j] == old(
                        self,
                    ).parameters@[j] by {}
                }
            },
            None => {
                proof {
                    lemma_param_index(old(self).parameters@, pid);
                }
                self.parameters.push((pid, OwlParameter::new(name)));
                proof {
                    assert(self.parameters@.take(old(self).parameters@.len() as int) =~= old(
                        self,
                    ).parameters@);
                }
            },
        }
    }

    /// Grows the list with absent entries until it has at least
    /// `len` entries.
    fn grow_list(list: &mut Vec<Option<Resource>>, len: usize)
        ensures
            final(list)@.len() == (if len > old(list)@.len() {
                len as int
            } else {
                old(list)@.len() as int
            }),
            forall|j: int| 0 <= j < final(list)@.len() ==> #[trigger] final(list)@[j] == (if j
                < old(list)@.len() {
                old(list)@[j]
            } else {
                None::<Resource>
            }),
    {
        while list.len() < len
            invariant
                old(list)@.len() <= list@.len(),
                list@.len() <= (if len > old(list)@.len() {
                    len as int
                } else {
                    old(list)@.len() as int
                }),
                forall|j: int| 0 <= j < list@.len() ==> #[trigger] list@[j] == (if j < old(
                    list,
                )@.len() {
                    old(list)@[j]
                } else {
                    None::<Resource>
                }),
            decreases len - list@.len(),
        {
            list.push(None);
        }
    }

    fn apply_preset_name(&mut self, payload: &[u8])
        requires
            old(self).inv(),
            all_seven_bit(payload@),
        ensures
            final(self).inv(),
            Self::preset_name_applied(*old(self), *final(self), payload@),
    {
        if payload.len() < 2 {
            self.log_malformed();
            return;
        }
        let end = scan_name_end(payload);
        if payload.len() - end < 11 {
            self.log_malformed();
            return;
        }
        let pos = payload[0] as usize;
        let name = ascii_string(&payload[1..end]);
        let sz = match decode32(&payload[end + 1..end + 6]) {
            Ok((v, _)) => v,
            Err(_) => {
                proof {
                    assert(false);
                }
                0
            },
        };
        let ck = match decode32(&payload[end + 6..end + 11]) {
            Ok((v, _)) => v,
            Err(_) => {
                proof {
                    assert(false);
                }
                0
            },
        };
        self.log.append("< SYSEX_PATCH_NAME_COMMAND ");
        let s = u64_to_string(pos as u64);
        self.log.append(s.as_str());
        self.log.append(" = ");
        self.log.append(name.as_str());
        self.log.append("\n");
        Self::grow_list(&mut self.patches, pos + 1);
        let res = Resource::new(payload[0], name, sz, ck);
        self.patches[pos] = Some(res);
        match &self.patches[0] {
            Some(r) => {
                let pn = r.name.clone();
                self.patch_name = Some(pn);
            },
            None => {
                self.patch_name = None;
            },
        }
        proof {
            assert(self.log@ =~= old(self).log@ + "< SYSEX_PATCH_NAME_COMMAND "@ + decimal_str(
                payload@[0] as nat,
            ) + " = "@ + list_entry_name(payload@) + "\n"@);
            assert(list_entry_set(
                old(self).patches@,
                self.patches@,
                pos as int,
                list_entry_name(payload@),
                list_entry_size(payload@),
                list_entry_checksum(payload@),
            ));
        }
    }

    fn apply_resource_name(&mut self, payload: &[u8])
        requires
            old(self).inv(),
            all_seven_bit(payload@),
        ensures
            final(self).inv(),
            Self::resource_name_applied(*old(self), *final(self), payload@),
    {
        if payload.len() < 2 {
            self.log_malformed();
            return;
        }
        let end = scan_name_end(payload);
        if payload.len() - end < 11 {
            self.log_malformed();
            return;
        }
        if self.resources.is_empty() {
            self.resource_offset = payload[0] as usize;
        }
        if (payload[0] as usize) < self.resource_offset {
            self.log_malformed();
            return;
        }
        let pos = payload[0] as usize - self.resource_offset;
        let name = ascii_string(&payload[1..end]);
        let sz = match decode32(&payload[end + 1..end + 6]) {
            Ok((v, _)) => v,
            Err(_) => {
                proof {
                    assert(false);
                }
                0
            },
        };
        let ck = match decode32(&payload[end + 6..end + 11]) {
            Ok((v, _)) => v,
            Err(_) => {
                proof {
                    assert(false);
                }
                0
            },
        };
        self.log.append("< SYSEX_RESOURCE_NAME_COMMAND ");
        let s = u64_to_string(pos as u64);
        self.log.append(s.as_str());
        self.log.append(" = ");
        self.log.append(name.as_str());
        self.log.append("\n");
        Self::grow_list(&mut self.resources, pos + 1);
        let res = Resource::new(pos as u8, name, sz, ck);
        self.resources[pos] = Some(res);
        proof {
            assert(self.log@ =~= old(self).log@ + "< SYSEX_RESOURCE_NAME_COMMAND "@
                + decimal_str(pos as nat) + " = "@ + list_entry_name(payload@) + "\n"@);
            assert(list_entry_set(
                old(self).resources@,
                self.resources@,
                pos as int,
                list_entry_name(payload@),
                list_entry_size(payload@),
                list_entry_checksum(payload@),
            ));
        }
    }

    fn apply_configuration(&mut self, payload: &[u8])
        requires
            old(self).inv(),
            all_seven_bit(payload@),
        ensures
            final(self).inv(),
            Self::configuration_applied(*old(self), *final(self), payload@),
    {
        if payload.len() < 2 {
            self.log_malformed();
            return;
        }
        let key: u16 = ((payload[0] as u16) << 8u16) | (payload[1] as u16);
        let vend = if payload.len() > 2 { payload.len() - 1 } else { 2 };
        let vbytes = &payload[2..vend];
        proof {
            assert(vbytes@ =~= cfg_value_bytes(payload@));
            assert(key == cfg_key_spec(payload@));
        }
        match parse_hex_i64(vbytes) {
            Ok((negative, magnitude)) => {
                let vstr = signed_to_string(negative, magnitude);
                self.log.append("< SYSEX_CONFIGURATION_COMMAND ");
                let s = u64_to_string(key as u64);
                self.log.append(s.as_str());
                self.log.append("\n");
                match self.find_setting(key) {
                    Some(i) => {
                        proof {
                            lemma_setting_index(old(self).settings@, key);
                        }
                        let _ = self.settings.remove(i);
                        self.settings.insert(i, (key, vstr));
                        proof {
                            assert forall|j: int| 0 <= j < old(self).settings@.len() && j
                                != i implies #[trigger] self.settings@[j] == old(
                                self,
                            ).settings@[j] by {}
                        }
                    },
                    None => {
                        proof {
                            lemma_setting_index(old(self).settings@, key);
                        }
                        self.settings.push((key, vstr));
                        proof {
                            assert(self.settings@.take(old(self).settings@.len() as int) =~= old(
                                self,
                            ).settings@);
                        }
                    },
                }
                proof {
                    assert(self.log@ =~= old(self).log@ + "< SYSEX_CONFIGURATION_COMMAND "@
                        + decimal_str(key as nat) + "\n"@);
                }
            },
            Err(_) => {
                let txt = ascii_string(vbytes);
                self.log.append("! Error parsing ");
                self.log.append(txt.as_str());
                self.log.append(" as hex\n");
                proof {
                    let line = "! Error parsing "@ + ascii_chars(cfg_value_bytes(payload@))
                        + " as hex\n"@;
                    assert(self.log@ =~= old(self).log@ + line);
                }
            },
        }
    }

    fn apply_firmware_upload(&mut self, payload: &[u8])
        requires
            old(self).inv(),
            all_seven_bit(payload@),
        ensures
            final(self).inv(),
            Self::firmware_upload_applied(*old(self), *final(self), payload@),
    {
        if payload.len() < 5 {
            return;
        }
        let idx = match decode32(&payload[0..5]) {
            Ok((v, _)) => v,
            Err(_) => {
                proof {
                    assert(false);
                }
                0
            },
        };
        if idx == 0 {
            self.resource_data.reset();
        }
        self.log.append("< SYSEX_FIRMWARE_UPLOAD #");
        let s = u64_to_string(idx as u64);
        self.log.append(s.as_str());
        self.log.append("\n");
        self.resource_data.process_data(&payload[5..payload.len()]);
        proof {
            assert(payload@.subrange(0, 5) =~= payload@.take(5));
            assert(payload@.subrange(5, payload@.len() as int) =~= payload@.skip(5));
            assert(self.log@ =~= old(self).log@ + "< SYSEX_FIRMWARE_UPLOAD #"@ + decimal_str(
                decode32_spec(payload@.take(5)) as nat,
            ) + "\n"@);
        }
    }

    /// Handles one inbound SysEx payload (delimiters already
    /// stripped).  The first two bytes must carry the manufacturer and
    /// device identification; the third selects the command, and the
    /// rest is that command's payload.  The whole change of the
    /// snapshot is `sysex_transition`.
    pub fn handle_sysex(&mut self, data: &[u8])
        requires
            old(self).inv(),
            all_seven_bit(data@),
        ensures
            final(self).inv(),
            Self::sysex_transition(*old(self), *final(self), data@),
    {
        if data.len() < 2 {
            return;
        }
        if data[0] != MIDI_SYSEX_MANUFACTURER || data[1] != MIDI_SYSEX_OWL_DEVICE {
            self.log.append("< SYSEX ");
            let rendered = bytes_to_list_string(data);
            self.log.append(rendered.as_str());
            self.log.append("\n");
            proof {
                let line = "< SYSEX "@ + decimal_list(data@) + "\n"@;
                assert(self.log@ =~= old(self).log@ + line);
            }
            return;
        }
        if data.len() == 2 {
            return;
        }
        let cmd_byte = data[2];
        let payload = &data[3..data.len()];
        proof {
            assert(payload@ =~= data@.skip(3));
        }
        match Command::from_byte(cmd_byte) {
            Some(Command::FirmwareVersion) => self.apply_firmware_version(payload),
            Some(Command::ProgramMessage) => self.apply_program_message(payload),
            Some(Command::ProgramError) => self.apply_program_error(payload),
            Some(Command::ProgramStats) => self.apply_program_stats(payload),
            Some(Command::ParameterName) => self.apply_parameter_name(payload),
            Some(Command::PresetName) => self.apply_preset_name(payload),
            Some(Command::ResourceName) => self.apply_resource_name(payload),
            Some(Command::Configuration) => self.apply_configuration(payload),
            Some(Command::FirmwareUpload) => self.apply_firmware_upload(payload),
            _ => {
                self.log.append("< CMD ");
                let s = u64_to_string(cmd_byte as u64);
                self.log.append(s.as_str());
                self.log.append("\n");
                proof {
                    assert(self.log@ =~= old(self).log@ + Self::log_unrecognized_spec(cmd_byte));
                }
            },
        }
    }
}

} // verus!
