//! Device-protocol engine for an OWL audio device controlled over MIDI
//! system-exclusive messages: the 7-bit-safe codec, the checksummed
//! transfer state machine, parameter synchronization, and the command
//! processor that owns the device-state snapshot.

pub mod command_processor;
pub mod commands;
pub mod crc32;
pub mod grid;
pub mod midi_devices;
pub mod parameter;
pub mod resources;
pub mod sysex;
pub mod text;
pub mod wave;
