//! A device parameter synchronized in both directions.
//!
//! The device reports the parameter as a MIDI value 0..=127; the user
//! interface drives it as a normalized value in `[0, 1]`.  The normalized
//! value is held in fixed point, in units of `1 / VALUE_ONE`, so that a
//! device value `m` maps exactly to `m * 256` units; the surrounding
//! application converts to and from its own continuous representation.

use vstd::prelude::*;

verus! {

/// The fixed-point representation of the normalized value `1.0`
/// (127 * 256, so every `midi / 127` is exactly representable).
pub const VALUE_ONE: u32 = 127 * 256;

/// A named continuous parameter with its device-side MIDI shadow.
#[derive(Clone, Debug, PartialEq)]
pub struct OwlParameter {
    /// Display name announced by the device.
    pub name: String,
    /// Normalized value in units of `1 / VALUE_ONE`.
    pub value: u32,
    /// The most recent device-reported MIDI value.
    pub midi_value: u8,
    /// The MIDI value observed or sent at the previous synchronization.
    pub prev_midi_value: u8,
}

/// The MIDI value implied by a normalized value: `value * 127` rounded
/// to the nearest integer, on the fixed-point scale.
pub open spec fn midi_of_value(value: u32) -> u8 {
    (((value + 128) / 256) as u8)
}

/// The exact fixed-point image of a device MIDI value (`m / 127`
/// normalized).
pub open spec fn value_of_midi(m: u8) -> u32 {
    ((m * 256) as u32)
}

impl OwlParameter {
    /// Field bounds every parameter keeps: the normalized value is at
    /// most `1.0` and the MIDI shadows are 7-bit.
    pub open spec fn inv(&self) -> bool {
        &&& self.value <= VALUE_ONE
        &&& self.midi_value <= 127
        &&& self.prev_midi_value <= 127
    }

    pub fn new(name: String) -> (r: Self)
        ensures
            r == (OwlParameter { name, value: 0u32, midi_value: 0u8, prev_midi_value: 0u8 }),
            r.inv(),
    {
        OwlParameter { name, value: 0, midi_value: 0, prev_midi_value: 0 }
    }

    /// Synchronizes the two sides once and reports whether an outbound
    /// Control Change must be sent; the whole transition is
    /// `sync_spec`.  A device-originated change (the MIDI value moved
    /// since the previous synchronization) always wins and needs no
    /// outbound message; otherwise the user-interface value is
    /// authoritative and a message is owed exactly when the MIDI value
    /// it implies differs from the one last observed.
    pub fn sync(&mut self) -> (r: bool)
        requires
            old(self).inv(),
        ensures
            final(self).inv(),
            (*final(self), r) == sync_spec(*old(self)),
    {
        if self.midi_value != self.prev_midi_value {
            self.prev_midi_value = self.midi_value;
            self.value = (self.midi_value as u32) * 256;
            false
        } else {
            let expected = ((self.value + 128) / 256) as u8;
            if self.midi_value != expected {
                self.midi_value = expected;
                self.prev_midi_value = expected;
                true
            } else {
                false
            }
        }
    }
}

/// The synchronization step as a function of the starting state: the
/// new state and whether a Control Change with the new MIDI value must
/// be sent.
pub open spec fn sync_spec(p: OwlParameter) -> (OwlParameter, bool) {
    if p.midi_value != p.prev_midi_value {
        (
            OwlParameter {
                value: value_of_midi(p.midi_value),
                prev_midi_value: p.midi_value,
                ..p
            },
            false,
        )
    } else {
        let expected = midi_of_value(p.value);
        if p.midi_value != expected {
            (OwlParameter { midi_value: expected, prev_midi_value: expected, ..p }, true)
        } else {
            (p, false)
        }
    }
}

/// Law: starting from any well-formed parameter, a device-originated
/// MIDI update followed by one synchronization adopts the device value
/// exactly (the normalized value becomes `midi / 127` on the fixed-point
/// scale) and asks for no outbound message; a user-interface value
/// written afterwards asks for an outbound message on the next
/// synchronization exactly when the MIDI value it implies differs from
/// the value last observed.
pub proof fn lemma_parameter_sync(p0: OwlParameter, device_midi: u8, ui_value: u32)
    requires
        p0.inv(),
        device_midi <= 127,
        ui_value <= VALUE_ONE,
        device_midi != p0.prev_midi_value,
    ensures
        ({
            let (p1, send1) = sync_spec(OwlParameter { midi_value: device_midi, ..p0 });
            &&& send1 == false
            &&& p1.value == value_of_midi(device_midi)
            &&& p1.midi_value == device_midi
            &&& p1.prev_midi_value == device_midi
            &&& ({
                let (p2, send2) = sync_spec(OwlParameter { value: ui_value, ..p1 });
                &&& send2 == (midi_of_value(ui_value) != device_midi)
                &&& (send2 ==> p2.midi_value == midi_of_value(ui_value))
            })
        }),
{
}

} // verus!
