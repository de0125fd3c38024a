//! Selection of which MIDI devices the device list offers.

use vstd::prelude::*;

use vstd::string::StrSliceExecFns;

verus! {

/// The name prefix that marks an OWL device.
pub open spec fn owl_prefix() -> Seq<char> {
    seq!['O', 'W', 'L', '-']
}

/// Which MIDI devices the device list shows: every port, or only OWL
/// devices.
#[derive(Clone, Copy, Debug, PartialEq, Eq, Structural)]
pub enum MidiDeviceSelection {
    All,
    Owl,
}

impl MidiDeviceSelection {
    /// Whether a device of the given name is shown: every device under
    /// `All`, and under `Owl` exactly those whose name begins with
    /// "OWL-".
    pub fn show_midi_device(&self, name: &str) -> (r: bool)
        ensures
            r == (*self == MidiDeviceSelection::All || (name@.len() >= 4 && name@.subrange(0, 4)
                == owl_prefix())),
    {
        match self {
            MidiDeviceSelection::All => true,
            MidiDeviceSelection::Owl => {
                if name.unicode_len() >= 4 {
                    let shown = name.get_char(0) == 'O' && name.get_char(1) == 'W'
                        && name.get_char(2) == 'L' && name.get_char(3) == '-';
                    proof {
                        if shown {
                            assert(name@.subrange(0, 4) =~= owl_prefix());
                        } else {
                            assert(name@.subrange(0, 4) != owl_prefix()) by {
                                if name@.subrange(0, 4) == owl_prefix() {
                                    assert(name@[0] == owl_prefix()[0]);
                                    assert(name@[1] == owl_prefix()[1]);
                                    assert(name@[2] == owl_prefix()[2]);
                                    assert(name@[3] == owl_prefix()[3]);
                                }
                            };
                        }
                    }
                    shown
                } else {
                    false
                }
            },
        }
    }
}

} // verus!
