use owl_wave::grid::Grid;
use owl_wave::midi_devices::MidiDeviceSelection;

#[test]
fn test_grid_shape() {
    let g = Grid::new(2, 4, 256);
    assert_eq!(g.get_rows(), 2);
    assert_eq!(g.get_cols(), 4);
    assert_eq!(g.get_samples(), 256);
    assert_eq!(g.get_waves(), 8);
    assert_eq!(g.get_loaded(), 0);
}

#[test]
fn test_grid_load_waves() {
    let mut g = Grid::new(2, 2, 256);
    // three whole waves fit in 800 samples
    assert_eq!(g.load_waves(800), Ok(3));
    assert_eq!(g.get_loaded(), 3);
    // more data than cells is capped at the grid size
    assert_eq!(g.load_waves(4096), Ok(4));
    assert_eq!(g.get_loaded(), 4);
    // too little data for a single wave loads nothing
    assert_eq!(g.load_waves(100), Ok(0));
    assert_eq!(g.get_loaded(), 0);
}

#[test]
fn test_show_midi_device() {
    assert!(MidiDeviceSelection::All.show_midi_device("anything"));
    assert!(MidiDeviceSelection::All.show_midi_device(""));
    assert!(MidiDeviceSelection::Owl.show_midi_device("OWL-MIDI"));
    assert!(MidiDeviceSelection::Owl.show_midi_device("OWL-"));
    assert!(!MidiDeviceSelection::Owl.show_midi_device("OWL"));
    assert!(!MidiDeviceSelection::Owl.show_midi_device("owl-midi"));
    assert!(!MidiDeviceSelection::Owl.show_midi_device("Some Port"));
}
