use owl_wave::parameter::{OwlParameter, VALUE_ONE};

#[test]
pub fn test_sync() {
    let mut param = OwlParameter::new("foo".to_string());
    assert_eq!(param, OwlParameter::new("foo".to_string()));
    assert!(!param.sync());
    assert_eq!(param, OwlParameter::new("foo".to_string()));
    param.midi_value = 1;
    assert_ne!(param, OwlParameter::new("foo".to_string()));
    assert_eq!(
        param,
        OwlParameter {
            name: "foo".to_string(),
            value: 0,
            midi_value: 1,
            prev_midi_value: 0
        }
    );
    assert!(!param.sync());
    // the device value wins: 1/127 normalized, exactly one fixed-point
    // step of VALUE_ONE / 127
    assert_eq!(
        param,
        OwlParameter {
            name: "foo".to_string(),
            value: VALUE_ONE / 127,
            midi_value: 1,
            prev_midi_value: 1
        }
    );
    param.value = (0.5 * VALUE_ONE as f32) as u32;
    assert!(param.sync());
    // 0.5 * 127 = 63.5 rounds to 64
    assert_eq!(
        param,
        OwlParameter {
            name: "foo".to_string(),
            value: VALUE_ONE / 2,
            midi_value: 64,
            prev_midi_value: 64
        }
    );
    assert!(!param.sync());
    assert_eq!(
        param,
        OwlParameter {
            name: "foo".to_string(),
            value: VALUE_ONE / 2,
            midi_value: 64,
            prev_midi_value: 64
        }
    );
}

#[test]
fn test_device_update_then_ui_pull() {
    let mut param = OwlParameter::new("gain".to_string());
    param.midi_value = 100;
    assert!(!param.sync());
    assert_eq!(param.value, 100 * (VALUE_ONE / 127));
    assert_eq!(param.prev_midi_value, 100);
    // the user interface pulls the value down; the next sync owes a
    // Control Change with the implied MIDI value
    param.value = 0;
    assert!(param.sync());
    assert_eq!(param.midi_value, 0);
    assert_eq!(param.prev_midi_value, 0);
    // and once in agreement, nothing more is owed
    assert!(!param.sync());
}

#[test]
fn test_ui_change_below_one_step_sends_nothing() {
    let mut param = OwlParameter::new("q".to_string());
    param.midi_value = 64;
    assert!(!param.sync());
    // a nudge too small to move the 7-bit value asks for no message
    param.value += 1;
    assert!(!param.sync());
    assert_eq!(param.midi_value, 64);
}
