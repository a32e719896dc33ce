use opendeck_ampgd6::error::DeviceError;
use opendeck_ampgd6::inputs::{
    apply_input_event, decode_input_report, device_to_opendeck, ignore_process_input,
    opendeck_to_device, D6InputEvent, DeviceInput, DeviceStateUpdate,
};

#[test]
fn image_mapping_matches_expected_layout() {
    let expected = [10, 11, 12, 13, 14, 5, 6, 7, 8, 9, 0, 1, 2, 3, 4];

    for (opendeck, device) in expected.into_iter().enumerate() {
        assert_eq!(opendeck_to_device(opendeck as u8), device);
    }
}

#[test]
fn event_mapping_is_linear_one_based() {
    for device_index in 1..=15 {
        assert_eq!(device_to_opendeck(device_index).unwrap(), device_index - 1);
    }
}

#[test]
fn decode_ack_button_report() {
    let mut data = vec![0u8; 11];
    data[..3].copy_from_slice(b"ACK");
    data[9] = 3;
    data[10] = 1;

    assert_eq!(
        decode_input_report(&data).unwrap(),
        Some(D6InputEvent::Button {
            key: 2,
            pressed: true,
        })
    );
}

#[test]
fn ignore_non_ack_report() {
    let data = vec![0u8; 11];
    assert!(decode_input_report(&data).unwrap().is_none());
}

#[test]
fn reset_releases_pressed_buttons() {
    let mut state = 0b101;
    let updates = apply_input_event(&mut state, D6InputEvent::Reset);

    assert_eq!(state, 0);
    assert_eq!(updates.len(), 2);
    assert!(matches!(updates[0], DeviceStateUpdate::ButtonUp(0)));
    assert!(matches!(updates[1], DeviceStateUpdate::ButtonUp(2)));
}

#[test]
fn duplicate_press_synthesizes_release_and_repress() {
    let mut state = 0;
    let press = D6InputEvent::Button {
        key: 4,
        pressed: true,
    };

    let first = apply_input_event(&mut state, press);
    assert_eq!(first.len(), 1);
    assert!(matches!(first[0], DeviceStateUpdate::ButtonDown(4)));
    assert_eq!(
        state,
        1 << 4,
        "state should have bit 4 set after first press"
    );

    let second = apply_input_event(&mut state, press);
    assert_eq!(second.len(), 2);
    assert!(matches!(second[0], DeviceStateUpdate::ButtonUp(4)));
    assert!(matches!(second[1], DeviceStateUpdate::ButtonDown(4)));
    assert_eq!(
        state,
        1 << 4,
        "state should still have bit 4 set after duplicate press (auto-recovery)"
    );
}

#[test]
fn duplicate_release_is_ignored() {
    let mut state = 0;
    let release = D6InputEvent::Button {
        key: 4,
        pressed: false,
    };

    let result = apply_input_event(&mut state, release);
    assert!(result.is_empty());
    assert_eq!(state, 0, "state should remain 0 after duplicate release");
}

#[test]
fn state_evolution_through_press_release_cycle() {
    let mut state = 0;
    let key = 3;
    let bit = 1 << key;

    // First press
    let press1 = apply_input_event(&mut state, D6InputEvent::Button { key, pressed: true });
    assert_eq!(press1.len(), 1);
    assert!(matches!(press1[0], DeviceStateUpdate::ButtonDown(3)));
    assert_eq!(state, bit);

    // Duplicate press (auto-recovery)
    let press2 = apply_input_event(&mut state, D6InputEvent::Button { key, pressed: true });
    assert_eq!(press2.len(), 2);
    assert!(matches!(press2[0], DeviceStateUpdate::ButtonUp(3)));
    assert!(matches!(press2[1], DeviceStateUpdate::ButtonDown(3)));
    assert_eq!(
        state, bit,
        "state should remain unchanged during auto-recovery"
    );

    // Release
    let release1 = apply_input_event(
        &mut state,
        D6InputEvent::Button {
            key,
            pressed: false,
        },
    );
    assert_eq!(release1.len(), 1);
    assert!(matches!(release1[0], DeviceStateUpdate::ButtonUp(3)));
    assert_eq!(state, 0);

    // Duplicate release (ignored)
    let release2 = apply_input_event(
        &mut state,
        D6InputEvent::Button {
            key,
            pressed: false,
        },
    );
    assert!(release2.is_empty());
    assert_eq!(state, 0);

    // Press again after full cycle
    let press3 = apply_input_event(&mut state, D6InputEvent::Button { key, pressed: true });
    assert_eq!(press3.len(), 1);
    assert!(matches!(press3[0], DeviceStateUpdate::ButtonDown(3)));
    assert_eq!(state, bit);
}

#[test]
fn reports_about_missing_buttons_are_bad_data() {
    let mut data = vec![0u8; 11];
    data[..3].copy_from_slice(b"ACK");
    data[9] = 16;
    assert!(matches!(
        decode_input_report(&data),
        Err(DeviceError::BadData)
    ));
    data[9] = 15;
    assert_eq!(
        decode_input_report(&data).unwrap(),
        Some(D6InputEvent::Button {
            key: 14,
            pressed: false,
        })
    );
    data[9] = 0;
    assert_eq!(
        decode_input_report(&data).unwrap(),
        Some(D6InputEvent::Reset)
    );
}

#[test]
fn short_reports_are_passed_over() {
    assert!(decode_input_report(b"ACK").unwrap().is_none());
    assert!(decode_input_report(b"ACK1234567").unwrap().is_none());
    assert!(decode_input_report(&[]).unwrap().is_none());
}

#[test]
fn buttons_are_counted_from_one_by_the_device() {
    assert!(matches!(device_to_opendeck(0), Err(DeviceError::BadData)));
    assert!(matches!(device_to_opendeck(16), Err(DeviceError::BadData)));
}

#[test]
fn numbers_beyond_the_deck_are_left_alone() {
    assert_eq!(opendeck_to_device(15), 15);
    assert_eq!(opendeck_to_device(255), 255);
}

#[test]
fn renumbering_twice_changes_nothing() {
    for key in 0..=255u8 {
        assert_eq!(opendeck_to_device(opendeck_to_device(key)), key);
    }
}

#[test]
fn button_events_touch_one_bit() {
    let mut state = 0b100_0000_0000_0010;
    let updates = apply_input_event(
        &mut state,
        D6InputEvent::Button {
            key: 14,
            pressed: false,
        },
    );
    assert_eq!(updates, vec![DeviceStateUpdate::ButtonUp(14)]);
    assert_eq!(state, 0b10);
}

#[test]
fn letting_go_undoes_pressing() {
    for key in 0..15 {
        let mut state = 0b101_0101_0101_0101 & !(1u16 << key);
        let before = state;
        apply_input_event(&mut state, D6InputEvent::Button { key, pressed: true });
        assert_eq!(state, before | (1 << key));
        apply_input_event(
            &mut state,
            D6InputEvent::Button {
                key,
                pressed: false,
            },
        );
        assert_eq!(state, before);
    }
}

#[test]
fn device_library_gets_no_data() {
    assert!(matches!(ignore_process_input(3, 1), Ok(DeviceInput::NoData)));
}
