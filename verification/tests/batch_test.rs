use opendeck_ampgd6::batch::{
    apply_render_command_to_batch, batch_contains_image_updates, empty_render_batch,
    follow_up_batch_window, handle_set_image, hash_image_payload, set_image, should_apply_clear,
    should_apply_image, validate_button_position, BatchedRenderOp, ImageRequest, RenderCommand,
    CLEAR_ALL_BATCH_WINDOW, IMAGE_BATCH_WINDOW,
};
use opendeck_ampgd6::error::{handle_error, DeviceError};
use std::collections::hash_map::DefaultHasher;
use std::hash::{Hash, Hasher};

#[test]
fn duplicate_applied_image_is_skipped() {
    assert!(!should_apply_image(Some(42), 42));
}

#[test]
fn newer_image_is_applied() {
    assert!(should_apply_image(Some(11), 33));
}

#[test]
fn clear_is_skipped_when_button_is_already_empty() {
    assert!(!should_apply_clear(None));
}

#[test]
fn clear_is_applied_when_button_has_content() {
    assert!(should_apply_clear(Some(7)));
}

#[test]
fn latest_command_wins_for_same_button() {
    let mut batch = empty_render_batch();
    let mut clear_all = false;

    apply_render_command_to_batch(
        &mut batch,
        &mut clear_all,
        RenderCommand::SetImage {
            position: 2,
            image_hash: 10,
            payload: "a".to_string(),
        },
    )
    .unwrap();
    apply_render_command_to_batch(
        &mut batch,
        &mut clear_all,
        RenderCommand::ClearButton { position: 2 },
    )
    .unwrap();

    assert!(!clear_all);
    assert_eq!(batch[2], Some(BatchedRenderOp::Clear));
}

#[test]
fn clear_all_discards_previous_button_batch() {
    let mut batch = empty_render_batch();
    let mut clear_all = false;

    apply_render_command_to_batch(
        &mut batch,
        &mut clear_all,
        RenderCommand::SetImage {
            position: 1,
            image_hash: 10,
            payload: "a".to_string(),
        },
    )
    .unwrap();
    apply_render_command_to_batch(&mut batch, &mut clear_all, RenderCommand::ClearAll).unwrap();

    assert!(clear_all);
    assert!(batch.iter().all(Option::is_none));
}

#[test]
fn updates_after_clear_all_are_preserved() {
    let mut batch = empty_render_batch();
    let mut clear_all = false;

    apply_render_command_to_batch(&mut batch, &mut clear_all, RenderCommand::ClearAll).unwrap();
    apply_render_command_to_batch(
        &mut batch,
        &mut clear_all,
        RenderCommand::SetImage {
            position: 4,
            image_hash: 99,
            payload: "b".to_string(),
        },
    )
    .unwrap();

    assert!(clear_all);
    assert_eq!(
        batch[4],
        Some(BatchedRenderOp::Image {
            image_hash: 99,
            payload: "b".to_string(),
        })
    );
}

#[test]
fn clear_all_waits_for_follow_up_batch() {
    assert_eq!(
        follow_up_batch_window(&RenderCommand::ClearAll),
        Some(CLEAR_ALL_BATCH_WINDOW)
    );
}

#[test]
fn regular_image_update_waits_for_follow_up_batch() {
    assert_eq!(
        follow_up_batch_window(&RenderCommand::SetImage {
            position: 0,
            image_hash: 1,
            payload: "a".to_string(),
        }),
        Some(IMAGE_BATCH_WINDOW)
    );
}

#[test]
fn clear_button_does_not_wait_for_follow_up_batch() {
    assert_eq!(
        follow_up_batch_window(&RenderCommand::ClearButton { position: 0 }),
        Option::<u64>::None
    );
}

#[test]
fn clear_all_batch_with_images_avoids_native_clear_path() {
    let mut batch = empty_render_batch();
    let mut clear_all = false;

    apply_render_command_to_batch(&mut batch, &mut clear_all, RenderCommand::ClearAll).unwrap();
    apply_render_command_to_batch(
        &mut batch,
        &mut clear_all,
        RenderCommand::SetImage {
            position: 3,
            image_hash: 55,
            payload: "x".to_string(),
        },
    )
    .unwrap();

    assert!(clear_all);
    assert!(batch_contains_image_updates(&batch));
}

#[test]
fn clear_only_batch_keeps_native_clear_path_available() {
    let mut batch = empty_render_batch();
    let mut clear_all = false;

    apply_render_command_to_batch(&mut batch, &mut clear_all, RenderCommand::ClearAll).unwrap();
    apply_render_command_to_batch(
        &mut batch,
        &mut clear_all,
        RenderCommand::ClearButton { position: 3 },
    )
    .unwrap();

    assert!(clear_all);
    assert!(!batch_contains_image_updates(&batch));
}

#[test]
fn windows_are_eight_and_one_milliseconds() {
    assert_eq!(CLEAR_ALL_BATCH_WINDOW, 8);
    assert_eq!(IMAGE_BATCH_WINDOW, 1);
}

#[test]
fn positions_beyond_the_deck_are_bad_data() {
    assert_eq!(validate_button_position(14).unwrap(), 14);
    assert!(matches!(
        validate_button_position(15),
        Err(DeviceError::BadData)
    ));
}

#[test]
fn commands_beyond_the_deck_leave_the_batch_alone() {
    let mut batch = empty_render_batch();
    let mut clear_all = false;
    let r = apply_render_command_to_batch(
        &mut batch,
        &mut clear_all,
        RenderCommand::ClearButton { position: 15 },
    );
    assert!(matches!(r, Err(DeviceError::BadData)));
    assert!(!clear_all);
    assert!(batch.iter().all(Option::is_none));
}

#[test]
fn payloads_are_hashed_as_strings() {
    let mut hasher = DefaultHasher::new();
    "data:image/jpeg,abc".hash(&mut hasher);
    assert_eq!(hash_image_payload("data:image/jpeg,abc"), hasher.finish());
    assert_ne!(hash_image_payload("a"), hash_image_payload("b"));
    assert_ne!(
        hash_image_payload(""),
        DefaultHasher::new().finish()
    );
}

#[test]
fn events_become_commands() {
    assert_eq!(
        handle_set_image(Some(3), Some("abc".to_string())).unwrap(),
        Some(RenderCommand::SetImage {
            position: 3,
            image_hash: hash_image_payload("abc"),
            payload: "abc".to_string(),
        })
    );
    assert_eq!(
        handle_set_image(Some(3), None).unwrap(),
        Some(RenderCommand::ClearButton { position: 3 })
    );
    assert_eq!(
        handle_set_image(None, None).unwrap(),
        Some(RenderCommand::ClearAll)
    );
    assert_eq!(
        handle_set_image(None, Some("abc".to_string())).unwrap(),
        None
    );
    assert!(matches!(
        handle_set_image(Some(15), None),
        Err(DeviceError::BadData)
    ));
    assert!(matches!(
        handle_set_image(Some(15), Some("abc".to_string())),
        Err(DeviceError::BadData)
    ));
}

#[test]
fn knobs_and_unknown_decks_are_told_apart() {
    let knob = Some("Encoder".to_string());
    let keypad = Some("Keypad".to_string());
    assert!(matches!(
        set_image(&knob, true, Some(1), None),
        ImageRequest::Knob
    ));
    assert!(matches!(
        set_image(&knob, false, Some(1), None),
        ImageRequest::Knob
    ));
    assert!(matches!(
        set_image(&keypad, false, Some(1), None),
        ImageRequest::UnknownDevice
    ));
    assert!(matches!(
        set_image(&keypad, true, Some(1), None),
        ImageRequest::Enqueue {
            command: RenderCommand::ClearButton { position: 1 }
        }
    ));
    assert!(matches!(
        set_image(&None, true, None, Some("abc".to_string())),
        ImageRequest::Nothing
    ));
    assert!(matches!(
        set_image(&None, true, Some(15), None),
        ImageRequest::Refused {
            error: DeviceError::BadData
        }
    ));
}

#[test]
fn only_bad_data_and_bad_pictures_are_survived() {
    assert!(handle_error(&DeviceError::BadData));
    let broken = image::load_from_memory(b"no picture").unwrap_err();
    assert!(handle_error(&DeviceError::ImageError(broken)));
    assert!(!handle_error(&DeviceError::Device));
}
