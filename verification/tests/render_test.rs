use opendeck_ampgd6::batch::{empty_render_batch, BatchedRenderOp, RenderBatch};
use opendeck_ampgd6::cache::converted_image_cache_key;
use opendeck_ampgd6::error::DeviceError;
use opendeck_ampgd6::mappings::{
    ImageFormat, ImageMirroring, ImageMode, ImageRotation, KEY_COUNT,
};
use opendeck_ampgd6::render::{
    process_render_batch, DecodeOutcome, DeviceImageStateInner, RenderAction, RenderEvent,
    RenderState,
};

fn formats() -> Vec<ImageFormat> {
    vec![
        ImageFormat {
            mode: ImageMode::JPEG,
            size: (100, 100),
            rotation: ImageRotation::Rot180,
            mirror: ImageMirroring::Unmirrored,
        };
        KEY_COUNT
    ]
}

fn picture(image_hash: u64) -> Option<BatchedRenderOp> {
    Some(BatchedRenderOp::Image {
        image_hash,
        payload: format!("picture {image_hash}"),
    })
}

/// Plays a deck: `Some` is the hash of a button's picture. Writes fail when
/// the countdown is over, pictures whose hash is odd cannot be decoded, and
/// pictures come back in reverse order.
struct Deck {
    shown: [Option<u64>; KEY_COUNT],
    writes_left: usize,
    clears_natively: bool,
    log: Vec<String>,
}

fn deck() -> Deck {
    Deck {
        shown: [None; KEY_COUNT],
        writes_left: 1000,
        clears_natively: true,
        log: Vec::new(),
    }
}

fn write(deck: &mut Deck, index: usize, hash: Option<u64>) -> RenderEvent {
    if deck.writes_left == 0 {
        return RenderEvent::Failed;
    }
    deck.writes_left -= 1;
    deck.shown[index] = hash;
    RenderEvent::Done
}

/// Runs a pass to its end. Pictures are eight bytes: their hash.
fn run(deck: &mut Deck, state: &mut RenderState, clear_all: bool, batch: RenderBatch) -> bool {
    let formats = formats();
    let (mut pass, mut action) = process_render_batch(state, &formats, clear_all, batch);
    loop {
        let event = match action {
            RenderAction::ClearAll => {
                deck.log.push("clear all".to_string());
                if deck.clears_natively {
                    deck.shown = [None; KEY_COUNT];
                    RenderEvent::Done
                } else {
                    RenderEvent::Failed
                }
            }
            RenderAction::BlackOut { index } => {
                deck.log.push(format!("black {index}"));
                write(deck, index, None)
            }
            RenderAction::Draw { index, image_data } => {
                let mut bytes = [0; 8];
                bytes.copy_from_slice(&image_data);
                let hash = u64::from_le_bytes(bytes);
                deck.log.push(format!("draw {index} {hash}"));
                write(deck, index, Some(hash))
            }
            RenderAction::Decode { jobs } => {
                deck.log.push(format!("decode {}", jobs.len()));
                let mut outcomes = Vec::new();
                for job in jobs.into_iter().rev() {
                    assert_eq!(job.payload, format!("picture {}", job.image_hash));
                    assert_eq!(job.format, formats[job.index]);
                    outcomes.push(DecodeOutcome {
                        index: job.index,
                        image_hash: job.image_hash,
                        result: if job.image_hash % 2 == 0 {
                            Ok(job.image_hash.to_le_bytes().to_vec())
                        } else {
                            Err(DeviceError::BadData)
                        },
                    });
                }
                RenderEvent::Decoded { outcomes }
            }
            RenderAction::Flush => {
                deck.log.push("flush".to_string());
                RenderEvent::Done
            }
            RenderAction::Finish => return true,
            RenderAction::Fail { error } => {
                assert!(error.is_none());
                return false;
            }
        };
        (pass, action) = pass.advance(state, &formats, event);
    }
}

#[test]
fn empty_batch_does_nothing() {
    let mut deck = deck();
    let mut state = RenderState::new();
    assert!(run(&mut deck, &mut state, false, empty_render_batch()));
    assert!(deck.log.is_empty());
}

#[test]
fn pictures_are_decoded_together_and_drawn_in_order() {
    let mut deck = deck();
    let mut state = RenderState::new();
    let mut batch = empty_render_batch();
    batch[7] = picture(20);
    batch[2] = picture(10);
    batch[4] = picture(12);
    assert!(run(&mut deck, &mut state, false, batch));
    assert_eq!(
        deck.log,
        ["decode 3", "draw 2 10", "draw 4 12", "draw 7 20", "flush"]
    );
    assert_eq!(deck.shown, state.last_image_hashes);
    assert_eq!(deck.shown[7], Some(20));
}

#[test]
fn drawing_the_same_batch_again_does_nothing() {
    let mut deck = deck();
    let mut state = RenderState::new();
    for _ in 0..2 {
        let mut batch = empty_render_batch();
        batch[2] = picture(10);
        batch[3] = Some(BatchedRenderOp::Clear);
        assert!(run(&mut deck, &mut state, false, batch));
    }
    assert_eq!(deck.log, ["decode 1", "draw 2 10", "flush"]);
}

#[test]
fn kept_pictures_are_not_decoded_again() {
    let mut deck = deck();
    let mut state = RenderState::new();
    let mut batch = empty_render_batch();
    batch[2] = picture(10);
    assert!(run(&mut deck, &mut state, false, batch));
    let key = converted_image_cache_key(10, formats()[2]);
    assert_eq!(
        state.converted_image_cache.get(key),
        Some(10u64.to_le_bytes().to_vec())
    );

    deck.log.clear();
    let mut batch = empty_render_batch();
    batch[5] = picture(10);
    assert!(run(&mut deck, &mut state, false, batch));
    assert_eq!(deck.log, ["draw 5 10", "flush"]);
}

#[test]
fn clears_come_before_pictures() {
    let mut deck = deck();
    let mut state = RenderState::new();
    let mut batch = empty_render_batch();
    batch[9] = picture(10);
    assert!(run(&mut deck, &mut state, false, batch));

    deck.log.clear();
    let mut batch = empty_render_batch();
    batch[0] = picture(12);
    batch[9] = Some(BatchedRenderOp::Clear);
    assert!(run(&mut deck, &mut state, false, batch));
    assert_eq!(deck.log, ["decode 1", "black 9", "draw 0 12", "flush"]);
    assert_eq!(deck.shown[9], None);
    assert_eq!(deck.shown, state.last_image_hashes);
}

#[test]
fn pictures_that_cannot_be_decoded_leave_the_button_alone() {
    let mut deck = deck();
    let mut state = RenderState::new();
    let mut batch = empty_render_batch();
    batch[3] = picture(10);
    assert!(run(&mut deck, &mut state, false, batch));

    deck.log.clear();
    let mut batch = empty_render_batch();
    batch[3] = picture(11);
    batch[4] = picture(12);
    assert!(run(&mut deck, &mut state, false, batch));
    assert_eq!(deck.log, ["decode 2", "draw 4 12", "flush"]);
    assert_eq!(deck.shown[3], Some(10));
    assert_eq!(deck.shown, state.last_image_hashes);
}

#[test]
fn clearing_everything_is_left_to_the_device() {
    let mut deck = deck();
    let mut state = RenderState::new();
    let mut batch = empty_render_batch();
    batch[3] = picture(10);
    assert!(run(&mut deck, &mut state, false, batch));

    deck.log.clear();
    assert!(run(&mut deck, &mut state, true, empty_render_batch()));
    assert_eq!(deck.log, ["clear all", "flush"]);
    assert_eq!(state.last_image_hashes, [None; KEY_COUNT]);
}

#[test]
fn buttons_are_blacked_out_where_the_device_cannot_clear_itself() {
    let mut deck = deck();
    deck.clears_natively = false;
    let mut state = RenderState::new();
    let mut batch = empty_render_batch();
    batch[3] = picture(10);
    assert!(run(&mut deck, &mut state, false, batch));

    deck.log.clear();
    assert!(run(&mut deck, &mut state, true, empty_render_batch()));
    let mut wanted = vec!["clear all".to_string()];
    wanted.extend((0..KEY_COUNT).map(|index| format!("black {index}")));
    wanted.push("flush".to_string());
    assert_eq!(deck.log, wanted);
    assert_eq!(deck.shown, [None; KEY_COUNT]);
    assert_eq!(state.last_image_hashes, [None; KEY_COUNT]);
}

#[test]
fn page_change_blacks_out_only_what_is_left_over() {
    let mut deck = deck();
    let mut state = RenderState::new();
    let mut batch = empty_render_batch();
    batch[0] = picture(10);
    batch[1] = picture(12);
    batch[2] = picture(14);
    assert!(run(&mut deck, &mut state, false, batch));

    deck.log.clear();
    let mut batch = empty_render_batch();
    batch[1] = picture(12);
    batch[2] = picture(16);
    assert!(run(&mut deck, &mut state, true, batch));
    assert_eq!(deck.log, ["black 0", "decode 1", "draw 2 16", "flush"]);
    assert_eq!(deck.shown[0], None);
    assert_eq!(deck.shown[1], Some(12));
    assert_eq!(deck.shown[2], Some(16));
    assert_eq!(deck.shown, state.last_image_hashes);
}

#[test]
fn failed_write_ends_the_pass_and_is_not_remembered() {
    let mut deck = deck();
    deck.writes_left = 1;
    let mut state = RenderState::new();
    let mut batch = empty_render_batch();
    batch[0] = picture(10);
    batch[1] = picture(12);
    assert!(!run(&mut deck, &mut state, false, batch));
    assert_eq!(deck.log, ["decode 2", "draw 0 10", "draw 1 12"]);
    assert_eq!(state.last_image_hashes[0], Some(10));
    assert_eq!(state.last_image_hashes[1], None);
    assert_eq!(deck.shown, state.last_image_hashes);
}

#[test]
fn fatal_decoding_error_ends_the_pass() {
    let mut state = RenderState::new();
    let formats = formats();
    let mut batch = empty_render_batch();
    batch[0] = picture(10);
    let (pass, action) = process_render_batch(&state, &formats, false, batch);
    assert!(matches!(action, RenderAction::Decode { .. }));
    let outcomes = vec![DecodeOutcome {
        index: 0,
        image_hash: 10,
        result: Err(DeviceError::Device),
    }];
    let (_, action) = pass.advance(&mut state, &formats, RenderEvent::Decoded { outcomes });
    assert!(matches!(
        action,
        RenderAction::Fail {
            error: Some(DeviceError::Device)
        }
    ));
    assert_eq!(state.last_image_hashes, [None; KEY_COUNT]);
}

#[test]
fn failed_flush_ends_the_pass() {
    let mut state = RenderState::new();
    let formats = formats();
    let (pass, action) = process_render_batch(&state, &formats, true, empty_render_batch());
    assert!(matches!(action, RenderAction::ClearAll));
    let (pass, action) = pass.advance(&mut state, &formats, RenderEvent::Done);
    assert!(matches!(action, RenderAction::Flush));
    let (_, action) = pass.advance(&mut state, &formats, RenderEvent::Failed);
    assert!(matches!(action, RenderAction::Fail { error: None }));
}

#[test]
fn longest_pass_takes_no_more_than_fifty_answers() {
    let mut deck = deck();
    deck.clears_natively = false;
    let mut state = RenderState::new();
    let mut batch = empty_render_batch();
    for (index, op) in batch.iter_mut().enumerate() {
        *op = picture(2 * index as u64);
    }
    assert!(run(&mut deck, &mut state, true, batch));
    assert_eq!(deck.log.len(), 1 + KEY_COUNT + 1);
    assert!(deck.log.len() <= 50);
}

#[test]
fn nothing_is_known_of_a_new_deck() {
    let state = DeviceImageStateInner::default();
    assert_eq!(state.last_image_hashes, [None; KEY_COUNT]);
    assert_eq!(state.pending_image_hashes, [None; KEY_COUNT]);
}

#[test]
fn whole_pass_goes_in_order() {
    let mut deck = deck();
    let mut state = RenderState::new();
    let mut batch = empty_render_batch();
    batch[1] = picture(10);
    batch[3] = picture(12);
    batch[12] = picture(14);
    assert!(run(&mut deck, &mut state, false, batch));

    deck.log.clear();
    let mut batch = empty_render_batch();
    batch[14] = picture(10);
    batch[7] = picture(22);
    batch[3] = Some(BatchedRenderOp::Clear);
    batch[0] = picture(20);
    assert!(run(&mut deck, &mut state, true, batch));
    assert_eq!(
        deck.log,
        [
            "black 1",
            "black 12",
            "decode 2",
            "black 3",
            "draw 0 20",
            "draw 7 22",
            "draw 14 10",
            "flush",
        ]
    );
}
