//! One pass over the deck: everything that is done to draw a batch, as a
//! machine that is told how each of its actions went.
//!
//! A pass blacks out what the batch clears, has new pictures decoded, draws
//! them, and has the device show what was drawn. Buttons that already show
//! what they should are left alone.

use vstd::prelude::*;

use crate::batch;
use crate::batch::{
    batch_contains_image_updates, should_apply_clear, should_apply_image, BatchedRenderOp,
    RenderBatch,
};
use crate::cache;
use crate::cache::{converted_image_cache_key, ConvertedImageCache, ConvertedImageCacheKey};
use crate::error::{handle_error, DeviceError};
use crate::mappings::{ImageFormat, KEY_COUNT};
use crate::render_laws;

verus! {

/// The hash of the picture on each button, as far as it is known.
pub type ImageHashes = [Option<u64>; KEY_COUNT];

/// What is remembered of a deck from pass to pass.
pub struct RenderState {
    pub last_image_hashes: ImageHashes,
    pub converted_image_cache: ConvertedImageCache,
}

impl RenderState {
    pub open spec fn wf(self) -> bool {
        self.converted_image_cache.wf()
    }

    /// Nothing is known to be on the deck, and nothing is kept.
    pub fn new() -> (state: RenderState)
        ensures
            state.wf(),
            state.last_image_hashes@ == all_clear(),
            state.converted_image_cache@ == Map::<ConvertedImageCacheKey, Seq<u8>>::empty(),
            forall|i: int| 0 <= i < 15 ==> #[trigger] state.last_image_hashes@[i] is None,
    {
        RenderState {
            last_image_hashes: no_hashes(),
            converted_image_cache: ConvertedImageCache::new(),
        }
    }
}

/// No button shows anything.
pub open spec fn all_clear() -> Seq<Option<u64>> {
    Seq::new(KEY_COUNT as nat, |i: int| None)
}

fn no_hashes() -> (hashes: ImageHashes)
    ensures
        hashes@ == all_clear(),
{
    let hashes: ImageHashes = [None;KEY_COUNT];
    assert(hashes@ =~= all_clear());
    hashes
}

/// The hashes of the pictures that are on a deck, and of those that are on
/// their way to it.
pub struct DeviceImageStateInner {
    pub last_image_hashes: ImageHashes,
    pub pending_image_hashes: ImageHashes,
}

impl Default for DeviceImageStateInner {
    /// Nothing is on the deck, and nothing on its way.
    fn default() -> (state: Self)
        ensures
            state.last_image_hashes@ == all_clear(),
            state.pending_image_hashes@ == all_clear(),
            forall|i: int| 0 <= i < 15 ==> #[trigger] state.last_image_hashes@[i] is None,
            forall|i: int| 0 <= i < 15 ==> #[trigger] state.pending_image_hashes@[i] is None,
    {
        DeviceImageStateInner {
            last_image_hashes: no_hashes(),
            pending_image_hashes: no_hashes(),
        }
    }
}

/// A picture to be decoded and converted for a button.
#[derive(Debug)]
pub struct DecodeJob {
    pub index: usize,
    pub image_hash: u64,
    pub format: ImageFormat,
    pub payload: String,
}

/// How a job went.
#[derive(Debug)]
pub struct DecodeOutcome {
    pub index: usize,
    pub image_hash: u64,
    pub result: Result<Vec<u8>, DeviceError>,
}

/// A converted picture that waits to be drawn.
pub struct PendingImage {
    pub image_hash: u64,
    pub image_data: Vec<u8>,
}

/// What is to be done next.
#[derive(Debug)]
pub enum RenderAction {
    /// Have the device clear all its buttons by itself.
    ClearAll,
    /// Queue a button's black frame.
    BlackOut { index: usize },
    /// Decode and convert pictures, in any order.
    Decode { jobs: Vec<DecodeJob> },
    /// Queue a button's picture.
    Draw { index: usize, image_data: Vec<u8> },
    /// Have the device show what was queued.
    Flush,
    /// The pass is over.
    Finish,
    /// The pass is given up, for the given error or for the one that the last
    /// action met.
    Fail { error: Option<DeviceError> },
}

/// How an action went.
#[derive(Debug)]
pub enum RenderEvent {
    Done,
    Failed,
    /// All jobs are through, in the order in which they got through.
    Decoded { outcomes: Vec<DecodeOutcome> },
}

/// The buttons that are still to be blacked out, and the pictures that are
/// still to be drawn.
struct DrawPlan {
    clears: [bool; KEY_COUNT],
    images: [Option<PendingImage>; KEY_COUNT],
}

enum Stage {
    /// A button that the batch does not mention is being blacked out.
    Blackening { clears: [bool; KEY_COUNT], index: usize, batch: RenderBatch },
    /// The device is clearing all buttons by itself.
    ClearingAll { batch: RenderBatch },
    /// It could not, so all buttons are blacked out one by one.
    FallingBack { index: usize, batch: RenderBatch },
    /// Pictures are being decoded.
    Decoding { plan: DrawPlan },
    /// A button is being drawn, or blacked out if there is no hash.
    Drawing { plan: DrawPlan, index: usize, image_hash: Option<u64> },
    /// The device is asked to show what was queued.
    Flushing,
    Over,
}

/// A pass over the deck.
pub struct RenderPass {
    stage: Stage,
    wrote: bool,
}

// ---------------------------------------------------------------------------
// The model of a pass.

/// A picture in the model: its hash and its bytes.
pub type Drawn = (u64, Seq<u8>);

/// A job in the model: button, hash, format and payload.
pub type Job = (int, u64, ImageFormat, Seq<char>);

/// How a job went in the model: button, hash, and the bytes or whether the
/// error is one that only spoils this picture.
pub type Outcome = (int, u64, Result<Seq<u8>, bool>);

pub enum StageModel {
    Blackening { clears: Seq<bool>, index: int, batch: Seq<Option<BatchedRenderOp>> },
    ClearingAll { batch: Seq<Option<BatchedRenderOp>> },
    FallingBack { index: int, batch: Seq<Option<BatchedRenderOp>> },
    Decoding { clears: Seq<bool>, images: Seq<Option<Drawn>> },
    Drawing {
        clears: Seq<bool>,
        images: Seq<Option<Drawn>>,
        index: int,
        image_hash: Option<u64>,
    },
    Flushing,
    Over,
}

/// A pass and what is remembered of the deck.
pub struct PassModel {
    pub stage: StageModel,
    /// Something was queued or cleared.
    pub wrote: bool,
    pub hashes: Seq<Option<u64>>,
    pub kept: Map<ConvertedImageCacheKey, Seq<u8>>,
}

pub enum ActionModel {
    ClearAll,
    BlackOut { index: int },
    Decode { jobs: Seq<Job> },
    Draw { index: int, data: Seq<u8> },
    Flush,
    Finish,
    Fail { error: Option<DeviceError> },
}

pub enum EventModel {
    Done,
    Failed,
    Decoded { outcomes: Seq<Outcome> },
}

/// The first set flag.
pub open spec fn first_set(flags: Seq<bool>) -> Option<int>
    decreases flags.len(),
{
    if flags.len() == 0 {
        None
    } else {
        match first_set(flags.drop_last()) {
            Some(i) => Some(i),
            None => if flags.last() {
                Some(flags.len() - 1)
            } else {
                None
            },
        }
    }
}

pub open spec fn waiting(images: Seq<Option<Drawn>>) -> Seq<bool> {
    images.map_values(|image: Option<Drawn>| image is Some)
}

/// Buttons that show something and that the batch does not mention.
pub open spec fn unmentioned(
    batch: Seq<Option<BatchedRenderOp>>,
    hashes: Seq<Option<u64>>,
) -> Seq<bool> {
    Seq::new(KEY_COUNT as nat, |i: int| batch[i] is None && hashes[i] is Some)
}

/// Buttons that show something and that the batch clears.
pub open spec fn cleared(
    batch: Seq<Option<BatchedRenderOp>>,
    hashes: Seq<Option<u64>>,
) -> Seq<bool> {
    Seq::new(
        KEY_COUNT as nat,
        |i: int| batch[i] == Some(BatchedRenderOp::Clear) && hashes[i] is Some,
    )
}

/// A button does not show the picture yet that the batch draws on it.
pub open spec fn is_new_image(
    batch: Seq<Option<BatchedRenderOp>>,
    hashes: Seq<Option<u64>>,
    i: int,
) -> bool {
    batch[i] matches Some(BatchedRenderOp::Image { image_hash, .. }) && hashes[i] != Some(
        image_hash,
    )
}

pub open spec fn image_hash_of(op: Option<BatchedRenderOp>) -> u64 {
    match op {
        Some(BatchedRenderOp::Image { image_hash, .. }) => image_hash,
        _ => 0,
    }
}

pub open spec fn payload_of(op: Option<BatchedRenderOp>) -> Seq<char> {
    match op {
        Some(BatchedRenderOp::Image { payload, .. }) => payload@,
        _ => Seq::empty(),
    }
}

/// The new pictures of a batch that were converted before.
pub open spec fn found(
    batch: Seq<Option<BatchedRenderOp>>,
    hashes: Seq<Option<u64>>,
    kept: Map<ConvertedImageCacheKey, Seq<u8>>,
    formats: Seq<ImageFormat>,
) -> Seq<Option<Drawn>> {
    Seq::new(
        KEY_COUNT as nat,
        |i: int|
            {
                let hash = image_hash_of(batch[i]);
                let key = cache::cache_key(hash, formats[i]);
                if is_new_image(batch, hashes, i) && kept.dom().contains(key) {
                    Some((hash, kept[key]))
                } else {
                    None
                }
            },
    )
}

/// The new pictures of a batch, on the buttons below `count`, that have to be
/// decoded.
pub open spec fn missing_below(
    batch: Seq<Option<BatchedRenderOp>>,
    hashes: Seq<Option<u64>>,
    kept: Map<ConvertedImageCacheKey, Seq<u8>>,
    formats: Seq<ImageFormat>,
    count: nat,
) -> Seq<Job>
    decreases count,
{
    if count == 0 {
        Seq::empty()
    } else {
        let i = count - 1;
        let before = missing_below(batch, hashes, kept, formats, i as nat);
        let hash = image_hash_of(batch[i]);
        if is_new_image(batch, hashes, i) && !kept.dom().contains(
            cache::cache_key(hash, formats[i]),
        ) {
            before.push((i, hash, formats[i], payload_of(batch[i])))
        } else {
            before
        }
    }
}

/// The next thing to be drawn: first what is cleared, then the pictures, both
/// from the first button to the last. When there is nothing left, the device
/// is asked to show what was queued, if anything was.
pub open spec fn draw_next(
    wrote: bool,
    hashes: Seq<Option<u64>>,
    kept: Map<ConvertedImageCacheKey, Seq<u8>>,
    clears: Seq<bool>,
    images: Seq<Option<Drawn>>,
) -> (PassModel, ActionModel) {
    match (first_set(clears), first_set(waiting(images))) {
        (Some(index), _) => (
            PassModel {
                stage: StageModel::Drawing {
                    clears: clears.update(index, false),
                    images,
                    index,
                    image_hash: None,
                },
                wrote,
                hashes,
                kept,
            },
            ActionModel::BlackOut { index },
        ),
        (None, Some(index)) => (
            PassModel {
                stage: StageModel::Drawing {
                    clears,
                    images: images.update(index, None),
                    index,
                    image_hash: Some((images[index]->0).0),
                },
                wrote,
                hashes,
                kept,
            },
            ActionModel::Draw { index, data: (images[index]->0).1 },
        ),
        (None, None) => if wrote {
            (PassModel { stage: StageModel::Flushing, wrote, hashes, kept }, ActionModel::Flush)
        } else {
            (PassModel { stage: StageModel::Over, wrote, hashes, kept }, ActionModel::Finish)
        },
    }
}

/// What the batch itself asks for, once the rest of the deck is cleared.
pub open spec fn draw_batch(
    wrote: bool,
    hashes: Seq<Option<u64>>,
    kept: Map<ConvertedImageCacheKey, Seq<u8>>,
    formats: Seq<ImageFormat>,
    batch: Seq<Option<BatchedRenderOp>>,
) -> (PassModel, ActionModel) {
    let clears = cleared(batch, hashes);
    let images = found(batch, hashes, kept, formats);
    let jobs = missing_below(batch, hashes, kept, formats, KEY_COUNT as nat);
    if jobs.len() == 0 {
        draw_next(wrote, hashes, kept, clears, images)
    } else {
        (
            PassModel { stage: StageModel::Decoding { clears, images }, wrote, hashes, kept },
            ActionModel::Decode { jobs },
        )
    }
}

/// The next unmentioned button to be blacked out, or else the batch itself.
pub open spec fn blacken_next(
    wrote: bool,
    hashes: Seq<Option<u64>>,
    kept: Map<ConvertedImageCacheKey, Seq<u8>>,
    formats: Seq<ImageFormat>,
    batch: Seq<Option<BatchedRenderOp>>,
    clears: Seq<bool>,
) -> (PassModel, ActionModel) {
    match first_set(clears) {
        Some(index) => (
            PassModel {
                stage: StageModel::Blackening { clears: clears.update(index, false), index, batch },
                wrote,
                hashes,
                kept,
            },
            ActionModel::BlackOut { index },
        ),
        None => draw_batch(wrote, hashes, kept, formats, batch),
    }
}

/// How a pass starts. Where the whole deck is to be cleared and pictures
/// follow, only the buttons that the batch does not mention are blacked out,
/// so that the others do not flicker; else the device clears itself.
pub open spec fn started(
    hashes: Seq<Option<u64>>,
    kept: Map<ConvertedImageCacheKey, Seq<u8>>,
    formats: Seq<ImageFormat>,
    clear_all: bool,
    batch: Seq<Option<BatchedRenderOp>>,
) -> (PassModel, ActionModel) {
    if !clear_all {
        draw_batch(false, hashes, kept, formats, batch)
    } else if batch::draws_images(batch) {
        blacken_next(false, hashes, kept, formats, batch, unmentioned(batch, hashes))
    } else {
        (
            PassModel { stage: StageModel::ClearingAll { batch }, wrote: false, hashes, kept },
            ActionModel::ClearAll,
        )
    }
}

/// What is kept after jobs got through, up to the first fatal error.
pub open spec fn kept_after(
    kept: Map<ConvertedImageCacheKey, Seq<u8>>,
    formats: Seq<ImageFormat>,
    outcomes: Seq<Outcome>,
) -> Map<ConvertedImageCacheKey, Seq<u8>>
    decreases outcomes.len(),
{
    if outcomes.len() == 0 {
        kept
    } else {
        let before = kept_after(kept, formats, outcomes.drop_last());
        let (index, hash, result) = outcomes.last();
        match result {
            Ok(data) if !gave_up(outcomes.drop_last()) => ConvertedImageCache::after_insert(
                before,
                cache::cache_key(hash, formats[index]),
                data,
            ),
            _ => before,
        }
    }
}

/// The pictures to be drawn after jobs got through.
pub open spec fn images_after(images: Seq<Option<Drawn>>, outcomes: Seq<Outcome>) -> Seq<
    Option<Drawn>,
>
    decreases outcomes.len(),
{
    if outcomes.len() == 0 {
        images
    } else {
        let before = images_after(images, outcomes.drop_last());
        let (index, hash, result) = outcomes.last();
        match result {
            Ok(data) => before.update(index, Some((hash, data))),
            Err(_) => before,
        }
    }
}

/// An error that does not only spoil a picture.
pub open spec fn is_fatal(outcome: Outcome) -> bool {
    outcome.2 == Err::<Seq<u8>, bool>(false)
}

/// Some job met a fatal error.
pub open spec fn gave_up(outcomes: Seq<Outcome>) -> bool {
    exists|i: int| 0 <= i < outcomes.len() && is_fatal(#[trigger] outcomes[i])
}

/// Every outcome is about a button of the deck.
pub open spec fn on_buttons(outcomes: Seq<Outcome>) -> bool {
    forall|i: int| 0 <= i < outcomes.len() ==> 0 <= (#[trigger] outcomes[i]).0 < KEY_COUNT
}

/// The event answers the action that the pass is waiting for.
pub open spec fn event_fits(stage: StageModel, event: EventModel) -> bool {
    match stage {
        StageModel::Over => false,
        StageModel::Decoding { .. } => match event {
            EventModel::Decoded { outcomes } => on_buttons(outcomes),
            _ => false,
        },
        _ => event is Done || event is Failed,
    }
}

/// How a pass goes on. A button counts as drawn when its write went well.
pub open spec fn advanced(
    pass: PassModel,
    formats: Seq<ImageFormat>,
    event: EventModel,
) -> (PassModel, ActionModel) {
    let given_up = (
        PassModel { stage: StageModel::Over, ..pass },
        ActionModel::Fail { error: None },
    );
    match (pass.stage, event) {
        (StageModel::Blackening { clears, index, batch }, EventModel::Done) => blacken_next(
            true,
            pass.hashes.update(index, None),
            pass.kept,
            formats,
            batch,
            clears,
        ),
        (StageModel::ClearingAll { batch }, EventModel::Done) => draw_batch(
            true,
            all_clear(),
            pass.kept,
            formats,
            batch,
        ),
        (StageModel::ClearingAll { batch }, EventModel::Failed) => (
            PassModel { stage: StageModel::FallingBack { index: 0, batch }, ..pass },
            ActionModel::BlackOut { index: 0 },
        ),
        (StageModel::FallingBack { index, batch }, EventModel::Done) => if index + 1 < KEY_COUNT {
            (
                PassModel {
                    stage: StageModel::FallingBack { index: index + 1, batch },
                    ..pass
                },
                ActionModel::BlackOut { index: index + 1 },
            )
        } else {
            draw_batch(true, all_clear(), pass.kept, formats, batch)
        },
        (StageModel::Decoding { clears, images }, EventModel::Decoded { outcomes }) => {
            let kept = kept_after(pass.kept, formats, outcomes);
            if gave_up(outcomes) {
                (
                    PassModel { stage: StageModel::Over, kept, ..pass },
                    ActionModel::Fail { error: Some(DeviceError::Device) },
                )
            } else {
                draw_next(
                    pass.wrote,
                    pass.hashes,
                    kept,
                    clears,
                    images_after(images, outcomes),
                )
            }
        },
        (StageModel::Drawing { clears, images, index, image_hash }, EventModel::Done) => draw_next(
            true,
            pass.hashes.update(index, image_hash),
            pass.kept,
            clears,
            images,
        ),
        (StageModel::Flushing, EventModel::Done) => (
            PassModel { stage: StageModel::Over, ..pass },
            ActionModel::Finish,
        ),
        _ => given_up,
    }
}

// ---------------------------------------------------------------------------
// The machine.

impl DrawPlan {
    spec fn images_view(self) -> Seq<Option<Drawn>> {
        Seq::new(
            KEY_COUNT as nat,
            |i: int|
                match self.images@[i] {
                    Some(image) => Some((image.image_hash, image.image_data@)),
                    None => None,
                },
        )
    }
}

impl RenderPass {
    closed spec fn stage_view(self) -> StageModel {
        match self.stage {
            Stage::Blackening { clears, index, batch } => StageModel::Blackening {
                clears: clears@,
                index: index as int,
                batch: batch@,
            },
            Stage::ClearingAll { batch } => StageModel::ClearingAll { batch: batch@ },
            Stage::FallingBack { index, batch } => StageModel::FallingBack {
                index: index as int,
                batch: batch@,
            },
            Stage::Decoding { plan } => StageModel::Decoding {
                clears: plan.clears@,
                images: plan.images_view(),
            },
            Stage::Drawing { plan, index, image_hash } => StageModel::Drawing {
                clears: plan.clears@,
                images: plan.images_view(),
                index: index as int,
                image_hash,
            },
            Stage::Flushing => StageModel::Flushing,
            Stage::Over => StageModel::Over,
        }
    }

    /// The pass in the model, together with what is remembered of the deck.
    pub closed spec fn model(self, state: RenderState) -> PassModel {
        PassModel {
            stage: self.stage_view(),
            wrote: self.wrote,
            hashes: state.last_image_hashes@,
            kept: state.converted_image_cache@,
        }
    }

    /// The button that is being drawn is one of the deck.
    pub closed spec fn wf(self) -> bool {
        match self.stage {
            Stage::Blackening { index, .. } => index < KEY_COUNT,
            Stage::FallingBack { index, .. } => index < KEY_COUNT,
            Stage::Drawing { index, .. } => index < KEY_COUNT,
            _ => true,
        }
    }

    pub(crate) proof fn lemma_sizes(self, state: RenderState)
        requires
            self.wf(),
        ensures
            render_laws::deck_sized(self.model(state).stage),
            self.model(state).hashes.len() == KEY_COUNT,
    {
    }
}

impl DecodeJob {
    pub open spec fn view(&self) -> Job {
        (self.index as int, self.image_hash, self.format, self.payload@)
    }
}

impl DecodeOutcome {
    pub open spec fn view(&self) -> Outcome {
        (
            self.index as int,
            self.image_hash,
            match self.result {
                Ok(data) => Ok(data@),
                Err(err) => Err(err.recoverable()),
            },
        )
    }
}

pub open spec fn jobs_view(jobs: Seq<DecodeJob>) -> Seq<Job> {
    jobs.map_values(|job: DecodeJob| job@)
}

pub open spec fn outcomes_view(outcomes: Seq<DecodeOutcome>) -> Seq<Outcome> {
    outcomes.map_values(|outcome: DecodeOutcome| outcome@)
}

impl RenderAction {
    pub open spec fn view(&self) -> ActionModel {
        match self {
            RenderAction::ClearAll => ActionModel::ClearAll,
            RenderAction::BlackOut { index } => ActionModel::BlackOut { index: *index as int },
            RenderAction::Decode { jobs } => ActionModel::Decode {
                jobs: jobs_view(jobs@),
            },
            RenderAction::Draw { index, image_data } => ActionModel::Draw {
                index: *index as int,
                data: image_data@,
            },
            RenderAction::Flush => ActionModel::Flush,
            RenderAction::Finish => ActionModel::Finish,
            RenderAction::Fail { error } => ActionModel::Fail { error: *error },
        }
    }
}

impl RenderEvent {
    pub open spec fn view(&self) -> EventModel {
        match self {
            RenderEvent::Done => EventModel::Done,
            RenderEvent::Failed => EventModel::Failed,
            RenderEvent::Decoded { outcomes } => EventModel::Decoded {
                outcomes: outcomes_view(outcomes@),
            },
        }
    }
}

pub(crate) proof fn lemma_first_set(flags: Seq<bool>)
    ensures
        match first_set(flags) {
            Some(i) => 0 <= i < flags.len() && flags[i] && forall|j: int|
                0 <= j < i ==> !#[trigger] flags[j],
            None => forall|j: int| 0 <= j < flags.len() ==> !#[trigger] flags[j],
        },
    decreases flags.len(),
{
    if flags.len() > 0 {
        let shorter = flags.drop_last();
        lemma_first_set(shorter);
        match first_set(shorter) {
            Some(i) => {
                assert(shorter[i] == flags[i]);
                assert forall|j: int| 0 <= j < i implies !#[trigger] flags[j] by {
                    assert(!shorter[j]);
                }
            },
            None => {
                assert forall|j: int| 0 <= j < flags.len() - 1 implies !#[trigger] flags[j] by {
                    assert(!shorter[j]);
                }
            },
        }
    }
}

fn first_flag(flags: &[bool; KEY_COUNT]) -> (first: Option<usize>)
    ensures
        match first {
            Some(i) => first_set(flags@) == Some(i as int) && i < KEY_COUNT,
            None => first_set(flags@) is None,
        },
{
    proof {
        lemma_first_set(flags@);
    }
    let mut i: usize = 0;
    while i < KEY_COUNT
        invariant
            i <= KEY_COUNT,
            forall|j: int| 0 <= j < i ==> !#[trigger] flags@[j],
            match first_set(flags@) {
                Some(i) => 0 <= i < KEY_COUNT && flags@[i] && forall|j: int|
                    0 <= j < i ==> !#[trigger] flags@[j],
                None => forall|j: int| 0 <= j < KEY_COUNT ==> !#[trigger] flags@[j],
            },
        decreases KEY_COUNT - i,
    {
        if flags[i] {
            assert(flags@[i as int]);
            return Some(i);
        }
        i += 1;
    }
    None
}

impl DrawPlan {
    fn first_image(&self) -> (first: Option<usize>)
        ensures
            match first {
                Some(i) => first_set(waiting(self.images_view())) == Some(i as int) && i
                    < KEY_COUNT && self.images@[i as int] is Some,
                None => first_set(waiting(self.images_view())) is None,
            },
    {
        let ghost flags = waiting(self.images_view());
        proof {
            lemma_first_set(flags);
            assert forall|j: int| 0 <= j < KEY_COUNT implies #[trigger] flags[j]
                == self.images@[j] is Some by {}
        }
        let mut i: usize = 0;
        while i < KEY_COUNT
            invariant
                i <= KEY_COUNT,
                flags == waiting(self.images_view()),
                flags.len() == KEY_COUNT,
                forall|j: int|
                    0 <= j < KEY_COUNT ==> #[trigger] flags[j] == self.images@[j] is Some,
                forall|j: int| 0 <= j < i ==> !#[trigger] flags[j],
                match first_set(flags) {
                    Some(i) => 0 <= i < KEY_COUNT && flags[i] && forall|j: int|
                        0 <= j < i ==> !#[trigger] flags[j],
                    None => forall|j: int| 0 <= j < KEY_COUNT ==> !#[trigger] flags[j],
                },
            decreases KEY_COUNT - i,
        {
            if self.images[i].is_some() {
                assert(flags[i as int]);
                return Some(i);
            }
            assert(!flags[i as int]);
            i += 1;
        }
        None
    }
}

/// Goes on with a plan.
fn go_on_drawing(plan: DrawPlan, wrote: bool, Ghost(state): Ghost<RenderState>) -> (r: (
    RenderPass,
    RenderAction,
))
    ensures
        r.0.wf(),
        (r.0.model(state), r.1@) == draw_next(
            wrote,
            state.last_image_hashes@,
            state.converted_image_cache@,
            plan.clears@,
            plan.images_view(),
        ),
{
    let mut plan = plan;
    let ghost before = plan;
    match first_flag(&plan.clears) {
        Some(index) => {
            plan.clears[index] = false;
            assert(plan.images_view() =~= before.images_view());
            (
                RenderPass { stage: Stage::Drawing { plan, index, image_hash: None }, wrote },
                RenderAction::BlackOut { index },
            )
        },
        None => match plan.first_image() {
            Some(index) => {
                let image = plan.images[index].take().unwrap();
                assert(plan.images_view() =~= before.images_view().update(index as int, None));
                (
                    RenderPass {
                        stage: Stage::Drawing { plan, index, image_hash: Some(image.image_hash) },
                        wrote,
                    },
                    RenderAction::Draw { index, image_data: image.image_data },
                )
            },
            None => if wrote {
                (RenderPass { stage: Stage::Flushing, wrote }, RenderAction::Flush)
            } else {
                (RenderPass { stage: Stage::Over, wrote }, RenderAction::Finish)
            },
        },
    }
}

fn no_flags() -> (flags: [bool; KEY_COUNT])
    ensures
        flags@ == Seq::new(KEY_COUNT as nat, |i: int| false),
{
    let flags: [bool; KEY_COUNT] = [false;KEY_COUNT];
    assert(flags@ =~= Seq::new(KEY_COUNT as nat, |i: int| false));
    flags
}

fn no_images() -> (images: [Option<PendingImage>; KEY_COUNT])
    ensures
        forall|i: int| 0 <= i < KEY_COUNT ==> #[trigger] images@[i] is None,
{
    [
        None,
        None,
        None,
        None,
        None,
        None,
        None,
        None,
        None,
        None,
        None,
        None,
        None,
        None,
        None,
    ]
}

/// Works out what the batch itself asks for, and starts on it.
fn go_on_with_batch(
    batch: RenderBatch,
    wrote: bool,
    state: &RenderState,
    formats: &Vec<ImageFormat>,
) -> (r: (RenderPass, RenderAction))
    requires
        state.wf(),
        formats@.len() == KEY_COUNT,
    ensures
        r.0.wf(),
        (r.0.model(*state), r.1@) == draw_batch(
            wrote,
            state.last_image_hashes@,
            state.converted_image_cache@,
            formats@,
            batch@,
        ),
{
    let ghost hashes = state.last_image_hashes@;
    let ghost kept = state.converted_image_cache@;
    let ghost whole = batch@;
    let ghost images_wanted = found(whole, hashes, kept, formats@);
    let mut batch = batch;
    let mut plan = DrawPlan { clears: no_flags(), images: no_images() };
    let mut jobs: Vec<DecodeJob> = Vec::new();
    let mut i: usize = 0;
    while i < KEY_COUNT
        invariant
            i <= KEY_COUNT,
            state.wf(),
            formats@.len() == KEY_COUNT,
            hashes == state.last_image_hashes@,
            kept == state.converted_image_cache@,
            whole.len() == KEY_COUNT,
            images_wanted == found(whole, hashes, kept, formats@),
            forall|j: int| i <= j < KEY_COUNT ==> #[trigger] batch@[j] == whole[j],
            forall|j: int|
                0 <= j < KEY_COUNT ==> #[trigger] plan.clears@[j] == (j < i && cleared(
                    whole,
                    hashes,
                )[j]),
            forall|j: int|
                0 <= j < KEY_COUNT ==> #[trigger] plan.images_view()[j] == if j < i {
                    images_wanted[j]
                } else {
                    None
                },
            jobs_view(jobs@) == missing_below(
                whole,
                hashes,
                kept,
                formats@,
                i as nat,
            ),
        decreases KEY_COUNT - i,
    {
        let ghost plan_before = plan;
        let ghost jobs_before = jobs@;
        let last_hash = state.last_image_hashes[i];
        assert(batch@[i as int] == whole[i as int]);
        match batch[i].take() {
            Some(BatchedRenderOp::Clear) => {
                if should_apply_clear(last_hash) {
                    plan.clears[i] = true;
                }
            },
            Some(BatchedRenderOp::Image { image_hash, payload }) => {
                if should_apply_image(last_hash, image_hash) {
                    let format = formats[i];
                    let key = converted_image_cache_key(image_hash, format);
                    match state.converted_image_cache.get(key) {
                        Some(image_data) => {
                            plan.images[i] = Some(PendingImage { image_hash, image_data });
                        },
                        None => {
                            jobs.push(DecodeJob { index: i, image_hash, format, payload });
                            assert(jobs_view(jobs@)
                                =~= jobs_view(jobs_before).push(
                                jobs@.last()@,
                            ));
                        },
                    }
                }
            },
            None => {},
        }
        i += 1;
        assert forall|j: int| 0 <= j < KEY_COUNT implies #[trigger] plan.images_view()[j] == if j
            < i {
            images_wanted[j]
        } else {
            None
        } by {
            assert(plan_before.images_view()[j] == if j < i - 1 {
                images_wanted[j]
            } else {
                None
            });
        }
        assert forall|j: int| 0 <= j < KEY_COUNT implies #[trigger] plan.clears@[j] == (j < i
            && cleared(whole, hashes)[j]) by {
            assert(plan_before.clears@[j] == (j < i - 1 && cleared(whole, hashes)[j]));
        }
    }
    assert(plan.clears@ =~= cleared(whole, hashes));
    assert(plan.images_view() =~= images_wanted);
    if jobs.len() == 0 {
        assert(jobs_view(jobs@).len() == 0);
        go_on_drawing(plan, wrote, Ghost(*state))
    } else {
        assert(jobs_view(jobs@).len() > 0);
        (RenderPass { stage: Stage::Decoding { plan }, wrote }, RenderAction::Decode { jobs })
    }
}

/// Goes on blacking unmentioned buttons out, and then with the batch.
fn go_on_blackening(
    clears: [bool; KEY_COUNT],
    batch: RenderBatch,
    wrote: bool,
    state: &RenderState,
    formats: &Vec<ImageFormat>,
) -> (r: (RenderPass, RenderAction))
    requires
        state.wf(),
        formats@.len() == KEY_COUNT,
    ensures
        r.0.wf(),
        (r.0.model(*state), r.1@) == blacken_next(
            wrote,
            state.last_image_hashes@,
            state.converted_image_cache@,
            formats@,
            batch@,
            clears@,
        ),
{
    let mut clears = clears;
    match first_flag(&clears) {
        Some(index) => {
            clears[index] = false;
            (
                RenderPass { stage: Stage::Blackening { clears, index, batch }, wrote },
                RenderAction::BlackOut { index },
            )
        },
        None => go_on_with_batch(batch, wrote, state, formats),
    }
}

/// Starts a pass that draws a batch, after clearing the whole deck if that was
/// asked for.
pub fn process_render_batch(
    state: &RenderState,
    button_formats: &Vec<ImageFormat>,
    clear_all: bool,
    batch: RenderBatch,
) -> (r: (RenderPass, RenderAction))
    requires
        state.wf(),
        button_formats@.len() == KEY_COUNT,
    ensures
        r.0.wf(),
        (r.0.model(*state), r.1@) == started(
            state.last_image_hashes@,
            state.converted_image_cache@,
            button_formats@,
            clear_all,
            batch@,
        ),
        r.0.model(*state).hashes == state.last_image_hashes@,
        r.0.model(*state).kept == state.converted_image_cache@,
{
    if !clear_all {
        return go_on_with_batch(batch, false, state, button_formats);
    }
    if !batch_contains_image_updates(&batch) {
        return (
            RenderPass { stage: Stage::ClearingAll { batch }, wrote: false },
            RenderAction::ClearAll,
        );
    }
    let mut clears = no_flags();
    let ghost wanted = unmentioned(batch@, state.last_image_hashes@);
    let mut i: usize = 0;
    while i < KEY_COUNT
        invariant
            i <= KEY_COUNT,
            wanted == unmentioned(batch@, state.last_image_hashes@),
            forall|j: int|
                0 <= j < KEY_COUNT ==> #[trigger] clears@[j] == (j < i && wanted[j]),
        decreases KEY_COUNT - i,
    {
        if batch[i].is_none() && should_apply_clear(state.last_image_hashes[i]) {
            clears[i] = true;
        }
        i += 1;
    }
    assert(clears@ =~= wanted);
    go_on_blackening(clears, batch, false, state, button_formats)
}

proof fn lemma_outcomes_extend(outcomes: Seq<DecodeOutcome>, i: int)
    requires
        0 <= i < outcomes.len(),
    ensures
        ({
            let view = outcomes_view(outcomes);
            &&& view.take(i + 1).drop_last() == view.take(i)
            &&& view.take(i + 1).last() == outcomes[i]@
        }),
{
    let view = outcomes_view(outcomes);
    assert(view.take(i + 1).drop_last() =~= view.take(i));
}

/// Takes the decoded pictures in: into the cache and into the plan. Pictures
/// that could not be decoded are passed over, up to the first error that is
/// fatal.
fn take_outcomes(
    plan: DrawPlan,
    cache: &mut ConvertedImageCache,
    formats: &Vec<ImageFormat>,
    outcomes: Vec<DecodeOutcome>,
) -> (r: Result<DrawPlan, DeviceError>)
    requires
        old(cache).wf(),
        formats@.len() == KEY_COUNT,
        forall|i: int| 0 <= i < outcomes@.len() ==> (#[trigger] outcomes@[i]).index < KEY_COUNT,
    ensures
        final(cache).wf(),
        ({
            let view = outcomes_view(outcomes@);
            &&& final(cache)@ == kept_after(old(cache)@, formats@, view)
            &&& match r {
                Ok(after) => !gave_up(view) && after.clears@ == plan.clears@
                    && after.images_view() == images_after(plan.images_view(), view),
                Err(err) => gave_up(view) && err == DeviceError::Device,
            }
        }),
{
    let ghost view = outcomes_view(outcomes@);
    let ghost first = plan;
    let ghost all = outcomes@;
    let mut plan = plan;
    let mut failure: Option<DeviceError> = None;
    assert(view.take(0) =~= Seq::empty());
    assert(view.take(view.len() as int) =~= view);
    for outcome in it: outcomes
        invariant
            it.seq() == all,
            cache.wf(),
            formats@.len() == KEY_COUNT,
            view == outcomes_view(all),
            forall|i: int| 0 <= i < all.len() ==> (#[trigger] all[i]).index < KEY_COUNT,
            cache@ == kept_after(old(cache)@, formats@, view.take(it.index() as int)),
            failure is Some <==> gave_up(view.take(it.index() as int)),
            failure is Some ==> failure == Some(DeviceError::Device),
            failure is None ==> plan.clears@ == first.clears@ && plan.images_view()
                == images_after(first.images_view(), view.take(it.index() as int)),
    {
        let ghost i = it.index() as int;
        let ghost so_far = view.take(i + 1);
        let ghost plan_before = plan;
        proof {
            lemma_outcomes_extend(all, i);
            assert(outcome == all[i]);
            assert(so_far[i] == outcome@);
            assert forall|j: int| 0 <= j < i implies #[trigger] so_far[j] == view.take(i)[j] by {}
            if gave_up(view.take(i)) {
                let j = choose|j: int| 0 <= j < i && is_fatal(#[trigger] view.take(i)[j]);
                assert(is_fatal(so_far[j]));
            }
        }
        if failure.is_none() {
            match outcome.result {
                Ok(image_data) => {
                    let key = converted_image_cache_key(
                        outcome.image_hash,
                        formats[outcome.index],
                    );
                    let copy = image_data.clone();
                    assert(copy@ =~= image_data@);
                    cache.insert(key, copy);
                    plan.images[outcome.index] =
                    Some(PendingImage { image_hash: outcome.image_hash, image_data });
                    assert(plan.images_view() =~= images_after(first.images_view(), so_far));
                },
                Err(err) => {
                    if !handle_error(&err) {
                        assert(is_fatal(so_far[i]));
                        failure = Some(err);
                    }
                },
            }
        }
        proof {
            if gave_up(so_far) && !gave_up(view.take(i)) {
                let j = choose|j: int| 0 <= j < so_far.len() && is_fatal(#[trigger] so_far[j]);
                if j < i {
                    assert(is_fatal(view.take(i)[j]));
                }
            }
        }
    }
    match failure {
        Some(err) => Err(err),
        None => Ok(plan),
    }
}

impl RenderPass {
    /// Goes on after an action, by how it went.
    pub fn advance(
        self,
        state: &mut RenderState,
        button_formats: &Vec<ImageFormat>,
        event: RenderEvent,
    ) -> (r: (RenderPass, RenderAction))
        requires
            self.wf(),
            old(state).wf(),
            button_formats@.len() == KEY_COUNT,
            event_fits(self.model(*old(state)).stage, event@),
        ensures
            r.0.wf(),
            final(state).wf(),
            (r.0.model(*final(state)), r.1@) == advanced(
                self.model(*old(state)),
                button_formats@,
                event@,
            ),
            r.0.model(*final(state)).hashes == final(state).last_image_hashes@,
            r.0.model(*final(state)).kept == final(state).converted_image_cache@,
    {
        let wrote = self.wrote;
        match (self.stage, event) {
            (Stage::Blackening { clears, index, batch }, RenderEvent::Done) => {
                state.last_image_hashes[index] = None;
                go_on_blackening(clears, batch, true, state, button_formats)
            },
            (Stage::ClearingAll { batch }, RenderEvent::Done) => {
                state.last_image_hashes = no_hashes();
                go_on_with_batch(batch, true, state, button_formats)
            },
            (Stage::ClearingAll { batch }, RenderEvent::Failed) => (
                RenderPass { stage: Stage::FallingBack { index: 0, batch }, wrote },
                RenderAction::BlackOut { index: 0 },
            ),
            (Stage::FallingBack { index, batch }, RenderEvent::Done) => {
                if index + 1 < KEY_COUNT {
                    (
                        RenderPass { stage: Stage::FallingBack { index: index + 1, batch }, wrote },
                        RenderAction::BlackOut { index: index + 1 },
                    )
                } else {
                    state.last_image_hashes = no_hashes();
                    go_on_with_batch(batch, true, state, button_formats)
                }
            },
            (Stage::Decoding { plan }, RenderEvent::Decoded { outcomes }) => {
                proof {
                    let view = outcomes_view(outcomes@);
                    assert(on_buttons(view));
                    assert forall|i: int| 0 <= i < outcomes@.len() implies (
                    #[trigger] outcomes@[i]).index < KEY_COUNT by {
                        assert(view[i] == outcomes@[i]@);
                    }
                }
                match take_outcomes(
                    plan,
                    &mut state.converted_image_cache,
                    button_formats,
                    outcomes,
                ) {
                    Ok(plan) => go_on_drawing(plan, wrote, Ghost(*state)),
                    Err(err) => (
                        RenderPass { stage: Stage::Over, wrote },
                        RenderAction::Fail { error: Some(err) },
                    ),
                }
            },
            (Stage::Drawing { plan, index, image_hash }, RenderEvent::Done) => {
                state.last_image_hashes[index] = image_hash;
                go_on_drawing(plan, true, Ghost(*state))
            },
            (Stage::Flushing, RenderEvent::Done) => (
                RenderPass { stage: Stage::Over, wrote },
                RenderAction::Finish,
            ),
            _ => (RenderPass { stage: Stage::Over, wrote }, RenderAction::Fail { error: None }),
        }
    }
}

} // verus!
