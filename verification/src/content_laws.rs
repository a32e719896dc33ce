//! What is written to a deck: only buttons that need it, and only pictures
//! that were asked for.

use vstd::prelude::*;

use crate::batch;
use crate::batch::{BatchedRenderOp, RenderCommand};
use crate::cache;
use crate::cache::{ConvertedImageCache, ConvertedImageCacheKey};
use crate::convert;
use crate::mappings::{ImageFormat, KEY_COUNT};
use crate::render;
use crate::render::{ActionModel, Drawn, EventModel, Job, Outcome, PassModel, StageModel};

verus! {

// ---------------------------------------------------------------------------
// Buttons that need no change are not written to.

/// The button does not show yet what the batch asks for.
pub open spec fn is_stale(
    batch: Seq<Option<BatchedRenderOp>>,
    shown: Seq<Option<u64>>,
    button: int,
) -> bool {
    ||| batch[button] == Some(BatchedRenderOp::Clear) && shown[button] is Some
    ||| render::is_new_image(batch, shown, button)
}

/// The buttons that do not show yet what the batch asks for.
pub open spec fn stale(
    batch: Seq<Option<BatchedRenderOp>>,
    shown: Seq<Option<u64>>,
) -> Set<int> {
    Set::new(|button: int| 0 <= button < KEY_COUNT && is_stale(batch, shown, button))
}

pub open spec fn plan_within(
    clears: Seq<bool>,
    images: Seq<Option<Drawn>>,
    buttons: Set<int>,
) -> bool {
    &&& clears.len() == KEY_COUNT
    &&& images.len() == KEY_COUNT
    &&& forall|i: int| 0 <= i < KEY_COUNT && #[trigger] clears[i] ==> buttons.contains(i)
    &&& forall|i: int| 0 <= i < KEY_COUNT && #[trigger] images[i] is Some ==> buttons.contains(i)
}

/// All that is still to be written is on the given buttons.
pub open spec fn writes_within(stage: StageModel, buttons: Set<int>) -> bool {
    match stage {
        StageModel::Decoding { clears, images } => plan_within(clears, images, buttons),
        StageModel::Drawing { clears, images, index, .. } => plan_within(clears, images, buttons)
            && buttons.contains(index),
        StageModel::Flushing => true,
        StageModel::Over => true,
        _ => false,
    }
}

/// The action, if it writes to a button, writes to one of the given.
pub open spec fn action_within(action: ActionModel, buttons: Set<int>) -> bool {
    match action {
        ActionModel::BlackOut { index } => buttons.contains(index),
        ActionModel::Draw { index, .. } => buttons.contains(index),
        ActionModel::ClearAll => false,
        ActionModel::Decode { jobs } => jobs_within(jobs, buttons),
        _ => true,
    }
}

pub open spec fn jobs_within(jobs: Seq<Job>, buttons: Set<int>) -> bool {
    forall|i: int| 0 <= i < jobs.len() ==> buttons.contains((#[trigger] jobs[i]).0)
}

pub open spec fn outcomes_within(outcomes: Seq<Outcome>, buttons: Set<int>) -> bool {
    forall|i: int| 0 <= i < outcomes.len() ==> buttons.contains((#[trigger] outcomes[i]).0)
}

proof fn lemma_draw_next_within(
    wrote: bool,
    hashes: Seq<Option<u64>>,
    kept: Map<ConvertedImageCacheKey, Seq<u8>>,
    clears: Seq<bool>,
    images: Seq<Option<Drawn>>,
    buttons: Set<int>,
)
    requires
        plan_within(clears, images, buttons),
    ensures
        ({
            let (pass, action) = render::draw_next(wrote, hashes, kept, clears, images);
            writes_within(pass.stage, buttons) && action_within(action, buttons)
        }),
{
    let flags = render::waiting(images);
    render::lemma_first_set(clears);
    render::lemma_first_set(flags);
    match (render::first_set(clears), render::first_set(flags)) {
        (Some(i), _) => {
            let fewer = clears.update(i, false);
            assert forall|j: int| 0 <= j < KEY_COUNT && #[trigger] fewer[j] implies buttons.contains(
                j,
            ) by {
                assert(clears[j]);
            }
        },
        (None, Some(i)) => {
            let fewer = images.update(i, None);
            assert(flags[i] == images[i] is Some);
            assert forall|j: int|
                0 <= j < KEY_COUNT && #[trigger] fewer[j] is Some implies buttons.contains(j) by {
                assert(images[j] is Some);
            }
        },
        _ => {},
    }
}

proof fn lemma_missing_within(
    batch: Seq<Option<BatchedRenderOp>>,
    shown: Seq<Option<u64>>,
    kept: Map<ConvertedImageCacheKey, Seq<u8>>,
    formats: Seq<ImageFormat>,
    count: nat,
)
    requires
        count <= KEY_COUNT,
    ensures
        jobs_within(
            render::missing_below(batch, shown, kept, formats, count),
            stale(batch, shown),
        ),
    decreases count,
{
    if count > 0 {
        let fewer = (count - 1) as nat;
        let before = render::missing_below(batch, shown, kept, formats, fewer);
        let jobs = render::missing_below(batch, shown, kept, formats, count);
        lemma_missing_within(batch, shown, kept, formats, fewer);
        assert forall|i: int| 0 <= i < jobs.len() implies stale(batch, shown).contains(
            (#[trigger] jobs[i]).0,
        ) by {
            if i < before.len() {
                assert(jobs[i] == before[i]);
            }
        }
    }
}

/// Unless the whole deck is to be cleared, a pass starts with writing only to
/// buttons that do not show yet what they should.
pub proof fn only_stale_buttons_are_planned(
    shown: Seq<Option<u64>>,
    kept: Map<ConvertedImageCacheKey, Seq<u8>>,
    formats: Seq<ImageFormat>,
    batch: Seq<Option<BatchedRenderOp>>,
)
    ensures
        ({
            let (pass, action) = render::started(shown, kept, formats, false, batch);
            &&& writes_within(pass.stage, stale(batch, shown))
            &&& action_within(action, stale(batch, shown))
        }),
{
    let clears = render::cleared(batch, shown);
    let images = render::found(batch, shown, kept, formats);
    lemma_missing_within(batch, shown, kept, formats, KEY_COUNT as nat);
    assert(plan_within(clears, images, stale(batch, shown)));
    lemma_draw_next_within(false, shown, kept, clears, images, stale(batch, shown));
}

/// A pass that is down to writing to some buttons writes to no other, whatever
/// happens, if pictures come back for these buttons only.
pub proof fn other_buttons_are_left_alone(
    pass: PassModel,
    formats: Seq<ImageFormat>,
    event: EventModel,
    buttons: Set<int>,
)
    requires
        writes_within(pass.stage, buttons),
        render::event_fits(pass.stage, event),
        event matches EventModel::Decoded { outcomes } ==> outcomes_within(outcomes, buttons),
    ensures
        ({
            let (next, action) = render::advanced(pass, formats, event);
            writes_within(next.stage, buttons) && action_within(action, buttons)
        }),
{
    match (pass.stage, event) {
        (StageModel::Decoding { clears, images }, EventModel::Decoded { outcomes }) => {
            lemma_images_within(images, outcomes, buttons);
            lemma_draw_next_within(
                pass.wrote,
                pass.hashes,
                render::kept_after(pass.kept, formats, outcomes),
                clears,
                render::images_after(images, outcomes),
                buttons,
            );
        },
        (StageModel::Drawing { clears, images, index, image_hash }, EventModel::Done) => {
            lemma_draw_next_within(
                true,
                pass.hashes.update(index, image_hash),
                pass.kept,
                clears,
                images,
                buttons,
            );
        },
        _ => {},
    }
}

proof fn lemma_images_within(
    images: Seq<Option<Drawn>>,
    outcomes: Seq<Outcome>,
    buttons: Set<int>,
)
    requires
        images.len() == KEY_COUNT,
        forall|i: int|
            0 <= i < KEY_COUNT && #[trigger] images[i] is Some ==> buttons.contains(i),
        render::on_buttons(outcomes),
        outcomes_within(outcomes, buttons),
    ensures
        render::images_after(images, outcomes).len() == KEY_COUNT,
        forall|i: int|
            0 <= i < KEY_COUNT && #[trigger] render::images_after(images, outcomes)[i] is Some
                ==> buttons.contains(i),
    decreases outcomes.len(),
{
    if outcomes.len() > 0 {
        let fewer = outcomes.drop_last();
        lemma_drop_last(outcomes);
        assert forall|i: int| 0 <= i < fewer.len() implies buttons.contains(
            (#[trigger] fewer[i]).0,
        ) by {
            assert(fewer[i] == outcomes[i]);
        }
        lemma_images_within(images, fewer, buttons);
        let last = outcomes[outcomes.len() - 1];
        assert(buttons.contains(last.0));
        let before = render::images_after(images, fewer);
        let after = render::images_after(images, outcomes);
        assert forall|i: int| 0 <= i < KEY_COUNT && #[trigger] after[i] is Some implies buttons.contains(
            i,
        ) by {
            if i != last.0 {
                assert(before[i] == after[i]);
            }
        }
    }
}

proof fn lemma_drop_last(outcomes: Seq<Outcome>)
    requires
        outcomes.len() > 0,
        render::on_buttons(outcomes),
    ensures
        render::on_buttons(outcomes.drop_last()),
        0 <= outcomes.last().0 < KEY_COUNT,
{
    let fewer = outcomes.drop_last();
    assert(outcomes.last() == outcomes[outcomes.len() - 1]);
    assert forall|i: int| 0 <= i < fewer.len() implies 0 <= (#[trigger] fewer[i]).0 < KEY_COUNT by {
        assert(fewer[i] == outcomes[i]);
    }
}

// ---------------------------------------------------------------------------
// What is drawn was asked for.

/// The bytes are what the device takes for some payload with the given hash,
/// on a button of the given format.
pub open spec fn genuine(data: Seq<u8>, hash: u64, format: ImageFormat) -> bool {
    exists|payload: Seq<char>| #[trigger]
        batch::payload_hash(payload) == hash && convert::button_data(format, payload) == Some(data)
}

/// Every kept picture is genuine.
pub open spec fn keeps_genuine(kept: Map<ConvertedImageCacheKey, Seq<u8>>) -> bool {
    forall|hash: u64, format: ImageFormat|
        kept.dom().contains(#[trigger] cache::cache_key(hash, format)) ==> genuine(
            kept[cache::cache_key(hash, format)],
            hash,
            format,
        )
}

pub open spec fn image_genuine(image: Option<Drawn>, format: ImageFormat) -> bool {
    match image {
        Some((hash, data)) => genuine(data, hash, format),
        None => true,
    }
}

pub open spec fn plan_genuine(images: Seq<Option<Drawn>>, formats: Seq<ImageFormat>) -> bool {
    &&& images.len() == KEY_COUNT
    &&& forall|i: int| 0 <= i < KEY_COUNT ==> image_genuine(#[trigger] images[i], formats[i])
}

/// Everything that a pass keeps or is about to draw is genuine.
pub open spec fn pass_genuine(pass: PassModel, formats: Seq<ImageFormat>) -> bool {
    &&& keeps_genuine(pass.kept)
    &&& match pass.stage {
        StageModel::Decoding { images, .. } => plan_genuine(images, formats),
        StageModel::Drawing { images, .. } => plan_genuine(images, formats),
        _ => true,
    }
}

/// What is drawn is genuine, and the deck is remembered to show just that
/// picture once it is drawn.
pub open spec fn draws_genuine(
    stage: StageModel,
    action: ActionModel,
    formats: Seq<ImageFormat>,
) -> bool {
    match action {
        ActionModel::Draw { index, data } => match stage {
            StageModel::Drawing { index: at, image_hash: Some(hash), .. } => at == index && genuine(
                data,
                hash,
                formats[index],
            ),
            _ => false,
        },
        _ => true,
    }
}

/// The job brought a genuine picture, or none.
pub open spec fn outcome_genuine(outcome: Outcome, formats: Seq<ImageFormat>) -> bool {
    match outcome.2 {
        Ok(data) => genuine(data, outcome.1, formats[outcome.0]),
        Err(_) => true,
    }
}

pub open spec fn outcomes_genuine(outcomes: Seq<Outcome>, formats: Seq<ImageFormat>) -> bool {
    forall|i: int| 0 <= i < outcomes.len() ==> outcome_genuine(#[trigger] outcomes[i], formats)
}

proof fn lemma_insert_genuine(
    kept: Map<ConvertedImageCacheKey, Seq<u8>>,
    hash: u64,
    format: ImageFormat,
    data: Seq<u8>,
)
    requires
        keeps_genuine(kept),
        genuine(data, hash, format),
    ensures
        keeps_genuine(
            ConvertedImageCache::after_insert(kept, cache::cache_key(hash, format), data),
        ),
{
    let key = cache::cache_key(hash, format);
    let after = ConvertedImageCache::after_insert(kept, key, data);
    assert forall|h: u64, f: ImageFormat|
        after.dom().contains(#[trigger] cache::cache_key(h, f)) implies genuine(
        after[cache::cache_key(h, f)],
        h,
        f,
    ) by {
        cache::cache_keys_tell_formats_apart(hash, format, h, f);
        if cache::cache_key(h, f) != key {
            assert(kept.dom().contains(cache::cache_key(h, f)));
        }
    }
}

proof fn lemma_outcomes_genuine(
    kept: Map<ConvertedImageCacheKey, Seq<u8>>,
    images: Seq<Option<Drawn>>,
    formats: Seq<ImageFormat>,
    outcomes: Seq<Outcome>,
)
    requires
        keeps_genuine(kept),
        plan_genuine(images, formats),
        render::on_buttons(outcomes),
        outcomes_genuine(outcomes, formats),
    ensures
        keeps_genuine(render::kept_after(kept, formats, outcomes)),
        plan_genuine(render::images_after(images, outcomes), formats),
    decreases outcomes.len(),
{
    if outcomes.len() > 0 {
        let fewer = outcomes.drop_last();
        lemma_drop_last(outcomes);
        assert forall|i: int| 0 <= i < fewer.len() implies outcome_genuine(
            #[trigger] fewer[i],
            formats,
        ) by {
            assert(fewer[i] == outcomes[i]);
        }
        lemma_outcomes_genuine(kept, images, formats, fewer);
        let (index, hash, result) = outcomes.last();
        assert(outcome_genuine(outcomes[outcomes.len() - 1], formats));
        let before = render::images_after(images, fewer);
        let after = render::images_after(images, outcomes);
        if let Ok(data) = result {
            lemma_insert_genuine(
                render::kept_after(kept, formats, fewer),
                hash,
                formats[index],
                data,
            );
            assert forall|i: int| 0 <= i < KEY_COUNT implies image_genuine(
                #[trigger] after[i],
                formats[i],
            ) by {
                assert(image_genuine(before[i], formats[i]));
            }
        }
    }
}

proof fn lemma_draw_next_genuine(
    wrote: bool,
    hashes: Seq<Option<u64>>,
    kept: Map<ConvertedImageCacheKey, Seq<u8>>,
    formats: Seq<ImageFormat>,
    clears: Seq<bool>,
    images: Seq<Option<Drawn>>,
)
    requires
        keeps_genuine(kept),
        plan_genuine(images, formats),
    ensures
        ({
            let (pass, action) = render::draw_next(wrote, hashes, kept, clears, images);
            pass_genuine(pass, formats) && draws_genuine(pass.stage, action, formats)
        }),
{
    let flags = render::waiting(images);
    render::lemma_first_set(flags);
    match (render::first_set(clears), render::first_set(flags)) {
        (None, Some(i)) => {
            let fewer = images.update(i, None);
            assert(flags[i] == images[i] is Some);
            assert(image_genuine(images[i], formats[i]));
            assert forall|j: int| 0 <= j < KEY_COUNT implies image_genuine(
                #[trigger] fewer[j],
                formats[j],
            ) by {
                assert(image_genuine(images[j], formats[j]));
            }
        },
        _ => {},
    }
}

proof fn lemma_draw_batch_genuine(
    wrote: bool,
    hashes: Seq<Option<u64>>,
    kept: Map<ConvertedImageCacheKey, Seq<u8>>,
    formats: Seq<ImageFormat>,
    batch: Seq<Option<BatchedRenderOp>>,
)
    requires
        keeps_genuine(kept),
    ensures
        ({
            let (pass, action) = render::draw_batch(wrote, hashes, kept, formats, batch);
            pass_genuine(pass, formats) && draws_genuine(pass.stage, action, formats)
        }),
{
    let images = render::found(batch, hashes, kept, formats);
    assert forall|i: int| 0 <= i < KEY_COUNT implies image_genuine(
        #[trigger] images[i],
        formats[i],
    ) by {
        let key = cache::cache_key(render::image_hash_of(batch[i]), formats[i]);
        assert(images[i] is Some ==> kept.dom().contains(key));
    }
    lemma_draw_next_genuine(
        wrote,
        hashes,
        kept,
        formats,
        render::cleared(batch, hashes),
        images,
    );
}

/// A pass that starts with genuine pictures kept draws genuine pictures.
pub proof fn pass_starts_genuine(
    shown: Seq<Option<u64>>,
    kept: Map<ConvertedImageCacheKey, Seq<u8>>,
    formats: Seq<ImageFormat>,
    clear_all: bool,
    batch: Seq<Option<BatchedRenderOp>>,
)
    requires
        keeps_genuine(kept),
    ensures
        ({
            let (pass, action) = render::started(shown, kept, formats, clear_all, batch);
            pass_genuine(pass, formats) && draws_genuine(pass.stage, action, formats)
        }),
{
    lemma_draw_batch_genuine(false, shown, kept, formats, batch);
}

/// As long as jobs bring genuine pictures, genuine pictures are kept and
/// drawn, whatever else happens.
pub proof fn pass_goes_on_genuine(
    pass: PassModel,
    formats: Seq<ImageFormat>,
    event: EventModel,
)
    requires
        pass_genuine(pass, formats),
        render::event_fits(pass.stage, event),
        event matches EventModel::Decoded { outcomes } ==> outcomes_genuine(outcomes, formats),
    ensures
        ({
            let (next, action) = render::advanced(pass, formats, event);
            pass_genuine(next, formats) && draws_genuine(next.stage, action, formats)
        }),
{
    match (pass.stage, event) {
        (StageModel::Blackening { clears, index, batch }, EventModel::Done) => {
            lemma_draw_batch_genuine(
                true,
                pass.hashes.update(index, None),
                pass.kept,
                formats,
                batch,
            );
        },
        (StageModel::ClearingAll { batch }, EventModel::Done) => {
            lemma_draw_batch_genuine(true, render::all_clear(), pass.kept, formats, batch);
        },
        (StageModel::FallingBack { batch, .. }, EventModel::Done) => {
            lemma_draw_batch_genuine(true, render::all_clear(), pass.kept, formats, batch);
        },
        (StageModel::Decoding { clears, images }, EventModel::Decoded { outcomes }) => {
            lemma_outcomes_genuine(pass.kept, images, formats, outcomes);
            lemma_draw_next_genuine(
                pass.wrote,
                pass.hashes,
                render::kept_after(pass.kept, formats, outcomes),
                formats,
                clears,
                render::images_after(images, outcomes),
            );
        },
        (StageModel::Drawing { clears, images, index, image_hash }, EventModel::Done) => {
            lemma_draw_next_genuine(
                true,
                pass.hashes.update(index, image_hash),
                pass.kept,
                formats,
                clears,
                images,
            );
        },
        _ => {},
    }
}

/// The hash stands for the payload.
pub open spec fn command_genuine(command: RenderCommand) -> bool {
    match command {
        RenderCommand::SetImage { image_hash, payload, .. } => image_hash == batch::payload_hash(
            payload@,
        ),
        _ => true,
    }
}

pub open spec fn op_genuine(op: Option<BatchedRenderOp>) -> bool {
    match op {
        Some(BatchedRenderOp::Image { image_hash, payload }) => image_hash == batch::payload_hash(
            payload@,
        ),
        _ => true,
    }
}

/// What the host asks for carries the hash of its own payload.
pub proof fn requests_are_genuine(position: Option<u8>, image: Option<String>)
    ensures
        batch::requested(position, image) matches Some(command) ==> command_genuine(command),
{
}

/// Gathering commands keeps each payload together with its hash.
pub proof fn gathering_keeps_payloads_and_hashes_together(commands: Seq<RenderCommand>)
    requires
        forall|i: int| 0 <= i < commands.len() ==> command_genuine(#[trigger] commands[i]),
    ensures
        batch::gathered(commands).0.len() == KEY_COUNT,
        forall|i: int|
            0 <= i < KEY_COUNT ==> op_genuine(#[trigger] batch::gathered(commands).0[i]),
    decreases commands.len(),
{
    if commands.len() > 0 {
        let earlier = commands.drop_last();
        assert forall|i: int| 0 <= i < earlier.len() implies command_genuine(
            #[trigger] earlier[i],
        ) by {
            assert(earlier[i] == commands[i]);
        }
        gathering_keeps_payloads_and_hashes_together(earlier);
        assert(command_genuine(commands[commands.len() - 1]));
        let before = batch::gathered(earlier).0;
        let after = batch::gathered(commands).0;
        assert forall|i: int| 0 <= i < KEY_COUNT implies op_genuine(#[trigger] after[i]) by {
            assert(op_genuine(before[i]));
        }
    }
}

/// A job of a batch whose hashes stand for their payloads, and that is done by
/// decoding and converting its payload, brings a genuine picture.
pub proof fn jobs_bring_genuine_pictures(
    batch: Seq<Option<BatchedRenderOp>>,
    shown: Seq<Option<u64>>,
    kept: Map<ConvertedImageCacheKey, Seq<u8>>,
    formats: Seq<ImageFormat>,
    count: nat,
    i: int,
)
    requires
        forall|i: int| 0 <= i < count ==> op_genuine(#[trigger] batch[i]),
        0 <= i < render::missing_below(batch, shown, kept, formats, count).len(),
    ensures
        ({
            let (index, hash, format, payload) = render::missing_below(
                batch,
                shown,
                kept,
                formats,
                count,
            )[i];
            &&& 0 <= index < count
            &&& format == formats[index]
            &&& convert::button_data(format, payload) matches Some(data) ==> outcome_genuine(
                (index, hash, Ok(data)),
                formats,
            )
        }),
    decreases count,
{
    if count > 0 {
        let fewer = (count - 1) as nat;
        let before = render::missing_below(batch, shown, kept, formats, fewer);
        if i < before.len() {
            jobs_bring_genuine_pictures(batch, shown, kept, formats, fewer, i);
        } else {
            assert(op_genuine(batch[count - 1]));
        }
    }
}

} // verus!
