//! The order in which a pass does things, and which buttons it blacks out.

use vstd::prelude::*;

use crate::batch;
use crate::batch::BatchedRenderOp;
use crate::cache::ConvertedImageCacheKey;
use crate::mappings::{ImageFormat, KEY_COUNT};
use crate::render;
use crate::render::{ActionModel, Drawn, EventModel, Job, Outcome, PassModel, StageModel};
use crate::render_laws;

verus! {

// ---------------------------------------------------------------------------
// A whole pass.

/// All actions of a pass that is at the given action, by how they go one after
/// the other. It breaks off where there are no more answers.
pub open spec fn actions(
    pass: PassModel,
    action: ActionModel,
    formats: Seq<ImageFormat>,
    events: Seq<EventModel>,
) -> Seq<ActionModel>
    decreases events.len(),
{
    if events.len() == 0 || pass.stage is Over {
        seq![action]
    } else {
        let next = render::advanced(pass, formats, events[0]);
        seq![action] + actions(next.0, next.1, formats, events.drop_first())
    }
}

/// The batch draws a picture on a button.
pub open spec fn draws_on(batch: Seq<Option<BatchedRenderOp>>, button: int) -> bool {
    batch::is_image(batch[button])
}

/// Whatever got through is about pictures that the batch draws.
pub open spec fn is_about(event: EventModel, batch: Seq<Option<BatchedRenderOp>>) -> bool {
    match event {
        EventModel::Decoded { outcomes } => forall|i: int|
            0 <= i < outcomes.len() ==> draws_on(batch, (#[trigger] outcomes[i]).0),
        _ => true,
    }
}

/// Each event answers the action that the pass is at by then.
pub open spec fn all_fit(
    pass: PassModel,
    formats: Seq<ImageFormat>,
    batch: Seq<Option<BatchedRenderOp>>,
    events: Seq<EventModel>,
) -> bool
    decreases events.len(),
{
    events.len() == 0 || pass.stage is Over || {
        &&& render::event_fits(pass.stage, events[0])
        &&& is_about(events[0], batch)
        &&& all_fit(
            render::advanced(pass, formats, events[0]).0,
            formats,
            batch,
            events.drop_first(),
        )
    }
}

/// The button that an action queues a frame for.
pub open spec fn written(action: ActionModel) -> Option<int> {
    match action {
        ActionModel::BlackOut { index } => Some(index),
        ActionModel::Draw { index, .. } => Some(index),
        _ => None,
    }
}

/// The action ends a pass.
pub open spec fn is_end(action: ActionModel) -> bool {
    action is Finish || action is Fail
}

/// One action may come some time after another: no button is written twice,
/// pictures are drawn from the first button to the last and nothing is blacked
/// out, cleared or decoded any more behind them, and a flush is followed by the
/// end alone, and the end by nothing.
pub open spec fn may_follow(earlier: ActionModel, later: ActionModel) -> bool {
    &&& written(earlier) is Some ==> written(later) != written(earlier)
    &&& earlier is Draw ==> {
        ||| later is Draw && earlier->Draw_index < later->Draw_index
        ||| later is Flush
        ||| is_end(later)
    }
    &&& earlier is Flush ==> is_end(later)
    &&& !is_end(earlier)
}

pub open spec fn is_orderly(trace: Seq<ActionModel>) -> bool {
    forall|i: int, j: int|
        0 <= i < j < trace.len() ==> may_follow(#[trigger] trace[i], #[trigger] trace[j])
}

/// The action changes what the deck will show.
pub open spec fn is_write(action: ActionModel) -> bool {
    action is ClearAll || written(action) is Some
}

pub open spec fn has_write(trace: Seq<ActionModel>) -> bool {
    exists|i: int| 0 <= i < trace.len() && is_write(#[trigger] trace[i])
}

pub open spec fn has_flush(trace: Seq<ActionModel>) -> bool {
    exists|i: int| 0 <= i < trace.len() && (#[trigger] trace[i]) is Flush
}

/// Every job is about a picture that the batch draws.
pub open spec fn are_for_pictures(jobs: Seq<Job>, batch: Seq<Option<BatchedRenderOp>>) -> bool {
    forall|i: int| 0 <= i < jobs.len() ==> draws_on(batch, (#[trigger] jobs[i]).0)
}

// ---------------------------------------------------------------------------
// What a pass has still before it.

/// Nothing is blacked out that the batch draws on, and nothing else is drawn.
pub(crate) open spec fn is_plan(
    clears: Seq<bool>,
    images: Seq<Option<Drawn>>,
    batch: Seq<Option<BatchedRenderOp>>,
) -> bool {
    forall|i: int|
        #![trigger clears[i]]
        #![trigger images[i]]
        0 <= i < KEY_COUNT ==> (clears[i] ==> !draws_on(batch, i)) && (images[i] is Some
            ==> draws_on(batch, i))
}

/// What holds of every stage of a pass that draws the batch.
pub(crate) open spec fn in_order(stage: StageModel, batch: Seq<Option<BatchedRenderOp>>) -> bool {
    &&& render_laws::deck_sized(stage)
    &&& match stage {
        StageModel::Blackening { clears, index, batch: drawn } => {
            &&& drawn == batch
            &&& batch[index] is None
            &&& !clears[index]
            &&& forall|i: int| 0 <= i < KEY_COUNT && #[trigger] clears[i] ==> batch[i] is None
        },
        StageModel::ClearingAll { batch: drawn } => drawn == batch && !batch::draws_images(batch),
        StageModel::FallingBack { batch: drawn, .. } => drawn == batch && !batch::draws_images(
            batch,
        ),
        StageModel::Decoding { clears, images } => is_plan(clears, images, batch),
        StageModel::Drawing { clears, images, index, image_hash } => {
            &&& is_plan(clears, images, batch)
            &&& !clears[index]
            &&& images[index] is None
            &&& image_hash is Some ==> {
                &&& forall|i: int| 0 <= i < KEY_COUNT ==> !#[trigger] clears[i]
                &&& forall|i: int| 0 <= i <= index ==> (#[trigger] images[i]) is None
            }
        },
        _ => true,
    }
}

/// A button that a pass may still come to.
pub(crate) open spec fn may_write(
    stage: StageModel,
    batch: Seq<Option<BatchedRenderOp>>,
    button: int,
) -> bool {
    &&& 0 <= button < KEY_COUNT
    &&& match stage {
        StageModel::Blackening { clears, .. } => clears[button] || batch[button] is Some,
        StageModel::ClearingAll { .. } => true,
        StageModel::FallingBack { index, .. } => index < button,
        StageModel::Decoding { clears, .. } => clears[button] || draws_on(batch, button),
        StageModel::Drawing { clears, images, .. } => clears[button] || images[button] is Some,
        _ => false,
    }
}

/// The action is the one that a pass at the given stage waits for.
pub(crate) open spec fn is_awaited(stage: StageModel, action: ActionModel) -> bool {
    match stage {
        StageModel::Blackening { index, .. } => action == (ActionModel::BlackOut { index }),
        StageModel::ClearingAll { .. } => action is ClearAll,
        StageModel::FallingBack { index, .. } => action == (ActionModel::BlackOut { index }),
        StageModel::Decoding { .. } => action is Decode,
        StageModel::Drawing { index, image_hash, .. } => if image_hash is Some {
            action is Draw && action->Draw_index == index
        } else {
            action == (ActionModel::BlackOut { index })
        },
        StageModel::Flushing => action is Flush,
        StageModel::Over => is_end(action),
    }
}

/// A pass has come to the given action, from a stage at which the given buttons
/// were still before it.
pub(crate) open spec fn comes_to(
    pass: PassModel,
    action: ActionModel,
    batch: Seq<Option<BatchedRenderOp>>,
    ahead: Seq<bool>,
) -> bool {
    &&& in_order(pass.stage, batch)
    &&& is_awaited(pass.stage, action)
    &&& pass.stage is Flushing ==> pass.wrote
    &&& forall|b: int| #[trigger] may_write(pass.stage, batch, b) ==> ahead[b]
    &&& written(action) is Some ==> {
        &&& 0 <= written(action)->0 < KEY_COUNT
        &&& ahead[written(action)->0]
    }
    &&& action is Decode ==> are_for_pictures(action->jobs, batch)
}

pub(crate) open spec fn buttons_ahead(stage: StageModel, batch: Seq<Option<BatchedRenderOp>>) -> Seq<bool> {
    Seq::new(KEY_COUNT as nat, |b: int| may_write(stage, batch, b))
}

/// A picture is being drawn.
pub(crate) open spec fn is_drawing(stage: StageModel) -> bool {
    stage is Drawing && stage->Drawing_image_hash is Some
}

proof fn lemma_draw_next_in_order(
    wrote: bool,
    hashes: Seq<Option<u64>>,
    kept: Map<ConvertedImageCacheKey, Seq<u8>>,
    clears: Seq<bool>,
    images: Seq<Option<Drawn>>,
    batch: Seq<Option<BatchedRenderOp>>,
    ahead: Seq<bool>,
)
    requires
        clears.len() == KEY_COUNT,
        images.len() == KEY_COUNT,
        is_plan(clears, images, batch),
        forall|b: int|
            #![trigger ahead[b]]
            0 <= b < KEY_COUNT && (clears[b] || images[b] is Some) ==> ahead[b],
    ensures
        ({
            let (pass, action) = render::draw_next(wrote, hashes, kept, clears, images);
            &&& comes_to(pass, action, batch, ahead)
            &&& pass.wrote == wrote
            &&& pass.stage is Over ==> action is Finish && !wrote
            &&& (forall|i: int| 0 <= i < KEY_COUNT ==> !#[trigger] clears[i]) ==> !(
            action is BlackOut)
            &&& action is Draw ==> images[action->Draw_index] is Some
            &&& pass.stage is Drawing || pass.stage is Flushing || pass.stage is Over
        }),
{
    let flags = render::waiting(images);
    render::lemma_first_set(clears);
    render::lemma_first_set(flags);
    assert forall|i: int| 0 <= i < KEY_COUNT implies #[trigger] flags[i] == images[i] is Some by {}
    let (pass, action) = render::draw_next(wrote, hashes, kept, clears, images);
    match (render::first_set(clears), render::first_set(flags)) {
        (Some(index), _) => {
            assert(ahead[index]);
            assert(images[index] is None);
            assert forall|b: int| #[trigger] may_write(pass.stage, batch, b) implies ahead[b] by {
                assert(clears[b] || images[b] is Some);
            }
        },
        (None, Some(index)) => {
            assert(flags[index]);
            assert(ahead[index]);
            let left = images.update(index, None);
            assert forall|i: int| 0 <= i <= index implies (#[trigger] left[i]) is None by {
                assert(i < index ==> !flags[i]);
            }
            assert forall|b: int| #[trigger] may_write(pass.stage, batch, b) implies ahead[b] by {
                assert(clears[b] || images[b] is Some);
            }
        },
        _ => {},
    }
}

proof fn lemma_missing_are_for_pictures(
    hashes: Seq<Option<u64>>,
    kept: Map<ConvertedImageCacheKey, Seq<u8>>,
    formats: Seq<ImageFormat>,
    batch: Seq<Option<BatchedRenderOp>>,
    count: nat,
)
    ensures
        are_for_pictures(render::missing_below(batch, hashes, kept, formats, count), batch),
    decreases count,
{
    if count > 0 {
        lemma_missing_are_for_pictures(hashes, kept, formats, batch, (count - 1) as nat);
    }
}

pub(crate) proof fn lemma_draw_batch_in_order(
    wrote: bool,
    hashes: Seq<Option<u64>>,
    kept: Map<ConvertedImageCacheKey, Seq<u8>>,
    formats: Seq<ImageFormat>,
    batch: Seq<Option<BatchedRenderOp>>,
    ahead: Seq<bool>,
)
    requires
        hashes.len() == KEY_COUNT,
        batch.len() == KEY_COUNT,
        forall|b: int|
            #![trigger ahead[b]]
            0 <= b < KEY_COUNT && ((batch[b] == Some(BatchedRenderOp::Clear) && hashes[b] is Some)
                || draws_on(batch, b)) ==> ahead[b],
    ensures
        ({
            let (pass, action) = render::draw_batch(wrote, hashes, kept, formats, batch);
            &&& comes_to(pass, action, batch, ahead)
            &&& pass.wrote == wrote
            &&& pass.stage is Over ==> action is Finish && !wrote
        }),
{
    let clears = render::cleared(batch, hashes);
    let images = render::found(batch, hashes, kept, formats);
    assert(is_plan(clears, images, batch));
    lemma_missing_are_for_pictures(hashes, kept, formats, batch, KEY_COUNT as nat);
    lemma_draw_next_in_order(wrote, hashes, kept, clears, images, batch, ahead);
    let (pass, action) = render::draw_batch(wrote, hashes, kept, formats, batch);
    assert forall|b: int| #[trigger] may_write(pass.stage, batch, b) implies ahead[b] by {}
}

pub(crate) proof fn lemma_blacken_next_in_order(
    wrote: bool,
    hashes: Seq<Option<u64>>,
    kept: Map<ConvertedImageCacheKey, Seq<u8>>,
    formats: Seq<ImageFormat>,
    batch: Seq<Option<BatchedRenderOp>>,
    clears: Seq<bool>,
    ahead: Seq<bool>,
)
    requires
        hashes.len() == KEY_COUNT,
        batch.len() == KEY_COUNT,
        clears.len() == KEY_COUNT,
        forall|i: int| 0 <= i < KEY_COUNT && #[trigger] clears[i] ==> batch[i] is None,
        forall|b: int|
            #![trigger ahead[b]]
            0 <= b < KEY_COUNT && (clears[b] || batch[b] is Some) ==> ahead[b],
    ensures
        ({
            let (pass, action) = render::blacken_next(wrote, hashes, kept, formats, batch, clears);
            &&& comes_to(pass, action, batch, ahead)
            &&& pass.wrote == wrote
            &&& pass.stage is Over ==> action is Finish && !wrote
        }),
{
    render::lemma_first_set(clears);
    lemma_draw_batch_in_order(wrote, hashes, kept, formats, batch, ahead);
    let (pass, action) = render::blacken_next(wrote, hashes, kept, formats, batch, clears);
    if let Some(index) = render::first_set(clears) {
        assert(ahead[index]);
        assert forall|b: int| #[trigger] may_write(pass.stage, batch, b) implies ahead[b] by {
            assert(clears[b] || batch[b] is Some);
        }
    }
}

proof fn lemma_images_after_stay_planned(
    clears: Seq<bool>,
    images: Seq<Option<Drawn>>,
    batch: Seq<Option<BatchedRenderOp>>,
    outcomes: Seq<Outcome>,
)
    requires
        images.len() == KEY_COUNT,
        is_plan(clears, images, batch),
        render::on_buttons(outcomes),
        forall|i: int| 0 <= i < outcomes.len() ==> draws_on(batch, (#[trigger] outcomes[i]).0),
    ensures
        render::images_after(images, outcomes).len() == KEY_COUNT,
        is_plan(clears, render::images_after(images, outcomes), batch),
    decreases outcomes.len(),
{
    if outcomes.len() > 0 {
        let fewer = outcomes.drop_last();
        assert(outcomes.last() == outcomes[outcomes.len() - 1]);
        assert forall|i: int| 0 <= i < fewer.len() implies 0 <= (#[trigger] fewer[i]).0 < KEY_COUNT
            && draws_on(batch, fewer[i].0) by {
            assert(fewer[i] == outcomes[i]);
        }
        lemma_images_after_stay_planned(clears, images, batch, fewer);
        let before = render::images_after(images, fewer);
        let after = render::images_after(images, outcomes);
        assert forall|i: int| 0 <= i < KEY_COUNT implies (clears[i] ==> !draws_on(batch, i)) && (
        after[i] is Some ==> draws_on(batch, i)) by {
            assert(before[i] is Some ==> draws_on(batch, i));
        }
    }
}

/// One answer leads on in order.
pub(crate) proof fn lemma_next_in_order(
    pass: PassModel,
    formats: Seq<ImageFormat>,
    event: EventModel,
    batch: Seq<Option<BatchedRenderOp>>,
)
    requires
        pass.hashes.len() == KEY_COUNT,
        batch.len() == KEY_COUNT,
        in_order(pass.stage, batch),
        render::event_fits(pass.stage, event),
        is_about(event, batch),
    ensures
        ({
            let (next, action) = render::advanced(pass, formats, event);
            &&& comes_to(next, action, batch, buttons_ahead(pass.stage, batch))
            &&& next.hashes.len() == KEY_COUNT
            &&& next.wrote <==> pass.wrote || (event is Done && !(pass.stage is Flushing) && !(
            next.stage is FallingBack))
            &&& action is Finish ==> pass.stage is Flushing || !next.wrote
            &&& pass.stage is Flushing ==> next.stage is Over
            &&& is_drawing(pass.stage) ==> {
                ||| action is Draw && pass.stage->Drawing_index < action->Draw_index
                ||| action is Flush
                ||| is_end(action)
            }
        }),
{
    let ahead = buttons_ahead(pass.stage, batch);
    match (pass.stage, event) {
        (StageModel::Blackening { clears, index, batch: _ }, EventModel::Done) => {
            lemma_blacken_next_in_order(
                true,
                pass.hashes.update(index, None),
                pass.kept,
                formats,
                batch,
                clears,
                ahead,
            );
        },
        (StageModel::ClearingAll { .. }, EventModel::Done) => {
            lemma_draw_batch_in_order(
                true,
                render::all_clear(),
                pass.kept,
                formats,
                batch,
                ahead,
            );
        },
        (StageModel::FallingBack { index, .. }, EventModel::Done) => {
            if index + 1 == KEY_COUNT {
                lemma_draw_batch_in_order(
                    true,
                    render::all_clear(),
                    pass.kept,
                    formats,
                    batch,
                    ahead,
                );
            }
        },
        (StageModel::Decoding { clears, images }, EventModel::Decoded { outcomes }) => {
            lemma_images_after_stay_planned(clears, images, batch, outcomes);
            lemma_draw_next_in_order(
                pass.wrote,
                pass.hashes,
                render::kept_after(pass.kept, formats, outcomes),
                clears,
                render::images_after(images, outcomes),
                batch,
                ahead,
            );
        },
        (StageModel::Drawing { clears, images, index, image_hash }, EventModel::Done) => {
            lemma_draw_next_in_order(
                true,
                pass.hashes.update(index, image_hash),
                pass.kept,
                clears,
                images,
                batch,
                ahead,
            );
        },
        _ => {},
    }
}

/// What is known of all that follows the action that a pass is at.
spec fn leads_on(
    pass: PassModel,
    batch: Seq<Option<BatchedRenderOp>>,
    trace: Seq<ActionModel>,
) -> bool {
    &&& forall|k: int|
        1 <= k < trace.len() && written(#[trigger] trace[k]) is Some ==> may_write(
            pass.stage,
            batch,
            written(trace[k])->0,
        )
    &&& forall|k: int|
        1 <= k < trace.len() && is_drawing(pass.stage) ==> {
            ||| (#[trigger] trace[k]) is Draw && pass.stage->Drawing_index < trace[k]->Draw_index
            ||| trace[k] is Flush
            ||| is_end(trace[k])
        }
    &&& forall|k: int|
        1 <= k < trace.len() && pass.stage is Flushing ==> is_end(#[trigger] trace[k])
    &&& pass.stage is Over ==> trace.len() == 1
}

proof fn lemma_actions_in_order(
    pass: PassModel,
    action: ActionModel,
    formats: Seq<ImageFormat>,
    batch: Seq<Option<BatchedRenderOp>>,
    events: Seq<EventModel>,
)
    requires
        pass.hashes.len() == KEY_COUNT,
        batch.len() == KEY_COUNT,
        in_order(pass.stage, batch),
        is_awaited(pass.stage, action),
        pass.stage is Flushing ==> pass.wrote,
        pass.stage is Over && action is Finish ==> !pass.wrote,
        action is Decode ==> are_for_pictures(action->jobs, batch),
        all_fit(pass, formats, batch, events),
    ensures
        ({
            let trace = actions(pass, action, formats, events);
            &&& trace.len() > 0
            &&& trace[0] == action
            &&& leads_on(pass, batch, trace)
            &&& is_orderly(trace)
            &&& trace.last() is Finish ==> (has_flush(trace) <==> has_write(trace) || pass.wrote)
            &&& forall|k: int|
                0 <= k < trace.len() && (#[trigger] trace[k]) is Decode ==> are_for_pictures(
                    trace[k]->jobs,
                    batch,
                )
        }),
    decreases events.len(),
{
    let trace = actions(pass, action, formats, events);
    if events.len() == 0 || pass.stage is Over {
    } else {
        let (next, later) = render::advanced(pass, formats, events[0]);
        let rest = actions(next, later, formats, events.drop_first());
        lemma_next_in_order(pass, formats, events[0], batch);
        if pass.stage is Flushing {
            assert(rest == seq![later]);
            assert(trace =~= seq![action, later]);
            assert(trace[0] is Flush);
        } else {
            lemma_actions_in_order(next, later, formats, batch, events.drop_first());
            assert(trace.len() == rest.len() + 1);
            assert forall|k: int| 1 <= k < trace.len() implies #[trigger] trace[k] == rest[k
                - 1] by {}
            assert(leads_on(pass, batch, trace)) by {
                assert forall|k: int|
                    1 <= k < trace.len() && written(#[trigger] trace[k]) is Some implies may_write(
                    pass.stage,
                    batch,
                    written(trace[k])->0,
                ) by {
                    let button = written(rest[k - 1])->0;
                    if k > 1 {
                        assert(may_write(next.stage, batch, button));
                    }
                    assert(buttons_ahead(pass.stage, batch)[button]);
                }
                assert forall|k: int| 1 <= k < trace.len() && is_drawing(pass.stage) implies {
                    ||| (#[trigger] trace[k]) is Draw && pass.stage->Drawing_index
                        < trace[k]->Draw_index
                    ||| trace[k] is Flush
                    ||| is_end(trace[k])
                } by {
                    if k > 1 {
                        assert(rest[k - 1] == trace[k]);
                    }
                }
            }
            assert forall|i: int, j: int| 0 <= i < j < trace.len() implies may_follow(
                #[trigger] trace[i],
                #[trigger] trace[j],
            ) by {
                if i > 0 {
                    assert(may_follow(rest[i - 1], rest[j - 1]));
                }
            }
            assert(trace.last() == rest.last());
            assert(has_flush(trace) <==> has_flush(rest)) by {
                if has_flush(trace) {
                    let k = choose|k: int| 0 <= k < trace.len() && (#[trigger] trace[k]) is Flush;
                    assert(rest[k - 1] is Flush);
                }
                if has_flush(rest) {
                    let k = choose|k: int| 0 <= k < rest.len() && (#[trigger] rest[k]) is Flush;
                    assert(trace[k + 1] is Flush);
                }
            }
            assert(has_write(trace) <==> is_write(action) || has_write(rest)) by {
                if has_write(trace) {
                    let k = choose|k: int| 0 <= k < trace.len() && is_write(#[trigger] trace[k]);
                    assert(k > 0 ==> is_write(rest[k - 1]));
                }
                if has_write(rest) {
                    let k = choose|k: int| 0 <= k < rest.len() && is_write(#[trigger] rest[k]);
                    assert(is_write(trace[k + 1]));
                }
                assert(is_write(trace[0]) == is_write(action));
            }
            assert(next.stage is FallingBack ==> is_write(rest[0]));
        }
    }
}

/// However its actions go, a pass does them in order. Black frames come before
/// pictures, and pictures from the first button to the last; no button is
/// written twice; a flush comes last but for the end itself, and so once at
/// most; and a pass that finishes has had the device show what was queued,
/// exactly if it wrote anything. All jobs are about pictures that the batch
/// draws, and the outcomes are taken to be about such pictures too.
pub proof fn pass_goes_in_order(
    shown: Seq<Option<u64>>,
    kept: Map<ConvertedImageCacheKey, Seq<u8>>,
    formats: Seq<ImageFormat>,
    clear_all: bool,
    batch: Seq<Option<BatchedRenderOp>>,
    events: Seq<EventModel>,
)
    requires
        shown.len() == KEY_COUNT,
        batch.len() == KEY_COUNT,
        all_fit(
            render::started(shown, kept, formats, clear_all, batch).0,
            formats,
            batch,
            events,
        ),
    ensures
        ({
            let (pass, action) = render::started(shown, kept, formats, clear_all, batch);
            let trace = actions(pass, action, formats, events);
            &&& is_orderly(trace)
            &&& forall|k: int|
                0 <= k < trace.len() && (#[trigger] trace[k]) is Flush ==> trace.len() <= k + 2
            &&& trace.last() is Finish ==> (has_flush(trace) <==> has_write(trace))
            &&& forall|k: int|
                0 <= k < trace.len() && (#[trigger] trace[k]) is Decode ==> are_for_pictures(
                    trace[k]->jobs,
                    batch,
                )
        }),
{
    let (pass, action) = render::started(shown, kept, formats, clear_all, batch);
    let trace = actions(pass, action, formats, events);
    let ahead = Seq::new(KEY_COUNT as nat, |b: int| true);
    lemma_draw_batch_in_order(false, shown, kept, formats, batch, ahead);
    lemma_blacken_next_in_order(
        false,
        shown,
        kept,
        formats,
        batch,
        render::unmentioned(batch, shown),
        ahead,
    );
    lemma_actions_in_order(pass, action, formats, batch, events);
    assert forall|k: int| 0 <= k < trace.len() && (#[trigger] trace[k]) is Flush implies trace.len()
        <= k + 2 by {
        if k + 2 < trace.len() {
            assert(may_follow(trace[k], trace[k + 1]));
            assert(may_follow(trace[k + 1], trace[k + 2]));
        }
    }
}

// ---------------------------------------------------------------------------
// Which buttons are blacked out.

/// The button shows a picture that it is to lose without getting another one.
pub open spec fn loses_its_picture(
    shown: Seq<Option<u64>>,
    clear_all: bool,
    batch: Seq<Option<BatchedRenderOp>>,
    button: int,
) -> bool {
    &&& 0 <= button < KEY_COUNT
    &&& shown[button] is Some
    &&& batch[button] == Some(BatchedRenderOp::Clear) || (clear_all && batch[button] is None)
}

pub open spec fn is_blacked_out(trace: Seq<ActionModel>, button: int) -> bool {
    exists|k: int|
        0 <= k < trace.len() && #[trigger] trace[k] == (ActionModel::BlackOut { index: button })
}

/// The button is still to be blacked out, unless the pass breaks off. Nothing is
/// said of passes that clear the whole deck at once.
spec fn awaits_black(pass: PassModel, button: int) -> bool {
    &&& 0 <= button < KEY_COUNT
    &&& match pass.stage {
        StageModel::Blackening { clears, batch, .. } => clears[button] || (batch[button] == Some(
            BatchedRenderOp::Clear,
        ) && pass.hashes[button] is Some),
        StageModel::Decoding { clears, .. } => clears[button],
        StageModel::Drawing { clears, .. } => clears[button],
        _ => false,
    }
}

spec fn clears_at_once(stage: StageModel) -> bool {
    stage is ClearingAll || stage is FallingBack
}

proof fn lemma_draw_next_blackens(
    wrote: bool,
    hashes: Seq<Option<u64>>,
    kept: Map<ConvertedImageCacheKey, Seq<u8>>,
    clears: Seq<bool>,
    images: Seq<Option<Drawn>>,
    button: int,
)
    requires
        clears.len() == KEY_COUNT,
        0 <= button < KEY_COUNT,
    ensures
        ({
            let (pass, action) = render::draw_next(wrote, hashes, kept, clears, images);
            clears[button] <==> action == (ActionModel::BlackOut { index: button })
                || awaits_black(pass, button)
        }),
{
    render::lemma_first_set(clears);
}

proof fn lemma_next_blackens(
    pass: PassModel,
    formats: Seq<ImageFormat>,
    event: EventModel,
    batch: Seq<Option<BatchedRenderOp>>,
    button: int,
)
    requires
        pass.hashes.len() == KEY_COUNT,
        batch.len() == KEY_COUNT,
        in_order(pass.stage, batch),
        !clears_at_once(pass.stage),
        render::event_fits(pass.stage, event),
        0 <= button < KEY_COUNT,
    ensures
        ({
            let (next, action) = render::advanced(pass, formats, event);
            &&& !clears_at_once(next.stage)
            &&& action == (ActionModel::BlackOut { index: button }) || awaits_black(next, button)
                ==> awaits_black(pass, button)
            &&& awaits_black(pass, button) && !(action is Fail) ==> action == (
            ActionModel::BlackOut { index: button }) || awaits_black(next, button)
        }),
{
    match (pass.stage, event) {
        (StageModel::Blackening { clears, index, batch: _ }, EventModel::Done) => {
            let hashes = pass.hashes.update(index, None);
            render::lemma_first_set(clears);
            lemma_draw_next_blackens(
                true,
                hashes,
                pass.kept,
                render::cleared(batch, hashes),
                render::found(batch, hashes, pass.kept, formats),
                button,
            );
        },
        (StageModel::Decoding { clears, images }, EventModel::Decoded { outcomes }) => {
            lemma_draw_next_blackens(
                pass.wrote,
                pass.hashes,
                render::kept_after(pass.kept, formats, outcomes),
                clears,
                render::images_after(images, outcomes),
                button,
            );
        },
        (StageModel::Drawing { clears, images, index, image_hash }, EventModel::Done) => {
            lemma_draw_next_blackens(
                true,
                pass.hashes.update(index, image_hash),
                pass.kept,
                clears,
                images,
                button,
            );
        },
        _ => {},
    }
}

proof fn lemma_actions_blacken(
    pass: PassModel,
    action: ActionModel,
    formats: Seq<ImageFormat>,
    batch: Seq<Option<BatchedRenderOp>>,
    events: Seq<EventModel>,
    button: int,
)
    requires
        pass.hashes.len() == KEY_COUNT,
        batch.len() == KEY_COUNT,
        in_order(pass.stage, batch),
        is_awaited(pass.stage, action),
        !clears_at_once(pass.stage),
        all_fit(pass, formats, batch, events),
        0 <= button < KEY_COUNT,
    ensures
        ({
            let trace = actions(pass, action, formats, events);
            let due = action == (ActionModel::BlackOut { index: button }) || awaits_black(
                pass,
                button,
            );
            &&& is_blacked_out(trace, button) ==> due
            &&& due && trace.last() is Finish ==> is_blacked_out(trace, button)
        }),
    decreases events.len(),
{
    let trace = actions(pass, action, formats, events);
    let black = ActionModel::BlackOut { index: button };
    if events.len() == 0 || pass.stage is Over {
        assert(trace[0] == action);
    } else {
        let (next, later) = render::advanced(pass, formats, events[0]);
        let rest = actions(next, later, formats, events.drop_first());
        lemma_next_in_order(pass, formats, events[0], batch);
        lemma_next_blackens(pass, formats, events[0], batch, button);
        lemma_actions_blacken(next, later, formats, batch, events.drop_first(), button);
        assert(trace[0] == action);
        assert(trace.last() == rest.last());
        if is_blacked_out(trace, button) {
            let k = choose|k: int| 0 <= k < trace.len() && #[trigger] trace[k] == black;
            assert(k > 0 ==> rest[k - 1] == black);
        }
        if is_blacked_out(rest, button) {
            let k = choose|k: int| 0 <= k < rest.len() && #[trigger] rest[k] == black;
            assert(trace[k + 1] == black);
        }
        if later is Fail {
            assert(rest == seq![later]);
        }
    }
}

/// Unless the deck is cleared with no pictures to follow, only buttons that are
/// to lose their picture are blacked out, none of them twice, and none is left
/// out by a pass that finishes. On a change of pages these are the buttons that
/// showed something and get no picture.
pub proof fn black_frames_are_for_lost_pictures(
    shown: Seq<Option<u64>>,
    kept: Map<ConvertedImageCacheKey, Seq<u8>>,
    formats: Seq<ImageFormat>,
    clear_all: bool,
    batch: Seq<Option<BatchedRenderOp>>,
    events: Seq<EventModel>,
)
    requires
        shown.len() == KEY_COUNT,
        batch.len() == KEY_COUNT,
        clear_all ==> batch::draws_images(batch),
        all_fit(
            render::started(shown, kept, formats, clear_all, batch).0,
            formats,
            batch,
            events,
        ),
    ensures
        ({
            let (pass, action) = render::started(shown, kept, formats, clear_all, batch);
            let trace = actions(pass, action, formats, events);
            &&& forall|button: int| #[trigger]
                is_blacked_out(trace, button) ==> loses_its_picture(
                    shown,
                    clear_all,
                    batch,
                    button,
                )
            &&& trace.last() is Finish ==> forall|button: int| #[trigger]
                loses_its_picture(shown, clear_all, batch, button) ==> is_blacked_out(trace, button)
            &&& forall|i: int, j: int|
                0 <= i < j < trace.len() && #[trigger] trace[i] is BlackOut ==> trace[i]
                    != #[trigger] trace[j]
        }),
{
    let (pass, action) = render::started(shown, kept, formats, clear_all, batch);
    let trace = actions(pass, action, formats, events);
    let ahead = Seq::new(KEY_COUNT as nat, |b: int| true);
    let left_over = render::unmentioned(batch, shown);
    lemma_draw_batch_in_order(false, shown, kept, formats, batch, ahead);
    lemma_blacken_next_in_order(false, shown, kept, formats, batch, left_over, ahead);
    lemma_actions_in_order(pass, action, formats, batch, events);
    render::lemma_first_set(left_over);
    assert forall|button: int| 0 <= button < KEY_COUNT implies {
        &&& #[trigger] is_blacked_out(trace, button) ==> loses_its_picture(
            shown,
            clear_all,
            batch,
            button,
        )
        &&& trace.last() is Finish && loses_its_picture(shown, clear_all, batch, button)
            ==> is_blacked_out(trace, button)
    } by {
        lemma_draw_next_blackens(
            false,
            shown,
            kept,
            render::cleared(batch, shown),
            render::found(batch, shown, kept, formats),
            button,
        );
        lemma_actions_blacken(pass, action, formats, batch, events, button);
        assert(left_over[button] <==> batch[button] is None && shown[button] is Some);
        assert(loses_its_picture(shown, clear_all, batch, button) <==> action == (
        ActionModel::BlackOut { index: button }) || awaits_black(pass, button));
    }
    assert forall|button: int| #[trigger] is_blacked_out(trace, button) implies 0 <= button
        < KEY_COUNT by {
        let k = choose|k: int|
            0 <= k < trace.len() && #[trigger] trace[k] == (ActionModel::BlackOut {
                index: button,
            });
        assert(written(trace[k]) == Some(button));
    }
    assert forall|i: int, j: int|
        0 <= i < j < trace.len() && #[trigger] trace[i] is BlackOut implies trace[i]
        != #[trigger] trace[j] by {
        assert(may_follow(trace[i], trace[j]));
    }
}

// ---------------------------------------------------------------------------
// In which order buttons are blacked out.

/// Two actions come in the right order as far as black frames go: first, from
/// the first button to the last, the buttons that the batch does not mention;
/// then pictures are decoded; then come the buttons that the batch clears, again
/// from the first to the last.
pub open spec fn blackens_in_order(
    earlier: ActionModel,
    later: ActionModel,
    batch: Seq<Option<BatchedRenderOp>>,
) -> bool {
    &&& earlier is BlackOut && later is BlackOut ==> {
        let first = earlier->BlackOut_index;
        let second = later->BlackOut_index;
        &&& batch[first] is Some ==> batch[second] is Some
        &&& (batch[first] is Some <==> batch[second] is Some) ==> first < second
    }
    &&& earlier is Decode && later is BlackOut ==> batch[later->BlackOut_index] is Some
    &&& earlier is BlackOut && later is Decode ==> batch[earlier->BlackOut_index] is None
}

/// The buttons that are still to be blacked out all lie behind the one that is
/// being blacked out.
spec fn blackens_upwards(stage: StageModel, batch: Seq<Option<BatchedRenderOp>>) -> bool {
    match stage {
        StageModel::Blackening { clears, index, .. } => forall|i: int|
            0 <= i < KEY_COUNT && #[trigger] clears[i] ==> index < i,
        StageModel::Decoding { clears, .. } => forall|i: int|
            0 <= i < KEY_COUNT && #[trigger] clears[i] ==> batch[i] is Some,
        StageModel::Drawing { clears, index, image_hash, .. } => {
            &&& forall|i: int|
                0 <= i < KEY_COUNT && #[trigger] clears[i] ==> batch[i] is Some && (image_hash
                    is None ==> index < i)
            &&& image_hash is None ==> batch[index] is Some
        },
        _ => true,
    }
}

/// A button may still be blacked out, or pictures decoded, after a stage.
spec fn may_blacken(
    stage: StageModel,
    batch: Seq<Option<BatchedRenderOp>>,
    action: ActionModel,
) -> bool {
    &&& action is BlackOut ==> {
        let button = action->BlackOut_index;
        &&& 0 <= button < KEY_COUNT
        &&& match stage {
            StageModel::Blackening { clears, .. } => clears[button] || batch[button] is Some,
            StageModel::Decoding { clears, .. } => clears[button],
            StageModel::Drawing { clears, .. } => clears[button],
            _ => false,
        }
    }
    &&& action is Decode ==> stage is Blackening
}

proof fn lemma_draw_next_upwards(
    wrote: bool,
    hashes: Seq<Option<u64>>,
    kept: Map<ConvertedImageCacheKey, Seq<u8>>,
    clears: Seq<bool>,
    images: Seq<Option<Drawn>>,
    batch: Seq<Option<BatchedRenderOp>>,
)
    requires
        clears.len() == KEY_COUNT,
        images.len() == KEY_COUNT,
        forall|i: int| 0 <= i < KEY_COUNT && #[trigger] clears[i] ==> batch[i] is Some,
    ensures
        ({
            let (pass, action) = render::draw_next(wrote, hashes, kept, clears, images);
            &&& blackens_upwards(pass.stage, batch)
            &&& action is BlackOut ==> 0 <= action->BlackOut_index < KEY_COUNT
                && clears[action->BlackOut_index]
            &&& !(action is Decode)
            &&& pass.stage matches StageModel::Drawing { clears: left, .. } ==> forall|i: int|
                0 <= i < KEY_COUNT && #[trigger] left[i] ==> clears[i]
            &&& pass.stage is Drawing || pass.stage is Flushing || pass.stage is Over
        }),
{
    render::lemma_first_set(clears);
    render::lemma_first_set(render::waiting(images));
}

proof fn lemma_next_upwards(
    pass: PassModel,
    formats: Seq<ImageFormat>,
    event: EventModel,
    batch: Seq<Option<BatchedRenderOp>>,
)
    requires
        pass.hashes.len() == KEY_COUNT,
        batch.len() == KEY_COUNT,
        in_order(pass.stage, batch),
        blackens_upwards(pass.stage, batch),
        !clears_at_once(pass.stage),
        render::event_fits(pass.stage, event),
        is_about(event, batch),
    ensures
        ({
            let (next, later) = render::advanced(pass, formats, event);
            &&& blackens_upwards(next.stage, batch)
            &&& !clears_at_once(next.stage)
            &&& may_blacken(pass.stage, batch, later)
            &&& forall|action: ActionModel| #[trigger]
                may_blacken(next.stage, batch, action) ==> may_blacken(pass.stage, batch, action)
        }),
{
    let (next, later) = render::advanced(pass, formats, event);
    lemma_next_in_order(pass, formats, event, batch);
    match (pass.stage, event) {
        (StageModel::Blackening { clears, index, batch: _ }, EventModel::Done) => {
            let hashes = pass.hashes.update(index, None);
            render::lemma_first_set(clears);
            lemma_draw_next_upwards(
                true,
                hashes,
                pass.kept,
                render::cleared(batch, hashes),
                render::found(batch, hashes, pass.kept, formats),
                batch,
            );
        },
        (StageModel::Decoding { clears, images }, EventModel::Decoded { outcomes }) => {
            lemma_images_after_stay_planned(clears, images, batch, outcomes);
            lemma_draw_next_upwards(
                pass.wrote,
                pass.hashes,
                render::kept_after(pass.kept, formats, outcomes),
                clears,
                render::images_after(images, outcomes),
                batch,
            );
        },
        (StageModel::Drawing { clears, images, index, image_hash }, EventModel::Done) => {
            lemma_draw_next_upwards(
                true,
                pass.hashes.update(index, image_hash),
                pass.kept,
                clears,
                images,
                batch,
            );
        },
        _ => {},
    }
}

proof fn lemma_actions_upwards(
    pass: PassModel,
    action: ActionModel,
    formats: Seq<ImageFormat>,
    batch: Seq<Option<BatchedRenderOp>>,
    events: Seq<EventModel>,
)
    requires
        pass.hashes.len() == KEY_COUNT,
        batch.len() == KEY_COUNT,
        in_order(pass.stage, batch),
        is_awaited(pass.stage, action),
        blackens_upwards(pass.stage, batch),
        !clears_at_once(pass.stage),
        all_fit(pass, formats, batch, events),
    ensures
        ({
            let trace = actions(pass, action, formats, events);
            &&& trace.len() > 0
            &&& trace[0] == action
            &&& forall|k: int|
                1 <= k < trace.len() ==> may_blacken(pass.stage, batch, #[trigger] trace[k])
            &&& forall|i: int, j: int|
                0 <= i < j < trace.len() ==> blackens_in_order(
                    #[trigger] trace[i],
                    #[trigger] trace[j],
                    batch,
                )
        }),
    decreases events.len(),
{
    let trace = actions(pass, action, formats, events);
    if events.len() == 0 || pass.stage is Over {
    } else {
        let (next, later) = render::advanced(pass, formats, events[0]);
        let rest = actions(next, later, formats, events.drop_first());
        lemma_next_in_order(pass, formats, events[0], batch);
        lemma_next_upwards(pass, formats, events[0], batch);
        lemma_actions_upwards(next, later, formats, batch, events.drop_first());
        assert forall|k: int| 1 <= k < trace.len() implies may_blacken(
            pass.stage,
            batch,
            #[trigger] trace[k],
        ) by {
            assert(trace[k] == rest[k - 1]);
            if k > 1 {
                assert(may_blacken(next.stage, batch, rest[k - 1]));
            }
        }
        assert forall|i: int, j: int| 0 <= i < j < trace.len() implies blackens_in_order(
            #[trigger] trace[i],
            #[trigger] trace[j],
            batch,
        ) by {
            assert(trace[j] == rest[j - 1]);
            if i > 0 {
                assert(trace[i] == rest[i - 1]);
                assert(blackens_in_order(rest[i - 1], rest[j - 1], batch));
            } else {
                assert(may_blacken(pass.stage, batch, trace[j]));
            }
        }
    }
}

/// Unless the deck is cleared with no pictures to follow, black frames come in
/// this order: those for buttons that the batch does not mention, then, once
/// pictures were decoded, those for buttons that it clears; either way from the
/// first button to the last.
pub proof fn black_frames_come_in_order(
    shown: Seq<Option<u64>>,
    kept: Map<ConvertedImageCacheKey, Seq<u8>>,
    formats: Seq<ImageFormat>,
    clear_all: bool,
    batch: Seq<Option<BatchedRenderOp>>,
    events: Seq<EventModel>,
)
    requires
        shown.len() == KEY_COUNT,
        batch.len() == KEY_COUNT,
        clear_all ==> batch::draws_images(batch),
        all_fit(
            render::started(shown, kept, formats, clear_all, batch).0,
            formats,
            batch,
            events,
        ),
    ensures
        ({
            let (pass, action) = render::started(shown, kept, formats, clear_all, batch);
            let trace = actions(pass, action, formats, events);
            forall|i: int, j: int|
                0 <= i < j < trace.len() ==> blackens_in_order(
                    #[trigger] trace[i],
                    #[trigger] trace[j],
                    batch,
                )
        }),
{
    let (pass, action) = render::started(shown, kept, formats, clear_all, batch);
    let ahead = Seq::new(KEY_COUNT as nat, |b: int| true);
    let left_over = render::unmentioned(batch, shown);
    lemma_draw_batch_in_order(false, shown, kept, formats, batch, ahead);
    lemma_blacken_next_in_order(false, shown, kept, formats, batch, left_over, ahead);
    render::lemma_first_set(left_over);
    lemma_draw_next_upwards(
        false,
        shown,
        kept,
        render::cleared(batch, shown),
        render::found(batch, shown, kept, formats),
        batch,
    );
    lemma_actions_upwards(pass, action, formats, batch, events);
}

} // verus!
