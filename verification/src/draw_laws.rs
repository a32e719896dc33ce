//! What a pass draws: every new picture that can be had, and nothing else.

use vstd::prelude::*;

use crate::batch;
use crate::batch::BatchedRenderOp;
use crate::cache;
use crate::cache::ConvertedImageCacheKey;
use crate::mappings::{ImageFormat, KEY_COUNT};
use crate::order_laws;
use crate::render;
use crate::render::{ActionModel, Drawn, EventModel, Job, Outcome, PassModel, StageModel};

verus! {

// ---------------------------------------------------------------------------
// A pass from moment to moment.

/// A pass and the action that it is at, after the given number of answers.
pub open spec fn moment(
    start: (PassModel, ActionModel),
    formats: Seq<ImageFormat>,
    events: Seq<EventModel>,
    count: nat,
) -> (PassModel, ActionModel)
    decreases count,
{
    if count == 0 {
        start
    } else {
        let before = moment(start, formats, events, (count - 1) as nat);
        render::advanced(before.0, formats, events[count - 1])
    }
}

/// The hash and the payload of the picture that a batch holds for a button.
pub open spec fn wanted(batch: Seq<Option<BatchedRenderOp>>, button: int) -> Option<
    (u64, Seq<char>),
> {
    match batch[button] {
        Some(BatchedRenderOp::Image { image_hash, payload }) => Some((image_hash, payload@)),
        _ => None,
    }
}

/// The batch holds a picture for a button that does not show it yet.
pub open spec fn is_new(
    shown: Seq<Option<u64>>,
    batch: Seq<Option<BatchedRenderOp>>,
    button: int,
) -> bool {
    &&& 0 <= button < 15
    &&& wanted(batch, button) is Some
    &&& shown[button] != Some((wanted(batch, button)->0).0)
}

/// What a button's picture is kept under.
pub open spec fn key_of(
    batch: Seq<Option<BatchedRenderOp>>,
    formats: Seq<ImageFormat>,
    button: int,
) -> ConvertedImageCacheKey {
    cache::cache_key((wanted(batch, button)->0).0, formats[button])
}

/// A new picture that was not converted for the button's format before.
pub open spec fn is_missing(
    shown: Seq<Option<u64>>,
    kept: Map<ConvertedImageCacheKey, Seq<u8>>,
    formats: Seq<ImageFormat>,
    batch: Seq<Option<BatchedRenderOp>>,
    button: int,
) -> bool {
    is_new(shown, batch, button) && !kept.dom().contains(key_of(batch, formats, button))
}

/// The event answers the action that the pass is waiting for, and brings
/// outcomes of missing pictures only.
pub open spec fn is_answer(
    stage: StageModel,
    event: EventModel,
    shown: Seq<Option<u64>>,
    kept: Map<ConvertedImageCacheKey, Seq<u8>>,
    formats: Seq<ImageFormat>,
    batch: Seq<Option<BatchedRenderOp>>,
) -> bool {
    &&& render::event_fits(stage, event)
    &&& match event {
        EventModel::Decoded { outcomes } => forall|i: int|
            0 <= i < outcomes.len() ==> {
                &&& is_missing(shown, kept, formats, batch, (#[trigger] outcomes[i]).0)
                &&& outcomes[i].1 == (wanted(batch, outcomes[i].0)->0).0
            },
        _ => true,
    }
}

/// Each event answers the action that the pass is at by then.
pub open spec fn all_answer(
    start: (PassModel, ActionModel),
    formats: Seq<ImageFormat>,
    events: Seq<EventModel>,
    shown: Seq<Option<u64>>,
    kept: Map<ConvertedImageCacheKey, Seq<u8>>,
    batch: Seq<Option<BatchedRenderOp>>,
) -> bool {
    forall|k: int|
        0 <= k < events.len() ==> is_answer(
            moment(start, formats, events, k as nat).0.stage,
            #[trigger] events[k],
            shown,
            kept,
            formats,
            batch,
        )
}

// ---------------------------------------------------------------------------
// What is known at every moment.

/// The buttons that get pictures are remembered to show what they showed.
spec fn agrees(
    hashes: Seq<Option<u64>>,
    shown: Seq<Option<u64>>,
    batch: Seq<Option<BatchedRenderOp>>,
) -> bool {
    forall|b: int|
        0 <= b < KEY_COUNT && (#[trigger] wanted(batch, b)) is Some ==> hashes[b] == shown[b]
}

/// There is one job for each missing picture, in the order of the buttons, and
/// it says all that is to be known of the picture.
pub open spec fn jobs_are_exact(
    jobs: Seq<Job>,
    shown: Seq<Option<u64>>,
    kept: Map<ConvertedImageCacheKey, Seq<u8>>,
    formats: Seq<ImageFormat>,
    batch: Seq<Option<BatchedRenderOp>>,
) -> bool {
    &&& forall|i: int|
        0 <= i < jobs.len() ==> {
            &&& is_missing(shown, kept, formats, batch, (#[trigger] jobs[i]).0)
            &&& jobs[i].1 == (wanted(batch, jobs[i].0)->0).0
            &&& jobs[i].2 == formats[jobs[i].0]
            &&& jobs[i].3 == (wanted(batch, jobs[i].0)->0).1
        }
    &&& forall|i: int, j: int|
        0 <= i < j < jobs.len() ==> (#[trigger] jobs[i]).0 < (#[trigger] jobs[j]).0
    &&& forall|b: int| #[trigger]
        is_missing(shown, kept, formats, batch, b) ==> exists|i: int|
            0 <= i < jobs.len() && (#[trigger] jobs[i]).0 == b
}

proof fn lemma_missing_below(
    hashes: Seq<Option<u64>>,
    shown: Seq<Option<u64>>,
    kept: Map<ConvertedImageCacheKey, Seq<u8>>,
    formats: Seq<ImageFormat>,
    batch: Seq<Option<BatchedRenderOp>>,
    count: nat,
)
    requires
        count <= 15,
        agrees(hashes, shown, batch),
    ensures
        ({
            let jobs = render::missing_below(batch, hashes, kept, formats, count);
            &&& forall|i: int|
                0 <= i < jobs.len() ==> {
                    &&& is_missing(shown, kept, formats, batch, (#[trigger] jobs[i]).0)
                    &&& jobs[i].0 < count
                    &&& jobs[i].1 == (wanted(batch, jobs[i].0)->0).0
                    &&& jobs[i].2 == formats[jobs[i].0]
                    &&& jobs[i].3 == (wanted(batch, jobs[i].0)->0).1
                }
            &&& forall|i: int, j: int|
                0 <= i < j < jobs.len() ==> (#[trigger] jobs[i]).0 < (#[trigger] jobs[j]).0
            &&& forall|b: int| #[trigger]
                is_missing(shown, kept, formats, batch, b) && b < count ==> exists|i: int|
                    0 <= i < jobs.len() && (#[trigger] jobs[i]).0 == b
        }),
    decreases count,
{
    if count > 0 {
        let fewer = (count - 1) as nat;
        let last = count - 1;
        let before = render::missing_below(batch, hashes, kept, formats, fewer);
        let jobs = render::missing_below(batch, hashes, kept, formats, count);
        lemma_missing_below(hashes, shown, kept, formats, batch, fewer);
        assert(wanted(batch, last) is Some ==> hashes[last] == shown[last]);
        assert forall|b: int| #[trigger]
            is_missing(shown, kept, formats, batch, b) && b < count implies exists|i: int|
            0 <= i < jobs.len() && (#[trigger] jobs[i]).0 == b by {
            if b == last {
                assert(jobs[jobs.len() - 1].0 == b);
            } else {
                let i = choose|i: int| 0 <= i < before.len() && (#[trigger] before[i]).0 == b;
                assert(jobs[i].0 == b);
            }
        }
        assert forall|i: int| 0 <= i < jobs.len() implies {
            &&& is_missing(shown, kept, formats, batch, (#[trigger] jobs[i]).0)
            &&& jobs[i].0 < count
            &&& jobs[i].1 == (wanted(batch, jobs[i].0)->0).0
            &&& jobs[i].2 == formats[jobs[i].0]
            &&& jobs[i].3 == (wanted(batch, jobs[i].0)->0).1
        } by {
            if i < before.len() {
                assert(jobs[i] == before[i]);
            }
        }
        assert forall|i: int, j: int| 0 <= i < j < jobs.len() implies (#[trigger] jobs[i]).0 < (
        #[trigger] jobs[j]).0 by {
            assert(jobs[i] == before[i]);
            if j < before.len() {
                assert(jobs[j] == before[j]);
            }
        }
    }
}

/// The picture that is still to be drawn on a button, if none is to be decoded
/// for it.
spec fn due(pass: PassModel, formats: Seq<ImageFormat>, button: int) -> Option<Drawn> {
    match pass.stage {
        StageModel::Blackening { batch, .. } => render::found(
            batch,
            pass.hashes,
            pass.kept,
            formats,
        )[button],
        StageModel::Decoding { images, .. } => images[button],
        StageModel::Drawing { images, .. } => images[button],
        _ => None,
    }
}

spec fn draws(action: ActionModel, button: int) -> bool {
    action is Draw && action->Draw_index == button
}

/// What holds of a pass at every moment.
spec fn is_sound(
    at: (PassModel, ActionModel),
    shown: Seq<Option<u64>>,
    kept: Map<ConvertedImageCacheKey, Seq<u8>>,
    formats: Seq<ImageFormat>,
    batch: Seq<Option<BatchedRenderOp>>,
) -> bool {
    let (pass, action) = at;
    &&& order_laws::in_order(pass.stage, batch)
    &&& order_laws::is_awaited(pass.stage, action)
    &&& pass.hashes.len() == KEY_COUNT
    &&& pass.stage is Blackening || pass.stage is ClearingAll || pass.stage is FallingBack
        || pass.stage is Decoding ==> pass.kept == kept
    &&& pass.stage is Blackening ==> agrees(pass.hashes, shown, batch)
    &&& action is Decode ==> jobs_are_exact(action->jobs, shown, kept, formats, batch)
    &&& forall|b: int|
        0 <= b < KEY_COUNT && (#[trigger] due(pass, formats, b)) is Some ==> {
            &&& is_new(shown, batch, b)
            &&& (due(pass, formats, b)->0).0 == (wanted(batch, b)->0).0
        }
    &&& order_laws::is_drawing(pass.stage) ==> {
        &&& is_new(shown, batch, pass.stage->Drawing_index)
        &&& pass.stage->Drawing_image_hash == Some(
            (wanted(batch, pass.stage->Drawing_index)->0).0,
        )
    }
}

proof fn lemma_draw_next(
    wrote: bool,
    hashes: Seq<Option<u64>>,
    kept: Map<ConvertedImageCacheKey, Seq<u8>>,
    formats: Seq<ImageFormat>,
    clears: Seq<bool>,
    images: Seq<Option<Drawn>>,
    button: int,
)
    requires
        clears.len() == KEY_COUNT,
        images.len() == KEY_COUNT,
        0 <= button < KEY_COUNT,
    ensures
        ({
            let (pass, action) = render::draw_next(wrote, hashes, kept, clears, images);
            &&& images[button] is Some ==> {
                ||| action == (ActionModel::Draw {
                    index: button,
                    data: (images[button]->0).1,
                })
                ||| due(pass, formats, button) == images[button]
            }
            &&& draws(action, button) ==> {
                &&& images[button] is Some
                &&& action->data == (images[button]->0).1
                &&& pass.stage is Drawing
                &&& pass.stage->Drawing_image_hash == Some((images[button]->0).0)
                &&& pass.stage->Drawing_index == button
            }
            &&& due(pass, formats, button) is Some ==> due(pass, formats, button) == images[button]
            &&& !(action is Fail)
            &&& !(action is Decode)
            &&& !(pass.stage is Blackening)
            &&& !(pass.stage is Decoding)
            &&& !(pass.stage is ClearingAll)
            &&& !(pass.stage is FallingBack)
            &&& pass.hashes == hashes
            &&& pass.kept == kept
            &&& order_laws::is_drawing(pass.stage) ==> draws(action, pass.stage->Drawing_index)
        }),
{
    let flags = render::waiting(images);
    render::lemma_first_set(clears);
    render::lemma_first_set(flags);
    assert forall|i: int| 0 <= i < KEY_COUNT implies #[trigger] flags[i] == images[i] is Some by {}
    assert(flags[button] == images[button] is Some);
}

proof fn lemma_draw_next_is_sound(
    wrote: bool,
    hashes: Seq<Option<u64>>,
    now_kept: Map<ConvertedImageCacheKey, Seq<u8>>,
    clears: Seq<bool>,
    images: Seq<Option<Drawn>>,
    shown: Seq<Option<u64>>,
    kept: Map<ConvertedImageCacheKey, Seq<u8>>,
    formats: Seq<ImageFormat>,
    batch: Seq<Option<BatchedRenderOp>>,
)
    requires
        clears.len() == KEY_COUNT,
        images.len() == KEY_COUNT,
        hashes.len() == KEY_COUNT,
        ({
            let at = render::draw_next(wrote, hashes, now_kept, clears, images);
            &&& order_laws::in_order(at.0.stage, batch)
            &&& order_laws::is_awaited(at.0.stage, at.1)
        }),
        forall|b: int|
            0 <= b < KEY_COUNT && (#[trigger] images[b]) is Some ==> {
                &&& is_new(shown, batch, b)
                &&& (images[b]->0).0 == (wanted(batch, b)->0).0
            },
    ensures
        is_sound(
            render::draw_next(wrote, hashes, now_kept, clears, images),
            shown,
            kept,
            formats,
            batch,
        ),
{
    let at = render::draw_next(wrote, hashes, now_kept, clears, images);
    lemma_draw_next(wrote, hashes, now_kept, formats, clears, images, 0);
    assert forall|b: int| 0 <= b < KEY_COUNT && (#[trigger] due(at.0, formats, b)) is Some implies {
        &&& is_new(shown, batch, b)
        &&& (due(at.0, formats, b)->0).0 == (wanted(batch, b)->0).0
    } by {
        lemma_draw_next(wrote, hashes, now_kept, formats, clears, images, b);
    }
    if order_laws::is_drawing(at.0.stage) {
        let b = at.0.stage->Drawing_index;
        lemma_draw_next(wrote, hashes, now_kept, formats, clears, images, b);
        assert(images[b] is Some);
    }
}

proof fn lemma_draw_batch_is_sound(
    wrote: bool,
    hashes: Seq<Option<u64>>,
    shown: Seq<Option<u64>>,
    kept: Map<ConvertedImageCacheKey, Seq<u8>>,
    formats: Seq<ImageFormat>,
    batch: Seq<Option<BatchedRenderOp>>,
)
    requires
        hashes.len() == KEY_COUNT,
        batch.len() == KEY_COUNT,
        agrees(hashes, shown, batch),
    ensures
        ({
            let (pass, action) = render::draw_batch(wrote, hashes, kept, formats, batch);
            let images = render::found(batch, hashes, kept, formats);
            &&& is_sound((pass, action), shown, kept, formats, batch)
            &&& !(action is Fail)
            &&& pass.hashes == hashes
            &&& forall|b: int| #[trigger]
                is_missing(shown, kept, formats, batch, b) ==> action is Decode
            &&& forall|b: int|
                0 <= b < KEY_COUNT ==> {
                    &&& (#[trigger] images[b]) is Some <==> is_new(shown, batch, b)
                        && kept.dom().contains(key_of(batch, formats, b))
                    &&& images[b] is Some ==> (images[b]->0).1 == kept[key_of(batch, formats, b)]
                    &&& images[b] is Some ==> {
                        ||| action == (ActionModel::Draw { index: b, data: (images[b]->0).1 })
                        ||| due(pass, formats, b) == images[b]
                    }
                    &&& due(pass, formats, b) is Some ==> due(pass, formats, b) == images[b]
                    &&& draws(action, b) ==> images[b] is Some && action->data == (
                    images[b]->0).1
                }
        }),
{
    let clears = render::cleared(batch, hashes);
    let images = render::found(batch, hashes, kept, formats);
    let jobs = render::missing_below(batch, hashes, kept, formats, KEY_COUNT as nat);
    let ahead = Seq::new(KEY_COUNT as nat, |b: int| true);
    let (pass, action) = render::draw_batch(wrote, hashes, kept, formats, batch);
    order_laws::lemma_draw_batch_in_order(wrote, hashes, kept, formats, batch, ahead);
    lemma_missing_below(hashes, shown, kept, formats, batch, 15);
    assert forall|b: int| 0 <= b < KEY_COUNT implies {
        &&& (#[trigger] images[b]) is Some <==> is_new(shown, batch, b) && kept.dom().contains(
            key_of(batch, formats, b),
        )
        &&& images[b] is Some ==> (images[b]->0).1 == kept[key_of(batch, formats, b)]
        &&& images[b] is Some ==> (images[b]->0).0 == (wanted(batch, b)->0).0
    } by {
        assert(wanted(batch, b) is Some ==> hashes[b] == shown[b]);
    }
    if jobs.len() == 0 {
        lemma_draw_next_is_sound(
            wrote,
            hashes,
            kept,
            clears,
            images,
            shown,
            kept,
            formats,
            batch,
        );
        assert forall|b: int| 0 <= b < KEY_COUNT implies {
            &&& (#[trigger] images[b]) is Some ==> {
                ||| action == (ActionModel::Draw { index: b, data: (images[b]->0).1 })
                ||| due(pass, formats, b) == images[b]
            }
            &&& due(pass, formats, b) is Some ==> due(pass, formats, b) == images[b]
            &&& draws(action, b) ==> images[b] is Some && action->data == (images[b]->0).1
        } by {
            lemma_draw_next(wrote, hashes, kept, formats, clears, images, b);
        }
        lemma_draw_next(wrote, hashes, kept, formats, clears, images, 0);
    }
}

/// A picture got through for a button.
pub open spec fn got_through(event: EventModel, button: int) -> bool {
    event is Decoded && exists|i: int|
        0 <= i < event->outcomes.len() && (#[trigger] event->outcomes[i]).0 == button
            && event->outcomes[i].2 is Ok
}

/// Just these bytes got through for a button.
pub open spec fn brought(event: EventModel, button: int, data: Seq<u8>) -> bool {
    event is Decoded && exists|i: int|
        0 <= i < event->outcomes.len() && (#[trigger] event->outcomes[i]).0 == button
            && event->outcomes[i].2 == Ok::<Seq<u8>, bool>(data)
}

proof fn lemma_images_after(images: Seq<Option<Drawn>>, outcomes: Seq<Outcome>, button: int)
    requires
        images.len() == KEY_COUNT,
        0 <= button < KEY_COUNT,
        render::on_buttons(outcomes),
    ensures
        ({
            let after = render::images_after(images, outcomes);
            let event = EventModel::Decoded { outcomes };
            &&& after.len() == KEY_COUNT
            &&& !got_through(event, button) ==> after[button] == images[button]
            &&& got_through(event, button) ==> after[button] is Some && brought(
                event,
                button,
                (after[button]->0).1,
            )
            &&& after[button] is Some && after[button] != images[button] ==> exists|i: int|
                0 <= i < outcomes.len() && (#[trigger] outcomes[i]).0 == button && outcomes[i].1
                    == (after[button]->0).0
        }),
    decreases outcomes.len(),
{
    if outcomes.len() > 0 {
        let fewer = outcomes.drop_last();
        let last = outcomes.len() - 1;
        assert(outcomes.last() == outcomes[last]);
        assert forall|i: int| 0 <= i < fewer.len() implies 0 <= (#[trigger] fewer[i]).0
            < KEY_COUNT by {
            assert(fewer[i] == outcomes[i]);
        }
        lemma_images_after(images, fewer, button);
        let event = EventModel::Decoded { outcomes };
        let earlier = EventModel::Decoded { outcomes: fewer };
        let before = render::images_after(images, fewer);
        let after = render::images_after(images, outcomes);
        if outcomes[last].0 == button && outcomes[last].2 is Ok {
            assert(event->outcomes[last].0 == button);
            assert(got_through(event, button));
        } else {
            assert(after[button] == before[button]);
            if got_through(earlier, button) {
                let i = choose|i: int|
                    0 <= i < fewer.len() && (#[trigger] earlier->outcomes[i]).0 == button
                        && earlier->outcomes[i].2 == Ok::<Seq<u8>, bool>((before[button]->0).1);
                assert(event->outcomes[i] == fewer[i]);
            }
            if got_through(event, button) {
                let i = choose|i: int|
                    0 <= i < outcomes.len() && (#[trigger] event->outcomes[i]).0 == button
                        && event->outcomes[i].2 is Ok;
                assert(earlier->outcomes[i] == outcomes[i]);
                assert(got_through(earlier, button));
            }
            if after[button] is Some && after[button] != images[button] {
                let i = choose|i: int|
                    0 <= i < fewer.len() && (#[trigger] fewer[i]).0 == button && fewer[i].1 == (
                    before[button]->0).0;
                assert(outcomes[i] == fewer[i]);
            }
        }
    } else {
        assert(outcomes =~= Seq::empty());
    }
}

/// One answer: a picture that is due is drawn or goes on being due, unless the
/// pass is given up; nothing else is drawn or becomes due but what gets through.
proof fn lemma_next(
    at: (PassModel, ActionModel),
    event: EventModel,
    shown: Seq<Option<u64>>,
    kept: Map<ConvertedImageCacheKey, Seq<u8>>,
    formats: Seq<ImageFormat>,
    batch: Seq<Option<BatchedRenderOp>>,
)
    requires
        batch.len() == KEY_COUNT,
        is_sound(at, shown, kept, formats, batch),
        is_answer(at.0.stage, event, shown, kept, formats, batch),
    ensures
        ({
            let (pass, action) = at;
            let (next, later) = render::advanced(pass, formats, event);
            &&& is_sound((next, later), shown, kept, formats, batch)
            &&& forall|b: int|
                0 <= b < KEY_COUNT ==> {
                    &&& (#[trigger] due(next, formats, b)) is Some ==> {
                        ||| due(next, formats, b) == due(pass, formats, b)
                        ||| brought(event, b, (due(next, formats, b)->0).1)
                    }
                    &&& draws(later, b) ==> {
                        ||| due(pass, formats, b) is Some && later->data == (due(
                            pass,
                            formats,
                            b,
                        )->0).1
                        ||| brought(event, b, later->data)
                    }
                    &&& (due(pass, formats, b) is Some || got_through(event, b)) && !(later is Fail)
                        ==> draws(later, b) || due(next, formats, b) is Some
                }
            &&& pass.stage is Blackening && !(later is Fail) && !(next.stage is Blackening)
                ==> forall|b: int| #[trigger]
                is_missing(shown, kept, formats, batch, b) ==> later is Decode
        }),
{
    let (pass, action) = at;
    let (next, later) = render::advanced(pass, formats, event);
    assert(order_laws::is_about(event, batch)) by {
        if let EventModel::Decoded { outcomes } = event {
            assert forall|i: int| 0 <= i < outcomes.len() implies order_laws::draws_on(
                batch,
                (#[trigger] outcomes[i]).0,
            ) by {
                assert(is_missing(shown, kept, formats, batch, outcomes[i].0));
            }
        }
    }
    order_laws::lemma_next_in_order(pass, formats, event, batch);
    match (pass.stage, event) {
        (StageModel::Blackening { clears, index, batch: _ }, EventModel::Done) => {
            let hashes = pass.hashes.update(index, None);
            assert(agrees(hashes, shown, batch)) by {
                assert forall|b: int|
                    0 <= b < KEY_COUNT && (#[trigger] wanted(batch, b)) is Some implies hashes[b]
                    == shown[b] by {
                    assert(pass.hashes[b] == shown[b]);
                }
            }
            lemma_draw_batch_is_sound(true, hashes, shown, kept, formats, batch);
            let before = render::found(batch, pass.hashes, kept, formats);
            let images = render::found(batch, hashes, kept, formats);
            assert forall|b: int| 0 <= b < KEY_COUNT implies #[trigger] images[b] == before[b] by {
                assert(wanted(batch, b) is Some ==> pass.hashes[b] == hashes[b]);
            }
            assert forall|b: int| 0 <= b < KEY_COUNT && (#[trigger] due(next, formats, b))
                is Some implies {
                &&& is_new(shown, batch, b)
                &&& (due(next, formats, b)->0).0 == (wanted(batch, b)->0).0
            } by {
                assert(images[b] == before[b]);
                assert(due(pass, formats, b) == before[b]);
            }
            assert forall|b: int| 0 <= b < KEY_COUNT implies {
                &&& (#[trigger] due(next, formats, b)) is Some ==> due(next, formats, b) == due(
                    pass,
                    formats,
                    b,
                )
                &&& draws(later, b) ==> due(pass, formats, b) is Some && later->data == (due(
                    pass,
                    formats,
                    b,
                )->0).1
                &&& due(pass, formats, b) is Some ==> draws(later, b) || due(next, formats, b)
                    is Some
            } by {
                assert(images[b] == before[b]);
                assert(due(pass, formats, b) == before[b]);
            }
        },
        (StageModel::ClearingAll { .. }, EventModel::Done) => {
            assert(agrees(render::all_clear(), shown, batch)) by {
                assert forall|b: int|
                    0 <= b < KEY_COUNT && (#[trigger] wanted(batch, b))
                        is Some implies render::all_clear()[b] == shown[b] by {
                    assert(order_laws::draws_on(batch, b));
                }
            }
            lemma_draw_batch_is_sound(true, render::all_clear(), shown, kept, formats, batch);
            lemma_no_picture(shown, batch);
        },
        (StageModel::FallingBack { index, .. }, EventModel::Done) => {
            assert(agrees(render::all_clear(), shown, batch)) by {
                assert forall|b: int|
                    0 <= b < KEY_COUNT && (#[trigger] wanted(batch, b))
                        is Some implies render::all_clear()[b] == shown[b] by {
                    assert(order_laws::draws_on(batch, b));
                }
            }
            lemma_draw_batch_is_sound(true, render::all_clear(), shown, kept, formats, batch);
            lemma_no_picture(shown, batch);
        },
        (StageModel::Decoding { clears, images }, EventModel::Decoded { outcomes }) => {
            let after = render::images_after(images, outcomes);
            let now_kept = render::kept_after(pass.kept, formats, outcomes);
            lemma_images_after(images, outcomes, 0);
            assert forall|b: int| 0 <= b < KEY_COUNT && (#[trigger] after[b]) is Some implies {
                &&& is_new(shown, batch, b)
                &&& (after[b]->0).0 == (wanted(batch, b)->0).0
            } by {
                lemma_images_after(images, outcomes, b);
                assert(due(pass, formats, b) == images[b]);
            }
            if !render::gave_up(outcomes) {
                lemma_draw_next_is_sound(
                    pass.wrote,
                    pass.hashes,
                    now_kept,
                    clears,
                    after,
                    shown,
                    kept,
                    formats,
                    batch,
                );
                assert forall|b: int| 0 <= b < KEY_COUNT implies {
                    &&& (#[trigger] due(next, formats, b)) is Some ==> {
                        ||| due(next, formats, b) == due(pass, formats, b)
                        ||| brought(event, b, (due(next, formats, b)->0).1)
                    }
                    &&& draws(later, b) ==> {
                        ||| due(pass, formats, b) is Some && later->data == (due(
                            pass,
                            formats,
                            b,
                        )->0).1
                        ||| brought(event, b, later->data)
                    }
                    &&& due(pass, formats, b) is Some || got_through(event, b) ==> draws(later, b)
                        || due(next, formats, b) is Some
                } by {
                    lemma_images_after(images, outcomes, b);
                    lemma_draw_next(
                        pass.wrote,
                        pass.hashes,
                        now_kept,
                        formats,
                        clears,
                        after,
                        b,
                    );
                    assert(due(pass, formats, b) == images[b]);
                }
            }
        },
        (StageModel::Drawing { clears, images, index, image_hash }, EventModel::Done) => {
            let hashes = pass.hashes.update(index, image_hash);
            assert forall|b: int| 0 <= b < KEY_COUNT && (#[trigger] images[b]) is Some implies {
                &&& is_new(shown, batch, b)
                &&& (images[b]->0).0 == (wanted(batch, b)->0).0
            } by {
                assert(due(pass, formats, b) == images[b]);
            }
            lemma_draw_next_is_sound(
                true,
                hashes,
                pass.kept,
                clears,
                images,
                shown,
                kept,
                formats,
                batch,
            );
            assert forall|b: int| 0 <= b < KEY_COUNT implies {
                &&& (#[trigger] due(next, formats, b)) is Some ==> due(next, formats, b) == due(
                    pass,
                    formats,
                    b,
                )
                &&& draws(later, b) ==> due(pass, formats, b) is Some && later->data == (due(
                    pass,
                    formats,
                    b,
                )->0).1
                &&& due(pass, formats, b) is Some ==> draws(later, b) || due(next, formats, b)
                    is Some
            } by {
                lemma_draw_next(true, hashes, pass.kept, formats, clears, images, b);
                assert(due(pass, formats, b) == images[b]);
            }
        },
        _ => {},
    }
}

proof fn lemma_no_picture(shown: Seq<Option<u64>>, batch: Seq<Option<BatchedRenderOp>>)
    requires
        batch.len() == KEY_COUNT,
        !batch::draws_images(batch),
    ensures
        forall|b: int| !#[trigger] is_new(shown, batch, b),
{
    assert forall|b: int| !#[trigger] is_new(shown, batch, b) by {
        if 0 <= b < 15 && wanted(batch, b) is Some {
            assert(batch::is_image(batch[b]));
        }
    }
}

proof fn lemma_start(
    shown: Seq<Option<u64>>,
    kept: Map<ConvertedImageCacheKey, Seq<u8>>,
    formats: Seq<ImageFormat>,
    clear_all: bool,
    batch: Seq<Option<BatchedRenderOp>>,
)
    requires
        shown.len() == KEY_COUNT,
        batch.len() == KEY_COUNT,
    ensures
        ({
            let (pass, action) = render::started(shown, kept, formats, clear_all, batch);
            &&& is_sound((pass, action), shown, kept, formats, batch)
            &&& !(action is Fail)
            &&& pass.hashes == shown
            &&& forall|b: int| #[trigger]
                is_missing(shown, kept, formats, batch, b) ==> action is Decode || pass.stage
                    is Blackening
            &&& forall|b: int|
                0 <= b < KEY_COUNT ==> {
                    &&& (#[trigger] due(pass, formats, b)) is Some ==> {
                        &&& kept.dom().contains(key_of(batch, formats, b))
                        &&& (due(pass, formats, b)->0).1 == kept[key_of(batch, formats, b)]
                    }
                    &&& draws(action, b) ==> {
                        &&& is_new(shown, batch, b)
                        &&& kept.dom().contains(key_of(batch, formats, b))
                        &&& action->data == kept[key_of(batch, formats, b)]
                    }
                    &&& is_new(shown, batch, b) && kept.dom().contains(key_of(batch, formats, b))
                        ==> draws(action, b) || due(pass, formats, b) is Some
                }
        }),
{
    let (pass, action) = render::started(shown, kept, formats, clear_all, batch);
    let ahead = Seq::new(KEY_COUNT as nat, |b: int| true);
    let left_over = render::unmentioned(batch, shown);
    let images = render::found(batch, shown, kept, formats);
    lemma_draw_batch_is_sound(false, shown, shown, kept, formats, batch);
    order_laws::lemma_blacken_next_in_order(false, shown, kept, formats, batch, left_over, ahead);
    if !batch::draws_images(batch) {
        lemma_no_picture(shown, batch);
    }
    assert forall|b: int| 0 <= b < KEY_COUNT && pass.stage is Blackening implies #[trigger] due(
        pass,
        formats,
        b,
    ) == images[b] && (images[b] is Some ==> (images[b]->0).0 == (wanted(batch, b)->0).0) by {}
    assert forall|b: int| 0 <= b < KEY_COUNT && (#[trigger] due(pass, formats, b)) is Some implies {
        &&& kept.dom().contains(key_of(batch, formats, b))
        &&& (due(pass, formats, b)->0).1 == kept[key_of(batch, formats, b)]
        &&& is_new(shown, batch, b)
    } by {
        assert(images[b] is Some);
    }
    assert forall|b: int| 0 <= b < KEY_COUNT && is_new(shown, batch, b) && kept.dom().contains(
        key_of(batch, formats, b),
    ) implies draws(action, b) || (#[trigger] due(pass, formats, b)) is Some by {
        assert(images[b] is Some);
        assert(batch::is_image(batch[b]));
    }
    assert forall|b: int| 0 <= b < KEY_COUNT implies (#[trigger] draws(action, b) ==> {
        &&& is_new(shown, batch, b)
        &&& kept.dom().contains(key_of(batch, formats, b))
        &&& action->data == kept[key_of(batch, formats, b)]
    }) by {
        assert(images[b] is Some <==> is_new(shown, batch, b) && kept.dom().contains(
            key_of(batch, formats, b),
        ));
    }
}

proof fn lemma_moment(
    shown: Seq<Option<u64>>,
    kept: Map<ConvertedImageCacheKey, Seq<u8>>,
    formats: Seq<ImageFormat>,
    clear_all: bool,
    batch: Seq<Option<BatchedRenderOp>>,
    events: Seq<EventModel>,
    count: nat,
)
    requires
        shown.len() == KEY_COUNT,
        batch.len() == KEY_COUNT,
        count <= events.len(),
        all_answer(
            render::started(shown, kept, formats, clear_all, batch),
            formats,
            events,
            shown,
            kept,
            batch,
        ),
    ensures
        is_sound(
            moment(
                render::started(shown, kept, formats, clear_all, batch),
                formats,
                events,
                count,
            ),
            shown,
            kept,
            formats,
            batch,
        ),
    decreases count,
{
    let start = render::started(shown, kept, formats, clear_all, batch);
    if count == 0 {
        lemma_start(shown, kept, formats, clear_all, batch);
    } else {
        let before = (count - 1) as nat;
        lemma_moment(shown, kept, formats, clear_all, batch, events, before);
        let at = moment(start, formats, events, before);
        assert(is_answer(at.0.stage, events[before as int], shown, kept, formats, batch));
        lemma_next(at, events[before as int], shown, kept, formats, batch);
    }
}

// ---------------------------------------------------------------------------
// Every missing picture is decoded.

/// Whenever a batch starts to be drawn, there is a job for each of its pictures
/// that is new on its button and not kept for the button's format: one for each
/// button, even where buttons share a picture, with the button's own number,
/// hash, format and payload. There are no other jobs.
pub proof fn each_missing_picture_gets_a_job(
    wrote: bool,
    hashes: Seq<Option<u64>>,
    kept: Map<ConvertedImageCacheKey, Seq<u8>>,
    formats: Seq<ImageFormat>,
    batch: Seq<Option<BatchedRenderOp>>,
)
    requires
        hashes.len() == 15,
        batch.len() == 15,
    ensures
        ({
            let action = render::draw_batch(wrote, hashes, kept, formats, batch).1;
            &&& forall|b: int| #[trigger]
                is_missing(hashes, kept, formats, batch, b) ==> {
                    &&& action is Decode
                    &&& exists|i: int|
                        0 <= i < action->jobs.len() && #[trigger] action->jobs[i] == (
                            b,
                            (wanted(batch, b)->0).0,
                            formats[b],
                            (wanted(batch, b)->0).1,
                        )
                }
            &&& action is Decode ==> jobs_are_exact(action->jobs, hashes, kept, formats, batch)
        }),
{
    lemma_draw_batch_is_sound(wrote, hashes, hashes, kept, formats, batch);
    let action = render::draw_batch(wrote, hashes, kept, formats, batch).1;
    assert forall|b: int| #[trigger] is_missing(hashes, kept, formats, batch, b) implies {
        &&& action is Decode
        &&& exists|i: int|
            0 <= i < action->jobs.len() && #[trigger] action->jobs[i] == (
                b,
                (wanted(batch, b)->0).0,
                formats[b],
                (wanted(batch, b)->0).1,
            )
    } by {
        let i = choose|i: int| 0 <= i < action->jobs.len() && (#[trigger] action->jobs[i]).0 == b;
        assert(action->jobs[i].1 == (wanted(batch, action->jobs[i].0)->0).0);
    }
}

/// In every pass, whether the deck is cleared first or not, what is decoded is
/// just what the batch draws anew and is not kept, one job for each button; and
/// a pass does not finish without having it decoded.
pub proof fn every_missing_picture_is_decoded(
    shown: Seq<Option<u64>>,
    kept: Map<ConvertedImageCacheKey, Seq<u8>>,
    formats: Seq<ImageFormat>,
    clear_all: bool,
    batch: Seq<Option<BatchedRenderOp>>,
    events: Seq<EventModel>,
    count: nat,
    button: int,
)
    requires
        shown.len() == 15,
        batch.len() == 15,
        count <= events.len(),
        all_answer(
            render::started(shown, kept, formats, clear_all, batch),
            formats,
            events,
            shown,
            kept,
            batch,
        ),
    ensures
        ({
            let start = render::started(shown, kept, formats, clear_all, batch);
            let action = moment(start, formats, events, count).1;
            &&& action is Decode ==> jobs_are_exact(action->jobs, shown, kept, formats, batch)
            &&& action is Finish && is_missing(shown, kept, formats, batch, button) ==> exists|
                k: nat,
            |
                k <= count && (#[trigger] moment(start, formats, events, k)).1 is Decode
        }),
{
    lemma_moment(shown, kept, formats, clear_all, batch, events, count);
    if is_missing(shown, kept, formats, batch, button) {
        lemma_decoding_is_reached(shown, kept, formats, clear_all, batch, events, count, button);
    }
}

proof fn lemma_decoding_is_reached(
    shown: Seq<Option<u64>>,
    kept: Map<ConvertedImageCacheKey, Seq<u8>>,
    formats: Seq<ImageFormat>,
    clear_all: bool,
    batch: Seq<Option<BatchedRenderOp>>,
    events: Seq<EventModel>,
    count: nat,
    button: int,
)
    requires
        shown.len() == KEY_COUNT,
        batch.len() == KEY_COUNT,
        count <= events.len(),
        is_missing(shown, kept, formats, batch, button),
        all_answer(
            render::started(shown, kept, formats, clear_all, batch),
            formats,
            events,
            shown,
            kept,
            batch,
        ),
    ensures
        ({
            let start = render::started(shown, kept, formats, clear_all, batch);
            let (pass, action) = moment(start, formats, events, count);
            ||| pass.stage is Blackening
            ||| action is Fail
            ||| exists|k: nat|
                k <= count && (#[trigger] moment(start, formats, events, k)).1 is Decode
        }),
    decreases count,
{
    let start = render::started(shown, kept, formats, clear_all, batch);
    if count == 0 {
        lemma_start(shown, kept, formats, clear_all, batch);
        assert(moment(start, formats, events, 0) == start);
    } else {
        let before = (count - 1) as nat;
        let at = moment(start, formats, events, before);
        lemma_decoding_is_reached(
            shown,
            kept,
            formats,
            clear_all,
            batch,
            events,
            before,
            button,
        );
        lemma_moment(shown, kept, formats, clear_all, batch, events, before);
        assert(is_answer(at.0.stage, events[before as int], shown, kept, formats, batch));
        lemma_next(at, events[before as int], shown, kept, formats, batch);
        let now = moment(start, formats, events, count);
        if now.1 is Decode {
            assert(moment(start, formats, events, count).1 is Decode);
        } else if exists|k: nat|
            k <= before && (#[trigger] moment(start, formats, events, k)).1 is Decode {
            let k = choose|k: nat|
                k <= before && (#[trigger] moment(start, formats, events, k)).1 is Decode;
            assert(k <= count && moment(start, formats, events, k).1 is Decode);
        }
    }
}

// ---------------------------------------------------------------------------
// Every new picture that can be had is drawn.

/// The bytes of a button's picture: those that are kept for it, or those that
/// got through for it by the given moment.
pub open spec fn is_source(
    kept: Map<ConvertedImageCacheKey, Seq<u8>>,
    formats: Seq<ImageFormat>,
    batch: Seq<Option<BatchedRenderOp>>,
    events: Seq<EventModel>,
    count: nat,
    button: int,
    data: Seq<u8>,
) -> bool {
    ||| kept.dom().contains(key_of(batch, formats, button)) && kept[key_of(batch, formats, button)]
        == data
    ||| exists|k: int| 0 <= k < count && brought(#[trigger] events[k], button, data)
}

/// A button's picture is kept, or got through by the given moment.
pub open spec fn can_be_had(
    kept: Map<ConvertedImageCacheKey, Seq<u8>>,
    formats: Seq<ImageFormat>,
    batch: Seq<Option<BatchedRenderOp>>,
    events: Seq<EventModel>,
    count: nat,
    button: int,
) -> bool {
    ||| kept.dom().contains(key_of(batch, formats, button))
    ||| exists|k: int| 0 <= k < count && got_through(#[trigger] events[k], button)
}

/// A picture was drawn on a button by the given moment.
pub open spec fn was_drawn(
    start: (PassModel, ActionModel),
    formats: Seq<ImageFormat>,
    events: Seq<EventModel>,
    count: nat,
    button: int,
) -> bool {
    exists|k: nat|
        k <= count && (#[trigger] moment(start, formats, events, k)).1 is Draw && moment(
            start,
            formats,
            events,
            k,
        ).1->Draw_index == button
}

proof fn lemma_pictures(
    shown: Seq<Option<u64>>,
    kept: Map<ConvertedImageCacheKey, Seq<u8>>,
    formats: Seq<ImageFormat>,
    clear_all: bool,
    batch: Seq<Option<BatchedRenderOp>>,
    events: Seq<EventModel>,
    count: nat,
    button: int,
)
    requires
        shown.len() == 15,
        batch.len() == 15,
        count <= events.len(),
        all_answer(
            render::started(shown, kept, formats, clear_all, batch),
            formats,
            events,
            shown,
            kept,
            batch,
        ),
        0 <= button < 15,
    ensures
        ({
            let start = render::started(shown, kept, formats, clear_all, batch);
            let (pass, action) = moment(start, formats, events, count);
            &&& due(pass, formats, button) is Some ==> is_source(
                kept,
                formats,
                batch,
                events,
                count,
                button,
                (due(pass, formats, button)->0).1,
            )
            &&& draws(action, button) ==> {
                &&& is_new(shown, batch, button)
                &&& is_source(kept, formats, batch, events, count, button, action->data)
            }
            &&& is_new(shown, batch, button) && can_be_had(
                kept,
                formats,
                batch,
                events,
                count,
                button,
            ) && !(action is Fail) ==> was_drawn(start, formats, events, count, button) || due(
                pass,
                formats,
                button,
            ) is Some
        }),
    decreases count,
{
    let start = render::started(shown, kept, formats, clear_all, batch);
    let (pass, action) = moment(start, formats, events, count);
    if count == 0 {
        lemma_start(shown, kept, formats, clear_all, batch);
        assert(moment(start, formats, events, 0) == start);
        assert(due(pass, formats, button) is Some ==> kept.dom().contains(
            key_of(batch, formats, button),
        ));
    } else {
        let before = (count - 1) as nat;
        let at = moment(start, formats, events, before);
        let event = events[before as int];
        lemma_pictures(shown, kept, formats, clear_all, batch, events, before, button);
        lemma_moment(shown, kept, formats, clear_all, batch, events, before);
        lemma_moment(shown, kept, formats, clear_all, batch, events, count);
        assert(is_answer(at.0.stage, event, shown, kept, formats, batch));
        lemma_next(at, event, shown, kept, formats, batch);
        assert(due(pass, formats, button) is Some ==> {
            ||| due(pass, formats, button) == due(at.0, formats, button)
            ||| brought(event, button, (due(pass, formats, button)->0).1)
        });
        assert forall|data: Seq<u8>| #[trigger]
            is_source(kept, formats, batch, events, before, button, data) implies is_source(
            kept,
            formats,
            batch,
            events,
            count,
            button,
            data,
        ) by {}
        if draws(action, button) {
            if order_laws::is_drawing(pass.stage) {
                assert(pass.stage->Drawing_index == button);
            }
        }
        if was_drawn(start, formats, events, before, button) {
            let k = choose|k: nat|
                k <= before && (#[trigger] moment(start, formats, events, k)).1 is Draw && moment(
                    start,
                    formats,
                    events,
                    k,
                ).1->Draw_index == button;
            assert(k <= count && moment(start, formats, events, k).1 is Draw);
        }
        if draws(action, button) {
            assert(moment(start, formats, events, count).1 is Draw);
        }
        if is_new(shown, batch, button) && can_be_had(kept, formats, batch, events, count, button)
            && !(action is Fail) {
            assert(!(at.1 is Fail)) by {
                assert(!(at.0.stage is Over));
            }
            if !can_be_had(kept, formats, batch, events, before, button) {
                let k = choose|k: int| 0 <= k < count && got_through(#[trigger] events[k], button);
                assert(k == before);
            }
        }
    }
}

/// A button is drawn on only if the batch holds a picture for it that it does
/// not show yet, and then with the bytes that are kept for this picture, or
/// that got through for this button. A pass that finishes has drawn on every
/// such button whose picture was kept or got through.
pub proof fn every_new_picture_is_drawn(
    shown: Seq<Option<u64>>,
    kept: Map<ConvertedImageCacheKey, Seq<u8>>,
    formats: Seq<ImageFormat>,
    clear_all: bool,
    batch: Seq<Option<BatchedRenderOp>>,
    events: Seq<EventModel>,
    count: nat,
    button: int,
)
    requires
        shown.len() == 15,
        batch.len() == 15,
        count <= events.len(),
        all_answer(
            render::started(shown, kept, formats, clear_all, batch),
            formats,
            events,
            shown,
            kept,
            batch,
        ),
        0 <= button < 15,
    ensures
        ({
            let start = render::started(shown, kept, formats, clear_all, batch);
            let action = moment(start, formats, events, count).1;
            &&& action is Draw && action->Draw_index == button ==> {
                &&& is_new(shown, batch, button)
                &&& is_source(kept, formats, batch, events, count, button, action->data)
            }
            &&& action is Finish && is_new(shown, batch, button) && can_be_had(
                kept,
                formats,
                batch,
                events,
                count,
                button,
            ) ==> was_drawn(start, formats, events, count, button)
        }),
{
    lemma_pictures(shown, kept, formats, clear_all, batch, events, count, button);
    lemma_moment(shown, kept, formats, clear_all, batch, events, count);
}

// ---------------------------------------------------------------------------
// What is remembered is what was written.

/// What the deck shows by the actions that succeeded so far: nothing on a button
/// that was blacked out or cleared with all others, and on one that was drawn
/// on the picture that the batch holds for it.
pub open spec fn written_so_far(
    start: (PassModel, ActionModel),
    formats: Seq<ImageFormat>,
    events: Seq<EventModel>,
    shown: Seq<Option<u64>>,
    batch: Seq<Option<BatchedRenderOp>>,
    count: nat,
    button: int,
) -> Option<u64>
    decreases count,
{
    if count == 0 {
        shown[button]
    } else {
        let before = written_so_far(
            start,
            formats,
            events,
            shown,
            batch,
            (count - 1) as nat,
            button,
        );
        if !(events[count - 1] is Done) {
            before
        } else {
            match moment(start, formats, events, (count - 1) as nat).1 {
                ActionModel::ClearAll => None,
                ActionModel::BlackOut { index } => if index == button {
                    None
                } else {
                    before
                },
                ActionModel::Draw { index, .. } => if index == button {
                    Some((wanted(batch, button)->0).0)
                } else {
                    before
                },
                _ => before,
            }
        }
    }
}

/// At every moment a pass remembers of each button just what was written to it,
/// by the actions that were asked for and succeeded. Left out are passes on
/// which the deck fails to clear itself: while they black all buttons out one by
/// one, the memory waits for the last.
pub proof fn memory_is_what_was_written(
    shown: Seq<Option<u64>>,
    kept: Map<ConvertedImageCacheKey, Seq<u8>>,
    formats: Seq<ImageFormat>,
    clear_all: bool,
    batch: Seq<Option<BatchedRenderOp>>,
    events: Seq<EventModel>,
    count: nat,
    button: int,
)
    requires
        shown.len() == 15,
        batch.len() == 15,
        count <= events.len(),
        all_answer(
            render::started(shown, kept, formats, clear_all, batch),
            formats,
            events,
            shown,
            kept,
            batch,
        ),
        0 <= button < 15,
        forall|k: int|
            0 <= k < count && (#[trigger] events[k]) is Failed ==> !(moment(
                render::started(shown, kept, formats, clear_all, batch),
                formats,
                events,
                k as nat,
            ).1 is ClearAll),
    ensures
        ({
            let start = render::started(shown, kept, formats, clear_all, batch);
            let pass = moment(start, formats, events, count).0;
            &&& !(pass.stage is FallingBack)
            &&& pass.hashes.len() == 15
            &&& pass.hashes[button] == written_so_far(
                start,
                formats,
                events,
                shown,
                batch,
                count,
                button,
            )
        }),
    decreases count,
{
    let start = render::started(shown, kept, formats, clear_all, batch);
    if count == 0 {
        lemma_start(shown, kept, formats, clear_all, batch);
    } else {
        let before = (count - 1) as nat;
        let at = moment(start, formats, events, before);
        memory_is_what_was_written(
            shown,
            kept,
            formats,
            clear_all,
            batch,
            events,
            before,
            button,
        );
        lemma_moment(shown, kept, formats, clear_all, batch, events, before);
        lemma_moment(shown, kept, formats, clear_all, batch, events, count);
        assert(is_answer(
            at.0.stage,
            events[before as int],
            shown,
            kept,
            formats,
            batch,
        ));
        assert(events[before as int] is Failed ==> !(moment(start, formats, events, before).1
            is ClearAll));
    }
}

// ---------------------------------------------------------------------------
// What ends a pass, and what does not.

/// An outcome that is more than a spoilt picture is among those that came back.
pub open spec fn brings_fatal_error(event: EventModel) -> bool {
    event is Decoded && exists|i: int|
        0 <= i < event->outcomes.len() && (#[trigger] event->outcomes[i]).2 == Err::<
            Seq<u8>,
            bool,
        >(false)
}

/// A pass is given up at the very next moment when a write or the flush fails,
/// or when decoding meets a fatal error; and never for anything else, pictures
/// that could not be decoded among them. What is remembered stays as it was.
pub proof fn only_failures_end_a_pass_early(
    shown: Seq<Option<u64>>,
    kept: Map<ConvertedImageCacheKey, Seq<u8>>,
    formats: Seq<ImageFormat>,
    clear_all: bool,
    batch: Seq<Option<BatchedRenderOp>>,
    events: Seq<EventModel>,
    count: nat,
)
    requires
        shown.len() == 15,
        batch.len() == 15,
        count < events.len(),
        all_answer(
            render::started(shown, kept, formats, clear_all, batch),
            formats,
            events,
            shown,
            kept,
            batch,
        ),
    ensures
        ({
            let start = render::started(shown, kept, formats, clear_all, batch);
            let (pass, action) = moment(start, formats, events, count);
            let event = events[count as int];
            let (next, later) = moment(start, formats, events, count + 1);
            &&& event is Failed && !(action is ClearAll) ==> {
                &&& later == (ActionModel::Fail { error: None })
                &&& next.hashes == pass.hashes
                &&& next.kept == pass.kept
            }
            &&& brings_fatal_error(event) ==> {
                &&& later is Fail
                &&& later->error is Some
                &&& later->error->0 is Device
                &&& next.hashes == pass.hashes
            }
            &&& later is Fail ==> {
                ||| event is Failed && !(action is ClearAll)
                ||| brings_fatal_error(event)
            }
            &&& event is Decoded <==> action is Decode
            &&& action is Flush && event is Done ==> later is Finish
            &&& !(action is Finish) && !(action is Fail)
        }),
{
    let start = render::started(shown, kept, formats, clear_all, batch);
    let at = moment(start, formats, events, count);
    let event = events[count as int];
    lemma_moment(shown, kept, formats, clear_all, batch, events, count);
    assert(is_answer(at.0.stage, event, shown, kept, formats, batch));
    assert(moment(start, formats, events, count + 1) == render::advanced(at.0, formats, event));
    if brings_fatal_error(event) {
        let i = choose|i: int|
            0 <= i < event->outcomes.len() && (#[trigger] event->outcomes[i]).2 == Err::<
                Seq<u8>,
                bool,
            >(false);
        assert(render::is_fatal(event->outcomes[i]));
        assert(render::gave_up(event->outcomes));
    }
    if event is Decoded && render::gave_up(event->outcomes) {
        let i = choose|i: int|
            0 <= i < event->outcomes.len() && render::is_fatal(#[trigger] event->outcomes[i]);
        assert(event->outcomes[i].2 == Err::<Seq<u8>, bool>(false));
    }
    lemma_next(at, event, shown, kept, formats, batch);
}

// ---------------------------------------------------------------------------
// Clearing the deck.

proof fn lemma_nothing_to_draw(
    wrote: bool,
    kept: Map<ConvertedImageCacheKey, Seq<u8>>,
    formats: Seq<ImageFormat>,
    batch: Seq<Option<BatchedRenderOp>>,
    count: nat,
)
    requires
        forall|b: int| 0 <= b < 15 ==> (#[trigger] wanted(batch, b)) is None,
        count <= 15,
    ensures
        render::missing_below(batch, render::all_clear(), kept, formats, count).len() == 0,
        ({
            let (pass, action) = render::draw_batch(
                wrote,
                render::all_clear(),
                kept,
                formats,
                batch,
            );
            &&& wrote && count == 15 ==> action is Flush && pass.stage is Flushing
            &&& pass.hashes == render::all_clear()
        }),
    decreases count,
{
    if count > 0 {
        assert(wanted(batch, count - 1) is None);
        lemma_nothing_to_draw(wrote, kept, formats, batch, (count - 1) as nat);
    }
    let clears = render::cleared(batch, render::all_clear());
    let images = render::found(batch, render::all_clear(), kept, formats);
    let flags = render::waiting(images);
    render::lemma_first_set(clears);
    render::lemma_first_set(flags);
    assert forall|b: int| 0 <= b < 15 implies !(#[trigger] clears[b]) by {}
    assert forall|b: int| 0 <= b < 15 implies !(#[trigger] flags[b]) by {
        assert(wanted(batch, b) is None);
    }
    assert(render::first_set(clears) is None);
    assert(render::first_set(flags) is None);
}

/// Where the deck is to be cleared and no pictures follow, the device is asked
/// to clear itself. If it cannot, the fifteen buttons are blacked out one by
/// one, from the first to the last. Either way a flush and nothing else
/// follows, and no button is remembered to show anything. Until then all that
/// was remembered is.
pub proof fn clearing_the_deck(
    shown: Seq<Option<u64>>,
    kept: Map<ConvertedImageCacheKey, Seq<u8>>,
    formats: Seq<ImageFormat>,
    batch: Seq<Option<BatchedRenderOp>>,
    events: Seq<EventModel>,
    count: nat,
)
    requires
        shown.len() == 15,
        batch.len() == 15,
        forall|b: int| 0 <= b < 15 ==> (#[trigger] wanted(batch, b)) is None,
        count <= events.len(),
        forall|k: int| 1 <= k < count ==> (#[trigger] events[k]) is Done,
        count > 0 ==> events[0] is Done || events[0] is Failed,
    ensures
        ({
            let start = render::started(shown, kept, formats, true, batch);
            let (pass, action) = moment(start, formats, events, count);
            let done = if count > 0 && events[0] is Failed {
                count - 15
            } else {
                count as int
            };
            &&& count == 0 ==> action is ClearAll
            &&& count > 0 && events[0] is Failed && count <= 15 ==> action == (
            ActionModel::BlackOut { index: count - 1 })
            &&& done == 1 ==> action is Flush
            &&& done == 2 ==> action is Finish
            &&& done == 1 || done == 2 ==> forall|b: int|
                0 <= b < 15 ==> (#[trigger] pass.hashes[b]) is None
            &&& done < 1 ==> pass.hashes == shown
        }),
{
    lemma_clearing(shown, kept, formats, batch, events, count);
}

proof fn lemma_clearing(
    shown: Seq<Option<u64>>,
    kept: Map<ConvertedImageCacheKey, Seq<u8>>,
    formats: Seq<ImageFormat>,
    batch: Seq<Option<BatchedRenderOp>>,
    events: Seq<EventModel>,
    count: nat,
)
    requires
        shown.len() == 15,
        batch.len() == 15,
        forall|b: int| 0 <= b < 15 ==> (#[trigger] wanted(batch, b)) is None,
        count <= events.len(),
        forall|k: int| 1 <= k < count ==> (#[trigger] events[k]) is Done,
        count > 0 ==> events[0] is Done || events[0] is Failed,
    ensures
        ({
            let start = render::started(shown, kept, formats, true, batch);
            let (pass, action) = moment(start, formats, events, count);
            let done = if count > 0 && events[0] is Failed {
                count - 15
            } else {
                count as int
            };
            &&& count == 0 ==> action is ClearAll && pass.stage == (StageModel::ClearingAll {
                batch,
            })
            &&& count > 0 && events[0] is Failed && count <= 15 ==> {
                &&& action == (ActionModel::BlackOut { index: count - 1 })
                &&& pass.stage == (StageModel::FallingBack { index: count - 1, batch })
            }
            &&& done == 1 ==> action is Flush && pass.stage is Flushing
            &&& done == 2 ==> action is Finish
            &&& done == 1 || done == 2 ==> pass.hashes == render::all_clear()
            &&& done < 1 ==> pass.hashes == shown
        }),
    decreases count,
{
    if count == 0 {
        assert(!batch::draws_images(batch)) by {
            if batch::draws_images(batch) {
                let b = choose|b: int|
                    0 <= b < batch.len() && batch::is_image(#[trigger] batch[b]);
                assert(wanted(batch, b) is None);
            }
        }
    } else {
        let before = (count - 1) as nat;
        let start = render::started(shown, kept, formats, true, batch);
        let at = moment(start, formats, events, before);
        lemma_clearing(shown, kept, formats, batch, events, before);
        lemma_nothing_to_draw(true, at.0.kept, formats, batch, 15);
        if count > 1 {
            assert(events[count - 1] is Done);
        }
    }
}

// ---------------------------------------------------------------------------
// What got through is kept.

/// The outcome of a job goes under the key of its hash and its button's format.
pub open spec fn goes_under(
    outcome: Outcome,
    formats: Seq<ImageFormat>,
    key: ConvertedImageCacheKey,
) -> bool {
    outcome.2 is Ok && cache::cache_key(outcome.1, formats[outcome.0]) == key
}

/// As long as there is room, all pictures that get through are kept, each under
/// its hash and its button's format, the latest where there are several; and
/// what was kept before stays, unless something else came under its key.
pub proof fn what_gets_through_is_kept(
    kept: Map<ConvertedImageCacheKey, Seq<u8>>,
    formats: Seq<ImageFormat>,
    outcomes: Seq<Outcome>,
    key: ConvertedImageCacheKey,
)
    requires
        kept.dom().finite(),
        kept.dom().len() + outcomes.len() <= 64,
        forall|i: int|
            0 <= i < outcomes.len() ==> (#[trigger] outcomes[i]).2 != Err::<Seq<u8>, bool>(false),
    ensures
        ({
            let after = render::kept_after(kept, formats, outcomes);
            &&& after.dom().finite()
            &&& after.dom().len() <= kept.dom().len() + outcomes.len()
            &&& forall|i: int|
                0 <= i < outcomes.len() && goes_under(#[trigger] outcomes[i], formats, key)
                    ==> after.dom().contains(key) && exists|j: int|
                    i <= j < outcomes.len() && goes_under(#[trigger] outcomes[j], formats, key)
                        && after[key] == outcomes[j].2->Ok_0
            &&& (forall|i: int|
                0 <= i < outcomes.len() ==> !goes_under(#[trigger] outcomes[i], formats, key)) ==> {
                &&& after.dom().contains(key) <==> kept.dom().contains(key)
                &&& kept.dom().contains(key) ==> after[key] == kept[key]
            }
        }),
    decreases outcomes.len(),
{
    if outcomes.len() > 0 {
        let fewer = outcomes.drop_last();
        let last = outcomes.len() - 1;
        let before = render::kept_after(kept, formats, fewer);
        let after = render::kept_after(kept, formats, outcomes);
        assert(outcomes.last() == outcomes[last]);
        assert forall|i: int| 0 <= i < fewer.len() implies (#[trigger] fewer[i]).2 != Err::<
            Seq<u8>,
            bool,
        >(false) by {
            assert(fewer[i] == outcomes[i]);
        }
        what_gets_through_is_kept(kept, formats, fewer, key);
        assert(!render::gave_up(fewer)) by {
            if render::gave_up(fewer) {
                let i = choose|i: int| 0 <= i < fewer.len() && render::is_fatal(#[trigger] fewer[i]);
                assert(fewer[i].2 != Err::<Seq<u8>, bool>(false));
            }
        }
        if (forall|i: int| 0 <= i < outcomes.len() ==> !goes_under(
            #[trigger] outcomes[i],
            formats,
            key,
        )) {
            assert forall|i: int| 0 <= i < fewer.len() implies !goes_under(
                #[trigger] fewer[i],
                formats,
                key,
            ) by {
                assert(fewer[i] == outcomes[i]);
            }
            assert(!goes_under(outcomes[last], formats, key));
        }
        assert forall|i: int|
            0 <= i < outcomes.len() && goes_under(
                #[trigger] outcomes[i],
                formats,
                key,
            ) implies after.dom().contains(key) && exists|j: int|
            i <= j < outcomes.len() && goes_under(#[trigger] outcomes[j], formats, key)
                && after[key] == outcomes[j].2->Ok_0 by {
            if goes_under(outcomes[last], formats, key) {
                assert(after[key] == outcomes[last].2->Ok_0);
            } else {
                assert(fewer[i] == outcomes[i]);
                let j = choose|j: int|
                    i <= j < fewer.len() && goes_under(#[trigger] fewer[j], formats, key)
                        && before[key] == fewer[j].2->Ok_0;
                assert(outcomes[j] == fewer[j]);
            }
        }
    }
}

/// Nothing but outcomes changes what is kept: a pass starts with what is kept,
/// and goes on with it after every answer that is not about decoding.
pub proof fn only_outcomes_change_what_is_kept(
    shown: Seq<Option<u64>>,
    kept: Map<ConvertedImageCacheKey, Seq<u8>>,
    formats: Seq<ImageFormat>,
    clear_all: bool,
    batch: Seq<Option<BatchedRenderOp>>,
    pass: PassModel,
    event: EventModel,
)
    requires
        render::event_fits(pass.stage, event),
    ensures
        render::started(shown, kept, formats, clear_all, batch).0.kept == kept,
        render::started(shown, kept, formats, clear_all, batch).0.hashes == shown,
        !(event is Decoded) ==> render::advanced(pass, formats, event).0.kept == pass.kept,
        event matches EventModel::Decoded { outcomes } ==> render::advanced(
            pass,
            formats,
            event,
        ).0.kept == render::kept_after(pass.kept, formats, outcomes) && render::advanced(
            pass,
            formats,
            event,
        ).0.hashes == pass.hashes,
{
}

/// What comes after a fatal error is not kept any more, and what came before it
/// is.
pub proof fn nothing_is_kept_after_a_fatal_error(
    kept: Map<ConvertedImageCacheKey, Seq<u8>>,
    formats: Seq<ImageFormat>,
    before: Seq<Outcome>,
    fatal: Outcome,
    rest: Seq<Outcome>,
)
    requires
        fatal.2 == Err::<Seq<u8>, bool>(false),
    ensures
        render::kept_after(kept, formats, before.push(fatal) + rest) == render::kept_after(
            kept,
            formats,
            before,
        ),
    decreases rest.len(),
{
    let all = before.push(fatal) + rest;
    if rest.len() == 0 {
        assert(all =~= before.push(fatal));
        assert(all.drop_last() =~= before);
        assert(all.last() == fatal);
    } else {
        let fewer = rest.drop_last();
        nothing_is_kept_after_a_fatal_error(kept, formats, before, fatal, fewer);
        assert(all.drop_last() =~= before.push(fatal) + fewer);
        assert(render::gave_up(all.drop_last())) by {
            assert(render::is_fatal(all.drop_last()[before.len() as int]));
        }
    }
}

} // verus!
