//! What holds of every pass over the deck.

use vstd::prelude::*;

use crate::batch;
use crate::batch::BatchedRenderOp;
use crate::cache;
use crate::cache::ConvertedImageCacheKey;
use crate::mappings::{ImageFormat, KEY_COUNT};
use crate::render;
use crate::render::{
    ActionModel, Drawn, EventModel, Outcome, PassModel, RenderAction,
    RenderEvent, RenderPass, RenderState, StageModel,
};

verus! {

// ---------------------------------------------------------------------------
// The model says what the machine says.

/// The views of actions and events keep what they hold, button by button, and
/// jobs and outcomes keep their order.
pub proof fn render_views_keep_everything(action: RenderAction, event: RenderEvent)
    ensures
        match action {
            RenderAction::ClearAll => action@ is ClearAll,
            RenderAction::BlackOut { index } => action@ == (ActionModel::BlackOut {
                index: index as int,
            }),
            RenderAction::Decode { jobs } => {
                &&& action@ is Decode
                &&& action@->jobs.len() == jobs@.len()
                &&& forall|i: int|
                    0 <= i < jobs@.len() ==> #[trigger] action@->jobs[i] == (
                        jobs@[i].index as int,
                        jobs@[i].image_hash,
                        jobs@[i].format,
                        jobs@[i].payload@,
                    )
            },
            RenderAction::Draw { index, image_data } => action@ == (ActionModel::Draw {
                index: index as int,
                data: image_data@,
            }),
            RenderAction::Flush => action@ is Flush,
            RenderAction::Finish => action@ is Finish,
            RenderAction::Fail { error } => action@ == (ActionModel::Fail { error }),
        },
        match event {
            RenderEvent::Done => event@ is Done,
            RenderEvent::Failed => event@ is Failed,
            RenderEvent::Decoded { outcomes } => {
                &&& event@ is Decoded
                &&& event@->outcomes.len() == outcomes@.len()
                &&& forall|i: int|
                    0 <= i < outcomes@.len() ==> #[trigger] event@->outcomes[i] == (
                        outcomes@[i].index as int,
                        outcomes@[i].image_hash,
                        match outcomes@[i].result {
                            Ok(data) => Ok::<Seq<u8>, bool>(data@),
                            Err(err) => Err::<Seq<u8>, bool>(!(err is Device)),
                        },
                    )
            },
        },
{
}

/// Nothing is on a deck that was cleared.
pub proof fn cleared_decks_show_nothing(button: int)
    requires
        0 <= button < 15,
    ensures
        render::all_clear().len() == 15,
        render::all_clear()[button] is None,
{
}

// ---------------------------------------------------------------------------
// What is remembered is what the deck shows.

/// What the deck shows after an action, by how it went: the hash of the
/// picture on each button.
pub open spec fn deck_after(
    deck: Seq<Option<u64>>,
    stage: StageModel,
    event: EventModel,
) -> Seq<Option<u64>> {
    match (stage, event) {
        (StageModel::Blackening { index, .. }, EventModel::Done) => deck.update(index, None),
        (StageModel::FallingBack { index, .. }, EventModel::Done) => deck.update(index, None),
        (StageModel::ClearingAll { .. }, EventModel::Done) => render::all_clear(),
        (StageModel::Drawing { index, image_hash, .. }, EventModel::Done) => deck.update(
            index,
            image_hash,
        ),
        _ => deck,
    }
}

/// What is remembered agrees with what the deck shows. While all buttons are
/// blacked out one by one, those that are through are ahead of the memory.
pub open spec fn remembers(pass: PassModel, deck: Seq<Option<u64>>) -> bool {
    &&& pass.hashes.len() == KEY_COUNT
    &&& deck.len() == KEY_COUNT
    &&& match pass.stage {
        StageModel::FallingBack { index, .. } => 0 <= index < KEY_COUNT && forall|i: int|
            0 <= i < KEY_COUNT ==> #[trigger] deck[i] == if i < index {
                None
            } else {
                pass.hashes[i]
            },
        _ => deck == pass.hashes,
    }
}

/// A pass starts with what is remembered.
pub proof fn pass_starts_remembering(
    hashes: Seq<Option<u64>>,
    kept: Map<ConvertedImageCacheKey, Seq<u8>>,
    formats: Seq<ImageFormat>,
    clear_all: bool,
    batch: Seq<Option<BatchedRenderOp>>,
)
    requires
        hashes.len() == KEY_COUNT,
    ensures
        remembers(render::started(hashes, kept, formats, clear_all, batch).0, hashes),
{
}

/// Whatever happens in a pass, what is remembered goes on agreeing with what
/// the deck shows, unless blacking all buttons out one by one breaks off.
pub proof fn pass_goes_on_remembering(
    pass: PassModel,
    formats: Seq<ImageFormat>,
    event: EventModel,
    deck: Seq<Option<u64>>,
)
    requires
        deck_sized(pass.stage),
        remembers(pass, deck),
        render::event_fits(pass.stage, event),
        !(pass.stage is FallingBack && event is Failed),
    ensures
        remembers(
            render::advanced(pass, formats, event).0,
            deck_after(deck, pass.stage, event),
        ),
{
    let next = render::advanced(pass, formats, event).0;
    let shown = deck_after(deck, pass.stage, event);
    if let StageModel::FallingBack { index, batch } = pass.stage {
        if index + 1 == KEY_COUNT {
            assert(shown =~= render::all_clear());
        } else {
            assert forall|i: int| 0 <= i < KEY_COUNT implies #[trigger] shown[i] == if i < index
                + 1 {
                None
            } else {
                pass.hashes[i]
            } by {
                assert(deck[i] == if i < index {
                    None
                } else {
                    pass.hashes[i]
                });
            }
        }
    } else if pass.stage is ClearingAll && event is Failed {
        assert(next.stage is FallingBack);
    }
}

// ---------------------------------------------------------------------------
// A pass comes to an end.

pub open spec fn count_set(flags: Seq<bool>) -> nat
    decreases flags.len(),
{
    if flags.len() == 0 {
        0
    } else {
        count_set(flags.drop_last()) + if flags.last() {
            1nat
        } else {
            0nat
        }
    }
}

/// The sizes of the parts of a pass are the deck's.
pub open spec fn deck_sized(stage: StageModel) -> bool {
    match stage {
        StageModel::Blackening { clears, index, batch } => clears.len() == KEY_COUNT && 0 <= index
            < KEY_COUNT && batch.len() == KEY_COUNT,
        StageModel::ClearingAll { batch } => batch.len() == KEY_COUNT,
        StageModel::FallingBack { index, batch } => 0 <= index < KEY_COUNT && batch.len()
            == KEY_COUNT,
        StageModel::Decoding { clears, images } => clears.len() == KEY_COUNT && images.len()
            == KEY_COUNT,
        StageModel::Drawing { clears, images, index, .. } => clears.len() == KEY_COUNT
            && images.len() == KEY_COUNT && 0 <= index < KEY_COUNT,
        _ => true,
    }
}

/// A bound on how many actions a pass has still before it.
pub open spec fn distance(stage: StageModel) -> nat {
    match stage {
        StageModel::ClearingAll { .. } => 50,
        StageModel::FallingBack { index, .. } => (49 - index) as nat,
        StageModel::Blackening { clears, .. } => 34 + count_set(clears),
        StageModel::Decoding { .. } => 33,
        StageModel::Drawing { clears, images, .. } => 2 + count_set(clears) + count_set(
            render::waiting(images),
        ),
        StageModel::Flushing => 1,
        StageModel::Over => 0,
    }
}

proof fn lemma_count_bound(flags: Seq<bool>)
    ensures
        count_set(flags) <= flags.len(),
    decreases flags.len(),
{
    if flags.len() > 0 {
        lemma_count_bound(flags.drop_last());
    }
}

proof fn lemma_count_unset(flags: Seq<bool>, i: int)
    requires
        0 <= i < flags.len(),
        flags[i],
    ensures
        count_set(flags.update(i, false)) == count_set(flags) - 1,
    decreases flags.len(),
{
    let less = flags.update(i, false);
    if i == flags.len() - 1 {
        assert(less.drop_last() =~= flags.drop_last());
    } else {
        assert(less.drop_last() =~= flags.drop_last().update(i, false));
        lemma_count_unset(flags.drop_last(), i);
    }
}

proof fn lemma_draw_next(
    wrote: bool,
    hashes: Seq<Option<u64>>,
    kept: Map<ConvertedImageCacheKey, Seq<u8>>,
    clears: Seq<bool>,
    images: Seq<Option<Drawn>>,
)
    requires
        clears.len() == KEY_COUNT,
        images.len() == KEY_COUNT,
    ensures
        ({
            let next = render::draw_next(wrote, hashes, kept, clears, images).0;
            &&& deck_sized(next.stage)
            &&& distance(next.stage) < 2 + count_set(clears) + count_set(render::waiting(images))
            &&& distance(next.stage) < 33
        }),
{
    let flags = render::waiting(images);
    render::lemma_first_set(clears);
    render::lemma_first_set(flags);
    lemma_count_bound(clears);
    lemma_count_bound(flags);
    match (render::first_set(clears), render::first_set(flags)) {
        (Some(i), _) => {
            lemma_count_unset(clears, i);
        },
        (None, Some(i)) => {
            lemma_count_unset(flags, i);
            assert(render::waiting(images.update(i, None)) =~= flags.update(i, false));
        },
        _ => {},
    }
}

proof fn lemma_draw_batch(
    wrote: bool,
    hashes: Seq<Option<u64>>,
    kept: Map<ConvertedImageCacheKey, Seq<u8>>,
    formats: Seq<ImageFormat>,
    batch: Seq<Option<BatchedRenderOp>>,
)
    ensures
        ({
            let next = render::draw_batch(wrote, hashes, kept, formats, batch).0;
            &&& deck_sized(next.stage)
            &&& distance(next.stage) <= 33
        }),
{
    lemma_draw_next(
        wrote,
        hashes,
        kept,
        render::cleared(batch, hashes),
        render::found(batch, hashes, kept, formats),
    );
}

proof fn lemma_blacken_next(
    wrote: bool,
    hashes: Seq<Option<u64>>,
    kept: Map<ConvertedImageCacheKey, Seq<u8>>,
    formats: Seq<ImageFormat>,
    batch: Seq<Option<BatchedRenderOp>>,
    clears: Seq<bool>,
)
    requires
        clears.len() == KEY_COUNT,
        batch.len() == KEY_COUNT,
    ensures
        ({
            let next = render::blacken_next(wrote, hashes, kept, formats, batch, clears).0;
            &&& deck_sized(next.stage)
            &&& distance(next.stage) < 34 + count_set(clears)
        }),
{
    render::lemma_first_set(clears);
    match render::first_set(clears) {
        Some(i) => lemma_count_unset(clears, i),
        None => lemma_draw_batch(wrote, hashes, kept, formats, batch),
    }
}

proof fn lemma_images_len(images: Seq<Option<Drawn>>, outcomes: Seq<Outcome>)
    requires
        images.len() == KEY_COUNT,
        render::on_buttons(outcomes),
    ensures
        render::images_after(images, outcomes).len() == KEY_COUNT,
    decreases outcomes.len(),
{
    if outcomes.len() > 0 {
        assert(0 <= outcomes.last().0 < KEY_COUNT) by {
            assert(outcomes.last() == outcomes[outcomes.len() - 1]);
        }
        assert forall|i: int| 0 <= i < outcomes.drop_last().len() implies 0 <= (
        #[trigger] outcomes.drop_last()[i]).0 < KEY_COUNT by {
            assert(outcomes.drop_last()[i] == outcomes[i]);
        }
        lemma_images_len(images, outcomes.drop_last());
    }
}

/// However a pass goes, fifty answers are enough to end it.
pub proof fn pass_starts_within_reach(
    hashes: Seq<Option<u64>>,
    kept: Map<ConvertedImageCacheKey, Seq<u8>>,
    formats: Seq<ImageFormat>,
    clear_all: bool,
    batch: Seq<Option<BatchedRenderOp>>,
)
    requires
        batch.len() == KEY_COUNT,
    ensures
        ({
            let pass = render::started(hashes, kept, formats, clear_all, batch).0;
            deck_sized(pass.stage) && distance(pass.stage) <= 50
        }),
{
    lemma_draw_batch(false, hashes, kept, formats, batch);
    let clears = render::unmentioned(batch, hashes);
    lemma_count_bound(clears);
    lemma_blacken_next(false, hashes, kept, formats, batch, clears);
}

/// Each answer brings a pass closer to its end.
pub proof fn pass_gets_closer(pass: PassModel, formats: Seq<ImageFormat>, event: EventModel)
    requires
        deck_sized(pass.stage),
        render::event_fits(pass.stage, event),
    ensures
        ({
            let next = render::advanced(pass, formats, event).0;
            deck_sized(next.stage) && distance(next.stage) < distance(pass.stage)
        }),
{
    match (pass.stage, event) {
        (StageModel::Blackening { clears, index, batch }, EventModel::Done) => {
            lemma_blacken_next(
                true,
                pass.hashes.update(index, None),
                pass.kept,
                formats,
                batch,
                clears,
            );
        },
        (StageModel::ClearingAll { batch }, EventModel::Done) => {
            lemma_draw_batch(true, render::all_clear(), pass.kept, formats, batch);
        },
        (StageModel::FallingBack { index, batch }, EventModel::Done) => {
            lemma_draw_batch(true, render::all_clear(), pass.kept, formats, batch);
        },
        (StageModel::Decoding { clears, images }, EventModel::Decoded { outcomes }) => {
            lemma_images_len(images, outcomes);
            lemma_draw_next(
                pass.wrote,
                pass.hashes,
                render::kept_after(pass.kept, formats, outcomes),
                clears,
                render::images_after(images, outcomes),
            );
        },
        (StageModel::Drawing { clears, images, index, image_hash }, EventModel::Done) => {
            lemma_draw_next(
                true,
                pass.hashes.update(index, image_hash),
                pass.kept,
                clears,
                images,
            );
        },
        _ => {},
    }
}

/// The parts of every pass have the deck's sizes.
pub proof fn passes_fit_the_deck(pass: RenderPass, state: RenderState)
    requires
        pass.wf(),
    ensures
        deck_sized(pass.model(state).stage),
        pass.model(state).hashes.len() == KEY_COUNT,
{
    pass.lemma_sizes(state);
}

// ---------------------------------------------------------------------------
// Where a pass leads.

/// A picture got through for a button.
pub open spec fn decoded(outcomes: Seq<Outcome>, button: int) -> bool {
    exists|i: int|
        0 <= i < outcomes.len() && (#[trigger] outcomes[i]).0 == button && outcomes[i].2 is Ok
}

/// The outcomes, in whatever order, are about pictures that the batch draws,
/// and none is fatal.
pub open spec fn answers(
    outcomes: Seq<Outcome>,
    batch: Seq<Option<BatchedRenderOp>>,
) -> bool {
    &&& render::on_buttons(outcomes)
    &&& !render::gave_up(outcomes)
    &&& forall|i: int|
        0 <= i < outcomes.len() ==> is_answer(#[trigger] outcomes[i], batch)
}

pub open spec fn is_answer(outcome: Outcome, batch: Seq<Option<BatchedRenderOp>>) -> bool {
    batch[outcome.0] matches Some(BatchedRenderOp::Image { image_hash, .. }) && image_hash
        == outcome.1
}

/// What the deck shows once the batch is drawn. A button whose picture could
/// not be decoded keeps what it showed.
pub open spec fn settled(
    shown: Seq<Option<u64>>,
    kept: Map<ConvertedImageCacheKey, Seq<u8>>,
    formats: Seq<ImageFormat>,
    batch: Seq<Option<BatchedRenderOp>>,
    outcomes: Seq<Outcome>,
) -> Seq<Option<u64>> {
    Seq::new(
        KEY_COUNT as nat,
        |i: int|
            match batch[i] {
                None => shown[i],
                Some(BatchedRenderOp::Clear) => None,
                Some(BatchedRenderOp::Image { image_hash, .. }) => if kept.dom().contains(
                    cache::cache_key(image_hash, formats[i]),
                ) || decoded(outcomes, i) {
                    Some(image_hash)
                } else {
                    shown[i]
                },
            },
    )
}

/// What the deck shows before the batch is drawn: where the whole deck is
/// cleared, the buttons that the batch draws pictures on, or clears beside
/// pictures, keep what they show until then.
pub open spec fn prepared(
    shown: Seq<Option<u64>>,
    clear_all: bool,
    batch: Seq<Option<BatchedRenderOp>>,
) -> Seq<Option<u64>> {
    if !clear_all {
        shown
    } else if batch::draws_images(batch) {
        without(shown, render::unmentioned(batch, shown))
    } else {
        render::all_clear()
    }
}

pub open spec fn without(shown: Seq<Option<u64>>, clears: Seq<bool>) -> Seq<Option<u64>> {
    Seq::new(
        KEY_COUNT as nat,
        |i: int|
            if clears[i] {
                None
            } else {
                shown[i]
            },
    )
}

/// What the deck shows once a plan is drawn.
pub open spec fn drained(
    shown: Seq<Option<u64>>,
    clears: Seq<bool>,
    images: Seq<Option<Drawn>>,
) -> Seq<Option<u64>> {
    Seq::new(
        KEY_COUNT as nat,
        |i: int|
            match images[i] {
                Some(image) => Some(image.0),
                None => if clears[i] {
                    None
                } else {
                    shown[i]
                },
            },
    )
}

/// What the deck will show if nothing goes wrong any more.
pub open spec fn goal(
    pass: PassModel,
    formats: Seq<ImageFormat>,
    outcomes: Seq<Outcome>,
) -> Seq<Option<u64>> {
    match pass.stage {
        StageModel::Blackening { clears, index, batch } => settled(
            without(pass.hashes.update(index, None), clears),
            pass.kept,
            formats,
            batch,
            outcomes,
        ),
        StageModel::ClearingAll { batch } => settled(
            render::all_clear(),
            pass.kept,
            formats,
            batch,
            outcomes,
        ),
        StageModel::FallingBack { batch, .. } => settled(
            render::all_clear(),
            pass.kept,
            formats,
            batch,
            outcomes,
        ),
        StageModel::Decoding { clears, images } => drained(
            pass.hashes,
            clears,
            render::images_after(images, outcomes),
        ),
        StageModel::Drawing { clears, images, index, image_hash } => drained(
            pass.hashes.update(index, image_hash),
            clears,
            images,
        ),
        _ => pass.hashes,
    }
}

/// The answer of a deck on which nothing goes wrong, except that it may not be
/// able to clear itself.
pub open spec fn smooth_event(
    stage: StageModel,
    outcomes: Seq<Outcome>,
    clears_itself: bool,
) -> EventModel {
    match stage {
        StageModel::Decoding { .. } => EventModel::Decoded { outcomes },
        StageModel::ClearingAll { .. } if !clears_itself => EventModel::Failed,
        _ => EventModel::Done,
    }
}

/// The end of a pass on which nothing goes wrong, or where it is after the
/// given number of answers.
pub open spec fn smooth_run(
    pass: PassModel,
    action: ActionModel,
    formats: Seq<ImageFormat>,
    outcomes: Seq<Outcome>,
    clears_itself: bool,
    steps: nat,
) -> (PassModel, ActionModel)
    decreases steps,
{
    if steps == 0 || pass.stage is Over {
        (pass, action)
    } else {
        let next = render::advanced(
            pass,
            formats,
            smooth_event(pass.stage, outcomes, clears_itself),
        );
        smooth_run(next.0, next.1, formats, outcomes, clears_itself, (steps - 1) as nat)
    }
}

/// What is known on the way: the sizes, that the outcomes are answers, and
/// that a pass is over only when it is finished.
spec fn on_the_way(pass: PassModel, action: ActionModel, outcomes: Seq<Outcome>) -> bool {
    &&& deck_sized(pass.stage)
    &&& pass.hashes.len() == KEY_COUNT
    &&& render::on_buttons(outcomes)
    &&& !render::gave_up(outcomes)
    &&& pass.stage is Over ==> action is Finish
    &&& match pass.stage {
        StageModel::Blackening { batch, .. } => answers(outcomes, batch),
        StageModel::ClearingAll { batch } => answers(outcomes, batch),
        StageModel::FallingBack { batch, .. } => answers(outcomes, batch),
        _ => true,
    }
}

proof fn lemma_goal_of_draw_next(
    wrote: bool,
    hashes: Seq<Option<u64>>,
    kept: Map<ConvertedImageCacheKey, Seq<u8>>,
    formats: Seq<ImageFormat>,
    clears: Seq<bool>,
    images: Seq<Option<Drawn>>,
    outcomes: Seq<Outcome>,
)
    requires
        hashes.len() == KEY_COUNT,
        clears.len() == KEY_COUNT,
        images.len() == KEY_COUNT,
        render::on_buttons(outcomes),
        !render::gave_up(outcomes),
    ensures
        ({
            let (pass, action) = render::draw_next(wrote, hashes, kept, clears, images);
            &&& goal(pass, formats, outcomes) == drained(hashes, clears, images)
            &&& on_the_way(pass, action, outcomes)
        }),
{
    let flags = render::waiting(images);
    let (pass, action) = render::draw_next(wrote, hashes, kept, clears, images);
    render::lemma_first_set(clears);
    render::lemma_first_set(flags);
    lemma_draw_next(wrote, hashes, kept, clears, images);
    assert forall|i: int| 0 <= i < KEY_COUNT implies #[trigger] flags[i] == images[i] is Some by {}
    let reached = goal(pass, formats, outcomes);
    let wanted = drained(hashes, clears, images);
    assert forall|i: int| 0 <= i < KEY_COUNT implies reached[i] == wanted[i] by {
        assert(flags[i] == images[i] is Some);
        assert(render::first_set(clears) is None ==> !clears[i]);
    }
    assert(reached =~= wanted);
}

spec fn has_hash(image: Option<Drawn>, hash: u64) -> bool {
    image is Some && (image->0).0 == hash
}

proof fn lemma_images_after(images: Seq<Option<Drawn>>, outcomes: Seq<Outcome>, i: int)
    requires
        images.len() == KEY_COUNT,
        0 <= i < KEY_COUNT,
        render::on_buttons(outcomes),
    ensures
        !decoded(outcomes, i) ==> render::images_after(images, outcomes)[i] == images[i],
        decoded(outcomes, i) ==> exists|j: int|
            0 <= j < outcomes.len() && (#[trigger] outcomes[j]).0 == i && has_hash(
                render::images_after(images, outcomes)[i],
                outcomes[j].1,
            ),
    decreases outcomes.len(),
{
    if outcomes.len() > 0 {
        let fewer = outcomes.drop_last();
        let last = outcomes.len() - 1;
        assert(outcomes.last() == outcomes[last]);
        assert forall|j: int| 0 <= j < fewer.len() implies 0 <= (#[trigger] fewer[j]).0
            < KEY_COUNT by {
            assert(fewer[j] == outcomes[j]);
        }
        lemma_images_len(images, fewer);
        lemma_images_after(images, fewer, i);
        if decoded(fewer, i) {
            let j = choose|j: int|
                0 <= j < fewer.len() && (#[trigger] fewer[j]).0 == i && fewer[j].2 is Ok;
            assert(outcomes[j] == fewer[j]);
            let k = choose|k: int|
                0 <= k < fewer.len() && (#[trigger] fewer[k]).0 == i && has_hash(
                    render::images_after(images, fewer)[i],
                    fewer[k].1,
                );
            assert(outcomes[k] == fewer[k]);
        } else if decoded(outcomes, i) {
            let j = choose|j: int|
                0 <= j < outcomes.len() && (#[trigger] outcomes[j]).0 == i && outcomes[j].2 is Ok;
            if j < last {
                assert(fewer[j] == outcomes[j]);
            }
        }
        if outcomes[last].0 == i && outcomes[last].2 is Ok {
            assert(decoded(outcomes, i));
        }
    }
}

/// Without jobs, every new picture is kept.
proof fn lemma_nothing_missing(
    batch: Seq<Option<BatchedRenderOp>>,
    hashes: Seq<Option<u64>>,
    kept: Map<ConvertedImageCacheKey, Seq<u8>>,
    formats: Seq<ImageFormat>,
    count: nat,
    i: int,
)
    requires
        0 <= i < count,
        render::missing_below(batch, hashes, kept, formats, count).len() == 0,
        render::is_new_image(batch, hashes, i),
    ensures
        kept.dom().contains(cache::cache_key(render::image_hash_of(batch[i]), formats[i])),
    decreases count,
{
    if i < count - 1 {
        lemma_nothing_missing(batch, hashes, kept, formats, (count - 1) as nat, i);
    }
}

proof fn lemma_goal_of_draw_batch(
    wrote: bool,
    hashes: Seq<Option<u64>>,
    kept: Map<ConvertedImageCacheKey, Seq<u8>>,
    formats: Seq<ImageFormat>,
    batch: Seq<Option<BatchedRenderOp>>,
    outcomes: Seq<Outcome>,
)
    requires
        hashes.len() == KEY_COUNT,
        batch.len() == KEY_COUNT,
        answers(outcomes, batch),
    ensures
        ({
            let (pass, action) = render::draw_batch(wrote, hashes, kept, formats, batch);
            &&& goal(pass, formats, outcomes) == settled(hashes, kept, formats, batch, outcomes)
            &&& on_the_way(pass, action, outcomes)
        }),
{
    let clears = render::cleared(batch, hashes);
    let images = render::found(batch, hashes, kept, formats);
    let jobs = render::missing_below(batch, hashes, kept, formats, KEY_COUNT as nat);
    let wanted = settled(hashes, kept, formats, batch, outcomes);
    let (pass, action) = render::draw_batch(wrote, hashes, kept, formats, batch);
    lemma_draw_batch(wrote, hashes, kept, formats, batch);
    if jobs.len() == 0 {
        lemma_goal_of_draw_next(wrote, hashes, kept, formats, clears, images, outcomes);
        let reached = drained(hashes, clears, images);
        assert forall|i: int| 0 <= i < KEY_COUNT implies reached[i] == wanted[i] by {
            if render::is_new_image(batch, hashes, i) {
                lemma_nothing_missing(batch, hashes, kept, formats, KEY_COUNT as nat, i);
            }
        }
        assert(reached =~= wanted);
    } else {
        let after = render::images_after(images, outcomes);
        let reached = drained(hashes, clears, after);
        lemma_images_len(images, outcomes);
        assert forall|i: int| 0 <= i < KEY_COUNT implies reached[i] == wanted[i] by {
            lemma_images_after(images, outcomes, i);
            if decoded(outcomes, i) {
                let j = choose|j: int|
                    0 <= j < outcomes.len() && (#[trigger] outcomes[j]).0 == i && has_hash(
                        after[i],
                        outcomes[j].1,
                    );
                assert(is_answer(outcomes[j], batch));
            }
        }
        assert(reached =~= wanted);
    }
}

proof fn lemma_goal_of_blacken_next(
    wrote: bool,
    hashes: Seq<Option<u64>>,
    kept: Map<ConvertedImageCacheKey, Seq<u8>>,
    formats: Seq<ImageFormat>,
    batch: Seq<Option<BatchedRenderOp>>,
    clears: Seq<bool>,
    outcomes: Seq<Outcome>,
)
    requires
        hashes.len() == KEY_COUNT,
        batch.len() == KEY_COUNT,
        clears.len() == KEY_COUNT,
        answers(outcomes, batch),
    ensures
        ({
            let (pass, action) = render::blacken_next(wrote, hashes, kept, formats, batch, clears);
            &&& goal(pass, formats, outcomes) == settled(
                without(hashes, clears),
                kept,
                formats,
                batch,
                outcomes,
            )
            &&& on_the_way(pass, action, outcomes)
        }),
{
    render::lemma_first_set(clears);
    lemma_blacken_next(wrote, hashes, kept, formats, batch, clears);
    match render::first_set(clears) {
        Some(i) => {
            assert(without(hashes.update(i, None), clears.update(i, false)) =~= without(
                hashes,
                clears,
            ));
        },
        None => {
            assert(without(hashes, clears) =~= hashes);
            lemma_goal_of_draw_batch(wrote, hashes, kept, formats, batch, outcomes);
        },
    }
}

/// An answer of such a deck leaves the goal where it was.
proof fn lemma_goal_is_kept(
    pass: PassModel,
    action: ActionModel,
    formats: Seq<ImageFormat>,
    outcomes: Seq<Outcome>,
    clears_itself: bool,
)
    requires
        on_the_way(pass, action, outcomes),
        !(pass.stage is Over),
    ensures
        ({
            let next = render::advanced(pass, formats, smooth_event(pass.stage, outcomes, clears_itself));
            &&& on_the_way(next.0, next.1, outcomes)
            &&& goal(next.0, formats, outcomes) == goal(pass, formats, outcomes)
        }),
{
    let next = render::advanced(pass, formats, smooth_event(pass.stage, outcomes, clears_itself));
    match pass.stage {
        StageModel::Blackening { clears, index, batch } => {
            lemma_goal_of_blacken_next(
                true,
                pass.hashes.update(index, None),
                pass.kept,
                formats,
                batch,
                clears,
                outcomes,
            );
        },
        StageModel::ClearingAll { batch } => {
            lemma_goal_of_draw_batch(
                true,
                render::all_clear(),
                pass.kept,
                formats,
                batch,
                outcomes,
            );
        },
        StageModel::FallingBack { index, batch } => {
            lemma_goal_of_draw_batch(
                true,
                render::all_clear(),
                pass.kept,
                formats,
                batch,
                outcomes,
            );
        },
        StageModel::Decoding { clears, images } => {
            lemma_images_len(images, outcomes);
            lemma_goal_of_draw_next(
                pass.wrote,
                pass.hashes,
                render::kept_after(pass.kept, formats, outcomes),
                formats,
                clears,
                render::images_after(images, outcomes),
                outcomes,
            );
        },
        StageModel::Drawing { clears, images, index, image_hash } => {
            lemma_goal_of_draw_next(
                true,
                pass.hashes.update(index, image_hash),
                pass.kept,
                formats,
                clears,
                images,
                outcomes,
            );
        },
        _ => {},
    }
}

proof fn lemma_smooth_run(
    pass: PassModel,
    action: ActionModel,
    formats: Seq<ImageFormat>,
    outcomes: Seq<Outcome>,
    clears_itself: bool,
    steps: nat,
)
    requires
        on_the_way(pass, action, outcomes),
        distance(pass.stage) <= steps,
    ensures
        ({
            let (end, last) = smooth_run(pass, action, formats, outcomes, clears_itself, steps);
            &&& end.stage is Over
            &&& last is Finish
            &&& end.hashes == goal(pass, formats, outcomes)
        }),
    decreases steps,
{
    if pass.stage is Over {
    } else {
        let event = smooth_event(pass.stage, outcomes, clears_itself);
        let next = render::advanced(pass, formats, event);
        pass_gets_closer(pass, formats, event);
        lemma_goal_is_kept(pass, action, formats, outcomes, clears_itself);
        lemma_smooth_run(next.0, next.1, formats, outcomes, clears_itself, (steps - 1) as nat);
    }
}

/// A pass on which nothing goes wrong finishes, and leaves every button as the
/// batch says: cleared buttons are clear, pictures that were kept or got
/// through are shown, and where the whole deck was cleared, the buttons that
/// the batch does not mention are clear. The order in which pictures get
/// through makes no difference, nor does it whether the deck can clear itself
/// or has to be blacked out button by button.
pub proof fn smooth_pass_settles_the_deck(
    shown: Seq<Option<u64>>,
    kept: Map<ConvertedImageCacheKey, Seq<u8>>,
    formats: Seq<ImageFormat>,
    clear_all: bool,
    batch: Seq<Option<BatchedRenderOp>>,
    outcomes: Seq<Outcome>,
    clears_itself: bool,
)
    requires
        shown.len() == KEY_COUNT,
        batch.len() == KEY_COUNT,
        answers(outcomes, batch),
    ensures
        ({
            let (pass, action) = render::started(shown, kept, formats, clear_all, batch);
            let (end, last) = smooth_run(pass, action, formats, outcomes, clears_itself, 50);
            &&& end.stage is Over
            &&& last is Finish
            &&& end.hashes == settled(
                prepared(shown, clear_all, batch),
                kept,
                formats,
                batch,
                outcomes,
            )
        }),
{
    let (pass, action) = render::started(shown, kept, formats, clear_all, batch);
    pass_starts_within_reach(shown, kept, formats, clear_all, batch);
    lemma_goal_of_draw_batch(false, shown, kept, formats, batch, outcomes);
    lemma_goal_of_blacken_next(
        false,
        shown,
        kept,
        formats,
        batch,
        render::unmentioned(batch, shown),
        outcomes,
    );
    lemma_smooth_run(pass, action, formats, outcomes, clears_itself, 50);
}

// ---------------------------------------------------------------------------
// Nothing is done twice.

/// Every button that the batch mentions shows what the batch asks for.
pub open spec fn shows(shown: Seq<Option<u64>>, batch: Seq<Option<BatchedRenderOp>>) -> bool {
    forall|i: int| 0 <= i < KEY_COUNT ==> button_shows(#[trigger] shown[i], batch[i])
}

pub open spec fn button_shows(shown: Option<u64>, op: Option<BatchedRenderOp>) -> bool {
    match op {
        None => true,
        Some(BatchedRenderOp::Clear) => shown is None,
        Some(BatchedRenderOp::Image { image_hash, .. }) => shown == Some(image_hash),
    }
}

proof fn lemma_none_missing(
    batch: Seq<Option<BatchedRenderOp>>,
    shown: Seq<Option<u64>>,
    kept: Map<ConvertedImageCacheKey, Seq<u8>>,
    formats: Seq<ImageFormat>,
    count: nat,
)
    requires
        shows(shown, batch),
        count <= KEY_COUNT,
    ensures
        render::missing_below(batch, shown, kept, formats, count).len() == 0,
    decreases count,
{
    if count > 0 {
        lemma_none_missing(batch, shown, kept, formats, (count - 1) as nat);
        assert(button_shows(shown[count - 1], batch[count - 1]));
    }
}

/// A batch that the deck shows already causes no action at all.
pub proof fn shown_batch_needs_nothing(
    shown: Seq<Option<u64>>,
    kept: Map<ConvertedImageCacheKey, Seq<u8>>,
    formats: Seq<ImageFormat>,
    batch: Seq<Option<BatchedRenderOp>>,
)
    requires
        shown.len() == KEY_COUNT,
        shows(shown, batch),
    ensures
        render::started(shown, kept, formats, false, batch).1 is Finish,
{
    let clears = render::cleared(batch, shown);
    let images = render::found(batch, shown, kept, formats);
    lemma_none_missing(batch, shown, kept, formats, KEY_COUNT as nat);
    render::lemma_first_set(clears);
    render::lemma_first_set(render::waiting(images));
    assert forall|i: int| 0 <= i < KEY_COUNT implies !clears[i] && images[i] is None by {
        assert(button_shows(shown[i], batch[i]));
    }
}

/// Once a smooth pass is through and every picture could be had, the same
/// batch causes no action at all.
pub proof fn drawing_twice_is_drawing_once(
    shown: Seq<Option<u64>>,
    kept: Map<ConvertedImageCacheKey, Seq<u8>>,
    formats: Seq<ImageFormat>,
    clear_all: bool,
    batch: Seq<Option<BatchedRenderOp>>,
    outcomes: Seq<Outcome>,
    clears_itself: bool,
)
    requires
        shown.len() == KEY_COUNT,
        batch.len() == KEY_COUNT,
        answers(outcomes, batch),
        forall|i: int|
            0 <= i < KEY_COUNT && render::is_new_image(batch, shown, i) && !kept.dom().contains(
                cache::cache_key(render::image_hash_of(#[trigger] batch[i]), formats[i]),
            ) ==> decoded(outcomes, i),
    ensures
        ({
            let (pass, action) = render::started(shown, kept, formats, clear_all, batch);
            let end = smooth_run(pass, action, formats, outcomes, clears_itself, 50).0;
            render::started(end.hashes, end.kept, formats, false, batch).1 is Finish
        }),
{
    let (pass, action) = render::started(shown, kept, formats, clear_all, batch);
    let end = smooth_run(pass, action, formats, outcomes, clears_itself, 50).0;
    smooth_pass_settles_the_deck(
        shown,
        kept,
        formats,
        clear_all,
        batch,
        outcomes,
        clears_itself,
    );
    let ready = prepared(shown, clear_all, batch);
    assert forall|i: int| 0 <= i < KEY_COUNT implies button_shows(
        #[trigger] end.hashes[i],
        batch[i],
    ) by {
        if batch[i] is Some && batch[i]->0 is Image {
            assert(batch::draws_images(batch));
            assert(ready[i] == shown[i]);
        }
    }
    shown_batch_needs_nothing(end.hashes, end.kept, formats, batch);
}

// ---------------------------------------------------------------------------
// What is drawn is shown.

/// A pass that finishes has had the device show all that it wrote: it ends in
/// a flush exactly when it wrote anything.
pub proof fn writes_are_flushed(pass: PassModel, formats: Seq<ImageFormat>, event: EventModel)
    requires
        deck_sized(pass.stage),
        render::event_fits(pass.stage, event),
        pass.stage is Flushing ==> pass.wrote,
    ensures
        ({
            let (next, action) = render::advanced(pass, formats, event);
            &&& action is Finish ==> (next.wrote <==> pass.stage is Flushing)
            &&& action is Flush ==> next.wrote
            &&& next.stage is Flushing ==> next.wrote
            &&& pass.wrote ==> next.wrote
        }),
{
}

} // verus!
