//! Render commands, and the batches that they are gathered in.

use std::collections::hash_map::DefaultHasher;
use std::hash::{Hash, Hasher};
use vstd::prelude::*;
use vstd::std_specs::hash::DefaultHasherAdditionalSpecFns;

use crate::error::DeviceError;
use crate::mappings::KEY_COUNT;

verus! {

/// How long, in milliseconds, to wait for what follows a command to clear the
/// whole deck.
pub const CLEAR_ALL_BATCH_WINDOW: u64 = 8;

/// How long, in milliseconds, to wait for what follows a button's picture.
pub const IMAGE_BATCH_WINDOW: u64 = 1;

/// What is to be drawn. The payload is the picture as the host sent it, the
/// hash stands for it.
#[derive(Clone, Debug, PartialEq, Eq)]
pub enum RenderCommand {
    SetImage { position: u8, image_hash: u64, payload: String },
    ClearButton { position: u8 },
    ClearAll,
}

/// What a batch holds for a button.
#[derive(Clone, Debug, PartialEq, Eq)]
pub enum BatchedRenderOp {
    Clear,
    Image { image_hash: u64, payload: String },
}

/// What is to be drawn on each button, if anything.
pub type RenderBatch = [Option<BatchedRenderOp>; KEY_COUNT];

/// What hashing a string feeds to a hasher.
pub uninterp spec fn str_hash_input(text: Seq<char>) -> Seq<Seq<u8>>;

/// Calls `std::hash::Hash::hash` of `str`. Trusted: what is fed to the hasher
/// depends on the string alone, as `str_hash_input` names it.
#[verifier::external_body]
fn hash_str(text: &str, hasher: &mut DefaultHasher)
    ensures
        final(hasher)@ == old(hasher)@ + str_hash_input(text@),
{
    text.hash(hasher)
}

/// The hash that stands for a payload.
pub open spec fn payload_hash(payload: Seq<char>) -> u64 {
    DefaultHasher::spec_finish(str_hash_input(payload))
}

/// Hashes a payload.
pub fn hash_image_payload(image: &str) -> (hash: u64)
    ensures
        hash == payload_hash(image@),
        hash == DefaultHasher::spec_finish(str_hash_input(image@)),
{
    let mut hasher = DefaultHasher::new();
    hash_str(image, &mut hasher);
    assert(hasher@ =~= str_hash_input(image@));
    hasher.finish()
}

/// Checks that a position is a button's.
pub fn validate_button_position(position: u8) -> (r: Result<usize, DeviceError>)
    ensures
        position < KEY_COUNT ==> r == Ok::<usize, DeviceError>(position as usize),
        position >= KEY_COUNT ==> r == Err::<usize, DeviceError>(DeviceError::BadData),
{
    let index: usize = position as usize;
    if index < KEY_COUNT {
        Ok(index)
    } else {
        Err(DeviceError::BadData)
    }
}

/// Whether a picture has to be drawn on a button, by the hash of what is on it.
pub fn should_apply_image(last_image_hash: Option<u64>, image_hash: u64) -> (apply: bool)
    ensures
        apply == (last_image_hash != Some(image_hash)),
{
    match last_image_hash {
        Some(last) => last != image_hash,
        None => true,
    }
}

/// Whether a button has to be cleared, by the hash of what is on it.
pub fn should_apply_clear(last_image_hash: Option<u64>) -> (apply: bool)
    ensures
        apply == (last_image_hash is Some),
{
    last_image_hash.is_some()
}

/// The batch that draws nothing.
pub open spec fn nothing_to_draw() -> Seq<Option<BatchedRenderOp>> {
    Seq::new(KEY_COUNT as nat, |i: int| None)
}

/// The batch that draws nothing.
pub fn empty_render_batch() -> (batch: RenderBatch)
    ensures
        batch@ == nothing_to_draw(),
        forall|i: int| 0 <= i < 15 ==> #[trigger] batch@[i] is None,
{
    let batch: RenderBatch = [
        None,
        None,
        None,
        None,
        None,
        None,
        None,
        None,
        None,
        None,
        None,
        None,
        None,
        None,
        None,
    ];
    assert(batch@ =~= nothing_to_draw());
    batch
}

/// How long, in milliseconds, to wait for more commands before drawing: a
/// change of page comes as a burst of them. A single button is cleared at once.
pub fn follow_up_batch_window(command: &RenderCommand) -> (window: Option<u64>)
    ensures
        window == match command {
            RenderCommand::ClearAll => Some(CLEAR_ALL_BATCH_WINDOW),
            RenderCommand::SetImage { .. } => Some(IMAGE_BATCH_WINDOW),
            RenderCommand::ClearButton { .. } => None,
        },
        command is ClearAll ==> window == Some(8u64),
        command is SetImage ==> window == Some(1u64),
        command is ClearButton ==> window is None,
{
    match command {
        RenderCommand::ClearAll => Some(CLEAR_ALL_BATCH_WINDOW),
        RenderCommand::SetImage { .. } => Some(IMAGE_BATCH_WINDOW),
        RenderCommand::ClearButton { .. } => None,
    }
}

pub open spec fn is_image(op: Option<BatchedRenderOp>) -> bool {
    op matches Some(BatchedRenderOp::Image { .. })
}

/// Whether a batch draws any picture.
pub open spec fn draws_images(batch: Seq<Option<BatchedRenderOp>>) -> bool {
    exists|i: int| 0 <= i < batch.len() && is_image(#[trigger] batch[i])
}

/// Whether a batch draws any picture.
pub fn batch_contains_image_updates(batch: &RenderBatch) -> (found: bool)
    ensures
        found == draws_images(batch@),
        found <==> exists|i: int|
            0 <= i < 15 && (#[trigger] batch@[i]) is Some && batch@[i]->0 is Image,
{
    let mut i: usize = 0;
    while i < KEY_COUNT
        invariant
            i <= KEY_COUNT,
            forall|j: int| 0 <= j < i ==> !is_image(#[trigger] batch@[j]),
        decreases KEY_COUNT - i,
    {
        if let Some(BatchedRenderOp::Image { .. }) = &batch[i] {
            assert(is_image(batch@[i as int]));
            return true;
        }
        assert(!is_image(batch@[i as int]));
        i += 1;
    }
    false
}

/// A command names a button of the deck, if it names any.
pub open spec fn valid_command(command: RenderCommand) -> bool {
    match command {
        RenderCommand::SetImage { position, .. } => position < KEY_COUNT,
        RenderCommand::ClearButton { position } => position < KEY_COUNT,
        RenderCommand::ClearAll => true,
    }
}

/// A batch, and whether the whole deck is cleared first, after one more
/// command. A command that names no button of the deck leaves both as they
/// are.
pub open spec fn batch_after(
    batch: Seq<Option<BatchedRenderOp>>,
    clear_all: bool,
    command: RenderCommand,
) -> (Seq<Option<BatchedRenderOp>>, bool) {
    if !valid_command(command) {
        (batch, clear_all)
    } else {
        match command {
            RenderCommand::SetImage { position, image_hash, payload } => (
                batch.update(
                    position as int,
                    Some(BatchedRenderOp::Image { image_hash, payload }),
                ),
                clear_all,
            ),
            RenderCommand::ClearButton { position } => (
                batch.update(position as int, Some(BatchedRenderOp::Clear)),
                clear_all,
            ),
            RenderCommand::ClearAll => (nothing_to_draw(), true),
        }
    }
}

/// Adds a command to a batch. Only the latest command for a button counts, and
/// clearing the whole deck makes what came before it pointless.
pub fn apply_render_command_to_batch(
    batch: &mut RenderBatch,
    clear_all: &mut bool,
    command: RenderCommand,
) -> (r: Result<(), DeviceError>)
    ensures
        (final(batch)@, *final(clear_all)) == batch_after(old(batch)@, *old(clear_all), command),
        r == if valid_command(command) {
            Ok::<(), DeviceError>(())
        } else {
            Err::<(), DeviceError>(DeviceError::BadData)
        },
        command matches RenderCommand::SetImage { position, image_hash, payload } ==> {
            &&& position < 15 ==> {
                &&& r is Ok
                &&& final(batch)@[position as int] == Some(
                    BatchedRenderOp::Image { image_hash, payload },
                )
                &&& forall|i: int|
                    0 <= i < 15 && i != position ==> #[trigger] final(batch)@[i] == old(batch)@[i]
            }
            &&& position >= 15 ==> {
                &&& r == Err::<(), DeviceError>(DeviceError::BadData)
                &&& final(batch)@ == old(batch)@
            }
            &&& *final(clear_all) == *old(clear_all)
        },
        command matches RenderCommand::ClearButton { position } ==> {
            &&& position < 15 ==> {
                &&& r is Ok
                &&& final(batch)@[position as int] == Some(BatchedRenderOp::Clear)
                &&& forall|i: int|
                    0 <= i < 15 && i != position ==> #[trigger] final(batch)@[i] == old(batch)@[i]
            }
            &&& position >= 15 ==> {
                &&& r == Err::<(), DeviceError>(DeviceError::BadData)
                &&& final(batch)@ == old(batch)@
            }
            &&& *final(clear_all) == *old(clear_all)
        },
        command is ClearAll ==> {
            &&& r is Ok
            &&& *final(clear_all)
            &&& forall|i: int| 0 <= i < 15 ==> #[trigger] final(batch)@[i] is None
        },
{
    match command {
        RenderCommand::SetImage { position, image_hash, payload } => {
            match validate_button_position(position) {
                Ok(index) => {
                    batch[index] = Some(BatchedRenderOp::Image { image_hash, payload });
                },
                Err(err) => return Err(err),
            }
        },
        RenderCommand::ClearButton { position } => {
            match validate_button_position(position) {
                Ok(index) => {
                    batch[index] = Some(BatchedRenderOp::Clear);
                },
                Err(err) => return Err(err),
            }
        },
        RenderCommand::ClearAll => {
            *clear_all = true;
            *batch = empty_render_batch();
        },
    }
    Ok(())
}

/// What is asked for by an event of the host: a picture with a position draws
/// it there, a position alone clears the button, nothing at all clears the
/// deck, and a picture for no position asks for nothing.
pub open spec fn requested(position: Option<u8>, image: Option<String>) -> Option<RenderCommand> {
    match (position, image) {
        (Some(position), Some(payload)) => Some(
            RenderCommand::SetImage { position, image_hash: payload_hash(payload@), payload },
        ),
        (Some(position), None) => Some(RenderCommand::ClearButton { position }),
        (None, None) => Some(RenderCommand::ClearAll),
        (None, Some(_)) => None,
    }
}

/// Turns an event of the host into the command to enqueue, if there is any. An
/// event for a button that the deck does not have is an error.
pub fn handle_set_image(position: Option<u8>, image: Option<String>) -> (r: Result<
    Option<RenderCommand>,
    DeviceError,
>)
    ensures
        position matches Some(p) && p >= KEY_COUNT ==> r == Err::<
            Option<RenderCommand>,
            DeviceError,
        >(DeviceError::BadData),
        !(position matches Some(p) && p >= KEY_COUNT) ==> r == Ok::<
            Option<RenderCommand>,
            DeviceError,
        >(requested(position, image)),
        r matches Ok(Some(command)) ==> valid_command(command),
        position is Some && position->0 < 15 && image is Some ==> {
            &&& r is Ok
            &&& r->Ok_0 is Some
            &&& r->Ok_0->0 is SetImage
            &&& r->Ok_0->0->SetImage_position == position->0
            &&& r->Ok_0->0->payload == image->0
            &&& r->Ok_0->0->image_hash == DefaultHasher::spec_finish(str_hash_input(image->0@))
        },
        position is Some && position->0 < 15 && image is None ==> {
            &&& r is Ok
            &&& r->Ok_0 is Some
            &&& r->Ok_0->0 is ClearButton
            &&& r->Ok_0->0->ClearButton_position == position->0
        },
        position is Some && position->0 >= 15 ==> r is Err && r->Err_0 is BadData,
        position is None && image is None ==> {
            &&& r is Ok
            &&& r->Ok_0 is Some
            &&& r->Ok_0->0 is ClearAll
        },
        position is None && image is Some ==> r is Ok && r->Ok_0 is None,
{
    match (position, image) {
        (Some(position), Some(image)) => {
            match validate_button_position(position) {
                Ok(_) => {
                    let image_hash: u64 = hash_image_payload(image.as_str());
                    Ok(Some(RenderCommand::SetImage { position, image_hash, payload: image }))
                },
                Err(err) => Err(err),
            }
        },
        (Some(position), None) => {
            match validate_button_position(position) {
                Ok(_) => Ok(Some(RenderCommand::ClearButton { position })),
                Err(err) => Err(err),
            }
        },
        (None, None) => Ok(Some(RenderCommand::ClearAll)),
        (None, Some(_)) => Ok(None),
    }
}

/// What becomes of an event that asks for a picture.
#[derive(Debug)]
pub enum ImageRequest {
    /// It is about a knob, which shows none.
    Knob,
    /// There is no such deck.
    UnknownDevice,
    /// A picture for no button asks for nothing.
    Nothing,
    /// The command goes to the deck's renderer.
    Enqueue { command: RenderCommand },
    /// The event makes no sense.
    Refused { error: DeviceError },
}

/// The event is about a knob.
pub open spec fn is_knob(controller: Option<String>) -> bool {
    match controller {
        Some(name) => name@ == "Encoder"@,
        None => false,
    }
}

/// Judges an event of the host that asks for a picture.
pub fn set_image(
    controller: &Option<String>,
    device_known: bool,
    position: Option<u8>,
    image: Option<String>,
) -> (r: ImageRequest)
    ensures
        r == if is_knob(*controller) {
            ImageRequest::Knob
        } else if !device_known {
            ImageRequest::UnknownDevice
        } else if position is Some && position->0 >= KEY_COUNT {
            ImageRequest::Refused { error: DeviceError::BadData }
        } else {
            match requested(position, image) {
                Some(command) => ImageRequest::Enqueue { command },
                None => ImageRequest::Nothing,
            }
        },
        r is Knob <==> controller is Some && controller->0@ == "Encoder"@,
        r is UnknownDevice <==> !(r is Knob) && !device_known,
        r is Refused <==> {
            &&& !(r is Knob)
            &&& device_known
            &&& position is Some
            &&& position->0 >= 15
        },
        r matches ImageRequest::Refused { error } ==> error is BadData,
        r is Nothing <==> !(r is Knob) && device_known && position is None && image is Some,
        r matches ImageRequest::Enqueue { command } ==> match command {
            RenderCommand::SetImage { position: at, image_hash, payload } => {
                &&& position == Some(at)
                &&& image == Some(payload)
                &&& image_hash == DefaultHasher::spec_finish(str_hash_input(payload@))
            },
            RenderCommand::ClearButton { position: at } => position == Some(at) && image is None,
            RenderCommand::ClearAll => position is None && image is None,
        },
{
    let knob = match controller {
        Some(name) => *name == "Encoder".to_owned(),
        None => false,
    };
    if knob {
        ImageRequest::Knob
    } else if !device_known {
        ImageRequest::UnknownDevice
    } else {
        match handle_set_image(position, image) {
            Ok(Some(command)) => ImageRequest::Enqueue { command },
            Ok(None) => ImageRequest::Nothing,
            Err(error) => ImageRequest::Refused { error },
        }
    }
}

/// A picture goes to the very position that the host names, with the picture
/// and its hash as they are; a position without a picture is cleared, and the
/// whole deck where there is neither. Nothing is made of a picture for no
/// position.
pub proof fn requests_name_their_button(position: u8, image: String)
    ensures
        ({
            let drawn = requested(Some(position), Some(image));
            &&& drawn is Some
            &&& drawn->0 is SetImage
            &&& drawn->0->SetImage_position == position
            &&& drawn->0->payload == image
            &&& drawn->0->image_hash == DefaultHasher::spec_finish(str_hash_input(image@))
        }),
        ({
            let cleared = requested(Some(position), None);
            &&& cleared is Some
            &&& cleared->0 is ClearButton
            &&& cleared->0->ClearButton_position == position
        }),
        requested(None, None) == Some(RenderCommand::ClearAll),
        requested(None, Some(image)) is None,
{
}

/// A command changes what the batch holds for its own button and nothing else:
/// for a picture that picture, for a clear button a clear. Clearing the whole
/// deck leaves nothing in the batch, and it alone has the deck cleared. A
/// command for no button of the deck changes nothing.
pub proof fn commands_change_their_own_button(
    batch: Seq<Option<BatchedRenderOp>>,
    clear_all: bool,
    command: RenderCommand,
    button: int,
)
    requires
        batch.len() == 15,
        0 <= button < 15,
    ensures
        ({
            let (after, cleared) = batch_after(batch, clear_all, command);
            &&& after.len() == 15
            &&& match command {
                RenderCommand::SetImage { position, image_hash, payload } => {
                    &&& cleared == clear_all
                    &&& position == button ==> {
                        &&& after[button] is Some
                        &&& after[button]->0 is Image
                        &&& after[button]->0->image_hash == image_hash
                        &&& after[button]->0->payload == payload
                    }
                    &&& position != button ==> after[button] == batch[button]
                },
                RenderCommand::ClearButton { position } => {
                    &&& cleared == clear_all
                    &&& position == button ==> after[button] is Some && after[button]->0 is Clear
                    &&& position != button ==> after[button] == batch[button]
                },
                RenderCommand::ClearAll => cleared && after[button] is None,
            }
        }),
        valid_command(command) <==> match command {
            RenderCommand::SetImage { position, .. } => position < 15,
            RenderCommand::ClearButton { position } => position < 15,
            RenderCommand::ClearAll => true,
        },
{
}

/// A batch after a list of commands, from an empty one.
pub open spec fn gathered(commands: Seq<RenderCommand>) -> (Seq<Option<BatchedRenderOp>>, bool)
    decreases commands.len(),
{
    if commands.len() == 0 {
        (nothing_to_draw(), false)
    } else {
        let (batch, clear_all) = gathered(commands.drop_last());
        batch_after(batch, clear_all, commands.last())
    }
}

/// What the last command that concerns a button says about it.
pub open spec fn last_word(commands: Seq<RenderCommand>, button: int) -> Option<BatchedRenderOp>
    decreases commands.len(),
{
    if commands.len() == 0 {
        None
    } else {
        match commands.last() {
            RenderCommand::SetImage { position, image_hash, payload } if position == button => Some(
                BatchedRenderOp::Image { image_hash, payload },
            ),
            RenderCommand::ClearButton { position } if position == button => Some(
                BatchedRenderOp::Clear,
            ),
            RenderCommand::ClearAll => None,
            _ => last_word(commands.drop_last(), button),
        }
    }
}

/// The latest command wins, on every button, and the deck is cleared first if
/// any command said so. Commands that name no button of the deck do not
/// matter.
pub proof fn latest_command_wins(commands: Seq<RenderCommand>)
    ensures
        gathered(commands).0.len() == KEY_COUNT,
        forall|i: int|
            0 <= i < KEY_COUNT ==> #[trigger] gathered(commands).0[i] == last_word(commands, i),
        gathered(commands).1 <==> commands.contains(RenderCommand::ClearAll),
    decreases commands.len(),
{
    if commands.len() > 0 {
        let earlier = commands.drop_last();
        latest_command_wins(earlier);
        assert(commands =~= earlier.push(commands.last()));
        assert(commands.contains(RenderCommand::ClearAll) <==> earlier.contains(
            RenderCommand::ClearAll,
        ) || commands.last() is ClearAll) by {
            if commands.last() is ClearAll {
                assert(commands[commands.len() - 1] == RenderCommand::ClearAll);
            }
            if earlier.contains(RenderCommand::ClearAll) {
                let i = choose|i: int|
                    0 <= i < earlier.len() && earlier[i] == RenderCommand::ClearAll;
                assert(commands[i] == RenderCommand::ClearAll);
            }
        }
        assert forall|i: int| 0 <= i < KEY_COUNT implies #[trigger] gathered(commands).0[i]
            == last_word(commands, i) by {
            assert(gathered(earlier).0[i] == last_word(earlier, i));
        }
    }
}

/// Clearing the whole deck discards what was gathered before.
pub proof fn clear_all_discards_what_came_before(
    before: Seq<RenderCommand>,
    after: Seq<RenderCommand>,
)
    ensures
        gathered(before.push(RenderCommand::ClearAll) + after).0 == gathered(after).0,
        gathered(before.push(RenderCommand::ClearAll) + after).1,
    decreases after.len(),
{
    let all = before.push(RenderCommand::ClearAll) + after;
    if after.len() == 0 {
        assert(all.drop_last() =~= before);
        assert(all.last() == RenderCommand::ClearAll);
    } else {
        assert(all.drop_last() =~= before.push(RenderCommand::ClearAll) + after.drop_last());
        assert(all.last() == after.last());
        clear_all_discards_what_came_before(before, after.drop_last());
    }
}

} // verus!
