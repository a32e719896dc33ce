//! Input reports of the deck: decoding them, tracking which buttons are held,
//! and translating between the two numberings of the buttons.

use vstd::prelude::*;

use crate::error::DeviceError;
use crate::mappings::KEY_COUNT;

verus! {

/// The bytes that open an input report: `ACK`.
pub const ACK_PREFIX: [u8; 3] = [65, 67, 75];

/// Where the device draws the picture of each button.
pub const OPENDECK_TO_DEVICE: [u8; 15] = [10, 11, 12, 13, 14, 5, 6, 7, 8, 9, 0, 1, 2, 3, 4];

/// What an input report says.
#[derive(Debug, Clone, Copy, PartialEq, Eq)]
pub enum D6InputEvent {
    /// Every button is up.
    Reset,
    /// One button went down or up.
    Button { key: u8, pressed: bool },
}

/// A change that the host is told of.
#[derive(Debug, Clone, Copy, PartialEq, Eq)]
pub enum DeviceStateUpdate {
    ButtonDown(u8),
    ButtonUp(u8),
    EncoderDown(u8),
    EncoderUp(u8),
    EncoderTwist(u8, i8),
}

/// What the device library makes of an input report by itself.
#[derive(Debug)]
pub enum DeviceInput {
    NoData,
    ButtonStateChange(Vec<bool>),
    EncoderStateChange(Vec<bool>),
    EncoderTwist(Vec<i8>),
}

/// Leaves every report to `decode_input_report`.
pub fn ignore_process_input(_input: u8, _state: u8) -> (r: Result<DeviceInput, DeviceError>)
    ensures
        r == Ok::<DeviceInput, DeviceError>(DeviceInput::NoData),
{
    Ok(DeviceInput::NoData)
}

/// Whether a report is one of input: long enough, and opened by `ACK`.
pub open spec fn is_input_report(data: Seq<u8>) -> bool {
    data.len() >= 11 && data.take(3) == ACK_PREFIX@
}

/// The event that an input report tells of, if it tells of any. The tenth
/// byte is zero for a reset and else the button counted from one; the
/// eleventh is zero when the button went up.
pub open spec fn reported_event(data: Seq<u8>) -> Option<D6InputEvent> {
    if data[9] == 0 {
        Some(D6InputEvent::Reset)
    } else if data[9] <= KEY_COUNT {
        Some(D6InputEvent::Button { key: (data[9] - 1) as u8, pressed: data[10] != 0 })
    } else {
        None
    }
}

/// Decodes a raw report. Anything that is no input report is passed over; an
/// input report about a button that the deck does not have is an error.
pub fn decode_input_report(data: &[u8]) -> (r: Result<Option<D6InputEvent>, DeviceError>)
    ensures
        !is_input_report(data@) ==> r == Ok::<Option<D6InputEvent>, DeviceError>(None),
        is_input_report(data@) ==> match reported_event(data@) {
            Some(event) => r == Ok::<Option<D6InputEvent>, DeviceError>(Some(event)),
            None => r == Err::<Option<D6InputEvent>, DeviceError>(DeviceError::BadData),
        },
        data@.len() >= 11 && data@[0] == 65 && data@[1] == 67 && data@[2] == 75 ==> {
            &&& data@[9] == 0 ==> r == Ok::<Option<D6InputEvent>, DeviceError>(
                Some(D6InputEvent::Reset),
            )
            &&& 1 <= data@[9] <= 15 ==> {
                &&& r is Ok
                &&& r->Ok_0 is Some
                &&& r->Ok_0->0 is Button
                &&& r->Ok_0->0->key + 1 == data@[9]
                &&& r->Ok_0->0->pressed <==> data@[10] != 0
            }
            &&& data@[9] > 15 ==> r == Err::<Option<D6InputEvent>, DeviceError>(
                DeviceError::BadData,
            )
        },
        !(data@.len() >= 11 && data@[0] == 65 && data@[1] == 67 && data@[2] == 75) ==> r == Ok::<
            Option<D6InputEvent>,
            DeviceError,
        >(None),
{
    proof {
        reports_name_their_button(data@);
    }
    if data.len() < 11 {
        return Ok(None);
    }
    let acknowledged = data[0] == ACK_PREFIX[0] && data[1] == ACK_PREFIX[1] && data[2]
        == ACK_PREFIX[2];
    assert(acknowledged == (data@.take(3) == ACK_PREFIX@)) by {
        if acknowledged {
            assert(data@.take(3) =~= ACK_PREFIX@);
        } else {
            assert(data@.take(3)[0] == data@[0]);
            assert(data@.take(3)[1] == data@[1]);
            assert(data@.take(3)[2] == data@[2]);
        }
    }
    if !acknowledged {
        return Ok(None);
    }
    let input: u8 = data[9];
    let state: u8 = data[10];
    if input == 0 {
        return Ok(Some(D6InputEvent::Reset));
    }
    match device_to_opendeck(input as usize) {
        Ok(key) => Ok(Some(D6InputEvent::Button { key: key as u8, pressed: state != 0 })),
        Err(err) => Err(err),
    }
}

/// Whether the button's bit is set in the mask of held buttons.
pub open spec fn is_held(mask: u16, key: u8) -> bool {
    mask & (1u16 << key) != 0
}

/// The mask after one button went down or up.
pub open spec fn with_key(mask: u16, key: u8, pressed: bool) -> u16 {
    if pressed {
        mask | (1u16 << key)
    } else {
        mask & !(1u16 << key)
    }
}

/// The releases of the held buttons below `count`, in order.
pub open spec fn releases_below(mask: u16, count: nat) -> Seq<DeviceStateUpdate>
    decreases count,
{
    if count == 0 {
        Seq::empty()
    } else {
        let key = (count - 1) as u8;
        let before = releases_below(mask, (count - 1) as nat);
        if is_held(mask, key) {
            before.push(DeviceStateUpdate::ButtonUp(key))
        } else {
            before
        }
    }
}

/// The mask of held buttons after an event.
pub open spec fn next_mask(mask: u16, event: D6InputEvent) -> u16 {
    match event {
        D6InputEvent::Reset => 0,
        D6InputEvent::Button { key, pressed } => with_key(mask, key, pressed),
    }
}

/// What the host is told of an event. A press of a held button means that its
/// release got lost, so the host is told of that first; a release of a button
/// that is up is not news.
pub open spec fn updates_of(mask: u16, event: D6InputEvent) -> Seq<DeviceStateUpdate> {
    match event {
        D6InputEvent::Reset => releases_below(mask, KEY_COUNT as nat),
        D6InputEvent::Button { key, pressed } => if pressed && is_held(mask, key) {
            seq![DeviceStateUpdate::ButtonUp(key), DeviceStateUpdate::ButtonDown(key)]
        } else if pressed {
            seq![DeviceStateUpdate::ButtonDown(key)]
        } else if is_held(mask, key) {
            seq![DeviceStateUpdate::ButtonUp(key)]
        } else {
            Seq::empty()
        },
    }
}

/// An event whose button has a bit in the mask.
pub open spec fn fits_mask(event: D6InputEvent) -> bool {
    event matches D6InputEvent::Button { key, .. } ==> key < 16
}

/// An event about a button of the deck.
pub open spec fn of_deck(event: D6InputEvent) -> bool {
    event matches D6InputEvent::Button { key, .. } ==> key < KEY_COUNT
}

/// Applies an event to the mask of held buttons and returns what to tell the
/// host.
pub fn apply_input_event(state_bitmask: &mut u16, event: D6InputEvent) -> (updates: Vec<
    DeviceStateUpdate,
>)
    requires
        fits_mask(event),
    ensures
        *final(state_bitmask) == next_mask(*old(state_bitmask), event),
        updates@ == updates_of(*old(state_bitmask), event),
        event matches D6InputEvent::Button { key, pressed } ==> {
            &&& forall|other: u8|
                #![trigger 1u16 << other]
                other < 16 ==> (*final(state_bitmask) & (1u16 << other) != 0) == if other == key {
                    pressed
                } else {
                    *old(state_bitmask) & (1u16 << other) != 0
                }
            &&& pressed && *old(state_bitmask) & (1u16 << key) != 0 ==> updates@
                == seq![DeviceStateUpdate::ButtonUp(key), DeviceStateUpdate::ButtonDown(key)]
            &&& pressed && *old(state_bitmask) & (1u16 << key) == 0 ==> updates@
                == seq![DeviceStateUpdate::ButtonDown(key)]
            &&& !pressed && *old(state_bitmask) & (1u16 << key) != 0 ==> updates@
                == seq![DeviceStateUpdate::ButtonUp(key)]
            &&& !pressed && *old(state_bitmask) & (1u16 << key) == 0 ==> updates@.len() == 0
        },
        event is Reset ==> {
            &&& *final(state_bitmask) == 0
            &&& forall|i: int|
                0 <= i < updates@.len() ==> {
                    &&& (#[trigger] updates@[i]) is ButtonUp
                    &&& updates@[i]->ButtonUp_0 < 15
                    &&& *old(state_bitmask) & (1u16 << updates@[i]->ButtonUp_0) != 0
                }
            &&& forall|i: int, j: int|
                0 <= i < j < updates@.len() ==> (#[trigger] updates@[i])->ButtonUp_0 < (
                #[trigger] updates@[j])->ButtonUp_0
            &&& forall|key: u8|
                key < 15 && *old(state_bitmask) & (1u16 << key) != 0 ==> #[trigger] updates@.contains(
                    DeviceStateUpdate::ButtonUp(key),
                )
        },
{
    proof {
        match event {
            D6InputEvent::Reset => reset_releases_every_held_button(*state_bitmask),
            D6InputEvent::Button { key, pressed } => button_events_are_told(
                *state_bitmask,
                key,
                pressed,
            ),
        }
    }
    match event {
        D6InputEvent::Reset => {
            let previous: u16 = *state_bitmask;
            *state_bitmask = 0;
            let mut updates: Vec<DeviceStateUpdate> = Vec::new();
            let mut index: u8 = 0;
            while index < KEY_COUNT as u8
                invariant
                    index <= KEY_COUNT,
                    updates@ == releases_below(previous, index as nat),
                decreases KEY_COUNT - index,
            {
                if previous & (1u16 << index) != 0 {
                    updates.push(DeviceStateUpdate::ButtonUp(index));
                }
                index += 1;
            }
            updates
        },
        D6InputEvent::Button { key, pressed } => {
            let mask: u16 = *state_bitmask;
            let bit: u16 = 1u16 << key;
            let was_pressed = mask & bit != 0;
            assert(mask & bit != 0 ==> mask | bit == mask) by (bit_vector)
                requires
                    bit == 1u16 << key,
                    key < 16,
            ;
            assert(mask & bit == 0 ==> mask & !bit == mask) by (bit_vector);
            if pressed && was_pressed {
                vec![DeviceStateUpdate::ButtonUp(key), DeviceStateUpdate::ButtonDown(key)]
            } else if !pressed && !was_pressed {
                Vec::new()
            } else if pressed {
                *state_bitmask = mask | bit;
                vec![DeviceStateUpdate::ButtonDown(key)]
            } else {
                *state_bitmask = mask & !bit;
                vec![DeviceStateUpdate::ButtonUp(key)]
            }
        },
    }
}

/// The device's place for a button of the host's numbering. The rows are
/// numbered from the other end:
///
/// ```text
///  host              device
///  0  1  2  3  4     10 11 12 13 14
///  5  6  7  8  9      5  6  7  8  9
/// 10 11 12 13 14      0  1  2  3  4
/// ```
pub open spec fn device_key(key: u8) -> u8 {
    if key < KEY_COUNT {
        OPENDECK_TO_DEVICE@[key as int]
    } else {
        key
    }
}

/// Converts a button of the host's numbering to the device's. A number that
/// is no button's is left as it is.
pub fn opendeck_to_device(key: u8) -> (r: u8)
    ensures
        r == device_key(key),
        key < 15 ==> r < 15 && r / 5 == 2 - key / 5 && r % 5 == key % 5,
        key >= 15 ==> r == key,
{
    if key < KEY_COUNT as u8 {
        OPENDECK_TO_DEVICE[key as usize]
    } else {
        key
    }
}

/// Converts a button of an input report, counted from one, to the host's
/// numbering, which counts from zero.
pub fn device_to_opendeck(key: usize) -> (r: Result<usize, DeviceError>)
    ensures
        1 <= key <= KEY_COUNT ==> r == Ok::<usize, DeviceError>((key - 1) as usize),
        !(1 <= key <= KEY_COUNT) ==> r == Err::<usize, DeviceError>(DeviceError::BadData),
{
    if 1 <= key && key <= KEY_COUNT {
        Ok(key - 1)
    } else {
        Err(DeviceError::BadData)
    }
}

/// The buttons whose bits are set in a mask.
pub open spec fn held_keys(mask: u16) -> Set<u8> {
    Set::new(|key: u8| key < 16 && is_held(mask, key))
}

/// Follows the host through a list of updates, from the buttons that it takes
/// to be held. `None` if some update makes no sense to it: a press of a held
/// button, or a release of one that is up.
pub open spec fn replay(held: Set<u8>, updates: Seq<DeviceStateUpdate>) -> Option<Set<u8>>
    decreases updates.len(),
{
    if updates.len() == 0 {
        Some(held)
    } else {
        match replay(held, updates.drop_last()) {
            None => None,
            Some(now) => match updates.last() {
                DeviceStateUpdate::ButtonDown(key) => if now.contains(key) {
                    None
                } else {
                    Some(now.insert(key))
                },
                DeviceStateUpdate::ButtonUp(key) => if now.contains(key) {
                    Some(now.remove(key))
                } else {
                    None
                },
                _ => Some(now),
            },
        }
    }
}

/// The mask after a run of events that starts with no button held.
pub open spec fn mask_after(events: Seq<D6InputEvent>) -> u16
    decreases events.len(),
{
    if events.len() == 0 {
        0
    } else {
        next_mask(mask_after(events.drop_last()), events.last())
    }
}

/// Everything that the host is told over a run of events.
pub open spec fn updates_over(events: Seq<D6InputEvent>) -> Seq<DeviceStateUpdate>
    decreases events.len(),
{
    if events.len() == 0 {
        Seq::empty()
    } else {
        updates_over(events.drop_last()) + updates_of(
            mask_after(events.drop_last()),
            events.last(),
        )
    }
}

proof fn lemma_with_key(mask: u16, key: u8, pressed: bool, other: u8)
    requires
        key < 16,
        other < 16,
    ensures
        is_held(with_key(mask, key, pressed), other) == if other == key {
            pressed
        } else {
            is_held(mask, other)
        },
{
    assert(other == key ==> (mask | (1u16 << key)) & (1u16 << other) != 0) by (bit_vector)
        requires
            key < 16,
            other < 16,
    ;
    assert(other == key ==> (mask & !(1u16 << key)) & (1u16 << other) == 0) by (bit_vector)
        requires
            key < 16,
            other < 16,
    ;
    assert(other != key ==> (mask | (1u16 << key)) & (1u16 << other) == mask & (1u16 << other))
        by (bit_vector)
        requires
            key < 16,
            other < 16,
    ;
    assert(other != key ==> (mask & !(1u16 << key)) & (1u16 << other) == mask & (1u16 << other))
        by (bit_vector)
        requires
            key < 16,
            other < 16,
    ;
}

/// A button event changes whether its own button is held, and no other's.
pub proof fn button_event_changes_one_key(mask: u16, key: u8, pressed: bool)
    requires
        key < 16,
    ensures
        held_keys(next_mask(mask, D6InputEvent::Button { key, pressed })) == if pressed {
            held_keys(mask).insert(key)
        } else {
            held_keys(mask).remove(key)
        },
{
    let next = with_key(mask, key, pressed);
    assert forall|other: u8| other < 16 implies is_held(next, other) == if other == key {
        pressed
    } else {
        is_held(mask, other)
    } by {
        lemma_with_key(mask, key, pressed, other);
    }
    if pressed {
        assert(held_keys(next) =~= held_keys(mask).insert(key));
    } else {
        assert(held_keys(next) =~= held_keys(mask).remove(key));
    }
}

pub(crate) proof fn lemma_no_stray_bit(mask: u16, event: D6InputEvent)
    requires
        of_deck(event),
        mask < 0x8000,
    ensures
        next_mask(mask, event) < 0x8000,
{
    if let D6InputEvent::Button { key, pressed } = event {
        assert(key < 15 && mask < 0x8000 ==> (mask | (1u16 << key)) < 0x8000) by (bit_vector);
        assert(mask < 0x8000 ==> (mask & !(1u16 << key)) < 0x8000) by (bit_vector);
    }
}

pub(crate) proof fn lemma_replay_concat(
    held: Set<u8>,
    first: Seq<DeviceStateUpdate>,
    second: Seq<DeviceStateUpdate>,
)
    requires
        replay(held, first) is Some,
    ensures
        replay(held, first + second) == replay(replay(held, first)->0, second),
    decreases second.len(),
{
    if second.len() == 0 {
        assert(first + second =~= first);
    } else {
        assert((first + second).drop_last() =~= first + second.drop_last());
        lemma_replay_concat(held, first, second.drop_last());
    }
}

proof fn lemma_replay_releases(mask: u16, count: nat)
    requires
        count <= KEY_COUNT,
    ensures
        replay(held_keys(mask), releases_below(mask, count)) == Some(
            held_keys(mask).difference(Set::new(|key: u8| key < count)),
        ),
    decreases count,
{
    if count == 0 {
        assert(held_keys(mask).difference(Set::new(|key: u8| key < count)) =~= held_keys(mask));
    } else {
        let key = (count - 1) as u8;
        let fewer = (count - 1) as nat;
        let released = held_keys(mask).difference(Set::new(|k: u8| k < fewer));
        lemma_replay_releases(mask, fewer);
        let updates = releases_below(mask, count);
        if is_held(mask, key) {
            assert(updates.drop_last() =~= releases_below(mask, fewer));
            assert(released.contains(key));
            assert(released.remove(key) =~= held_keys(mask).difference(
                Set::new(|k: u8| k < count),
            ));
        } else {
            assert(released =~= held_keys(mask).difference(Set::new(|k: u8| k < count)));
        }
    }
}

/// The host never hears of a press of a held button or of a release of one
/// that is up, and ends up with the buttons that the mask holds.
pub proof fn updates_follow_the_mask(mask: u16, event: D6InputEvent)
    requires
        of_deck(event),
        mask < 0x8000,
    ensures
        replay(held_keys(mask), updates_of(mask, event)) == Some(
            held_keys(next_mask(mask, event)),
        ),
{
    match event {
        D6InputEvent::Reset => {
            lemma_replay_releases(mask, KEY_COUNT as nat);
            assert forall|key: u8| key < 16 && is_held(mask, key) implies key < KEY_COUNT by {
                assert(mask < 0x8000 ==> mask & (1u16 << 15u8) == 0) by (bit_vector);
            }
            assert forall|key: u8| key < 16 implies !is_held(0, key) by {
                assert(0u16 & (1u16 << key) == 0) by (bit_vector);
            }
            assert(held_keys(mask).difference(Set::new(|key: u8| key < KEY_COUNT as nat))
                =~= held_keys(0));
        },
        D6InputEvent::Button { key, pressed } => {
            button_event_changes_one_key(mask, key, pressed);
            let held = held_keys(mask);
            let updates = updates_of(mask, event);
            let nothing = Seq::<DeviceStateUpdate>::empty();
            if updates.len() == 2 {
                assert(updates.drop_last() =~= seq![DeviceStateUpdate::ButtonUp(key)]);
                assert(updates.drop_last().drop_last() =~= nothing);
                assert(held.remove(key).insert(key) =~= held.insert(key));
                reveal_with_fuel(replay, 3);
            } else if updates.len() == 1 {
                assert(updates.drop_last() =~= nothing);
                reveal_with_fuel(replay, 2);
            } else {
                assert(held.remove(key) =~= held);
            }
        },
    }
}

/// Over any run of events about the deck's buttons, everything that the host
/// is told makes sense to it from the start on, and leaves it with the buttons
/// that are held.
pub proof fn history_makes_sense(events: Seq<D6InputEvent>)
    requires
        forall|i: int| 0 <= i < events.len() ==> of_deck(#[trigger] events[i]),
    ensures
        replay(Set::empty(), updates_over(events)) == Some(held_keys(mask_after(events))),
        mask_after(events) < 0x8000,
    decreases events.len(),
{
    if events.len() == 0 {
        assert forall|key: u8| key < 16 implies !is_held(0, key) by {
            assert(0u16 & (1u16 << key) == 0) by (bit_vector);
        }
        assert(held_keys(0) =~= Set::empty());
    } else {
        let earlier = events.drop_last();
        assert forall|i: int| 0 <= i < earlier.len() implies of_deck(#[trigger] earlier[i]) by {
            assert(earlier[i] == events[i]);
        }
        history_makes_sense(earlier);
        let mask = mask_after(earlier);
        assert(of_deck(events[events.len() - 1]));
        lemma_no_stray_bit(mask, events.last());
        updates_follow_the_mask(mask, events.last());
        lemma_replay_concat(Set::empty(), updates_over(earlier), updates_of(mask, events.last()));
    }
}

/// Pressing a button and letting it go again leaves the mask as it was before,
/// if the button was up.
pub proof fn release_undoes_press(mask: u16, key: u8)
    requires
        key < 16,
        !is_held(mask, key),
    ensures
        next_mask(
            next_mask(mask, D6InputEvent::Button { key, pressed: true }),
            D6InputEvent::Button { key, pressed: false },
        ) == mask,
{
    assert(mask & (1u16 << key) == 0 ==> (mask | (1u16 << key)) & !(1u16 << key) == mask)
        by (bit_vector);
}

/// An event that the decoder lets through is about a button of the deck.
pub proof fn decoded_events_are_of_deck(data: Seq<u8>)
    requires
        is_input_report(data),
        reported_event(data) is Some,
    ensures
        of_deck(reported_event(data)->0),
{
}

/// A report of at least eleven bytes that `ACK` opens is about the button whose
/// number, counted from one, is its tenth byte, and tells of a press exactly if
/// its eleventh byte is not zero. With a tenth byte of zero it is a reset, and
/// beyond the last button it makes no sense. No other report is one of input.
pub proof fn reports_name_their_button(data: Seq<u8>)
    ensures
        is_input_report(data) <==> data.len() >= 11 && data[0] == 65 && data[1] == 67 && data[2]
            == 75,
        data[9] == 0 <==> reported_event(data) == Some(D6InputEvent::Reset),
        1 <= data[9] <= 15 ==> {
            &&& reported_event(data) is Some
            &&& reported_event(data)->0 is Button
            &&& reported_event(data)->0->key + 1 == data[9]
            &&& reported_event(data)->0->pressed <==> data[10] != 0
        },
        data[9] > 15 <==> reported_event(data) is None,
{
    if data.len() >= 11 {
        let opening = data.take(3);
        assert(opening[0] == data[0] && opening[1] == data[1] && opening[2] == data[2]);
        if data[0] == 65 && data[1] == 67 && data[2] == 75 {
            assert(opening =~= ACK_PREFIX@);
        }
    }
}

/// A button event sets the button's own bit by whether it is pressed, and leaves
/// the other bits alone. The host hears of a press as a press, of a release of
/// a held button as a release, and of a press of a held button as both; it does
/// not hear of a release of a button that is up.
pub proof fn button_events_are_told(mask: u16, key: u8, pressed: bool)
    requires
        key < 16,
    ensures
        ({
            let event = D6InputEvent::Button { key, pressed };
            let held = mask & (1u16 << key) != 0;
            let updates = updates_of(mask, event);
            &&& forall|other: u8|
                #![trigger 1u16 << other]
                other < 16 ==> (next_mask(mask, event) & (1u16 << other) != 0) == if other == key {
                    pressed
                } else {
                    mask & (1u16 << other) != 0
                }
            &&& pressed && held ==> updates == seq![
                DeviceStateUpdate::ButtonUp(key),
                DeviceStateUpdate::ButtonDown(key),
            ]
            &&& pressed && !held ==> updates == seq![DeviceStateUpdate::ButtonDown(key)]
            &&& !pressed && held ==> updates == seq![DeviceStateUpdate::ButtonUp(key)]
            &&& !pressed && !held ==> updates.len() == 0
        }),
{
    let event = D6InputEvent::Button { key, pressed };
    assert forall|other: u8|
        #![trigger 1u16 << other]
        other < 16 implies (next_mask(mask, event) & (1u16 << other) != 0) == if other == key {
        pressed
    } else {
        mask & (1u16 << other) != 0
    } by {
        lemma_with_key(mask, key, pressed, other);
    }
}

proof fn lemma_releases_below(mask: u16, count: nat)
    requires
        count <= 15,
    ensures
        ({
            let updates = releases_below(mask, count);
            &&& forall|i: int|
                0 <= i < updates.len() ==> {
                    &&& (#[trigger] updates[i]) is ButtonUp
                    &&& updates[i]->ButtonUp_0 < count
                    &&& mask & (1u16 << updates[i]->ButtonUp_0) != 0
                }
            &&& forall|i: int, j: int|
                0 <= i < j < updates.len() ==> (#[trigger] updates[i])->ButtonUp_0 < (
                #[trigger] updates[j])->ButtonUp_0
            &&& forall|key: u8|
                key < count && mask & (1u16 << key) != 0 ==> #[trigger] updates.contains(
                    DeviceStateUpdate::ButtonUp(key),
                )
        }),
    decreases count,
{
    if count > 0 {
        let fewer = (count - 1) as nat;
        let last = (count - 1) as u8;
        let before = releases_below(mask, fewer);
        let updates = releases_below(mask, count);
        lemma_releases_below(mask, fewer);
        assert forall|key: u8|
            key < count && mask & (1u16 << key) != 0 implies #[trigger] updates.contains(
            DeviceStateUpdate::ButtonUp(key),
        ) by {
            if key == last {
                assert(is_held(mask, last));
                assert(updates[updates.len() - 1] == DeviceStateUpdate::ButtonUp(key));
            } else {
                assert(before.contains(DeviceStateUpdate::ButtonUp(key)));
                let i = choose|i: int|
                    0 <= i < before.len() && before[i] == DeviceStateUpdate::ButtonUp(key);
                assert(updates[i] == DeviceStateUpdate::ButtonUp(key));
            }
        }
    }
}

/// A reset leaves no button held. The host hears of a release of every button
/// that was held, from the first to the last and once each, and of nothing else.
pub proof fn reset_releases_every_held_button(mask: u16)
    ensures
        ({
            let updates = updates_of(mask, D6InputEvent::Reset);
            &&& next_mask(mask, D6InputEvent::Reset) == 0
            &&& forall|i: int|
                0 <= i < updates.len() ==> {
                    &&& (#[trigger] updates[i]) is ButtonUp
                    &&& updates[i]->ButtonUp_0 < 15
                    &&& mask & (1u16 << updates[i]->ButtonUp_0) != 0
                }
            &&& forall|i: int, j: int|
                0 <= i < j < updates.len() ==> (#[trigger] updates[i])->ButtonUp_0 < (
                #[trigger] updates[j])->ButtonUp_0
            &&& forall|key: u8|
                key < 15 && mask & (1u16 << key) != 0 ==> #[trigger] updates.contains(
                    DeviceStateUpdate::ButtonUp(key),
                )
        }),
{
    lemma_releases_below(mask, 15);
}

/// The device numbers the rows from the other end and the columns alike, and
/// knows no other places than the buttons'.
pub proof fn device_key_turns_the_rows_round(row: int, column: int)
    requires
        0 <= row < 3,
        0 <= column < 5,
    ensures
        device_key((5 * row + column) as u8) == 5 * (2 - row) + column,
{
}

/// Numbering the device's places again gives the buttons back: every place of
/// the device shows exactly one button.
pub proof fn device_key_undoes_itself(key: u8)
    ensures
        device_key(device_key(key)) == key,
        device_key(key) < KEY_COUNT <==> key < KEY_COUNT,
{
}

} // verus!
