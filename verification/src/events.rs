//! From the deck to the host: reading input reports, and what the host is told
//! of them.

use vstd::prelude::*;

use crate::error::{handle_error, DeviceError};
use crate::inputs;
use crate::inputs::{apply_input_event, decode_input_report, D6InputEvent, DeviceStateUpdate};

verus! {

/// How many bytes an input report has at most.
pub const REPORT_SIZE: usize = 512;

/// How long, in milliseconds, to wait before reading again after an error.
pub const RETRY_DELAY: u64 = 10;

/// What is to be done next.
#[derive(Debug)]
pub enum PumpAction {
    /// Read a report of at most so many bytes.
    Read { size: usize },
    /// Hand updates on, in their order.
    Deliver { updates: Vec<DeviceStateUpdate> },
    /// Wait so many milliseconds.
    Pause { millis: u64 },
    /// The deck is not read any more.
    Stop,
}

/// How an action went.
#[derive(Debug)]
pub enum PumpEvent {
    Report { data: Vec<u8> },
    ReadFailed { error: DeviceError },
    /// Whether there still is somebody to hand updates to.
    Delivered { open: bool },
    Paused,
}

/// What a pump is waiting for.
#[derive(Debug, Clone, Copy, PartialEq, Eq, Structural)]
pub enum PumpStage {
    Reading,
    Delivering,
    Pausing,
    Stopped,
}

/// Reads a deck, and remembers which of its buttons are held.
#[derive(Debug)]
pub struct EventPump {
    pub stage: PumpStage,
    pub pressed_buttons: u16,
}

pub enum PumpActionModel {
    Read { size: usize },
    Deliver { updates: Seq<DeviceStateUpdate> },
    Pause { millis: u64 },
    Stop,
}

pub enum PumpEventModel {
    Report { data: Seq<u8> },
    ReadFailed { recoverable: bool },
    Delivered { open: bool },
    Paused,
}

impl PumpAction {
    pub open spec fn view(&self) -> PumpActionModel {
        match self {
            PumpAction::Read { size } => PumpActionModel::Read { size: *size },
            PumpAction::Deliver { updates } => PumpActionModel::Deliver { updates: updates@ },
            PumpAction::Pause { millis } => PumpActionModel::Pause { millis: *millis },
            PumpAction::Stop => PumpActionModel::Stop,
        }
    }
}

impl PumpEvent {
    pub open spec fn view(&self) -> PumpEventModel {
        match self {
            PumpEvent::Report { data } => PumpEventModel::Report { data: data@ },
            PumpEvent::ReadFailed { error } => PumpEventModel::ReadFailed {
                recoverable: error.recoverable(),
            },
            PumpEvent::Delivered { open } => PumpEventModel::Delivered { open: *open },
            PumpEvent::Paused => PumpEventModel::Paused,
        }
    }
}

/// The event answers the action that the pump is waiting for.
pub open spec fn pump_event_fits(stage: PumpStage, event: PumpEventModel) -> bool {
    match stage {
        PumpStage::Reading => event is Report || event is ReadFailed,
        PumpStage::Delivering => event is Delivered,
        PumpStage::Pausing => event is Paused,
        PumpStage::Stopped => false,
    }
}

/// What a report says, if it is one of input about a button of the deck.
pub open spec fn event_in(data: Seq<u8>) -> Option<D6InputEvent> {
    if inputs::is_input_report(data) {
        inputs::reported_event(data)
    } else {
        None
    }
}

pub open spec fn reading(pressed_buttons: u16) -> (EventPump, PumpActionModel) {
    (
        EventPump { stage: PumpStage::Reading, pressed_buttons },
        PumpActionModel::Read { size: REPORT_SIZE },
    )
}

/// How a pump goes on. Reports that say nothing, and those that make no sense,
/// are passed over.
pub open spec fn pump_advanced(pump: EventPump, event: PumpEventModel) -> (
    EventPump,
    PumpActionModel,
) {
    let pressed_buttons = pump.pressed_buttons;
    let stopped = (
        EventPump { stage: PumpStage::Stopped, pressed_buttons },
        PumpActionModel::Stop,
    );
    match event {
        PumpEventModel::Report { data } => match event_in(data) {
            Some(event) => (
                EventPump {
                    stage: PumpStage::Delivering,
                    pressed_buttons: inputs::next_mask(pressed_buttons, event),
                },
                PumpActionModel::Deliver { updates: inputs::updates_of(pressed_buttons, event) },
            ),
            None => reading(pressed_buttons),
        },
        PumpEventModel::ReadFailed { recoverable } => if recoverable {
            (
                EventPump { stage: PumpStage::Pausing, pressed_buttons },
                PumpActionModel::Pause { millis: RETRY_DELAY },
            )
        } else {
            stopped
        },
        PumpEventModel::Delivered { open } => if open {
            reading(pressed_buttons)
        } else {
            stopped
        },
        PumpEventModel::Paused => reading(pressed_buttons),
    }
}

/// Starts to read a deck, if it is open.
pub fn device_events_task(found: bool) -> (r: (EventPump, PumpAction))
    ensures
        r.0.pressed_buttons == 0,
        found ==> (r.0, r.1@) == reading(0),
        !found ==> r.0.stage is Stopped && r.1@ is Stop,
        found ==> r.0.stage is Reading && r.1 == (PumpAction::Read { size: 512 }),
        !found ==> r.1 is Stop,
{
    if found {
        (
            EventPump { stage: PumpStage::Reading, pressed_buttons: 0 },
            PumpAction::Read { size: REPORT_SIZE },
        )
    } else {
        (EventPump { stage: PumpStage::Stopped, pressed_buttons: 0 }, PumpAction::Stop)
    }
}

impl EventPump {
    /// Goes on after an action, by how it went.
    pub fn advance(self, event: PumpEvent) -> (r: (EventPump, PumpAction))
        requires
            pump_event_fits(self.stage, event@),
        ensures
            (r.0, r.1@) == pump_advanced(self, event@),
            !(event is Report) ==> r.0.pressed_buttons == self.pressed_buttons,
            event matches PumpEvent::Report { data } ==> {
                let told = data@.len() >= 11 && data@[0] == 65 && data@[1] == 67 && data@[2] == 75
                    && data@[9] <= 15;
                &&& told <==> r.1 is Deliver
                &&& told <==> r.0.stage is Delivering
                &&& !told ==> {
                    &&& r.1 == (PumpAction::Read { size: 512 })
                    &&& r.0.stage is Reading
                    &&& r.0.pressed_buttons == self.pressed_buttons
                }
                &&& told && data@[9] == 0 ==> r.0.pressed_buttons == 0
                &&& told && data@[9] > 0 ==> forall|key: u8|
                    #![trigger 1u16 << key]
                    key < 16 ==> (r.0.pressed_buttons & (1u16 << key) != 0) == if key + 1
                        == data@[9] {
                        data@[10] != 0
                    } else {
                        self.pressed_buttons & (1u16 << key) != 0
                    }
            },
            event matches PumpEvent::ReadFailed { error } ==> {
                &&& error is Device ==> r.1 is Stop && r.0.stage is Stopped
                &&& !(error is Device) ==> {
                    &&& r.1 == (PumpAction::Pause { millis: 10 })
                    &&& r.0.stage is Pausing
                }
            },
            event matches PumpEvent::Delivered { open } ==> {
                &&& open ==> r.1 == (PumpAction::Read { size: 512 }) && r.0.stage is Reading
                &&& !open ==> r.1 is Stop && r.0.stage is Stopped
            },
            event is Paused ==> r.1 == (PumpAction::Read { size: 512 }) && r.0.stage is Reading,
    {
        proof {
            if let PumpEventModel::Report { data } = event@ {
                inputs::reports_name_their_button(data);
                if let Some(D6InputEvent::Button { key, pressed }) = event_in(data) {
                    inputs::button_events_are_told(self.pressed_buttons, key, pressed);
                }
            }
        }
        let pressed_buttons: u16 = self.pressed_buttons;
        let keep_reading = match event {
            PumpEvent::Report { data } => match decode_input_report(data.as_slice()) {
                Ok(Some(event)) => {
                    let mut pressed_buttons: u16 = pressed_buttons;
                    let updates = apply_input_event(&mut pressed_buttons, event);
                    return (
                        EventPump { stage: PumpStage::Delivering, pressed_buttons },
                        PumpAction::Deliver { updates },
                    );
                },
                Ok(None) => true,
                Err(err) => handle_error(&err),
            },
            PumpEvent::ReadFailed { error } => {
                if handle_error(&error) {
                    return (
                        EventPump { stage: PumpStage::Pausing, pressed_buttons },
                        PumpAction::Pause { millis: RETRY_DELAY },
                    );
                }
                false
            },
            PumpEvent::Delivered { open } => open,
            PumpEvent::Paused => true,
        };
        if keep_reading {
            (
                EventPump { stage: PumpStage::Reading, pressed_buttons },
                PumpAction::Read { size: REPORT_SIZE },
            )
        } else {
            (EventPump { stage: PumpStage::Stopped, pressed_buttons }, PumpAction::Stop)
        }
    }
}

// ---------------------------------------------------------------------------
// What the host is told.

/// What is sent to the host.
#[derive(Debug, Clone, Copy, PartialEq, Eq)]
pub enum OutboundEvent {
    KeyDown { key: u8 },
    KeyUp { key: u8 },
    EncoderDown { encoder: u8 },
    EncoderUp { encoder: u8 },
    EncoderChange { encoder: u8, ticks: i16 },
}

pub open spec fn told(update: DeviceStateUpdate) -> OutboundEvent {
    match update {
        DeviceStateUpdate::ButtonDown(key) => OutboundEvent::KeyDown { key },
        DeviceStateUpdate::ButtonUp(key) => OutboundEvent::KeyUp { key },
        DeviceStateUpdate::EncoderDown(encoder) => OutboundEvent::EncoderDown { encoder },
        DeviceStateUpdate::EncoderUp(encoder) => OutboundEvent::EncoderUp { encoder },
        DeviceStateUpdate::EncoderTwist(encoder, val) => OutboundEvent::EncoderChange {
            encoder,
            ticks: val as i16,
        },
    }
}

/// What the host is told of an update.
pub fn dispatch_single_update(update: DeviceStateUpdate) -> (event: OutboundEvent)
    ensures
        event == told(update),
        update matches DeviceStateUpdate::ButtonDown(key) ==> event == (OutboundEvent::KeyDown {
            key,
        }),
        update matches DeviceStateUpdate::ButtonUp(key) ==> event == (OutboundEvent::KeyUp { key }),
        update matches DeviceStateUpdate::EncoderDown(encoder) ==> event == (
        OutboundEvent::EncoderDown { encoder }),
        update matches DeviceStateUpdate::EncoderUp(encoder) ==> event == (
        OutboundEvent::EncoderUp { encoder }),
        update matches DeviceStateUpdate::EncoderTwist(encoder, val) ==> event == (
        OutboundEvent::EncoderChange { encoder, ticks: val as i16 }),
{
    match update {
        DeviceStateUpdate::ButtonDown(key) => OutboundEvent::KeyDown { key },
        DeviceStateUpdate::ButtonUp(key) => OutboundEvent::KeyUp { key },
        DeviceStateUpdate::EncoderDown(encoder) => OutboundEvent::EncoderDown { encoder },
        DeviceStateUpdate::EncoderUp(encoder) => OutboundEvent::EncoderUp { encoder },
        DeviceStateUpdate::EncoderTwist(encoder, val) => OutboundEvent::EncoderChange {
            encoder,
            ticks: val as i16,
        },
    }
}

/// Presses are told as presses and releases as releases, of the same key or knob.
pub proof fn updates_are_told_as_they_are(key: u8, val: i8)
    ensures
        told(DeviceStateUpdate::ButtonDown(key)) == (OutboundEvent::KeyDown { key }),
        told(DeviceStateUpdate::ButtonUp(key)) == (OutboundEvent::KeyUp { key }),
        told(DeviceStateUpdate::EncoderDown(key)) == (OutboundEvent::EncoderDown { encoder: key }),
        told(DeviceStateUpdate::EncoderUp(key)) == (OutboundEvent::EncoderUp { encoder: key }),
        told(DeviceStateUpdate::EncoderTwist(key, val)) is EncoderChange,
        told(DeviceStateUpdate::EncoderTwist(key, val))->EncoderChange_encoder == key,
        told(DeviceStateUpdate::EncoderTwist(key, val))->ticks == val,
{
}

/// Different updates are told differently, and a twist by its own count.
pub proof fn updates_are_told_apart(update: DeviceStateUpdate, other: DeviceStateUpdate)
    ensures
        told(update) == told(other) <==> update == other,
        update matches DeviceStateUpdate::EncoderTwist(encoder, val) ==> told(update)
            matches OutboundEvent::EncoderChange { encoder: e, ticks } && e == encoder && ticks
            == val,
{
}

// ---------------------------------------------------------------------------
// What holds of every run of the pump.

/// The events in a run of reports.
pub open spec fn events_in(reports: Seq<Seq<u8>>) -> Seq<D6InputEvent>
    decreases reports.len(),
{
    if reports.len() == 0 {
        Seq::empty()
    } else {
        match event_in(reports.last()) {
            Some(event) => events_in(reports.drop_last()).push(event),
            None => events_in(reports.drop_last()),
        }
    }
}

/// A pump that reads reports one after the other and hands on what they say:
/// the buttons that it remembers as held, and all updates so far.
pub open spec fn pumped(reports: Seq<Seq<u8>>) -> (u16, Seq<DeviceStateUpdate>)
    decreases reports.len(),
{
    if reports.len() == 0 {
        (0, Seq::empty())
    } else {
        let (pressed_buttons, updates) = pumped(reports.drop_last());
        let (pump, action) = pump_advanced(
            EventPump { stage: PumpStage::Reading, pressed_buttons },
            PumpEventModel::Report { data: reports.last() },
        );
        match action {
            PumpActionModel::Deliver { updates: more } => (pump.pressed_buttons, updates + more),
            _ => (pump.pressed_buttons, updates),
        }
    }
}

/// What is handed on is just what applying the events of the reports one after
/// the other comes to, and every one of them is about a button of the deck.
pub proof fn reports_are_handed_on_one_by_one(reports: Seq<Seq<u8>>)
    ensures
        pumped(reports) == (
            inputs::mask_after(events_in(reports)),
            inputs::updates_over(events_in(reports)),
        ),
        forall|i: int|
            0 <= i < events_in(reports).len() ==> inputs::of_deck(
                #[trigger] events_in(reports)[i],
            ),
    decreases reports.len(),
{
    if reports.len() > 0 {
        let earlier = reports.drop_last();
        reports_are_handed_on_one_by_one(earlier);
        if let Some(event) = event_in(reports.last()) {
            inputs::decoded_events_are_of_deck(reports.last());
            assert(events_in(reports).drop_last() =~= events_in(earlier));
            assert forall|i: int| 0 <= i < events_in(reports).len() implies inputs::of_deck(
                #[trigger] events_in(reports)[i],
            ) by {
                if i < events_in(earlier).len() {
                    assert(events_in(reports)[i] == events_in(earlier)[i]);
                }
            }
        }
    }
}

/// Whatever reports a deck sends, lost and repeated ones among them, what the
/// host is told makes sense to it: no press of a held button, no release of
/// one that is up. And it ends up with the buttons that the pump remembers.
pub proof fn host_follows_the_deck(reports: Seq<Seq<u8>>)
    ensures
        inputs::replay(Set::empty(), pumped(reports).1) == Some(
            inputs::held_keys(pumped(reports).0),
        ),
{
    reports_are_handed_on_one_by_one(reports);
    inputs::history_makes_sense(events_in(reports));
}

/// The buttons that a pump remembers as held change by reports alone.
pub proof fn only_reports_change_what_is_held(pump: EventPump, event: PumpEventModel)
    requires
        !(event is Report),
    ensures
        pump_advanced(pump, event).0.pressed_buttons == pump.pressed_buttons,
        !(pump_advanced(pump, event).1 is Deliver),
{
}

/// A report about a button has just this handed on: its press, its release, both
/// where a press finds it held, and nothing where a release finds it up. A
/// reset has a release handed on for each held button.
pub proof fn reports_are_handed_on_as_they_are(pump: EventPump, data: Seq<u8>)
    requires
        data.len() >= 11,
        data[0] == 65,
        data[1] == 67,
        data[2] == 75,
        data[9] <= 15,
    ensures
        ({
            let mask = pump.pressed_buttons;
            let action = pump_advanced(pump, PumpEventModel::Report { data }).1;
            let updates = action->updates;
            let key = (data[9] - 1) as u8;
            let held = mask & (1u16 << key) != 0;
            &&& action is Deliver
            &&& data[9] == 0 ==> updates == inputs::updates_of(mask, D6InputEvent::Reset)
            &&& data[9] > 0 && data[10] != 0 && held ==> updates == seq![
                DeviceStateUpdate::ButtonUp(key),
                DeviceStateUpdate::ButtonDown(key),
            ]
            &&& data[9] > 0 && data[10] != 0 && !held ==> updates == seq![
                DeviceStateUpdate::ButtonDown(key),
            ]
            &&& data[9] > 0 && data[10] == 0 && held ==> updates == seq![
                DeviceStateUpdate::ButtonUp(key),
            ]
            &&& data[9] > 0 && data[10] == 0 && !held ==> updates.len() == 0
        }),
{
    inputs::reports_name_their_button(data);
    if data[9] > 0 {
        inputs::button_events_are_told(pump.pressed_buttons, (data[9] - 1) as u8, data[10] != 0);
    }
}

/// A pump after a run of events, and all updates that it handed on meanwhile.
pub open spec fn ran(events: Seq<PumpEventModel>) -> (EventPump, Seq<DeviceStateUpdate>)
    decreases events.len(),
{
    if events.len() == 0 {
        (EventPump { stage: PumpStage::Reading, pressed_buttons: 0 }, Seq::empty())
    } else {
        let (pump, updates) = ran(events.drop_last());
        let (next, action) = pump_advanced(pump, events.last());
        match action {
            PumpActionModel::Deliver { updates: more } => (next, updates + more),
            _ => (next, updates),
        }
    }
}

/// Each event of a run answers the action that the pump is waiting for by then.
pub open spec fn run_fits(events: Seq<PumpEventModel>) -> bool
    decreases events.len(),
{
    events.len() > 0 ==> {
        &&& run_fits(events.drop_last())
        &&& pump_event_fits(ran(events.drop_last()).0.stage, events.last())
    }
}

/// Whether the latest report that concerns a button says that it is down. A
/// report concerns a button if it is a reset or gives the button's number,
/// counted from one.
pub open spec fn last_said_down(events: Seq<PumpEventModel>, key: u8) -> bool
    decreases events.len(),
{
    if events.len() == 0 {
        false
    } else {
        let earlier = last_said_down(events.drop_last(), key);
        match events.last() {
            PumpEventModel::Report { data } => if data.len() >= 11 && data[0] == 65 && data[1] == 67
                && data[2] == 75 {
                if data[9] == 0 {
                    false
                } else if data[9] == key + 1 {
                    data[10] != 0
                } else {
                    earlier
                }
            } else {
                earlier
            },
            _ => earlier,
        }
    }
}

/// However a pump runs, through all its reads, deliveries and pauses, a button
/// is remembered as held exactly if the latest report that concerns it says
/// that it is down. The host is told of nothing that makes no sense to it, and
/// ends up with just these buttons held.
pub proof fn host_follows_every_run(events: Seq<PumpEventModel>)
    requires
        run_fits(events),
    ensures
        forall|key: u8|
            #![trigger 1u16 << key]
            key < 15 ==> (ran(events).0.pressed_buttons & (1u16 << key) != 0) == last_said_down(
                events,
                key,
            ),
        ran(events).0.pressed_buttons < 0x8000,
        inputs::replay(Set::empty(), ran(events).1) == Some(
            inputs::held_keys(ran(events).0.pressed_buttons),
        ),
        inputs::replay(Set::empty(), ran(events).1) is Some,
        forall|key: u8|
            key < 15 ==> (#[trigger] inputs::replay(Set::empty(), ran(events).1)->0.contains(key)
                <==> last_said_down(events, key)),
        forall|key: u8| #[trigger]
            inputs::replay(Set::empty(), ran(events).1)->0.contains(key) ==> key < 15,
    decreases events.len(),
{
    let after = ran(events).0.pressed_buttons;
    if events.len() == 0 {
        inputs::history_makes_sense(Seq::empty());
        assert forall|key: u8| #![trigger 1u16 << key] key < 15 implies 0u16 & (1u16 << key)
            == 0 by {
            assert(0u16 & (1u16 << key) == 0) by (bit_vector);
        }
    } else {
        let earlier = events.drop_last();
        let (pump, updates) = ran(earlier);
        let mask = pump.pressed_buttons;
        host_follows_every_run(earlier);
        if let PumpEventModel::Report { data } = events.last() {
            inputs::reports_name_their_button(data);
            if let Some(event) = event_in(data) {
                inputs::decoded_events_are_of_deck(data);
                inputs::updates_follow_the_mask(mask, event);
                inputs::lemma_no_stray_bit(mask, event);
                inputs::lemma_replay_concat(
                    Set::empty(),
                    updates,
                    inputs::updates_of(mask, event),
                );
                match event {
                    D6InputEvent::Reset => {
                        inputs::reset_releases_every_held_button(mask);
                        assert forall|key: u8| #![trigger 1u16 << key] key < 15 implies 0u16 & (
                        1u16 << key) == 0 by {
                            assert(0u16 & (1u16 << key) == 0) by (bit_vector);
                        }
                    },
                    D6InputEvent::Button { key, pressed } => {
                        inputs::button_events_are_told(mask, key, pressed);
                    },
                }
            }
        } else {
            only_reports_change_what_is_held(pump, events.last());
        }
    }
    assert forall|key: u8|
        key < 15 implies #[trigger] inputs::replay(Set::empty(), ran(events).1)->0.contains(key)
        == last_said_down(events, key) by {
        assert(inputs::is_held(after, key) == (after & (1u16 << key) != 0));
    }
    assert forall|key: u8| #[trigger]
        inputs::replay(Set::empty(), ran(events).1)->0.contains(key) implies key < 15 by {
        assert(after < 0x8000 ==> after & (1u16 << 15u8) == 0) by (bit_vector);
    }
}

/// The views of actions and events keep what they hold.
pub proof fn pump_views_keep_everything(action: PumpAction, event: PumpEvent)
    ensures
        match action {
            PumpAction::Read { size } => action@ == (PumpActionModel::Read { size }),
            PumpAction::Deliver { updates } => action@ == (PumpActionModel::Deliver {
                updates: updates@,
            }),
            PumpAction::Pause { millis } => action@ == (PumpActionModel::Pause { millis }),
            PumpAction::Stop => action@ is Stop,
        },
        match event {
            PumpEvent::Report { data } => event@ == (PumpEventModel::Report { data: data@ }),
            PumpEvent::ReadFailed { error } => event@ == (PumpEventModel::ReadFailed {
                recoverable: !(error is Device),
            }),
            PumpEvent::Delivered { open } => event@ == (PumpEventModel::Delivered { open }),
            PumpEvent::Paused => event@ is Paused,
        },
{
}

/// Reading a deck stops only on a fatal error, or when nobody is left to hand
/// updates to.
pub proof fn pump_stops_only_for_cause(pump: EventPump, event: PumpEventModel)
    requires
        pump_event_fits(pump.stage, event),
    ensures
        pump_advanced(pump, event).1 is Stop <==> {
            ||| event == PumpEventModel::ReadFailed { recoverable: false }
            ||| event == PumpEventModel::Delivered { open: false }
        },
{
}

} // verus!
