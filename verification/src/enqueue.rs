//! Handing a command to a deck's renderer. A renderer whose worker has come to
//! its end cannot take it, and is replaced once.

use vstd::prelude::*;

use crate::error::DeviceError;

verus! {

/// How often a command is tried to be sent.
pub const SEND_ATTEMPTS: u8 = 2;

/// What is to be done next.
#[derive(Debug)]
pub enum EnqueueAction {
    /// Find the deck's renderer, or start one.
    GetRenderer,
    /// Send the command to the renderer that was found.
    Send,
    /// Forget the renderer that was found.
    RemoveRenderer,
    /// The command is in the renderer's queue, or cannot be taken.
    Finish { result: Result<(), DeviceError> },
}

/// How an action went.
#[derive(Debug)]
pub enum EnqueueEvent {
    RendererFound { error: Option<DeviceError> },
    Sent { sent: bool },
    RendererRemoved,
}

/// What is being waited for.
#[derive(Debug, Clone, Copy, PartialEq, Eq, Structural)]
pub enum EnqueueStage {
    Finding,
    Sending,
    Removing,
    Over,
}

/// A command on its way to a deck's renderer.
#[derive(Debug, Clone, Copy)]
pub struct Enqueue {
    pub stage: EnqueueStage,
    /// How many attempts have failed.
    pub failed: u8,
}

/// The event answers the action that is being waited for.
pub open spec fn enqueue_event_fits(stage: EnqueueStage, event: EnqueueEvent) -> bool {
    match stage {
        EnqueueStage::Finding => event is RendererFound,
        EnqueueStage::Sending => event is Sent,
        EnqueueStage::Removing => event is RendererRemoved,
        EnqueueStage::Over => false,
    }
}

/// How the command goes on its way.
pub open spec fn enqueue_advanced(command: Enqueue, event: EnqueueEvent) -> (
    Enqueue,
    EnqueueAction,
) {
    let failed = command.failed;
    match event {
        EnqueueEvent::RendererFound { error: None } => (
            Enqueue { stage: EnqueueStage::Sending, failed },
            EnqueueAction::Send,
        ),
        EnqueueEvent::RendererFound { error: Some(err) } => (
            Enqueue { stage: EnqueueStage::Over, failed },
            EnqueueAction::Finish { result: Err(err) },
        ),
        EnqueueEvent::Sent { sent: true } => (
            Enqueue { stage: EnqueueStage::Over, failed },
            EnqueueAction::Finish { result: Ok(()) },
        ),
        EnqueueEvent::Sent { sent: false } => (
            Enqueue { stage: EnqueueStage::Removing, failed },
            EnqueueAction::RemoveRenderer,
        ),
        EnqueueEvent::RendererRemoved => if failed + 1 < SEND_ATTEMPTS {
            (
                Enqueue { stage: EnqueueStage::Finding, failed: (failed + 1) as u8 },
                EnqueueAction::GetRenderer,
            )
        } else {
            (
                Enqueue { stage: EnqueueStage::Over, failed },
                EnqueueAction::Finish { result: Err(DeviceError::BadData) },
            )
        },
    }
}

/// Starts a command on its way.
pub fn enqueue_render_command() -> (r: (Enqueue, EnqueueAction))
    ensures
        r == (
            Enqueue { stage: EnqueueStage::Finding, failed: 0 },
            EnqueueAction::GetRenderer,
        ),
{
    (Enqueue { stage: EnqueueStage::Finding, failed: 0 }, EnqueueAction::GetRenderer)
}

impl Enqueue {
    /// There is an attempt left.
    pub open spec fn wf(self) -> bool {
        self.failed < SEND_ATTEMPTS
    }

    /// Goes on after an action, by how it went.
    pub fn advance(self, event: EnqueueEvent) -> (r: (Enqueue, EnqueueAction))
        requires
            self.wf(),
            enqueue_event_fits(self.stage, event),
        ensures
            r.0.wf(),
            r == enqueue_advanced(self, event),
            event matches EnqueueEvent::RendererFound { error: None } ==> {
                &&& r.1 is Send
                &&& r.0.stage is Sending
                &&& r.0.failed == self.failed
            },
            event matches EnqueueEvent::RendererFound { error: Some(err) } ==> {
                &&& r.1 == (EnqueueAction::Finish { result: Err(err) })
                &&& r.0.stage is Over
            },
            event matches EnqueueEvent::Sent { sent: true } ==> {
                &&& r.1 == (EnqueueAction::Finish { result: Ok(()) })
                &&& r.0.stage is Over
            },
            event matches EnqueueEvent::Sent { sent: false } ==> {
                &&& r.1 is RemoveRenderer
                &&& r.0.stage is Removing
                &&& r.0.failed == self.failed
            },
            event is RendererRemoved && self.failed == 0 ==> {
                &&& r.1 is GetRenderer
                &&& r.0.stage is Finding
                &&& r.0.failed == 1
            },
            event is RendererRemoved && self.failed >= 1 ==> {
                &&& r.1 == (EnqueueAction::Finish { result: Err(DeviceError::BadData) })
                &&& r.0.stage is Over
            },
    {
        let failed: u8 = self.failed;
        match event {
            EnqueueEvent::RendererFound { error: None } => (
                Enqueue { stage: EnqueueStage::Sending, failed },
                EnqueueAction::Send,
            ),
            EnqueueEvent::RendererFound { error: Some(err) } => (
                Enqueue { stage: EnqueueStage::Over, failed },
                EnqueueAction::Finish { result: Err(err) },
            ),
            EnqueueEvent::Sent { sent: true } => (
                Enqueue { stage: EnqueueStage::Over, failed },
                EnqueueAction::Finish { result: Ok(()) },
            ),
            EnqueueEvent::Sent { sent: false } => (
                Enqueue { stage: EnqueueStage::Removing, failed },
                EnqueueAction::RemoveRenderer,
            ),
            EnqueueEvent::RendererRemoved => if failed + 1 < SEND_ATTEMPTS {
                (
                    Enqueue { stage: EnqueueStage::Finding, failed: failed + 1 },
                    EnqueueAction::GetRenderer,
                )
            } else {
                (
                    Enqueue { stage: EnqueueStage::Over, failed },
                    EnqueueAction::Finish { result: Err(DeviceError::BadData) },
                )
            },
        }
    }
}

/// A command is sent only to a renderer that was found, and one that could not
/// take it is forgotten before another is asked for.
pub proof fn dead_renderers_are_forgotten_first(command: Enqueue, event: EnqueueEvent)
    ensures
        enqueue_advanced(command, event).1 is Send <==> event == (EnqueueEvent::RendererFound {
            error: None,
        }),
        enqueue_advanced(command, event).1 is RemoveRenderer <==> event == (EnqueueEvent::Sent {
            sent: false,
        }),
        enqueue_advanced(command, event).1 is GetRenderer ==> event is RendererRemoved
            && command.failed == 0,
        event is RendererRemoved && command.failed == 0 ==> enqueue_advanced(command, event).1
            is GetRenderer,
        event == (EnqueueEvent::Sent { sent: true }) ==> enqueue_advanced(command, event).1 == (
        EnqueueAction::Finish { result: Ok(()) }),
        enqueue_advanced(command, event).1 == (EnqueueAction::Finish { result: Ok(()) }) ==> event
            == (EnqueueEvent::Sent { sent: true }),
{
}

/// Where a command ends: what finding a renderer and sending to it come to is
/// given for each attempt.
pub open spec fn delivered(
    command: Enqueue,
    found: Seq<Option<DeviceError>>,
    sent: Seq<bool>,
) -> Result<(), DeviceError>
    decreases SEND_ATTEMPTS - command.failed,
{
    let attempt = command.failed as int;
    let sending = enqueue_advanced(
        command,
        EnqueueEvent::RendererFound { error: found[attempt] },
    );
    match sending.1 {
        EnqueueAction::Finish { result } => result,
        _ => {
            let after = enqueue_advanced(sending.0, EnqueueEvent::Sent { sent: sent[attempt] });
            match after.1 {
                EnqueueAction::Finish { result } => result,
                _ => {
                    let again = enqueue_advanced(after.0, EnqueueEvent::RendererRemoved);
                    match again.1 {
                        EnqueueAction::Finish { result } => result,
                        _ => if again.0.failed > command.failed {
                            delivered(again.0, found, sent)
                        } else {
                            Err(DeviceError::BadData)
                        },
                    }
                },
            }
        },
    }
}

/// A command gets through if one of two attempts to send it succeeds, as long
/// as there is a renderer to send it to; where both fail it is refused as bad
/// data, and where there is no renderer, with the error that says so.
pub proof fn command_is_sent_at_most_twice(found: Seq<Option<DeviceError>>, sent: Seq<bool>)
    requires
        found.len() == SEND_ATTEMPTS,
        sent.len() == SEND_ATTEMPTS,
    ensures
        delivered(Enqueue { stage: EnqueueStage::Finding, failed: 0 }, found, sent) == match found[0] {
            Some(err) => Err::<(), DeviceError>(err),
            None => if sent[0] {
                Ok(())
            } else {
                match found[1] {
                    Some(err) => Err(err),
                    None => if sent[1] {
                        Ok(())
                    } else {
                        Err(DeviceError::BadData)
                    },
                }
            },
        },
{
    reveal_with_fuel(delivered, 3);
}

} // verus!
