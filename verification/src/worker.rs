//! The render worker of a deck: gathers bursts of commands into batches and
//! has each batch drawn, as a machine that is told how each of its actions
//! went.

use vstd::prelude::*;

use crate::batch;
use crate::batch::{
    apply_render_command_to_batch, empty_render_batch, follow_up_batch_window, BatchedRenderOp,
    RenderBatch, RenderCommand,
};
use crate::error::{handle_error, DeviceError};

verus! {

/// What is to be done next.
#[derive(Debug)]
pub enum WorkerAction {
    /// Make the black frames.
    BuildAssets,
    /// Wait for a command or for the shutdown, in one case after having let
    /// other tasks run.
    Receive { after_yield: bool },
    /// Wait so many milliseconds, or for the shutdown.
    Wait { window: u64 },
    /// Take all commands that have come in meanwhile.
    Drain,
    /// Look the open device up.
    FindDevice,
    /// Draw a batch in one pass.
    Render { clear_all: bool, batch: RenderBatch },
    /// The worker is through, and its queue is to be forgotten.
    Stop,
}

/// How an action went.
#[derive(Debug)]
pub enum WorkerEvent {
    AssetsBuilt { built: bool },
    /// There is no command after the shutdown, or when nobody can send one any
    /// more.
    Received { command: Option<RenderCommand> },
    Waited { shut_down: bool },
    Drained { commands: Vec<RenderCommand> },
    DeviceFound { found: bool },
    Rendered { error: Option<DeviceError> },
}

enum Stage {
    Preparing,
    Receiving,
    Waiting { command: RenderCommand },
    Draining { batch: RenderBatch, clear_all: bool },
    Finding { batch: RenderBatch, clear_all: bool },
    Rendering,
    Stopped,
}

/// The render worker of a deck.
pub struct RenderWorker {
    stage: Stage,
}

// ---------------------------------------------------------------------------
// The model of the worker.

/// A batch, and whether the whole deck is cleared first.
pub type Gathered = (Seq<Option<BatchedRenderOp>>, bool);

pub enum WorkerModel {
    Preparing,
    Receiving,
    Waiting { command: RenderCommand },
    Draining { gathered: Gathered },
    Finding { gathered: Gathered },
    Rendering,
    Stopped,
}

pub enum WorkerActionModel {
    BuildAssets,
    Receive { after_yield: bool },
    Wait { window: u64 },
    Drain,
    FindDevice,
    Render { gathered: Gathered },
    Stop,
}

pub enum WorkerEventModel {
    AssetsBuilt { built: bool },
    Received { command: Option<RenderCommand> },
    Waited { shut_down: bool },
    Drained { commands: Seq<RenderCommand> },
    DeviceFound { found: bool },
    /// Whether the pass went well, or met an error that only spoils a request.
    Rendered { alive: bool },
}

/// A batch after some more commands.
pub open spec fn gathered_onto(start: Gathered, commands: Seq<RenderCommand>) -> Gathered
    decreases commands.len(),
{
    if commands.len() == 0 {
        start
    } else {
        let (batch, clear_all) = gathered_onto(start, commands.drop_last());
        batch::batch_after(batch, clear_all, commands.last())
    }
}

/// How a burst starts, once its first command may be looked at. A command that
/// names no button of the deck starts none.
pub open spec fn begun(command: RenderCommand) -> (WorkerModel, WorkerActionModel) {
    if batch::valid_command(command) {
        (
            WorkerModel::Draining {
                gathered: batch::batch_after(batch::nothing_to_draw(), false, command),
            },
            WorkerActionModel::Drain,
        )
    } else {
        (WorkerModel::Receiving, WorkerActionModel::Receive { after_yield: false })
    }
}

/// How long a burst is given to come in.
pub open spec fn window_of(command: RenderCommand) -> Option<u64> {
    match command {
        RenderCommand::ClearAll => Some(batch::CLEAR_ALL_BATCH_WINDOW),
        RenderCommand::SetImage { .. } => Some(batch::IMAGE_BATCH_WINDOW),
        RenderCommand::ClearButton { .. } => None,
    }
}

/// The event answers the action that the worker is waiting for.
pub open spec fn worker_event_fits(worker: WorkerModel, event: WorkerEventModel) -> bool {
    match worker {
        WorkerModel::Preparing => event is AssetsBuilt,
        WorkerModel::Receiving => event is Received,
        WorkerModel::Waiting { .. } => event is Waited,
        WorkerModel::Draining { .. } => event is Drained,
        WorkerModel::Finding { .. } => event is DeviceFound,
        WorkerModel::Rendering => event is Rendered,
        WorkerModel::Stopped => false,
    }
}

/// How the worker goes on.
pub open spec fn worker_advanced(worker: WorkerModel, event: WorkerEventModel) -> (
    WorkerModel,
    WorkerActionModel,
) {
    let stopped = (WorkerModel::Stopped, WorkerActionModel::Stop);
    match (worker, event) {
        (WorkerModel::Preparing, WorkerEventModel::AssetsBuilt { built }) => if built {
            (WorkerModel::Receiving, WorkerActionModel::Receive { after_yield: false })
        } else {
            stopped
        },
        (WorkerModel::Receiving, WorkerEventModel::Received { command }) => match command {
            None => stopped,
            Some(command) => match window_of(command) {
                Some(window) => (
                    WorkerModel::Waiting { command },
                    WorkerActionModel::Wait { window },
                ),
                None => begun(command),
            },
        },
        (WorkerModel::Waiting { command }, WorkerEventModel::Waited { shut_down }) => if shut_down {
            stopped
        } else {
            begun(command)
        },
        (WorkerModel::Draining { gathered }, WorkerEventModel::Drained { commands }) => (
            WorkerModel::Finding { gathered: gathered_onto(gathered, commands) },
            WorkerActionModel::FindDevice,
        ),
        (WorkerModel::Finding { gathered }, WorkerEventModel::DeviceFound { found }) => if found {
            (WorkerModel::Rendering, WorkerActionModel::Render { gathered })
        } else {
            stopped
        },
        (WorkerModel::Rendering, WorkerEventModel::Rendered { alive }) => if alive {
            (WorkerModel::Receiving, WorkerActionModel::Receive { after_yield: true })
        } else {
            stopped
        },
        _ => stopped,
    }
}

// ---------------------------------------------------------------------------
// The machine.

impl WorkerAction {
    pub open spec fn view(&self) -> WorkerActionModel {
        match self {
            WorkerAction::BuildAssets => WorkerActionModel::BuildAssets,
            WorkerAction::Receive { after_yield } => WorkerActionModel::Receive {
                after_yield: *after_yield,
            },
            WorkerAction::Wait { window } => WorkerActionModel::Wait { window: *window },
            WorkerAction::Drain => WorkerActionModel::Drain,
            WorkerAction::FindDevice => WorkerActionModel::FindDevice,
            WorkerAction::Render { clear_all, batch } => WorkerActionModel::Render {
                gathered: (batch@, *clear_all),
            },
            WorkerAction::Stop => WorkerActionModel::Stop,
        }
    }
}

impl WorkerEvent {
    pub open spec fn view(&self) -> WorkerEventModel {
        match self {
            WorkerEvent::AssetsBuilt { built } => WorkerEventModel::AssetsBuilt { built: *built },
            WorkerEvent::Received { command } => WorkerEventModel::Received { command: *command },
            WorkerEvent::Waited { shut_down } => WorkerEventModel::Waited {
                shut_down: *shut_down,
            },
            WorkerEvent::Drained { commands } => WorkerEventModel::Drained { commands: commands@ },
            WorkerEvent::DeviceFound { found } => WorkerEventModel::DeviceFound { found: *found },
            WorkerEvent::Rendered { error } => WorkerEventModel::Rendered {
                alive: match error {
                    None => true,
                    Some(err) => err.recoverable(),
                },
            },
        }
    }
}

impl RenderWorker {
    pub closed spec fn view(&self) -> WorkerModel {
        match self.stage {
            Stage::Preparing => WorkerModel::Preparing,
            Stage::Receiving => WorkerModel::Receiving,
            Stage::Waiting { command } => WorkerModel::Waiting { command },
            Stage::Draining { batch, clear_all } => WorkerModel::Draining {
                gathered: (batch@, clear_all),
            },
            Stage::Finding { batch, clear_all } => WorkerModel::Finding {
                gathered: (batch@, clear_all),
            },
            Stage::Rendering => WorkerModel::Rendering,
            Stage::Stopped => WorkerModel::Stopped,
        }
    }
}

fn begin_burst(command: RenderCommand) -> (r: (RenderWorker, WorkerAction))
    ensures
        (r.0@, r.1@) == begun(command),
{
    let mut batch = empty_render_batch();
    let mut clear_all = false;
    match apply_render_command_to_batch(&mut batch, &mut clear_all, command) {
        Ok(_) => (
            RenderWorker { stage: Stage::Draining { batch, clear_all } },
            WorkerAction::Drain,
        ),
        Err(_) => (
            RenderWorker { stage: Stage::Receiving },
            WorkerAction::Receive { after_yield: false },
        ),
    }
}

/// Adds commands to a batch, in their order. Those that name no button of the
/// deck are passed over.
fn gather(batch: &mut RenderBatch, clear_all: &mut bool, commands: Vec<RenderCommand>)
    ensures
        (final(batch)@, *final(clear_all)) == gathered_onto(
            (old(batch)@, *old(clear_all)),
            commands@,
        ),
{
    let ghost start = (batch@, *clear_all);
    let ghost all = commands@;
    assert(all.take(0) =~= Seq::empty());
    assert(all.take(all.len() as int) =~= all);
    for command in it: commands
        invariant
            it.seq() == all,
            (batch@, *clear_all) == gathered_onto(start, all.take(it.index() as int)),
    {
        proof {
            let i = it.index() as int;
            assert(all.take(i + 1).drop_last() =~= all.take(i));
            assert(all.take(i + 1).last() == command);
        }
        let _ = apply_render_command_to_batch(batch, clear_all, command);
    }
}

/// Starts a render worker.
pub fn render_worker() -> (r: (RenderWorker, WorkerAction))
    ensures
        r.0@ is Preparing,
        r.1@ is BuildAssets,
{
    (RenderWorker { stage: Stage::Preparing }, WorkerAction::BuildAssets)
}

impl RenderWorker {
    /// Goes on after an action, by how it went.
    pub fn advance(self, event: WorkerEvent) -> (r: (RenderWorker, WorkerAction))
        requires
            worker_event_fits(self@, event@),
        ensures
            (r.0@, r.1@) == worker_advanced(self@, event@),
            event matches WorkerEvent::AssetsBuilt { built } ==> {
                &&& built ==> r.1 == (WorkerAction::Receive { after_yield: false })
                &&& !built ==> r.1 is Stop
            },
            event matches WorkerEvent::Received { command: None } ==> r.1 is Stop,
            event matches WorkerEvent::Received { command: Some(command) } ==> {
                &&& command is ClearAll ==> r.1 == (WorkerAction::Wait { window: 8 })
                &&& command is SetImage ==> r.1 == (WorkerAction::Wait { window: 1 })
                &&& command is ClearButton && command->ClearButton_position < 15 ==> r.1 is Drain
                &&& command is ClearButton && command->ClearButton_position >= 15 ==> r.1 == (
                WorkerAction::Receive { after_yield: false })
            },
            event matches WorkerEvent::Waited { shut_down } ==> {
                &&& shut_down ==> r.1 is Stop
                &&& !shut_down && self@ is Waiting ==> {
                    let command = self@->Waiting_command;
                    &&& command is SetImage && command->SetImage_position >= 15 ==> r.1 == (
                    WorkerAction::Receive { after_yield: false })
                    &&& command is SetImage && command->SetImage_position < 15 ==> r.1 is Drain
                    &&& command is ClearAll ==> r.1 is Drain
                }
            },
            event is Drained ==> r.1 is FindDevice,
            event matches WorkerEvent::DeviceFound { found } ==> {
                &&& found <==> r.1 is Render
                &&& !found ==> r.1 is Stop
            },
            event matches WorkerEvent::Rendered { error } ==> {
                &&& error is Some && error->0 is Device ==> r.1 is Stop
                &&& error is None || !(error->0 is Device) ==> r.1 == (WorkerAction::Receive {
                    after_yield: true,
                })
            },
    {
        let stopped = (RenderWorker { stage: Stage::Stopped }, WorkerAction::Stop);
        match (self.stage, event) {
            (Stage::Preparing, WorkerEvent::AssetsBuilt { built: true }) => (
                RenderWorker { stage: Stage::Receiving },
                WorkerAction::Receive { after_yield: false },
            ),
            (Stage::Receiving, WorkerEvent::Received { command: Some(command) }) => {
                match follow_up_batch_window(&command) {
                    Some(window) => (
                        RenderWorker { stage: Stage::Waiting { command } },
                        WorkerAction::Wait { window },
                    ),
                    None => begin_burst(command),
                }
            },
            (Stage::Waiting { command }, WorkerEvent::Waited { shut_down: false }) => {
                begin_burst(command)
            },
            (Stage::Draining { batch, clear_all }, WorkerEvent::Drained { commands }) => {
                let mut batch = batch;
                let mut clear_all = clear_all;
                gather(&mut batch, &mut clear_all, commands);
                (
                    RenderWorker { stage: Stage::Finding { batch, clear_all } },
                    WorkerAction::FindDevice,
                )
            },
            (Stage::Finding { batch, clear_all }, WorkerEvent::DeviceFound { found: true }) => (
                RenderWorker { stage: Stage::Rendering },
                WorkerAction::Render { clear_all, batch },
            ),
            (Stage::Rendering, WorkerEvent::Rendered { error }) => {
                let alive = match error {
                    None => true,
                    Some(err) => handle_error(&err),
                };
                if alive {
                    (
                        RenderWorker { stage: Stage::Receiving },
                        WorkerAction::Receive { after_yield: true },
                    )
                } else {
                    stopped
                }
            },
            _ => stopped,
        }
    }
}

// ---------------------------------------------------------------------------
// What holds of every worker.

proof fn lemma_gathered_onto(first: RenderCommand, rest: Seq<RenderCommand>)
    ensures
        batch::gathered(seq![first] + rest) == gathered_onto(
            batch::batch_after(batch::nothing_to_draw(), false, first),
            rest,
        ),
    decreases rest.len(),
{
    let all = seq![first] + rest;
    if rest.len() == 0 {
        assert(all.drop_last() =~= Seq::<RenderCommand>::empty());
        assert(all.last() == first);
        assert(batch::gathered(all.drop_last()) == (batch::nothing_to_draw(), false));
    } else {
        lemma_gathered_onto(first, rest.drop_last());
        assert(all.drop_last() =~= seq![first] + rest.drop_last());
        assert(all.last() == rest.last());
    }
}

/// A burst is drawn in one pass, after its window, and drawn as if its commands
/// had been gathered one by one from an empty batch.
pub proof fn burst_is_drawn_in_one_pass(first: RenderCommand, rest: Seq<RenderCommand>)
    requires
        batch::valid_command(first),
    ensures
        ({
            let received = worker_advanced(
                WorkerModel::Receiving,
                WorkerEventModel::Received { command: Some(first) },
            );
            let waited = if window_of(first) is Some {
                worker_advanced(received.0, WorkerEventModel::Waited { shut_down: false })
            } else {
                received
            };
            let drained = worker_advanced(waited.0, WorkerEventModel::Drained { commands: rest });
            let found = worker_advanced(drained.0, WorkerEventModel::DeviceFound { found: true });
            &&& window_of(first) matches Some(window) ==> received.1
                == WorkerActionModel::Wait { window }
            &&& waited.1 is Drain
            &&& drained.1 is FindDevice
            &&& found.1 == WorkerActionModel::Render {
                gathered: batch::gathered(seq![first] + rest),
            }
        }),
{
    lemma_gathered_onto(first, rest);
}

/// A burst is drawn in one pass: on each button what the last of its commands
/// that concerns the button says, and after clearing the deck if any of them
/// said so. The pass comes eight milliseconds after a command to clear the
/// deck, one after a picture, and at once after a button is cleared.
pub proof fn last_commands_of_a_burst_are_drawn(
    first: RenderCommand,
    rest: Seq<RenderCommand>,
    button: int,
)
    requires
        match first {
            RenderCommand::SetImage { position, .. } => position < 15,
            RenderCommand::ClearButton { position } => position < 15,
            RenderCommand::ClearAll => true,
        },
        0 <= button < 15,
    ensures
        ({
            let received = worker_advanced(
                WorkerModel::Receiving,
                WorkerEventModel::Received { command: Some(first) },
            );
            let waited = if first is ClearButton {
                received
            } else {
                worker_advanced(received.0, WorkerEventModel::Waited { shut_down: false })
            };
            let drained = worker_advanced(waited.0, WorkerEventModel::Drained { commands: rest });
            let drawn = worker_advanced(drained.0, WorkerEventModel::DeviceFound { found: true }).1;
            let all = seq![first] + rest;
            &&& first is ClearAll ==> received.1 == (WorkerActionModel::Wait { window: 8 })
            &&& first is SetImage ==> received.1 == (WorkerActionModel::Wait { window: 1 })
            &&& waited.1 is Drain
            &&& drained.1 is FindDevice
            &&& drawn is Render
            &&& drawn->gathered.0.len() == 15
            &&& drawn->gathered.0[button] == batch::last_word(all, button)
            &&& drawn->gathered.1 <==> exists|i: int|
                0 <= i < all.len() && (#[trigger] all[i]) is ClearAll
        }),
{
    let all = seq![first] + rest;
    burst_is_drawn_in_one_pass(first, rest);
    batch::latest_command_wins(all);
    assert(batch::gathered(all).0[button] == batch::last_word(all, button));
    if exists|i: int| 0 <= i < all.len() && (#[trigger] all[i]) is ClearAll {
        let i = choose|i: int| 0 <= i < all.len() && (#[trigger] all[i]) is ClearAll;
        assert(all[i] == RenderCommand::ClearAll);
        assert(all.contains(RenderCommand::ClearAll));
    }
    if all.contains(RenderCommand::ClearAll) {
        let i = choose|i: int| 0 <= i < all.len() && all[i] == RenderCommand::ClearAll;
        assert(all[i] is ClearAll);
    }
}

/// A worker that goes on after a pass, or after a first command that makes no
/// sense, waits for the next command with nothing gathered.
pub proof fn worker_starts_afresh(worker: WorkerModel, event: WorkerEventModel)
    requires
        worker_event_fits(worker, event),
    ensures
        event == (WorkerEventModel::Rendered { alive: true }) ==> worker_advanced(worker, event) == (
            WorkerModel::Receiving,
            WorkerActionModel::Receive { after_yield: true },
        ),
        event == (WorkerEventModel::AssetsBuilt { built: true }) ==> worker_advanced(worker, event)
            == (WorkerModel::Receiving, WorkerActionModel::Receive { after_yield: false }),
{
}

/// The views of actions and events keep what they hold.
pub proof fn worker_views_keep_everything(action: WorkerAction, event: WorkerEvent)
    ensures
        match action {
            WorkerAction::BuildAssets => action@ is BuildAssets,
            WorkerAction::Receive { after_yield } => action@ == (WorkerActionModel::Receive {
                after_yield,
            }),
            WorkerAction::Wait { window } => action@ == (WorkerActionModel::Wait { window }),
            WorkerAction::Drain => action@ is Drain,
            WorkerAction::FindDevice => action@ is FindDevice,
            WorkerAction::Render { clear_all, batch } => action@ == (WorkerActionModel::Render {
                gathered: (batch@, clear_all),
            }),
            WorkerAction::Stop => action@ is Stop,
        },
        match event {
            WorkerEvent::AssetsBuilt { built } => event@ == (WorkerEventModel::AssetsBuilt {
                built,
            }),
            WorkerEvent::Received { command } => event@ == (WorkerEventModel::Received {
                command,
            }),
            WorkerEvent::Waited { shut_down } => event@ == (WorkerEventModel::Waited {
                shut_down,
            }),
            WorkerEvent::Drained { commands } => event@ == (WorkerEventModel::Drained {
                commands: commands@,
            }),
            WorkerEvent::DeviceFound { found } => event@ == (WorkerEventModel::DeviceFound {
                found,
            }),
            WorkerEvent::Rendered { error } => event@ == (WorkerEventModel::Rendered {
                alive: error is None || !(error->0 is Device),
            }),
        },
{
}

/// A worker stops exactly when the black frames cannot be made, on shutdown,
/// when the device is gone, and on an error that is fatal.
pub proof fn worker_stops_only_for_cause(worker: WorkerModel, event: WorkerEventModel)
    requires
        worker_event_fits(worker, event),
    ensures
        worker_advanced(worker, event).1 is Stop <==> {
            ||| event == WorkerEventModel::AssetsBuilt { built: false }
            ||| event == WorkerEventModel::Received { command: None }
            ||| event == WorkerEventModel::Waited { shut_down: true }
            ||| event == WorkerEventModel::DeviceFound { found: false }
            ||| event == WorkerEventModel::Rendered { alive: false }
        },
        worker_advanced(worker, event).1 is Stop <==> worker_advanced(worker, event).0 is Stopped,
{
}

} // verus!
