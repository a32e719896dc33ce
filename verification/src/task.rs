//! The life of a deck from being plugged in to being unplugged, as a machine
//! that is told how each of its actions went.

use vstd::prelude::*;

use crate::mappings::{COL_COUNT, ENCODER_COUNT, KEY_COUNT, ROW_COUNT};

verus! {

/// How bright a deck is when it is plugged in, in percent.
pub const INITIAL_BRIGHTNESS: u8 = 50;

/// What is to be done next. Apart from `Connect` and `Register`, an action
/// that fails does not keep the deck from being served.
#[derive(Debug, Clone, Copy, PartialEq, Eq)]
pub enum TaskAction {
    Connect,
    SetBrightness { percent: u8 },
    /// Make the black frames.
    BuildAssets,
    /// Have the device clear all its buttons by itself.
    ClearAll,
    /// Queue a button's black frame.
    BlackOut { index: usize },
    /// Have the device show what was queued.
    Flush,
    /// Tell the host of the deck and its layout.
    Register { rows: u8, columns: u8, encoders: u8 },
    /// Enter the device in the tables, and read it until its token is
    /// cancelled or reading comes to an end.
    Serve,
    /// Shut the connection down.
    ShutDown,
    /// Shut the device in the tables down, if it still is there.
    ShutDownServed,
    /// Report the error that connecting met.
    ReportError,
    /// The task is through.
    Finish,
}

/// What is being waited for.
#[derive(Debug, Clone, Copy, PartialEq, Eq)]
pub enum TaskStage {
    Connecting,
    SettingBrightness,
    BuildingAssets,
    ClearingAll,
    BlackingOut { index: usize },
    Flushing,
    Registering,
    Serving,
    ShuttingDown,
    Reporting,
    Over,
}

/// The life of a deck.
#[derive(Debug, Clone, Copy)]
pub struct DeviceTask {
    pub stage: TaskStage,
    pub supports_brightness: bool,
}

/// How a deck's life goes on, by whether the last action succeeded.
pub open spec fn task_advanced(task: DeviceTask, done: bool) -> (TaskStage, TaskAction) {
    match task.stage {
        TaskStage::Connecting => if !done {
            (TaskStage::Reporting, TaskAction::ReportError)
        } else if task.supports_brightness {
            (
                TaskStage::SettingBrightness,
                TaskAction::SetBrightness { percent: INITIAL_BRIGHTNESS },
            )
        } else {
            (TaskStage::BuildingAssets, TaskAction::BuildAssets)
        },
        TaskStage::SettingBrightness => (TaskStage::BuildingAssets, TaskAction::BuildAssets),
        TaskStage::BuildingAssets => if done {
            (TaskStage::ClearingAll, TaskAction::ClearAll)
        } else {
            (TaskStage::Flushing, TaskAction::Flush)
        },
        TaskStage::ClearingAll => if done {
            (TaskStage::Flushing, TaskAction::Flush)
        } else {
            (TaskStage::BlackingOut { index: 0 }, TaskAction::BlackOut { index: 0 })
        },
        TaskStage::BlackingOut { index } => if done && index + 1 < KEY_COUNT {
            (
                TaskStage::BlackingOut { index: (index + 1) as usize },
                TaskAction::BlackOut { index: (index + 1) as usize },
            )
        } else {
            (TaskStage::Flushing, TaskAction::Flush)
        },
        TaskStage::Flushing => (
            TaskStage::Registering,
            TaskAction::Register {
                rows: ROW_COUNT as u8,
                columns: COL_COUNT as u8,
                encoders: ENCODER_COUNT as u8,
            },
        ),
        TaskStage::Registering => if done {
            (TaskStage::Serving, TaskAction::Serve)
        } else {
            (TaskStage::ShuttingDown, TaskAction::ShutDown)
        },
        TaskStage::Serving => (TaskStage::ShuttingDown, TaskAction::ShutDownServed),
        _ => (TaskStage::Over, TaskAction::Finish),
    }
}

/// Starts the life of a deck.
pub fn device_task(supports_brightness: bool) -> (r: (DeviceTask, TaskAction))
    ensures
        r.0 == (DeviceTask { stage: TaskStage::Connecting, supports_brightness }),
        r.1 == TaskAction::Connect,
{
    (DeviceTask { stage: TaskStage::Connecting, supports_brightness }, TaskAction::Connect)
}

impl DeviceTask {
    /// The button that is being blacked out is one of the deck.
    pub open spec fn wf(self) -> bool {
        self.stage matches TaskStage::BlackingOut { index } ==> index < KEY_COUNT
    }

    /// Goes on after an action, by whether it succeeded.
    pub fn advance(self, done: bool) -> (r: (DeviceTask, TaskAction))
        requires
            self.wf(),
            !(self.stage is Over),
        ensures
            r.0.wf(),
            r.0.supports_brightness == self.supports_brightness,
            (r.0.stage, r.1) == task_advanced(self, done),
            self.stage is Connecting && !done ==> r.1 is ReportError,
            self.stage is Connecting && done ==> r.1 == if self.supports_brightness {
                TaskAction::SetBrightness { percent: 50 }
            } else {
                TaskAction::BuildAssets
            },
            self.stage is SettingBrightness ==> r.1 is BuildAssets,
            self.stage is BuildingAssets ==> r.1 == if done {
                TaskAction::ClearAll
            } else {
                TaskAction::Flush
            },
            self.stage is ClearingAll ==> r.1 == if done {
                TaskAction::Flush
            } else {
                TaskAction::BlackOut { index: 0 }
            },
            self.stage matches TaskStage::BlackingOut { index } ==> r.1 == if done && index < 14 {
                TaskAction::BlackOut { index: (index + 1) as usize }
            } else {
                TaskAction::Flush
            },
            self.stage is Flushing ==> r.1 == (TaskAction::Register {
                rows: 3,
                columns: 5,
                encoders: 0,
            }),
            self.stage is Registering ==> r.1 == if done {
                TaskAction::Serve
            } else {
                TaskAction::ShutDown
            },
            self.stage is Serving ==> r.1 is ShutDownServed,
            self.stage is ShuttingDown || self.stage is Reporting ==> r.1 is Finish,
    {
        let (stage, action) = match self.stage {
            TaskStage::Connecting => if !done {
                (TaskStage::Reporting, TaskAction::ReportError)
            } else if self.supports_brightness {
                (
                    TaskStage::SettingBrightness,
                    TaskAction::SetBrightness { percent: INITIAL_BRIGHTNESS },
                )
            } else {
                (TaskStage::BuildingAssets, TaskAction::BuildAssets)
            },
            TaskStage::SettingBrightness => (TaskStage::BuildingAssets, TaskAction::BuildAssets),
            TaskStage::BuildingAssets => if done {
                (TaskStage::ClearingAll, TaskAction::ClearAll)
            } else {
                (TaskStage::Flushing, TaskAction::Flush)
            },
            TaskStage::ClearingAll => if done {
                (TaskStage::Flushing, TaskAction::Flush)
            } else {
                (TaskStage::BlackingOut { index: 0 }, TaskAction::BlackOut { index: 0 })
            },
            TaskStage::BlackingOut { index } => if done && index + 1 < KEY_COUNT {
                (
                    TaskStage::BlackingOut { index: index + 1 },
                    TaskAction::BlackOut { index: index + 1 },
                )
            } else {
                (TaskStage::Flushing, TaskAction::Flush)
            },
            TaskStage::Flushing => (
                TaskStage::Registering,
                TaskAction::Register {
                    rows: ROW_COUNT as u8,
                    columns: COL_COUNT as u8,
                    encoders: ENCODER_COUNT as u8,
                },
            ),
            TaskStage::Registering => if done {
                (TaskStage::Serving, TaskAction::Serve)
            } else {
                (TaskStage::ShuttingDown, TaskAction::ShutDown)
            },
            TaskStage::Serving => (TaskStage::ShuttingDown, TaskAction::ShutDownServed),
            _ => (TaskStage::Over, TaskAction::Finish),
        };
        (DeviceTask { stage, supports_brightness: self.supports_brightness }, action)
    }
}

// ---------------------------------------------------------------------------
// What holds of every deck's life.

/// The action that a task at the given stage waits for.
pub open spec fn awaits(stage: TaskStage, action: TaskAction) -> bool {
    match action {
        TaskAction::Connect => stage is Connecting,
        TaskAction::SetBrightness { .. } => stage is SettingBrightness,
        TaskAction::BuildAssets => stage is BuildingAssets,
        TaskAction::ClearAll => stage is ClearingAll,
        TaskAction::BlackOut { index } => stage == (TaskStage::BlackingOut { index }),
        TaskAction::Flush => stage is Flushing,
        TaskAction::Register { .. } => stage is Registering,
        TaskAction::Serve => stage is Serving,
        TaskAction::ShutDown => stage is ShuttingDown,
        TaskAction::ShutDownServed => stage is ShuttingDown,
        TaskAction::ReportError => stage is Reporting,
        TaskAction::Finish => stage is Over,
    }
}

/// A task waits for the very action that it has asked for.
pub proof fn tasks_wait_for_what_they_ask(task: DeviceTask, done: bool)
    requires
        !(task.stage is Over),
    ensures
        awaits(task_advanced(task, done).0, task_advanced(task, done).1),
{
}

/// The deck after the given answers, and the action that it is at.
pub open spec fn lived(supports_brightness: bool, answers: Seq<bool>) -> (TaskStage, TaskAction)
    decreases answers.len(),
{
    if answers.len() == 0 {
        (TaskStage::Connecting, TaskAction::Connect)
    } else {
        let stage = lived(supports_brightness, answers.drop_last()).0;
        task_advanced(DeviceTask { stage, supports_brightness }, answers.last())
    }
}

/// A deck that cannot clear itself is blacked out button by button, from the
/// first of fifteen to the last as long as each succeeds, and then flushed.
pub proof fn all_buttons_are_blacked_out(supports_brightness: bool, index: usize)
    requires
        index < 15,
    ensures
        ({
            let stage = if index == 0 {
                TaskStage::ClearingAll
            } else {
                TaskStage::BlackingOut { index: (index - 1) as usize }
            };
            let task = DeviceTask { stage, supports_brightness };
            task_advanced(task, index > 0).1 == TaskAction::BlackOut { index }
        }),
        task_advanced(
            DeviceTask { stage: TaskStage::BlackingOut { index: 14 }, supports_brightness },
            true,
        ).1 is Flush,
        task_advanced(
            DeviceTask { stage: TaskStage::BlackingOut { index }, supports_brightness },
            false,
        ).1 is Flush,
{
}

/// On a deck where everything succeeds, this is done in this order: it is
/// connected, made half as bright as it can be if it can, cleared and flushed,
/// told to the host with its three rows of five buttons and no knobs, served,
/// and shut down.
pub proof fn smooth_life(supports_brightness: bool, answers: Seq<bool>)
    requires
        forall|i: int| 0 <= i < answers.len() ==> #[trigger] answers[i],
    ensures
        ({
            let at = answers.len() - if supports_brightness {
                1int
            } else {
                0int
            };
            let (stage, action) = lived(supports_brightness, answers);
            &&& awaits(stage, action)
            &&& answers.len() == 0 ==> action is Connect
            &&& supports_brightness && answers.len() == 1 ==> action == (
            TaskAction::SetBrightness { percent: 50 })
            &&& at == 1 ==> action is BuildAssets
            &&& at == 2 ==> action is ClearAll
            &&& at == 3 ==> action is Flush
            &&& at == 4 ==> action == (TaskAction::Register { rows: 3, columns: 5, encoders: 0 })
            &&& at == 5 ==> action is Serve
            &&& at == 6 ==> action is ShutDownServed
            &&& at == 7 ==> action is Finish
        }),
    decreases answers.len(),
{
    if answers.len() > 0 {
        let earlier = answers.drop_last();
        assert forall|i: int| 0 <= i < earlier.len() implies #[trigger] earlier[i] by {
            assert(earlier[i] == answers[i]);
        }
        smooth_life(supports_brightness, earlier);
        assert(answers[answers.len() - 1]);
    }
}

/// A deck is served exactly when registering it succeeded.
pub proof fn only_registered_decks_are_served(task: DeviceTask, done: bool)
    ensures
        task_advanced(task, done).1 is Serve <==> task.stage is Registering && done,
{
}

/// Preparing a connected deck: what goes wrong on the way does not matter.
pub open spec fn is_preparing(stage: TaskStage) -> bool {
    match stage {
        TaskStage::SettingBrightness => true,
        TaskStage::BuildingAssets => true,
        TaskStage::ClearingAll => true,
        TaskStage::BlackingOut { .. } => true,
        TaskStage::Flushing => true,
        _ => false,
    }
}

/// Once a deck is connected, nothing that goes wrong while it is prepared
/// keeps it from being registered.
pub proof fn preparing_leads_to_registering(task: DeviceTask, done: bool)
    ensures
        task.stage is Connecting && done ==> is_preparing(task_advanced(task, done).0),
        is_preparing(task.stage) ==> is_preparing(task_advanced(task, done).0)
            || task_advanced(task, done).0 is Registering,
{
}

/// The deck was connected, and not yet shut down again.
pub open spec fn is_connected(stage: TaskStage) -> bool {
    is_preparing(stage) || stage is Registering || stage is Serving
}

/// A connected deck stays connected until it is shut down, and its task ends
/// only after that.
pub proof fn connected_decks_are_shut_down(task: DeviceTask, done: bool)
    requires
        is_connected(task.stage),
    ensures
        ({
            let (next, action) = task_advanced(task, done);
            ||| is_connected(next)
            ||| next is ShuttingDown && (action is ShutDown || action is ShutDownServed)
        }),
{
}

/// A bound on how many actions a deck's task has still before it.
pub open spec fn actions_left(stage: TaskStage) -> int {
    match stage {
        TaskStage::Connecting => KEY_COUNT + 8,
        TaskStage::SettingBrightness => KEY_COUNT + 7,
        TaskStage::BuildingAssets => KEY_COUNT + 6,
        TaskStage::ClearingAll => KEY_COUNT + 5,
        TaskStage::BlackingOut { index } => KEY_COUNT + 4 - index,
        TaskStage::Flushing => 4,
        TaskStage::Registering => 3,
        TaskStage::Serving => 2,
        TaskStage::ShuttingDown => 1,
        TaskStage::Reporting => 1,
        TaskStage::Over => 0,
    }
}

/// Every task comes to its end: each answer brings it closer.
pub proof fn tasks_come_to_an_end(task: DeviceTask, done: bool)
    requires
        task.wf(),
        !(task.stage is Over),
    ensures
        0 <= actions_left(task_advanced(task, done).0) < actions_left(task.stage),
{
}

} // verus!
