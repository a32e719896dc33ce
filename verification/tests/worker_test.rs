use opendeck_ampgd6::batch::{BatchedRenderOp, RenderCommand};
use opendeck_ampgd6::enqueue::{enqueue_render_command, EnqueueAction, EnqueueEvent};
use opendeck_ampgd6::error::DeviceError;
use opendeck_ampgd6::worker::{render_worker, RenderWorker, WorkerAction, WorkerEvent};

fn receiving() -> RenderWorker {
    let (worker, action) = render_worker();
    assert!(matches!(action, WorkerAction::BuildAssets));
    let (worker, action) = worker.advance(WorkerEvent::AssetsBuilt { built: true });
    assert!(matches!(
        action,
        WorkerAction::Receive { after_yield: false }
    ));
    worker
}

fn set_image(position: u8, image_hash: u64) -> RenderCommand {
    RenderCommand::SetImage {
        position,
        image_hash,
        payload: "a".to_string(),
    }
}

#[test]
fn worker_stops_without_black_frames() {
    let (worker, _) = render_worker();
    let (_, action) = worker.advance(WorkerEvent::AssetsBuilt { built: false });
    assert!(matches!(action, WorkerAction::Stop));
}

#[test]
fn worker_stops_when_nobody_sends() {
    let (_, action) = receiving().advance(WorkerEvent::Received { command: None });
    assert!(matches!(action, WorkerAction::Stop));
}

#[test]
fn burst_is_drawn_in_one_pass_after_its_window() {
    let (worker, action) = receiving().advance(WorkerEvent::Received {
        command: Some(RenderCommand::ClearAll),
    });
    assert!(matches!(action, WorkerAction::Wait { window: 8 }));
    let (worker, action) = worker.advance(WorkerEvent::Waited { shut_down: false });
    assert!(matches!(action, WorkerAction::Drain));
    let (worker, action) = worker.advance(WorkerEvent::Drained {
        commands: vec![
            set_image(1, 10),
            set_image(15, 11),
            set_image(1, 12),
            RenderCommand::ClearButton { position: 2 },
        ],
    });
    assert!(matches!(action, WorkerAction::FindDevice));
    let (worker, action) = worker.advance(WorkerEvent::DeviceFound { found: true });
    match action {
        WorkerAction::Render { clear_all, batch } => {
            assert!(clear_all);
            assert_eq!(
                batch[1],
                Some(BatchedRenderOp::Image {
                    image_hash: 12,
                    payload: "a".to_string(),
                })
            );
            assert_eq!(batch[2], Some(BatchedRenderOp::Clear));
            assert_eq!(batch.iter().filter(|op| op.is_some()).count(), 2);
        }
        other => panic!("{other:?}"),
    }
    let (_, action) = worker.advance(WorkerEvent::Rendered { error: None });
    assert!(matches!(action, WorkerAction::Receive { after_yield: true }));
}

#[test]
fn single_button_is_cleared_at_once() {
    let (_, action) = receiving().advance(WorkerEvent::Received {
        command: Some(RenderCommand::ClearButton { position: 3 }),
    });
    assert!(matches!(action, WorkerAction::Drain));
}

#[test]
fn commands_beyond_the_deck_start_no_burst() {
    let (worker, action) = receiving().advance(WorkerEvent::Received {
        command: Some(set_image(15, 10)),
    });
    assert!(matches!(action, WorkerAction::Wait { window: 1 }));
    let (_, action) = worker.advance(WorkerEvent::Waited { shut_down: false });
    assert!(matches!(
        action,
        WorkerAction::Receive { after_yield: false }
    ));
}

#[test]
fn shutdown_ends_the_wait() {
    let (worker, _) = receiving().advance(WorkerEvent::Received {
        command: Some(RenderCommand::ClearAll),
    });
    let (_, action) = worker.advance(WorkerEvent::Waited { shut_down: true });
    assert!(matches!(action, WorkerAction::Stop));
}

fn rendering() -> RenderWorker {
    let (worker, _) = receiving().advance(WorkerEvent::Received {
        command: Some(RenderCommand::ClearButton { position: 3 }),
    });
    let (worker, _) = worker.advance(WorkerEvent::Drained {
        commands: Vec::new(),
    });
    let (worker, action) = worker.advance(WorkerEvent::DeviceFound { found: true });
    assert!(matches!(
        action,
        WorkerAction::Render {
            clear_all: false,
            ..
        }
    ));
    worker
}

#[test]
fn worker_survives_bad_data() {
    let (_, action) = rendering().advance(WorkerEvent::Rendered {
        error: Some(DeviceError::BadData),
    });
    assert!(matches!(action, WorkerAction::Receive { after_yield: true }));
}

#[test]
fn worker_stops_on_fatal_errors() {
    let (_, action) = rendering().advance(WorkerEvent::Rendered {
        error: Some(DeviceError::Device),
    });
    assert!(matches!(action, WorkerAction::Stop));
}

#[test]
fn worker_stops_when_the_device_is_gone() {
    let (worker, _) = receiving().advance(WorkerEvent::Received {
        command: Some(RenderCommand::ClearButton { position: 3 }),
    });
    let (worker, _) = worker.advance(WorkerEvent::Drained {
        commands: Vec::new(),
    });
    let (_, action) = worker.advance(WorkerEvent::DeviceFound { found: false });
    assert!(matches!(action, WorkerAction::Stop));
}

/// Sends a command, given what finding a renderer and sending come to on each
/// attempt. Counts the attempts.
fn send(found: [bool; 2], sent: [bool; 2]) -> (Result<(), DeviceError>, usize) {
    let mut attempt = 0;
    let mut attempts = 0;
    let (mut command, mut action) = enqueue_render_command();
    loop {
        let event = match action {
            EnqueueAction::GetRenderer => EnqueueEvent::RendererFound {
                error: if found[attempt] {
                    None
                } else {
                    Some(DeviceError::Device)
                },
            },
            EnqueueAction::Send => {
                attempts += 1;
                EnqueueEvent::Sent {
                    sent: sent[attempt],
                }
            }
            EnqueueAction::RemoveRenderer => {
                attempt += 1;
                EnqueueEvent::RendererRemoved
            }
            EnqueueAction::Finish { result } => return (result, attempts),
        };
        (command, action) = command.advance(event);
    }
}

#[test]
fn commands_are_sent_once_more_to_a_new_renderer() {
    assert!(matches!(send([true; 2], [true, true]), (Ok(()), 1)));
    assert!(matches!(send([true; 2], [false, true]), (Ok(()), 2)));
    assert!(matches!(
        send([true; 2], [false, false]),
        (Err(DeviceError::BadData), 2)
    ));
}

#[test]
fn commands_for_decks_without_renderer_are_refused() {
    assert!(matches!(
        send([false, true], [true, true]),
        (Err(DeviceError::Device), 0)
    ));
    assert!(matches!(
        send([true, false], [false, true]),
        (Err(DeviceError::Device), 1)
    ));
}
