use opendeck_ampgd6::error::DeviceError;
use opendeck_ampgd6::events::{
    device_events_task, dispatch_single_update, OutboundEvent, PumpAction, PumpEvent,
};
use opendeck_ampgd6::inputs::DeviceStateUpdate;
use opendeck_ampgd6::mappings::{resolve_device_kind, Kind, KEY_COUNT};
use opendeck_ampgd6::tables::{DeviceTables, RendererFound, Table};
use opendeck_ampgd6::task::{device_task, TaskAction};

fn report(input: u8, state: u8) -> PumpEvent {
    let mut data = vec![0u8; 512];
    data[..3].copy_from_slice(b"ACK");
    data[9] = input;
    data[10] = state;
    PumpEvent::Report { data }
}

fn updates(action: PumpAction) -> Vec<DeviceStateUpdate> {
    match action {
        PumpAction::Deliver { updates } => updates,
        other => panic!("{other:?}"),
    }
}

#[test]
fn decks_that_are_not_open_are_not_read() {
    assert!(matches!(device_events_task(false).1, PumpAction::Stop));
    assert!(matches!(
        device_events_task(true).1,
        PumpAction::Read { size: 512 }
    ));
}

#[test]
fn host_is_told_of_lost_releases() {
    let (pump, _) = device_events_task(true);
    let (pump, action) = pump.advance(report(3, 1));
    assert_eq!(updates(action), [DeviceStateUpdate::ButtonDown(2)]);
    let (pump, action) = pump.advance(PumpEvent::Delivered { open: true });
    assert!(matches!(action, PumpAction::Read { size: 512 }));
    let (pump, action) = pump.advance(report(3, 1));
    assert_eq!(
        updates(action),
        [
            DeviceStateUpdate::ButtonUp(2),
            DeviceStateUpdate::ButtonDown(2)
        ]
    );
    let (pump, _) = pump.advance(PumpEvent::Delivered { open: true });
    let (pump, action) = pump.advance(report(0, 0));
    assert_eq!(updates(action), [DeviceStateUpdate::ButtonUp(2)]);
    assert_eq!(pump.pressed_buttons, 0);
}

#[test]
fn reports_that_say_nothing_are_passed_over() {
    let (pump, _) = device_events_task(true);
    let (pump, action) = pump.advance(PumpEvent::Report {
        data: vec![0; 512],
    });
    assert!(matches!(action, PumpAction::Read { .. }));
    let (_, action) = pump.advance(report(16, 1));
    assert!(matches!(action, PumpAction::Read { .. }));
}

#[test]
fn reading_is_tried_again_after_bad_data() {
    let (pump, _) = device_events_task(true);
    let (pump, action) = pump.advance(PumpEvent::ReadFailed {
        error: DeviceError::BadData,
    });
    assert!(matches!(action, PumpAction::Pause { millis: 10 }));
    let (_, action) = pump.advance(PumpEvent::Paused);
    assert!(matches!(action, PumpAction::Read { .. }));
}

#[test]
fn reading_stops_on_fatal_errors_and_without_listeners() {
    let (pump, _) = device_events_task(true);
    let (_, action) = pump.advance(PumpEvent::ReadFailed {
        error: DeviceError::Device,
    });
    assert!(matches!(action, PumpAction::Stop));
    let (pump, _) = device_events_task(true);
    let (pump, _) = pump.advance(report(1, 1));
    let (_, action) = pump.advance(PumpEvent::Delivered { open: false });
    assert!(matches!(action, PumpAction::Stop));
}

#[test]
fn updates_become_events_of_the_host() {
    assert_eq!(
        dispatch_single_update(DeviceStateUpdate::ButtonDown(4)),
        OutboundEvent::KeyDown { key: 4 }
    );
    assert_eq!(
        dispatch_single_update(DeviceStateUpdate::ButtonUp(4)),
        OutboundEvent::KeyUp { key: 4 }
    );
    assert_eq!(
        dispatch_single_update(DeviceStateUpdate::EncoderDown(1)),
        OutboundEvent::EncoderDown { encoder: 1 }
    );
    assert_eq!(
        dispatch_single_update(DeviceStateUpdate::EncoderUp(1)),
        OutboundEvent::EncoderUp { encoder: 1 }
    );
    assert_eq!(
        dispatch_single_update(DeviceStateUpdate::EncoderTwist(1, -128)),
        OutboundEvent::EncoderChange {
            encoder: 1,
            ticks: -128,
        }
    );
}

#[test]
fn models_are_told_by_vendor_and_product() {
    assert_eq!(Kind::from_vid_pid(0x3142, 0x0007), Some(Kind::AMPGD6));
    assert_eq!(Kind::from_vid_pid(0x3142, 0x0060), Some(Kind::AMPGD6R2));
    assert_eq!(Kind::from_vid_pid(0x3142, 0x0008), None);
    assert_eq!(Kind::from_vid_pid(0x3143, 0x0007), None);
    assert_eq!(Kind::AMPGD6.protocol_version(), 1);
    assert_eq!(Kind::AMPGD6R2.protocol_version(), 3);
    assert_eq!(resolve_device_kind(0x3142, 0x0060).unwrap(), Kind::AMPGD6R2);
    assert!(matches!(
        resolve_device_kind(0x1234, 0x0060),
        Err(DeviceError::BadData)
    ));
}

/// Plays a deck's life, with the actions that fail, and logs the actions.
fn live(supports_brightness: bool, failing: &[TaskAction]) -> Vec<TaskAction> {
    let (mut task, mut action) = device_task(supports_brightness);
    let mut log = vec![action];
    while action != TaskAction::Finish {
        (task, action) = task.advance(!failing.contains(&action));
        log.push(action);
    }
    log
}

fn register() -> TaskAction {
    TaskAction::Register {
        rows: 3,
        columns: 5,
        encoders: 0,
    }
}

#[test]
fn deck_is_prepared_registered_and_served() {
    assert_eq!(
        live(true, &[]),
        [
            TaskAction::Connect,
            TaskAction::SetBrightness { percent: 50 },
            TaskAction::BuildAssets,
            TaskAction::ClearAll,
            TaskAction::Flush,
            register(),
            TaskAction::Serve,
            TaskAction::ShutDownServed,
            TaskAction::Finish,
        ]
    );
    assert!(!live(false, &[]).contains(&TaskAction::SetBrightness { percent: 50 }));
}

#[test]
fn failures_while_preparing_are_survived() {
    let failing = [
        TaskAction::SetBrightness { percent: 50 },
        TaskAction::ClearAll,
        TaskAction::BlackOut { index: 2 },
        TaskAction::Flush,
    ];
    assert_eq!(
        live(true, &failing),
        [
            TaskAction::Connect,
            TaskAction::SetBrightness { percent: 50 },
            TaskAction::BuildAssets,
            TaskAction::ClearAll,
            TaskAction::BlackOut { index: 0 },
            TaskAction::BlackOut { index: 1 },
            TaskAction::BlackOut { index: 2 },
            TaskAction::Flush,
            register(),
            TaskAction::Serve,
            TaskAction::ShutDownServed,
            TaskAction::Finish,
        ]
    );
    assert_eq!(
        live(false, &[TaskAction::BuildAssets])[..4],
        [
            TaskAction::Connect,
            TaskAction::BuildAssets,
            TaskAction::Flush,
            register(),
        ]
    );
}

#[test]
fn decks_that_cannot_clear_themselves_are_blacked_out() {
    let log = live(false, &[TaskAction::ClearAll]);
    for index in 0..KEY_COUNT {
        assert_eq!(log[3 + index], TaskAction::BlackOut { index });
    }
    assert_eq!(log[3 + KEY_COUNT], TaskAction::Flush);
    assert!(log.len() <= KEY_COUNT + 9);
}

#[test]
fn decks_that_are_not_registered_are_shut_down() {
    let log = live(false, &[register()]);
    assert_eq!(
        log[log.len() - 3..],
        [register(), TaskAction::ShutDown, TaskAction::Finish]
    );
}

#[test]
fn decks_that_cannot_be_connected_are_given_up() {
    assert_eq!(
        live(true, &[TaskAction::Connect]),
        [
            TaskAction::Connect,
            TaskAction::ReportError,
            TaskAction::Finish
        ]
    );
}

fn name(id: &str) -> String {
    id.to_string()
}

#[test]
fn tables_keep_the_latest_value() {
    let mut table = Table::new();
    assert!(table.insert(name("a"), 1).is_none());
    assert!(table.insert(name("b"), 2).is_none());
    assert_eq!(table.insert(name("a"), 3), Some(1));
    assert_eq!(table.get(&name("a")), Some(&3));
    assert_eq!(table.get(&name("b")), Some(&2));
    assert_eq!(table.entries().len(), 2);
    assert_eq!(table.remove(&name("a")), Some(3));
    assert_eq!(table.remove(&name("a")), None);
    assert_eq!(table.get(&name("b")), Some(&2));
    assert_eq!(table.get(&name("c")), None);
}

#[test]
fn decks_have_one_renderer_each() {
    let mut tables: DeviceTables<(), (), char> = DeviceTables::new();
    let a = name("a");
    assert!(tables.can_add_renderer());
    assert!(tables.find_renderer(&a).is_none());
    let first = tables.get_device_renderer(&a, 0x3142, 0x0007, 'x').unwrap();
    assert_eq!(
        first,
        RendererFound {
            ticket: 0,
            started: Some(Kind::AMPGD6),
        }
    );
    let again = tables.get_device_renderer(&a, 0x3142, 0x0007, 'y').unwrap();
    assert_eq!(
        again,
        RendererFound {
            ticket: 0,
            started: None,
        }
    );
    assert_eq!(tables.find_renderer(&a).unwrap().handle, 'x');
    let other = tables
        .get_device_renderer(&name("b"), 0x3142, 0x0060, 'z')
        .unwrap();
    assert_eq!(other.ticket, 1);
    assert_eq!(other.started, Some(Kind::AMPGD6R2));
}

#[test]
fn unknown_models_get_no_renderer() {
    let mut tables: DeviceTables<(), (), char> = DeviceTables::new();
    let a = name("a");
    assert!(matches!(
        tables.get_device_renderer(&a, 1, 2, 'x'),
        Err(DeviceError::BadData)
    ));
    assert!(tables.find_renderer(&a).is_none());
}

#[test]
fn late_workers_take_no_later_renderer_along() {
    let mut tables: DeviceTables<(), (), char> = DeviceTables::new();
    let a = name("a");
    let first = tables.get_device_renderer(&a, 0x3142, 0x0007, 'x').unwrap();
    assert!(tables.remove_renderer_handle(&a, first.ticket));
    assert!(!tables.remove_renderer_handle(&a, first.ticket));
    let second = tables.get_device_renderer(&a, 0x3142, 0x0007, 'y').unwrap();
    assert_ne!(first.ticket, second.ticket);
    assert!(!tables.remove_renderer_handle(&a, first.ticket));
    assert_eq!(tables.find_renderer(&a).unwrap().handle, 'y');
}

#[test]
fn forgotten_decks_leave_nothing_behind() {
    let mut tables: DeviceTables<u8, u16, char> = DeviceTables::new();
    let a = name("a");
    let b = name("b");
    tables.tokens.insert(name("a"), 1);
    tables.tokens.insert(name("b"), 2);
    tables.devices.insert(name("a"), 10);
    tables.devices.insert(name("b"), 20);
    tables.get_device_renderer(&a, 0x3142, 0x0007, 'x').unwrap();
    let left = tables.cleanup_device_state(&a);
    assert_eq!(left.token, Some(1));
    assert_eq!(left.renderer.unwrap().handle, 'x');
    assert!(tables.tokens.get(&a).is_none());
    assert!(tables.devices.get(&a).is_none());
    assert!(tables.find_renderer(&a).is_none());
    assert_eq!(tables.tokens.get(&b), Some(&2));
    assert_eq!(tables.devices.get(&b), Some(&20));
    let left = tables.cleanup_device_state(&a);
    assert!(left.token.is_none());
    assert!(left.renderer.is_none());
}
