use voicewire::backend::{BackendCommand, BackendEvent};
use voicewire::controller::{should_persist_command, AppController};
use voicewire::mixing::{mix_change, preview_change, MixSync};
use voicewire::mock::MockBackend;
use voicewire::model::{AppRouteState, DeviceOption, EndpointKind, SessionState, GAIN_MAX, GAIN_MIN, UNITY};
use voicewire::persistence::{flush_session_saves, load_session, save_session_async, PersistedSession, SaveQueue};
use voicewire::ui::{dispatch_for, MixerControllerRust, UiRequest};

fn route(id: u32, name: &str, target: &str, level: i32) -> AppRouteState {
    AppRouteState {
        id,
        name: name.to_string(),
        detail: String::new(),
        target: target.to_string(),
        icon_text: String::new(),
        icon_color: String::new(),
        level,
        muted: false,
    }
}

#[test]
fn demo_session_has_six_strips_and_buses() {
    let s = SessionState::demo();
    assert_eq!(s.strips.len(), 6);
    assert_eq!(s.buses.len(), 6);
    assert_eq!(s.strips[0].title, "MICROPHONE 1");
    assert_eq!(s.strips[0].gain_db, -2000);
    assert_eq!(s.strips[3].apps.len(), 5);
    assert_eq!(s.strips[5].apps[0].name, "Discord");
    assert!(s.strips[0].routes[0].enabled);
    assert!(s.strips[0].routes[3].enabled);
    assert!(!s.strips[0].routes[1].enabled);
    assert_eq!(s.buses[1].destination_name, "Studio Headphones");
    assert_eq!(s.buses[4].device_options[0].stable_id, "voicewire-b2");
    assert_eq!(s.app_routes.len(), 3);
    assert_eq!(s.remembered_app_routes.len(), 3);
    assert!(!s.backend_connected);
}

#[test]
fn gains_and_levels_are_limited_to_their_ranges() {
    let mut s = SessionState::demo();
    s.set_strip_gain(0, 99_000);
    assert_eq!(s.strips[0].gain_db, GAIN_MAX);
    s.set_strip_gain(0, -99_000);
    assert_eq!(s.strips[0].gain_db, GAIN_MIN);
    s.set_bus_gain(2, 5_500);
    assert_eq!(s.buses[2].gain_db, 5_500);
    s.set_strip_gate(1, 20_000);
    assert_eq!(s.strips[1].gate, 10_000);
    s.set_virtual_app_level(3, 0, 1_700);
    assert_eq!(s.strips[3].apps[0].level, UNITY);
    s.set_virtual_app_level(3, 0, -5);
    assert_eq!(s.strips[3].apps[0].level, 0);
    s.set_strip_gain(42, 1_000);
    assert_eq!(s.strips.len(), 6);
}

#[test]
fn mixing_commands_report_limited_values() {
    let s = SessionState::demo();
    let change = mix_change(&s, &BackendCommand::SetStripGain { strip_index: 1, gain_db: 40_000 }).expect("a change");
    assert!(matches!(change.event, BackendEvent::StripGainChanged { strip_index: 1, gain_db: 12_000 }));
    assert_eq!(change.session.strips[1].gain_db, 12_000);
    assert_eq!(change.sync, MixSync::Strip { strip_index: 1 });
    assert!(change.meter_updated);
    let change = mix_change(&s, &BackendCommand::ToggleRoute { strip_index: 0, bus_index: 0 }).expect("a change");
    assert!(matches!(change.event, BackendEvent::RouteChanged { strip_index: 0, bus_index: 0, enabled: false }));
    let change = mix_change(&s, &BackendCommand::ToggleStripMuted { strip_index: 9 }).expect("a change");
    assert!(matches!(change.event, BackendEvent::StripMutedChanged { strip_index: 9, muted: false }));
    let change = mix_change(&s, &BackendCommand::SetStripDevice { strip_index: 0, device_name: "USB Podcast Mic".into() }).expect("a change");
    assert_eq!(change.session.strips[0].device_name, "USB Podcast Mic");
    assert!(!change.meter_updated);
    assert_eq!(change.sync, MixSync::StripAndRoutes { strip_index: 0 });
    assert!(mix_change(&s, &BackendCommand::Start).is_none());
    let (preview, sync) = preview_change(&s, &BackendCommand::PreviewBusGain { bus_index: 3, gain_db: -70_000 }).expect("a preview");
    assert_eq!(preview.buses[3].gain_db, GAIN_MIN);
    assert_eq!(sync, MixSync::Bus { bus_index: 3 });
}

#[test]
fn toggling_twice_restores_the_session() {
    let s = SessionState::demo();
    let once = mix_change(&s, &BackendCommand::ToggleStripSolo { strip_index: 2 }).expect("a change").session;
    assert!(once.strips[2].solo);
    let twice = mix_change(&once, &BackendCommand::ToggleStripSolo { strip_index: 2 }).expect("a change").session;
    assert!(!twice.strips[2].solo);
    let once = mix_change(&s, &BackendCommand::ToggleVirtualAppMuted { strip_index: 4, app_index: 1 }).expect("a change").session;
    assert!(once.strips[4].apps[1].muted);
    let twice = mix_change(&once, &BackendCommand::ToggleVirtualAppMuted { strip_index: 4, app_index: 1 }).expect("a change").session;
    assert!(!twice.strips[4].apps[1].muted);
}

#[test]
fn stand_in_backend_reports_what_it_meters() {
    let s = SessionState::demo();
    let mock = MockBackend::new();
    let plan = mock.plan(&s, BackendCommand::Start);
    assert_eq!(plan.events.len(), 4);
    assert!(matches!(plan.events[0], BackendEvent::ConnectionStateChanged { connected: true }));
    match &plan.events[2] {
        BackendEvent::DevicesUpdated { input_devices, output_devices } => {
            assert_eq!(input_devices.len(), 3);
            assert_eq!(output_devices[0].name, "Desk Speakers");
        }
        other => panic!("unexpected event: {:?}", other),
    }
    assert!(plan.meter_session.is_some());
    let plan = mock.plan(&s, BackendCommand::SetStripGain { strip_index: 8, gain_db: 50_000 });
    assert!(matches!(plan.events[0], BackendEvent::StripGainChanged { strip_index: 8, gain_db: 50_000 }));
    let plan = mock.plan(&s, BackendCommand::SetStripGain { strip_index: 0, gain_db: 50_000 });
    assert!(matches!(plan.events[0], BackendEvent::StripGainChanged { strip_index: 0, gain_db: 12_000 }));
    let plan = mock.plan(&s, BackendCommand::SetAppLevel { app_id: 2, level: 4_000 });
    match &plan.events[0] {
        BackendEvent::AppRoutesUpdated { routes } => assert_eq!(routes[1].level, UNITY),
        other => panic!("unexpected event: {:?}", other),
    }
    let plan = mock.plan(&s, BackendCommand::SetAppRoute { app_id: 1, target: "SYS".into() });
    let metered = plan.meter_session.expect("metered session");
    assert_eq!(metered.app_routes[0].target, "SYS");
    assert!(mock.plan(&s, BackendCommand::PreviewAppLevel { app_id: 1, level: 3 }).events.is_empty());
    assert_eq!(mock.plan(&s, BackendCommand::Shutdown).events.len(), 2);
}

#[test]
fn controller_applies_reported_events_and_asks_for_saves() {
    let mut app = AppController::new(SessionState::demo());
    let command = BackendCommand::ToggleStripMuted { strip_index: 1 };
    let saves = app.dispatch(&command, vec![BackendEvent::StripMutedChanged { strip_index: 1, muted: true }]);
    assert!(app.session().strips[1].muted);
    assert_eq!(saves.queued.len(), 1);
    assert!(!saves.flush);
    let saves = app.dispatch(&BackendCommand::Shutdown, vec![BackendEvent::ConnectionStateChanged { connected: false }]);
    assert!(saves.queued.is_empty());
    assert!(saves.flush);
    let saves = app.dispatch(&BackendCommand::RefreshMeters, vec![BackendEvent::BackendError { message: "boom".into() }]);
    assert!(saves.queued.is_empty());
    assert_eq!(app.session().last_backend_error.as_deref(), Some("boom"));
    app.dispatch(&BackendCommand::RefreshMeters, vec![BackendEvent::ConnectionStateChanged { connected: true }]);
    assert!(app.session().last_backend_error.is_none());
    assert!(should_persist_command(&BackendCommand::SetBusGain { bus_index: 0, gain_db: 0 }));
    assert!(!should_persist_command(&BackendCommand::PreviewBusGain { bus_index: 0, gain_db: 0 }));
}

#[test]
fn reported_gains_stay_in_range() {
    let mut app = AppController::new(SessionState::demo());
    app.dispatch(
        &BackendCommand::RefreshMeters,
        vec![
            BackendEvent::StripGainChanged { strip_index: 0, gain_db: i32::MAX },
            BackendEvent::BusGainChanged { bus_index: 0, gain_db: i32::MIN },
            BackendEvent::StripGateChanged { strip_index: 0, gate: -1 },
        ],
    );
    assert_eq!(app.session().strips[0].gain_db, GAIN_MAX);
    assert_eq!(app.session().buses[0].gain_db, GAIN_MIN);
    assert_eq!(app.session().strips[0].gate, 0);
}

#[test]
fn reported_app_routes_feed_the_virtual_strips() {
    let mut s = SessionState::demo();
    let changed = s.set_app_routes(vec![route(7, "Zoom", "AUX", 2_000), route(8, "Radio", "VAIO", 500)]);
    assert!(changed);
    assert_eq!(s.app_routes.len(), 2);
    assert_eq!(s.strips[4].apps.len(), 1);
    assert_eq!(s.strips[4].apps[0].name, "Zoom");
    assert_eq!(s.strips[4].apps[0].level, UNITY);
    assert_eq!(s.strips[3].apps[0].level, 500);
    assert!(s.strips[5].apps.is_empty());
    assert_eq!(s.strips[0].apps.len(), 0);
    let again = s.set_app_routes(vec![route(7, "Zoom", "AUX", 2_000), route(8, "Radio", "VAIO", 500)]);
    assert!(!again);
}

#[test]
fn device_refresh_keeps_an_assigned_device_as_a_stand_in() {
    let mut s = SessionState::demo();
    let found = vec![DeviceOption {
        name: "USB Podcast Mic".into(),
        kind: EndpointKind::HardwareInput,
        stable_id: "usb".into(),
        device_class: "capture".into(),
        connected: true,
    }];
    s.set_strip_device_options(&found);
    assert_eq!(s.strips[0].device_options.len(), 2);
    assert_eq!(s.strips[0].device_options[1].name, "Scarlett 2i2 Mic 1");
    assert!(!s.strips[0].device_options[1].connected);
    assert_eq!(s.strips[1].device_options.len(), 1);
    assert_eq!(s.strips[3].device_options.len(), 3);
}

#[test]
fn a_session_restores_from_its_own_save() {
    let mut s = SessionState::demo();
    s.set_strip_gain(2, 3_000);
    s.set_bus_muted(5, true);
    s.set_quick_route_enabled(true);
    let saved = PersistedSession::from_session(&s);
    let restored = load_session(Some(saved)).expect("a restored session");
    assert_eq!(restored.strips[2].gain_db, 3_000);
    assert!(restored.buses[5].muted);
    assert!(restored.quick_route_enabled);
    assert!(load_session(None).is_none());
}

#[test]
fn flushing_writes_the_latest_save_once() {
    let mut queue = SaveQueue::new();
    assert!(flush_session_saves(&mut queue).is_none());
    let mut s = SessionState::demo();
    save_session_async(&mut queue, &s);
    s.set_strip_gain(0, 4_000);
    save_session_async(&mut queue, &s);
    let written = flush_session_saves(&mut queue).expect("a save");
    assert_eq!(written.strips[0].gain_db, 4_000);
    assert!(flush_session_saves(&mut queue).is_none());
}

#[test]
fn interface_requests_with_negative_indices_are_dropped() {
    assert!(dispatch_for(UiRequest::ToggleStripRoute { strip_index: -1, bus_index: 0 }).is_none());
    assert!(dispatch_for(UiRequest::SetAppLevel { app_id: -3, level: 10 }).is_none());
    let d = dispatch_for(UiRequest::PreviewStripGain { strip_index: 2, gain_db: 500 }).expect("a dispatch");
    assert!(matches!(d.command, BackendCommand::PreviewStripGain { strip_index: 2, gain_db: 500 }));
    assert!(!d.refresh_state && !d.refresh_meters);
    let d = dispatch_for(UiRequest::RefreshDemoLevels).expect("a dispatch");
    assert!(matches!(d.command, BackendCommand::RefreshMeters));
    assert!(!d.refresh_state && d.refresh_meters);
    let d = dispatch_for(UiRequest::SetBusDevice { bus_index: 1, device_name: "Phones".into() }).expect("a dispatch");
    assert!(matches!(&d.command, BackendCommand::SetBusDevice { bus_index: 1, device_name } if device_name == "Phones"));
    assert!(d.refresh_state && d.refresh_meters);
}

#[test]
fn interface_shows_changes_and_stops_once() {
    let app = AppController::new(SessionState::demo());
    let mut view = MixerControllerRust::new(app, "{}".into(), "[]".into());
    assert!(!view.publish_state("{}".into()));
    assert!(view.publish_state("{\"a\":1}".into()));
    assert_eq!(view.state_json, "{\"a\":1}");
    assert!(view.publish_meters("[1]".into()));
    assert!(view.begin_shutdown());
    assert!(!view.begin_shutdown());
    assert_eq!(view.session().strips.len(), 6);
}
