//! A stand-in backend that reports every command as carried out, for running
//! the mixer without an audio server.
use vstd::prelude::*;
use crate::backend::{BackendCommand, BackendEvent};
use crate::controller::event_applied;
use crate::mixing::{
    clamped_gain, toggled_app_muted, toggled_bus_muted, toggled_route, toggled_strip_mono, toggled_strip_muted,
    toggled_strip_solo,
};
use crate::model::{
    clamp, clamp_i32, find_route_id, first_bus_of_kind, first_strip_of_kind, route_index_of, AppRouteState, EndpointKind,
    SessionState, SessionView, GATE_MAX, UNITY,
};

verus! {

/// The stand-in backend. Its meter readings are made up from the session; what
/// it reports otherwise is decided by [`MockBackend::plan`].
pub struct MockBackend {}

/// What the stand-in backend reports for a command: the events, then, when
/// `meter_session` is there, a meter reading of that session.
pub struct MockPlan {
    pub events: Vec<BackendEvent>,
    pub meter_session: Option<SessionState>,
}

/// The routes with the first route of id `id` sent to `target`.
pub open spec fn with_route_target(routes: Seq<AppRouteState>, id: u32, target: String) -> Seq<AppRouteState> {
    let k = find_route_id(routes, id);
    if k >= 0 {
        routes.update(k, AppRouteState { target, ..routes[k] })
    } else {
        routes
    }
}

/// The routes with the level of the first route of id `id` set to `level`.
pub open spec fn with_route_level(routes: Seq<AppRouteState>, id: u32, level: i32) -> Seq<AppRouteState> {
    let k = find_route_id(routes, id);
    if k >= 0 {
        routes.update(k, AppRouteState { level, ..routes[k] })
    } else {
        routes
    }
}

/// The routes with the first route of id `id` muted or unmuted.
pub open spec fn with_route_mute_toggled(routes: Seq<AppRouteState>, id: u32) -> Seq<AppRouteState> {
    let k = find_route_id(routes, id);
    if k >= 0 {
        routes.update(k, AppRouteState { muted: !routes[k].muted, ..routes[k] })
    } else {
        routes
    }
}

/// The device options of the first hardware-input strip, or none.
pub open spec fn input_options(s: SessionView) -> Seq<crate::model::DeviceOption> {
    let k = first_strip_of_kind(s.strips, EndpointKind::HardwareInput);
    if k >= 0 { s.strips[k].device_options } else { Seq::empty() }
}

/// The device options of the first hardware-output bus, or none.
pub open spec fn output_options(s: SessionView) -> Seq<crate::model::DeviceOption> {
    let k = first_bus_of_kind(s.buses, EndpointKind::HardwareOutput);
    if k >= 0 { s.buses[k].device_options } else { Seq::empty() }
}

/// A plan that reports one event and then meters `t`.
pub open spec fn reports_then_meters(p: MockPlan, e: BackendEvent, t: SessionView) -> bool {
    &&& p.events@ == seq![e]
    &&& p.meter_session matches Some(m) && m@ == t
}

/// A plan that reports the given application routes and then meters the session
/// that took them.
pub open spec fn reports_routes(p: MockPlan, s: SessionView, routes: Seq<AppRouteState>) -> bool {
    &&& p.events@.len() == 1
    &&& p.events@[0] matches BackendEvent::AppRoutesUpdated { routes: r } && r@ == routes
    &&& p.meter_session matches Some(m) && m@ == s.with_app_routes(routes).0
}

/// One plan with one event, then a meter reading of `meter`.
fn single(event: BackendEvent, meter: SessionState) -> (p: MockPlan)
    ensures
        p.events@ == seq![event],
        p.meter_session == Some(meter),
{
    let mut events: Vec<BackendEvent> = Vec::new();
    events.push(event);
    assert(events@ =~= seq![event]);
    MockPlan { events, meter_session: Some(meter) }
}

impl MockBackend {
    pub fn new() -> (b: MockBackend) {
        MockBackend {}
    }

    /// What the stand-in backend reports for `command` against `session`: every
    /// change is reported as asked (gains, gates and levels limited to their
    /// ranges where the strip or bus exists), followed by a meter reading of the
    /// session with the change made; starting reports a connected backend with
    /// ready endpoints, the session's devices and routes; stopping reports the
    /// opposite; previews report nothing.
    #[verifier::rlimit(60)]
    #[verifier::spinoff_prover]
    pub fn plan(&self, session: &SessionState, command: BackendCommand) -> (p: MockPlan)
        ensures
            match command {
                BackendCommand::Start => {
                    &&& p.events@.len() == 4
                    &&& p.events@[0] == BackendEvent::ConnectionStateChanged { connected: true }
                    &&& p.events@[1] == BackendEvent::VirtualEndpointsReady { ready: true }
                    &&& p.events@[2] matches BackendEvent::DevicesUpdated { input_devices, output_devices }
                        && input_devices@ == input_options(session@) && output_devices@ == output_options(session@)
                    &&& p.events@[3] matches BackendEvent::AppRoutesUpdated { routes } && routes@ == session@.app_routes
                    &&& p.meter_session matches Some(m) && m@ == session@
                },
                BackendCommand::PreviewStripGain { .. } | BackendCommand::PreviewBusGain { .. }
                | BackendCommand::PreviewAppLevel { .. } => p.events@.len() == 0 && p.meter_session is None,
                BackendCommand::Shutdown => {
                    &&& p.events@ == seq![
                        BackendEvent::ConnectionStateChanged { connected: false },
                        BackendEvent::VirtualEndpointsReady { ready: false },
                    ]
                    &&& p.meter_session is None
                },
                BackendCommand::RefreshMeters => p.events@.len() == 0 && (p.meter_session matches Some(m) && m@ == session@),
                BackendCommand::RefreshAppRoutes => {
                    &&& p.events@.len() == 1
                    &&& p.events@[0] matches BackendEvent::AppRoutesUpdated { routes } && routes@ == session@.app_routes
                    &&& p.meter_session is None
                },
                BackendCommand::ToggleRoute { strip_index, bus_index } => {
                    let e = toggled_route(session@, strip_index as int, bus_index as int);
                    reports_then_meters(p, BackendEvent::RouteChanged { strip_index, bus_index, enabled: e },
                        session@.with_route_enabled(strip_index as int, bus_index as int, e))
                },
                BackendCommand::SetStripGain { strip_index, gain_db } => {
                    let g = if strip_index < session@.strips.len() { clamped_gain(gain_db) } else { gain_db };
                    reports_then_meters(p, BackendEvent::StripGainChanged { strip_index, gain_db: g },
                        session@.with_strip_gain(strip_index as int, gain_db))
                },
                BackendCommand::SetStripGate { strip_index, gate } => {
                    let g = if strip_index < session@.strips.len() { clamp(gate as int, 0, GATE_MAX as int) as i32 } else { gate };
                    reports_then_meters(p, BackendEvent::StripGateChanged { strip_index, gate: g },
                        session@.with_strip_gate(strip_index as int, gate))
                },
                BackendCommand::SetBusGain { bus_index, gain_db } => {
                    let g = if bus_index < session@.buses.len() { clamped_gain(gain_db) } else { gain_db };
                    reports_then_meters(p, BackendEvent::BusGainChanged { bus_index, gain_db: g },
                        session@.with_bus_gain(bus_index as int, gain_db))
                },
                BackendCommand::ToggleStripMuted { strip_index } => {
                    let m = toggled_strip_muted(session@, strip_index as int);
                    reports_then_meters(p, BackendEvent::StripMutedChanged { strip_index, muted: m },
                        session@.with_strip_muted(strip_index as int, m))
                },
                BackendCommand::ToggleStripSolo { strip_index } => {
                    let m = toggled_strip_solo(session@, strip_index as int);
                    reports_then_meters(p, BackendEvent::StripSoloChanged { strip_index, solo: m },
                        session@.with_strip_solo(strip_index as int, m))
                },
                BackendCommand::ToggleStripMono { strip_index } => {
                    let m = toggled_strip_mono(session@, strip_index as int);
                    reports_then_meters(p, BackendEvent::StripMonoChanged { strip_index, mono: m },
                        session@.with_strip_mono(strip_index as int, m))
                },
                BackendCommand::ToggleBusMuted { bus_index } => {
                    let m = toggled_bus_muted(session@, bus_index as int);
                    reports_then_meters(p, BackendEvent::BusMutedChanged { bus_index, muted: m },
                        session@.with_bus_muted(bus_index as int, m))
                },
                BackendCommand::SetStripDevice { strip_index, device_name } => {
                    &&& p.events@ == seq![BackendEvent::StripDeviceChanged { strip_index, device_name }]
                    &&& p.meter_session matches Some(m) && session@.strip_device_set(m@, strip_index as int, device_name@)
                },
                BackendCommand::SetBusDevice { bus_index, device_name } => {
                    &&& p.events@ == seq![BackendEvent::BusBindingChanged { bus_index, device_name }]
                    &&& p.meter_session matches Some(m) && session@.bus_device_set(m@, bus_index as int, device_name@)
                },
                BackendCommand::SetVirtualAppLevel { strip_index, app_index, level } => {
                    let l = if strip_index < session@.strips.len() && app_index < session@.strips[strip_index as int].apps.len() {
                        clamp(level as int, 0, UNITY as int) as i32
                    } else {
                        level
                    };
                    reports_then_meters(p, BackendEvent::VirtualAppLevelChanged { strip_index, app_index, level: l },
                        session@.with_app_level(strip_index as int, app_index as int, level))
                },
                BackendCommand::ToggleVirtualAppMuted { strip_index, app_index } => {
                    let m = toggled_app_muted(session@, strip_index as int, app_index as int);
                    reports_then_meters(p, BackendEvent::VirtualAppMutedChanged { strip_index, app_index, muted: m },
                        session@.with_app_muted(strip_index as int, app_index as int, m))
                },
                BackendCommand::SetAppRoute { app_id, target } =>
                    reports_routes(p, session@, with_route_target(session@.app_routes, app_id, target)),
                BackendCommand::SetAppLevel { app_id, level } =>
                    reports_routes(p, session@, with_route_level(session@.app_routes, app_id, clamp(level as int, 0, UNITY as int) as i32)),
                BackendCommand::ToggleAppMuted { app_id } =>
                    reports_routes(p, session@, with_route_mute_toggled(session@.app_routes, app_id)),
            },
            p.events@.len() == 1 && p.meter_session is Some
                ==> event_applied(session@, p.meter_session->0@, p.events@[0]),
    {
        match command {
            BackendCommand::Start => {
                let mut events: Vec<BackendEvent> = Vec::new();
                events.push(BackendEvent::ConnectionStateChanged { connected: true });
                events.push(BackendEvent::VirtualEndpointsReady { ready: true });
                events.push(BackendEvent::DevicesUpdated {
                    input_devices: session.hardware_input_devices(),
                    output_devices: session.hardware_output_devices(),
                });
                events.push(BackendEvent::AppRoutesUpdated { routes: session.app_routes.clone() });
                MockPlan { events, meter_session: Some(session.clone()) }
            },
            BackendCommand::PreviewStripGain { .. } | BackendCommand::PreviewBusGain { .. }
            | BackendCommand::PreviewAppLevel { .. } => MockPlan { events: Vec::new(), meter_session: None },
            BackendCommand::Shutdown => {
                let mut events: Vec<BackendEvent> = Vec::new();
                events.push(BackendEvent::ConnectionStateChanged { connected: false });
                events.push(BackendEvent::VirtualEndpointsReady { ready: false });
                assert(events@ =~= seq![
                    BackendEvent::ConnectionStateChanged { connected: false },
                    BackendEvent::VirtualEndpointsReady { ready: false },
                ]);
                MockPlan { events, meter_session: None }
            },
            BackendCommand::RefreshMeters => MockPlan { events: Vec::new(), meter_session: Some(session.clone()) },
            BackendCommand::RefreshAppRoutes => {
                let mut events: Vec<BackendEvent> = Vec::new();
                events.push(BackendEvent::AppRoutesUpdated { routes: session.app_routes.clone() });
                MockPlan { events, meter_session: None }
            },
            BackendCommand::ToggleRoute { strip_index, bus_index } => {
                let enabled = strip_index < session.strips.len() && bus_index < session.strips[strip_index].routes.len()
                    && !session.strips[strip_index].routes[bus_index].enabled;
                proof {
                    if strip_index < session@.strips.len() {
                        assert(session@.strips[strip_index as int] == session.strips@[strip_index as int]@);
                    }
                }
                let mut temp = session.clone();
                temp.set_route_enabled(strip_index, bus_index, enabled);
                single(BackendEvent::RouteChanged { strip_index, bus_index, enabled }, temp)
            },
            BackendCommand::SetStripGain { strip_index, gain_db } => {
                let mut temp = session.clone();
                temp.set_strip_gain(strip_index, gain_db);
                let g = if strip_index < temp.strips.len() { temp.strips[strip_index].gain_db } else { gain_db };
                proof {
                    if strip_index < temp@.strips.len() {
                        assert(temp@.strips[strip_index as int] == temp.strips@[strip_index as int]@);
                    }
                }
                single(BackendEvent::StripGainChanged { strip_index, gain_db: g }, temp)
            },
            BackendCommand::SetStripGate { strip_index, gate } => {
                let mut temp = session.clone();
                temp.set_strip_gate(strip_index, gate);
                let g = if strip_index < temp.strips.len() { temp.strips[strip_index].gate } else { gate };
                proof {
                    if strip_index < temp@.strips.len() {
                        assert(temp@.strips[strip_index as int] == temp.strips@[strip_index as int]@);
                    }
                }
                single(BackendEvent::StripGateChanged { strip_index, gate: g }, temp)
            },
            BackendCommand::SetBusGain { bus_index, gain_db } => {
                let mut temp = session.clone();
                temp.set_bus_gain(bus_index, gain_db);
                let g = if bus_index < temp.buses.len() { temp.buses[bus_index].gain_db } else { gain_db };
                proof {
                    if bus_index < temp@.buses.len() {
                        assert(temp@.buses[bus_index as int] == temp.buses@[bus_index as int]@);
                    }
                }
                single(BackendEvent::BusGainChanged { bus_index, gain_db: g }, temp)
            },
            BackendCommand::ToggleStripMuted { strip_index } => {
                let muted = strip_index < session.strips.len() && !session.strips[strip_index].muted;
                proof {
                    if strip_index < session@.strips.len() {
                        assert(session@.strips[strip_index as int] == session.strips@[strip_index as int]@);
                    }
                }
                let mut temp = session.clone();
                temp.set_strip_muted(strip_index, muted);
                single(BackendEvent::StripMutedChanged { strip_index, muted }, temp)
            },
            BackendCommand::ToggleStripSolo { strip_index } => {
                let solo = strip_index < session.strips.len() && !session.strips[strip_index].solo;
                proof {
                    if strip_index < session@.strips.len() {
                        assert(session@.strips[strip_index as int] == session.strips@[strip_index as int]@);
                    }
                }
                let mut temp = session.clone();
                temp.set_strip_solo(strip_index, solo);
                single(BackendEvent::StripSoloChanged { strip_index, solo }, temp)
            },
            BackendCommand::ToggleStripMono { strip_index } => {
                let mono = strip_index < session.strips.len() && !session.strips[strip_index].mono;
                proof {
                    if strip_index < session@.strips.len() {
                        assert(session@.strips[strip_index as int] == session.strips@[strip_index as int]@);
                    }
                }
                let mut temp = session.clone();
                temp.set_strip_mono(strip_index, mono);
                single(BackendEvent::StripMonoChanged { strip_index, mono }, temp)
            },
            BackendCommand::ToggleBusMuted { bus_index } => {
                let muted = bus_index < session.buses.len() && !session.buses[bus_index].muted;
                proof {
                    if bus_index < session@.buses.len() {
                        assert(session@.buses[bus_index as int] == session.buses@[bus_index as int]@);
                    }
                }
                let mut temp = session.clone();
                temp.set_bus_muted(bus_index, muted);
                single(BackendEvent::BusMutedChanged { bus_index, muted }, temp)
            },
            BackendCommand::SetStripDevice { strip_index, device_name } => {
                let mut temp = session.clone();
                temp.set_strip_device(strip_index, device_name.as_str());
                single(BackendEvent::StripDeviceChanged { strip_index, device_name }, temp)
            },
            BackendCommand::SetBusDevice { bus_index, device_name } => {
                let mut temp = session.clone();
                temp.set_bus_device(bus_index, device_name.as_str());
                single(BackendEvent::BusBindingChanged { bus_index, device_name }, temp)
            },
            BackendCommand::SetVirtualAppLevel { strip_index, app_index, level } => {
                let mut temp = session.clone();
                temp.set_virtual_app_level(strip_index, app_index, level);
                let l = if strip_index < temp.strips.len() && app_index < temp.strips[strip_index].apps.len() {
                    temp.strips[strip_index].apps[app_index].level
                } else {
                    level
                };
                proof {
                    if strip_index < temp@.strips.len() {
                        assert(temp@.strips[strip_index as int] == temp.strips@[strip_index as int]@);
                        assert(session@.strips[strip_index as int].apps.len() == temp@.strips[strip_index as int].apps.len());
                    }
                }
                single(BackendEvent::VirtualAppLevelChanged { strip_index, app_index, level: l }, temp)
            },
            BackendCommand::ToggleVirtualAppMuted { strip_index, app_index } => {
                let muted = strip_index < session.strips.len() && app_index < session.strips[strip_index].apps.len()
                    && !session.strips[strip_index].apps[app_index].muted;
                proof {
                    if strip_index < session@.strips.len() {
                        assert(session@.strips[strip_index as int] == session.strips@[strip_index as int]@);
                    }
                }
                let mut temp = session.clone();
                temp.set_virtual_app_muted(strip_index, app_index, muted);
                single(BackendEvent::VirtualAppMutedChanged { strip_index, app_index, muted }, temp)
            },
            BackendCommand::SetAppRoute { app_id, target } => {
                let mut routes = session.app_routes.clone();
                match route_index_of(&routes, app_id) {
                    Some(k) => {
                        routes[k].target = target;
                    },
                    None => {},
                }
                assert(routes@ =~= with_route_target(session@.app_routes, app_id, target));
                Self::reported_routes(session, routes)
            },
            BackendCommand::SetAppLevel { app_id, level } => {
                let mut routes = session.app_routes.clone();
                let l = clamp_i32(level, 0, UNITY);
                match route_index_of(&routes, app_id) {
                    Some(k) => {
                        routes[k].level = l;
                    },
                    None => {},
                }
                assert(routes@ =~= with_route_level(session@.app_routes, app_id, l));
                Self::reported_routes(session, routes)
            },
            BackendCommand::ToggleAppMuted { app_id } => {
                let mut routes = session.app_routes.clone();
                match route_index_of(&routes, app_id) {
                    Some(k) => {
                        let m = !routes[k].muted;
                        routes[k].muted = m;
                    },
                    None => {},
                }
                assert(routes@ =~= with_route_mute_toggled(session@.app_routes, app_id));
                Self::reported_routes(session, routes)
            },
        }
    }

    /// Reports `routes`, then meters the session that took them.
    fn reported_routes(session: &SessionState, routes: Vec<AppRouteState>) -> (p: MockPlan)
        ensures
            reports_routes(p, session@, routes@),
    {
        let mut temp = session.clone();
        temp.set_app_routes(routes.clone());
        single(BackendEvent::AppRoutesUpdated { routes }, temp)
    }
}

} // verus!
