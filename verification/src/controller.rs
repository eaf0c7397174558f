//! The application controller: it applies what the backend reports to the session
//! and decides when the session is saved.
use vstd::prelude::*;
use crate::backend::{BackendCommand, BackendEvent};
use crate::model::{
    bus_after_output_refresh, bus_with_meters, normalized_route, same_app_routes, strip_after_input_refresh, strip_with_feeds,
    strip_with_meters, feeds_for, target_strip, AppFeedState, AppRouteState, EndpointKind, SessionState, SessionView,
    GAIN_MAX, GAIN_MIN, GATE_MAX, UNITY,
};
use crate::persistence::{persisted_of, PersistedSession, PersistedSessionView};

verus! {

/// `new` is `old` with `event` applied (see [`AppController::apply_event`]).
pub open spec fn event_applied(old: SessionView, new: SessionView, event: BackendEvent) -> bool {
    match event {
        BackendEvent::DevicesUpdated { input_devices, output_devices } => {
            let mid = SessionView { buses: old.buses, ..new };
            &&& old.input_options_set(SessionView { last_backend_error: old.last_backend_error, ..mid }, input_devices@)
            &&& (SessionView { last_backend_error: old.last_backend_error, ..mid }).output_options_set(
                SessionView { last_backend_error: old.last_backend_error, ..new },
                output_devices@,
            )
            &&& new.last_backend_error.is_none()
        },
        BackendEvent::VirtualEndpointsReady { ready } => new == (SessionView { virtual_endpoints_ready: ready, ..old }),
        BackendEvent::RouteChanged { strip_index, bus_index, enabled } =>
            new == old.with_route_enabled(strip_index as int, bus_index as int, enabled),
        BackendEvent::StripGainChanged { strip_index, gain_db } => new == old.with_strip_gain(strip_index as int, gain_db),
        BackendEvent::StripGateChanged { strip_index, gate } => new == old.with_strip_gate(strip_index as int, gate),
        BackendEvent::BusGainChanged { bus_index, gain_db } => new == old.with_bus_gain(bus_index as int, gain_db),
        BackendEvent::StripMutedChanged { strip_index, muted } => new == old.with_strip_muted(strip_index as int, muted),
        BackendEvent::StripSoloChanged { strip_index, solo } => new == old.with_strip_solo(strip_index as int, solo),
        BackendEvent::StripMonoChanged { strip_index, mono } => new == old.with_strip_mono(strip_index as int, mono),
        BackendEvent::BusMutedChanged { bus_index, muted } => new == old.with_bus_muted(bus_index as int, muted),
        BackendEvent::StripDeviceChanged { strip_index, device_name } =>
            old.strip_device_set(new, strip_index as int, device_name@),
        BackendEvent::BusBindingChanged { bus_index, device_name } =>
            old.bus_device_set(new, bus_index as int, device_name@),
        BackendEvent::VirtualAppLevelChanged { strip_index, app_index, level } =>
            new == old.with_app_level(strip_index as int, app_index as int, level),
        BackendEvent::VirtualAppMutedChanged { strip_index, app_index, muted } =>
            new == old.with_app_muted(strip_index as int, app_index as int, muted),
        BackendEvent::AppRoutesUpdated { routes } => new == old.with_app_routes(routes@).0,
        BackendEvent::MetersUpdated { snapshot } => new == old.with_meters(snapshot@),
        BackendEvent::BackendError { message } => new == (SessionView { last_backend_error: Some(message), ..old }),
        BackendEvent::ConnectionStateChanged { connected } => new == (SessionView {
            backend_connected: connected,
            last_backend_error: if connected { None } else { old.last_backend_error },
            ..old
        }),
    }
}

/// Whether applying `event` to `old` asks for the session to be saved: only
/// reported application routes do, when they change something worth saving.
pub open spec fn event_requests_save(old: SessionView, event: BackendEvent) -> bool {
    match event {
        BackendEvent::AppRoutesUpdated { routes } => old.with_app_routes(routes@).1,
        _ => false,
    }
}

/// Whether a command changes what is saved of the session. Starting, shutting
/// down, refreshes, previews and per-application changes on virtual strips do not.
pub open spec fn command_persists(command: BackendCommand) -> bool {
    !(command matches BackendCommand::Start
        || command matches BackendCommand::Shutdown
        || command matches BackendCommand::RefreshMeters
        || command matches BackendCommand::RefreshAppRoutes
        || command matches BackendCommand::SetVirtualAppLevel { .. }
        || command matches BackendCommand::ToggleVirtualAppMuted { .. }
        || command matches BackendCommand::PreviewStripGain { .. }
        || command matches BackendCommand::PreviewBusGain { .. }
        || command matches BackendCommand::PreviewAppLevel { .. })
}

/// Whether a command changes what is saved of the session (see [`command_persists`]).
pub fn should_persist_command(command: &BackendCommand) -> (r: bool)
    ensures
        r == command_persists(*command),
{
    match command {
        BackendCommand::Start
        | BackendCommand::Shutdown
        | BackendCommand::RefreshMeters
        | BackendCommand::RefreshAppRoutes
        | BackendCommand::SetVirtualAppLevel { .. }
        | BackendCommand::ToggleVirtualAppMuted { .. }
        | BackendCommand::PreviewStripGain { .. }
        | BackendCommand::PreviewBusGain { .. }
        | BackendCommand::PreviewAppLevel { .. } => false,
        _ => true,
    }
}

/// `trace` runs from `start` through `events`: each state is the one before it with
/// the next event applied.
pub open spec fn is_event_trace(start: SessionView, events: Seq<BackendEvent>, trace: Seq<SessionView>) -> bool {
    &&& trace.len() == events.len() + 1
    &&& trace[0] == start
    &&& forall|k: int| 0 <= k < events.len() ==> event_applied(trace[k], trace[k + 1], #[trigger] events[k])
}

/// The saves that the first `k` events of a trace ask for, in order: what is saved
/// of the session right after each event that asks for one.
pub open spec fn event_saves(trace: Seq<SessionView>, events: Seq<BackendEvent>, k: int) -> Seq<PersistedSessionView>
    decreases k,
{
    if k <= 0 {
        Seq::empty()
    } else {
        let rest = event_saves(trace, events, k - 1);
        if event_requests_save(trace[k - 1], events[k - 1]) {
            rest.push(persisted_of(trace[k]))
        } else {
            rest
        }
    }
}

/// The saves that a whole dispatch asks for: those of its events, then, unless the
/// command shuts down, one of the final session when the command is one that persists.
pub open spec fn dispatch_saves(command: BackendCommand, trace: Seq<SessionView>, events: Seq<BackendEvent>) -> Seq<PersistedSessionView> {
    let saves = event_saves(trace, events, events.len() as int);
    if !(command matches BackendCommand::Shutdown) && command_persists(command) {
        saves.push(persisted_of(trace.last()))
    } else {
        saves
    }
}

proof fn lemma_event_saves_extend(a: Seq<SessionView>, b: Seq<SessionView>, events: Seq<BackendEvent>, k: int)
    requires
        0 <= k,
        k < a.len(),
        a.len() <= b.len(),
        forall|j: int| 0 <= j <= k ==> #[trigger] b[j] == a[j],
    ensures
        event_saves(a, events, k) == event_saves(b, events, k),
    decreases k,
{
    if k > 0 {
        lemma_event_saves_extend(a, b, events, k - 1);
    }
}

/// The levels of a strip's applications lie in `0..=UNITY`.
pub open spec fn app_levels_in_range(apps: Seq<AppFeedState>) -> bool {
    forall|j: int| 0 <= j < apps.len() ==> 0 <= (#[trigger] apps[j]).level <= UNITY
}

/// Strip gains, strip gates, the levels of strip applications and bus gains lie
/// in their ranges.
pub open spec fn mix_in_range(s: SessionView) -> bool {
    &&& forall|i: int| 0 <= i < s.strips.len() ==> GAIN_MIN <= (#[trigger] s.strips[i]).gain_db <= GAIN_MAX
        && 0 <= s.strips[i].gate <= GATE_MAX && app_levels_in_range(s.strips[i].apps)
    &&& forall|i: int| 0 <= i < s.buses.len() ==> GAIN_MIN <= (#[trigger] s.buses[i]).gain_db <= GAIN_MAX
}

proof fn lemma_feeds_in_range(routes: Seq<AppRouteState>, i: int)
    ensures
        app_levels_in_range(feeds_for(routes, i)),
    decreases routes.len(),
{
    if routes.len() > 0 {
        lemma_feeds_in_range(routes.drop_last(), i);
        let rest = feeds_for(routes.drop_last(), i);
        if target_strip(routes.last().target@) == i {
            let f = feeds_for(routes, i);
            assert forall|j: int| 0 <= j < f.len() implies 0 <= (#[trigger] f[j]).level <= UNITY by {
                if j < rest.len() {
                    assert(f[j] == rest[j]);
                }
            }
        }
    }
}

/// Whatever the backend reports, strip gains, strip gates, application levels on
/// strips and bus gains stay in their ranges: applying any event keeps them there.
pub proof fn law_event_keeps_mix_in_range(old: SessionView, new: SessionView, event: BackendEvent)
    requires
        mix_in_range(old),
        event_applied(old, new, event),
    ensures
        mix_in_range(new),
{
    match event {
        BackendEvent::DevicesUpdated { input_devices, output_devices } => {
            let mid = SessionView { buses: old.buses, ..new };
            let a = SessionView { last_backend_error: old.last_backend_error, ..mid };
            let b = SessionView { last_backend_error: old.last_backend_error, ..new };
            assert forall|i: int| 0 <= i < new.strips.len() implies GAIN_MIN <= (#[trigger] new.strips[i]).gain_db <= GAIN_MAX
                && 0 <= new.strips[i].gate <= GATE_MAX && app_levels_in_range(new.strips[i].apps) by {
                assert(a.strips[i] == new.strips[i]);
                assert(strip_after_input_refresh(old.strips[i], a.strips[i], input_devices@));
            }
            assert forall|i: int| 0 <= i < new.buses.len() implies GAIN_MIN <= (#[trigger] new.buses[i]).gain_db <= GAIN_MAX by {
                assert(b.buses[i] == new.buses[i]);
                assert(bus_after_output_refresh(a.buses[i], b.buses[i], output_devices@));
            }
        },
        BackendEvent::AppRoutesUpdated { routes } => {
            let norm = routes@.map_values(|r: AppRouteState| normalized_route(r, old.app_routes));
            assert forall|i: int| 0 <= i < new.strips.len() implies GAIN_MIN <= (#[trigger] new.strips[i]).gain_db <= GAIN_MAX
                && 0 <= new.strips[i].gate <= GATE_MAX && app_levels_in_range(new.strips[i].apps) by {
                if !same_app_routes(old.app_routes, norm) {
                    assert(new.strips[i] == strip_with_feeds(old.strips[i], i, norm));
                    lemma_feeds_in_range(norm, i);
                    let base = if old.strips[i].endpoint_kind == EndpointKind::VirtualInput {
                        Seq::<AppFeedState>::empty()
                    } else {
                        old.strips[i].apps
                    };
                    let apps = base + feeds_for(norm, i);
                    assert(new.strips[i].apps == apps);
                    assert forall|j: int| 0 <= j < apps.len() implies 0 <= (#[trigger] apps[j]).level <= UNITY by {
                        if j < base.len() {
                            assert(apps[j] == base[j]);
                        } else {
                            assert(apps[j] == feeds_for(norm, i)[j - base.len()]);
                        }
                    }
                }
            }
        },
        BackendEvent::MetersUpdated { snapshot } => {
            assert forall|i: int| 0 <= i < new.strips.len() implies GAIN_MIN <= (#[trigger] new.strips[i]).gain_db <= GAIN_MAX
                && 0 <= new.strips[i].gate <= GATE_MAX && app_levels_in_range(new.strips[i].apps) by {
                assert(new.strips[i] == strip_with_meters(old.strips[i], i, snapshot@));
                let apps = new.strips[i].apps;
                assert forall|j: int| 0 <= j < apps.len() implies 0 <= (#[trigger] apps[j]).level <= UNITY by {
                    assert(apps[j].level == old.strips[i].apps[j].level);
                }
            }
            assert forall|i: int| 0 <= i < new.buses.len() implies GAIN_MIN <= (#[trigger] new.buses[i]).gain_db <= GAIN_MAX by {
                assert(new.buses[i] == bus_with_meters(old.buses[i], i, snapshot@));
            }
        },
        BackendEvent::StripGainChanged { strip_index, gain_db } => {
            assert forall|i: int| 0 <= i < new.strips.len() implies GAIN_MIN <= (#[trigger] new.strips[i]).gain_db <= GAIN_MAX
                && 0 <= new.strips[i].gate <= GATE_MAX && app_levels_in_range(new.strips[i].apps) by {
                if i != strip_index {
                    assert(new.strips[i] == old.strips[i]);
                }
            }
        },
        BackendEvent::StripGateChanged { strip_index, gate } => {
            assert forall|i: int| 0 <= i < new.strips.len() implies GAIN_MIN <= (#[trigger] new.strips[i]).gain_db <= GAIN_MAX
                && 0 <= new.strips[i].gate <= GATE_MAX && app_levels_in_range(new.strips[i].apps) by {
                if i != strip_index {
                    assert(new.strips[i] == old.strips[i]);
                }
            }
        },
        BackendEvent::BusGainChanged { bus_index, gain_db } => {
            assert forall|i: int| 0 <= i < new.buses.len() implies GAIN_MIN <= (#[trigger] new.buses[i]).gain_db <= GAIN_MAX by {
                if i != bus_index {
                    assert(new.buses[i] == old.buses[i]);
                }
            }
        },
        BackendEvent::StripDeviceChanged { strip_index, device_name } => {
            assert forall|i: int| 0 <= i < new.strips.len() implies GAIN_MIN <= (#[trigger] new.strips[i]).gain_db <= GAIN_MAX
                && 0 <= new.strips[i].gate <= GATE_MAX && app_levels_in_range(new.strips[i].apps) by {
                if i != strip_index {
                    assert(new.strips[i] == old.strips[i]);
                }
            }
        },
        BackendEvent::BusBindingChanged { bus_index, device_name } => {
            assert forall|i: int| 0 <= i < new.buses.len() implies GAIN_MIN <= (#[trigger] new.buses[i]).gain_db <= GAIN_MAX by {
                if i != bus_index {
                    assert(new.buses[i] == old.buses[i]);
                }
            }
        },
        BackendEvent::RouteChanged { strip_index, bus_index, enabled } => {
            assert forall|i: int| 0 <= i < new.strips.len() implies GAIN_MIN <= (#[trigger] new.strips[i]).gain_db <= GAIN_MAX
                && 0 <= new.strips[i].gate <= GATE_MAX && app_levels_in_range(new.strips[i].apps) by {
                if i != strip_index {
                    assert(new.strips[i] == old.strips[i]);
                }
            }
        },
        BackendEvent::StripMutedChanged { strip_index, .. } | BackendEvent::StripSoloChanged { strip_index, .. }
        | BackendEvent::StripMonoChanged { strip_index, .. } => {
            assert forall|i: int| 0 <= i < new.strips.len() implies GAIN_MIN <= (#[trigger] new.strips[i]).gain_db <= GAIN_MAX
                && 0 <= new.strips[i].gate <= GATE_MAX && app_levels_in_range(new.strips[i].apps) by {
                if i != strip_index {
                    assert(new.strips[i] == old.strips[i]);
                }
            }
        },
        BackendEvent::BusMutedChanged { bus_index, .. } => {
            assert forall|i: int| 0 <= i < new.buses.len() implies GAIN_MIN <= (#[trigger] new.buses[i]).gain_db <= GAIN_MAX by {
                if i != bus_index {
                    assert(new.buses[i] == old.buses[i]);
                }
            }
        },
        BackendEvent::VirtualAppLevelChanged { strip_index, app_index, level } => {
            assert forall|i: int| 0 <= i < new.strips.len() implies GAIN_MIN <= (#[trigger] new.strips[i]).gain_db <= GAIN_MAX
                && 0 <= new.strips[i].gate <= GATE_MAX && app_levels_in_range(new.strips[i].apps) by {
                if i != strip_index {
                    assert(new.strips[i] == old.strips[i]);
                } else if app_index < old.strips[i].apps.len() {
                    let apps = new.strips[i].apps;
                    assert forall|j: int| 0 <= j < apps.len() implies 0 <= (#[trigger] apps[j]).level <= UNITY by {
                        if j != app_index {
                            assert(apps[j] == old.strips[i].apps[j]);
                        }
                    }
                }
            }
        },
        BackendEvent::VirtualAppMutedChanged { strip_index, app_index, muted } => {
            assert forall|i: int| 0 <= i < new.strips.len() implies GAIN_MIN <= (#[trigger] new.strips[i]).gain_db <= GAIN_MAX
                && 0 <= new.strips[i].gate <= GATE_MAX && app_levels_in_range(new.strips[i].apps) by {
                if i != strip_index {
                    assert(new.strips[i] == old.strips[i]);
                } else if app_index < old.strips[i].apps.len() {
                    let apps = new.strips[i].apps;
                    assert forall|j: int| 0 <= j < apps.len() implies 0 <= (#[trigger] apps[j]).level <= UNITY by {
                        if j != app_index {
                            assert(apps[j] == old.strips[i].apps[j]);
                        }
                    }
                }
            }
        },
        _ => {},
    }
}

/// Over a whole run of reported events, strip gains, strip gates, application
/// levels on strips and bus gains stay in their ranges.
pub proof fn law_trace_keeps_mix_in_range(start: SessionView, events: Seq<BackendEvent>, trace: Seq<SessionView>)
    requires
        mix_in_range(start),
        is_event_trace(start, events, trace),
    ensures
        forall|k: int| 0 <= k < trace.len() ==> mix_in_range(#[trigger] trace[k]),
{
    assert forall|k: int| 0 <= k < trace.len() implies mix_in_range(#[trigger] trace[k]) by {
        lemma_trace_prefix_in_range(start, events, trace, k);
    }
}

proof fn lemma_trace_prefix_in_range(start: SessionView, events: Seq<BackendEvent>, trace: Seq<SessionView>, k: int)
    requires
        mix_in_range(start),
        is_event_trace(start, events, trace),
        0 <= k < trace.len(),
    ensures
        mix_in_range(trace[k]),
    decreases k,
{
    if k > 0 {
        lemma_trace_prefix_in_range(start, events, trace, k - 1);
        law_event_keeps_mix_in_range(trace[k - 1], trace[k], events[k - 1]);
    }
}

/// The saves that one dispatch asks for: sessions to queue, in order, and whether
/// what is queued must be written before going on.
pub struct DispatchSaves {
    pub queued: Vec<PersistedSession>,
    pub flush: bool,
}

/// The mixer's session, changed only by what the backend reports.
pub struct AppController {
    session: SessionState,
}

impl View for AppController {
    type V = SessionView;

    closed spec fn view(&self) -> SessionView {
        self.session@
    }
}

impl AppController {
    /// A controller over a session (the saved one, or the demonstration session).
    pub fn new(session: SessionState) -> (c: AppController)
        ensures
            c@ == session@,
    {
        AppController { session }
    }

    pub fn session(&self) -> (s: &SessionState)
        ensures
            s@ == self@,
    {
        &self.session
    }

    /// Switches quick routing and returns the save that this asks for.
    pub fn set_quick_route_enabled(&mut self, enabled: bool) -> (save: PersistedSession)
        ensures
            final(self)@ == (SessionView { quick_route_enabled: enabled, ..old(self)@ }),
            save@ == persisted_of(final(self)@),
    {
        self.session.set_quick_route_enabled(enabled);
        PersistedSession::from_session(&self.session)
    }

    /// Applies the events that the backend reported for `command`, in order, and
    /// says which saves this asks for: a shutdown asks for queued saves to be
    /// written at once (see [`dispatch_saves`]).
    pub fn dispatch(&mut self, command: &BackendCommand, events: Vec<BackendEvent>) -> (saves: DispatchSaves)
        ensures
            exists|trace: Seq<SessionView>| {
                &&& #[trigger] is_event_trace(old(self)@, events@, trace)
                &&& trace.last() == final(self)@
                &&& saves.queued@.map_values(|p: PersistedSession| p@) == dispatch_saves(*command, trace, events@)
            },
            saves.flush == (*command matches BackendCommand::Shutdown),
    {
        let is_shutdown = match command {
            BackendCommand::Shutdown => true,
            _ => false,
        };
        let should_persist = should_persist_command(command);
        let mut queued: Vec<PersistedSession> = Vec::new();
        let mut remaining = events;
        let ghost all = remaining@;
        let total = remaining.len();
        let ghost mut trace: Seq<SessionView> = seq![self@];
        let mut k: usize = 0;
        while remaining.len() > 0
            invariant
                k <= all.len(),
                total == all.len(),
                remaining@ == all.skip(k as int),
                trace.len() == k + 1,
                trace[0] == old(self)@,
                trace.last() == self@,
                forall|j: int| 0 <= j < k ==> event_applied(trace[j], trace[j + 1], #[trigger] all[j]),
                queued@.map_values(|p: PersistedSession| p@) == event_saves(trace, all, k as int),
            decreases remaining@.len(),
        {
            let event = remaining.remove(0);
            assert(event == all[k as int]);
            let ghost before = self@;
            let ghost old_trace = trace;
            let save = self.apply_event(event);
            proof {
                trace = trace.push(self@);
                assert forall|j: int| 0 <= j < k + 1 implies event_applied(trace[j], trace[j + 1], #[trigger] all[j]) by {
                    if j < k {
                        assert(trace[j] == old_trace[j]);
                        assert(trace[j + 1] == old_trace[j + 1]);
                    }
                }
                assert(remaining@ =~= all.skip(k + 1));
                assert forall|j: int| 0 <= j <= k implies #[trigger] trace[j] == old_trace[j] by {}
            }
            if save {
                queued.push(PersistedSession::from_session(&self.session));
            }
            proof {
                assert(event_saves(old_trace, all, k as int) == event_saves(trace, all, k as int)) by {
                    lemma_event_saves_extend(old_trace, trace, all, k as int);
                }
                assert(queued@.map_values(|p: PersistedSession| p@) =~= event_saves(trace, all, k + 1));
            }
            k = k + 1;
        }
        assert(all.skip(k as int).len() == 0);
        if !is_shutdown && should_persist {
            queued.push(PersistedSession::from_session(&self.session));
            assert(queued@.map_values(|p: PersistedSession| p@) =~= dispatch_saves(*command, trace, all));
        } else {
            assert(queued@.map_values(|p: PersistedSession| p@) =~= dispatch_saves(*command, trace, all));
        }
        assert(is_event_trace(old(self)@, events@, trace));
        DispatchSaves { queued, flush: is_shutdown }
    }

    /// Applies one reported event to the session; tells whether it asks for a save.
    pub fn apply_event(&mut self, event: BackendEvent) -> (save: bool)
        ensures
            event_applied(old(self)@, final(self)@, event),
            save == event_requests_save(old(self)@, event),
    {
        match event {
            BackendEvent::DevicesUpdated { input_devices, output_devices } => {
                self.session.set_strip_device_options(input_devices.as_slice());
                self.session.set_bus_device_options(output_devices.as_slice());
                self.session.clear_backend_error();
                false
            },
            BackendEvent::VirtualEndpointsReady { ready } => {
                self.session.set_virtual_endpoints_ready(ready);
                false
            },
            BackendEvent::RouteChanged { strip_index, bus_index, enabled } => {
                self.session.set_route_enabled(strip_index, bus_index, enabled);
                false
            },
            BackendEvent::StripGainChanged { strip_index, gain_db } => {
                self.session.set_strip_gain(strip_index, gain_db);
                false
            },
            BackendEvent::StripGateChanged { strip_index, gate } => {
                self.session.set_strip_gate(strip_index, gate);
                false
            },
            BackendEvent::BusGainChanged { bus_index, gain_db } => {
                self.session.set_bus_gain(bus_index, gain_db);
                false
            },
            BackendEvent::StripMutedChanged { strip_index, muted } => {
                self.session.set_strip_muted(strip_index, muted);
                false
            },
            BackendEvent::StripSoloChanged { strip_index, solo } => {
                self.session.set_strip_solo(strip_index, solo);
                false
            },
            BackendEvent::StripMonoChanged { strip_index, mono } => {
                self.session.set_strip_mono(strip_index, mono);
                false
            },
            BackendEvent::BusMutedChanged { bus_index, muted } => {
                self.session.set_bus_muted(bus_index, muted);
                false
            },
            BackendEvent::StripDeviceChanged { strip_index, device_name } => {
                self.session.set_strip_device(strip_index, device_name.as_str());
                false
            },
            BackendEvent::BusBindingChanged { bus_index, device_name } => {
                self.session.set_bus_device(bus_index, device_name.as_str());
                false
            },
            BackendEvent::VirtualAppLevelChanged { strip_index, app_index, level } => {
                self.session.set_virtual_app_level(strip_index, app_index, level);
                false
            },
            BackendEvent::VirtualAppMutedChanged { strip_index, app_index, muted } => {
                self.session.set_virtual_app_muted(strip_index, app_index, muted);
                false
            },
            BackendEvent::AppRoutesUpdated { routes } => self.session.set_app_routes(routes),
            BackendEvent::MetersUpdated { snapshot } => {
                self.session.set_meters(&snapshot);
                false
            },
            BackendEvent::BackendError { message } => {
                self.session.set_backend_error(message);
                false
            },
            BackendEvent::ConnectionStateChanged { connected } => {
                self.session.set_connection_state(connected);
                if connected {
                    self.session.clear_backend_error();
                }
                false
            },
        }
    }
}

} // verus!
