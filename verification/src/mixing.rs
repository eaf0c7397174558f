//! How a mixing command changes the session before the backend carries it out:
//! the change it reports, the session that the backend then brings the audio
//! graph in line with, and what part of the graph that concerns.
use vstd::prelude::*;
use crate::backend::{BackendCommand, BackendEvent};
use crate::model::{clamp, clamp_i32, AppFeedState, RouteState, SessionState, SessionView, GAIN_MAX, GAIN_MIN, GATE_MAX, UNITY};
use crate::controller::event_applied;

verus! {

/// The part of the audio graph that a change concerns.
#[derive(Debug, PartialEq, Eq, Structural)]
pub enum MixSync {
    /// Nothing beyond the meters.
    Nothing,
    /// The volume and mute of one strip's nodes.
    Strip { strip_index: usize },
    /// The volume and mute of every strip's nodes.
    AllStrips,
    /// The volume and mute of one bus's node.
    Bus { bus_index: usize },
    /// The links of one strip's routes.
    StripRoutes { strip_index: usize },
    /// The links of one route.
    Route { strip_index: usize, bus_index: usize },
    /// The volume, mute and route links of one strip.
    StripAndRoutes { strip_index: usize },
}

/// A mixing command's effect: what it reports, the session with it applied, the
/// part of the graph to bring in line with that session, and whether the meters
/// that follow read that session (or the one before it).
pub struct MixChange {
    pub event: BackendEvent,
    pub session: SessionState,
    pub sync: MixSync,
    pub meter_updated: bool,
}

/// The new state of a route that is toggled: the opposite of its state, or off
/// where it does not exist.
pub open spec fn toggled_route(s: SessionView, si: int, bi: int) -> bool {
    if 0 <= si < s.strips.len() && 0 <= bi < s.strips[si].routes.len() {
        !s.strips[si].routes[bi].enabled
    } else {
        false
    }
}

/// A strip's mute toggled, or off where it does not exist.
pub open spec fn toggled_strip_muted(s: SessionView, si: int) -> bool {
    0 <= si < s.strips.len() && !s.strips[si].muted
}

/// A strip's solo toggled, or off where it does not exist.
pub open spec fn toggled_strip_solo(s: SessionView, si: int) -> bool {
    0 <= si < s.strips.len() && !s.strips[si].solo
}

/// A strip's mono toggled, or off where it does not exist.
pub open spec fn toggled_strip_mono(s: SessionView, si: int) -> bool {
    0 <= si < s.strips.len() && !s.strips[si].mono
}

/// A bus's mute toggled, or off where it does not exist.
pub open spec fn toggled_bus_muted(s: SessionView, bi: int) -> bool {
    0 <= bi < s.buses.len() && !s.buses[bi].muted
}

/// The mute of an application fed into a strip toggled, or off where it does not exist.
pub open spec fn toggled_app_muted(s: SessionView, si: int, ai: int) -> bool {
    0 <= si < s.strips.len() && 0 <= ai < s.strips[si].apps.len() && !s.strips[si].apps[ai].muted
}

/// A gain limited to `GAIN_MIN..=GAIN_MAX`.
pub open spec fn clamped_gain(g: i32) -> i32 {
    clamp(g as int, GAIN_MIN as int, GAIN_MAX as int) as i32
}

/// What a mixing command does (see [`MixChange`]); no change for the commands
/// that the backend carries out otherwise. Gains, gates and levels are limited
/// to their ranges before they are reported.
pub fn mix_change(session: &SessionState, command: &BackendCommand) -> (r: Option<MixChange>)
    ensures
        match *command {
            BackendCommand::ToggleRoute { strip_index, bus_index } => {
                let e = toggled_route(session@, strip_index as int, bus_index as int);
                r matches Some(ch) && ch.event == (BackendEvent::RouteChanged { strip_index, bus_index, enabled: e })
                    && ch.session@ == session@.with_route_enabled(strip_index as int, bus_index as int, e)
                    && ch.sync == (MixSync::Route { strip_index, bus_index }) && ch.meter_updated
            },
            BackendCommand::SetStripGain { strip_index, gain_db } => {
                let g = clamped_gain(gain_db);
                r matches Some(ch) && ch.event == (BackendEvent::StripGainChanged { strip_index, gain_db: g })
                    && ch.session@ == session@.with_strip_gain(strip_index as int, g)
                    && ch.sync == (MixSync::Strip { strip_index }) && ch.meter_updated
            },
            BackendCommand::SetStripGate { strip_index, gate } => {
                let g = clamp(gate as int, 0, GATE_MAX as int) as i32;
                r matches Some(ch) && ch.event == (BackendEvent::StripGateChanged { strip_index, gate: g })
                    && ch.session@ == session@.with_strip_gate(strip_index as int, g)
                    && ch.sync == MixSync::Nothing && ch.meter_updated
            },
            BackendCommand::SetBusGain { bus_index, gain_db } => {
                let g = clamped_gain(gain_db);
                r matches Some(ch) && ch.event == (BackendEvent::BusGainChanged { bus_index, gain_db: g })
                    && ch.session@ == session@.with_bus_gain(bus_index as int, g)
                    && ch.sync == (MixSync::Bus { bus_index }) && ch.meter_updated
            },
            BackendCommand::ToggleStripMuted { strip_index } => {
                let m = toggled_strip_muted(session@, strip_index as int);
                r matches Some(ch) && ch.event == (BackendEvent::StripMutedChanged { strip_index, muted: m })
                    && ch.session@ == session@.with_strip_muted(strip_index as int, m)
                    && ch.sync == MixSync::AllStrips && ch.meter_updated
            },
            BackendCommand::ToggleStripSolo { strip_index } => {
                let m = toggled_strip_solo(session@, strip_index as int);
                r matches Some(ch) && ch.event == (BackendEvent::StripSoloChanged { strip_index, solo: m })
                    && ch.session@ == session@.with_strip_solo(strip_index as int, m)
                    && ch.sync == MixSync::AllStrips && ch.meter_updated
            },
            BackendCommand::ToggleStripMono { strip_index } => {
                let m = toggled_strip_mono(session@, strip_index as int);
                r matches Some(ch) && ch.event == (BackendEvent::StripMonoChanged { strip_index, mono: m })
                    && ch.session@ == session@.with_strip_mono(strip_index as int, m)
                    && ch.sync == (MixSync::StripRoutes { strip_index }) && ch.meter_updated
            },
            BackendCommand::ToggleBusMuted { bus_index } => {
                let m = toggled_bus_muted(session@, bus_index as int);
                r matches Some(ch) && ch.event == (BackendEvent::BusMutedChanged { bus_index, muted: m })
                    && ch.session@ == session@.with_bus_muted(bus_index as int, m)
                    && ch.sync == (MixSync::Bus { bus_index }) && ch.meter_updated
            },
            BackendCommand::SetStripDevice { strip_index, device_name } => {
                r matches Some(ch) && ch.event == (BackendEvent::StripDeviceChanged { strip_index, device_name })
                    && session@.strip_device_set(ch.session@, strip_index as int, device_name@)
                    && ch.sync == (MixSync::StripAndRoutes { strip_index }) && !ch.meter_updated
            },
            BackendCommand::SetVirtualAppLevel { strip_index, app_index, level } => {
                let l = clamp(level as int, 0, UNITY as int) as i32;
                r matches Some(ch) && ch.event == (BackendEvent::VirtualAppLevelChanged { strip_index, app_index, level: l })
                    && ch.session@ == session@.with_app_level(strip_index as int, app_index as int, l)
                    && ch.sync == MixSync::Nothing && ch.meter_updated
            },
            BackendCommand::ToggleVirtualAppMuted { strip_index, app_index } => {
                let m = toggled_app_muted(session@, strip_index as int, app_index as int);
                r matches Some(ch) && ch.event == (BackendEvent::VirtualAppMutedChanged { strip_index, app_index, muted: m })
                    && ch.session@ == session@.with_app_muted(strip_index as int, app_index as int, m)
                    && ch.sync == MixSync::Nothing && ch.meter_updated
            },
            _ => r is None,
        },
        r matches Some(ch) ==> event_applied(session@, ch.session@, ch.event),
{
    match command {
        BackendCommand::ToggleRoute { strip_index, bus_index } => {
            let (si, bi) = (*strip_index, *bus_index);
            let enabled = if si < session.strips.len() && bi < session.strips[si].routes.len() {
                !session.strips[si].routes[bi].enabled
            } else {
                false
            };
            proof {
                if si < session@.strips.len() {
                    assert(session@.strips[si as int] == session.strips@[si as int]@);
                }
            }
            let mut temp = session.clone();
            temp.set_route_enabled(si, bi, enabled);
            Some(MixChange {
                event: BackendEvent::RouteChanged { strip_index: si, bus_index: bi, enabled },
                session: temp,
                sync: MixSync::Route { strip_index: si, bus_index: bi },
                meter_updated: true,
            })
        },
        BackendCommand::SetStripGain { strip_index, gain_db } => {
            let g = clamp_i32(*gain_db, GAIN_MIN, GAIN_MAX);
            let mut temp = session.clone();
            temp.set_strip_gain(*strip_index, g);
            Some(MixChange {
                event: BackendEvent::StripGainChanged { strip_index: *strip_index, gain_db: g },
                session: temp,
                sync: MixSync::Strip { strip_index: *strip_index },
                meter_updated: true,
            })
        },
        BackendCommand::SetStripGate { strip_index, gate } => {
            let g = clamp_i32(*gate, 0, GATE_MAX);
            let mut temp = session.clone();
            temp.set_strip_gate(*strip_index, g);
            Some(MixChange {
                event: BackendEvent::StripGateChanged { strip_index: *strip_index, gate: g },
                session: temp,
                sync: MixSync::Nothing,
                meter_updated: true,
            })
        },
        BackendCommand::SetBusGain { bus_index, gain_db } => {
            let g = clamp_i32(*gain_db, GAIN_MIN, GAIN_MAX);
            let mut temp = session.clone();
            temp.set_bus_gain(*bus_index, g);
            Some(MixChange {
                event: BackendEvent::BusGainChanged { bus_index: *bus_index, gain_db: g },
                session: temp,
                sync: MixSync::Bus { bus_index: *bus_index },
                meter_updated: true,
            })
        },
        BackendCommand::ToggleStripMuted { strip_index } => {
            let si = *strip_index;
            let muted = si < session.strips.len() && !session.strips[si].muted;
            proof {
                if si < session@.strips.len() {
                    assert(session@.strips[si as int] == session.strips@[si as int]@);
                }
            }
            let mut temp = session.clone();
            temp.set_strip_muted(si, muted);
            Some(MixChange {
                event: BackendEvent::StripMutedChanged { strip_index: si, muted },
                session: temp,
                sync: MixSync::AllStrips,
                meter_updated: true,
            })
        },
        BackendCommand::ToggleStripSolo { strip_index } => {
            let si = *strip_index;
            let solo = si < session.strips.len() && !session.strips[si].solo;
            proof {
                if si < session@.strips.len() {
                    assert(session@.strips[si as int] == session.strips@[si as int]@);
                }
            }
            let mut temp = session.clone();
            temp.set_strip_solo(si, solo);
            Some(MixChange {
                event: BackendEvent::StripSoloChanged { strip_index: si, solo },
                session: temp,
                sync: MixSync::AllStrips,
                meter_updated: true,
            })
        },
        BackendCommand::ToggleStripMono { strip_index } => {
            let si = *strip_index;
            let mono = si < session.strips.len() && !session.strips[si].mono;
            proof {
                if si < session@.strips.len() {
                    assert(session@.strips[si as int] == session.strips@[si as int]@);
                }
            }
            let mut temp = session.clone();
            temp.set_strip_mono(si, mono);
            Some(MixChange {
                event: BackendEvent::StripMonoChanged { strip_index: si, mono },
                session: temp,
                sync: MixSync::StripRoutes { strip_index: si },
                meter_updated: true,
            })
        },
        BackendCommand::ToggleBusMuted { bus_index } => {
            let bi = *bus_index;
            let muted = bi < session.buses.len() && !session.buses[bi].muted;
            proof {
                if bi < session@.buses.len() {
                    assert(session@.buses[bi as int] == session.buses@[bi as int]@);
                }
            }
            let mut temp = session.clone();
            temp.set_bus_muted(bi, muted);
            Some(MixChange {
                event: BackendEvent::BusMutedChanged { bus_index: bi, muted },
                session: temp,
                sync: MixSync::Bus { bus_index: bi },
                meter_updated: true,
            })
        },
        BackendCommand::SetStripDevice { strip_index, device_name } => {
            let mut temp = session.clone();
            temp.set_strip_device(*strip_index, device_name.as_str());
            Some(MixChange {
                event: BackendEvent::StripDeviceChanged { strip_index: *strip_index, device_name: device_name.clone() },
                session: temp,
                sync: MixSync::StripAndRoutes { strip_index: *strip_index },
                meter_updated: false,
            })
        },
        BackendCommand::SetVirtualAppLevel { strip_index, app_index, level } => {
            let l = clamp_i32(*level, 0, UNITY);
            let mut temp = session.clone();
            temp.set_virtual_app_level(*strip_index, *app_index, l);
            Some(MixChange {
                event: BackendEvent::VirtualAppLevelChanged { strip_index: *strip_index, app_index: *app_index, level: l },
                session: temp,
                sync: MixSync::Nothing,
                meter_updated: true,
            })
        },
        BackendCommand::ToggleVirtualAppMuted { strip_index, app_index } => {
            let (si, ai) = (*strip_index, *app_index);
            let muted = si < session.strips.len() && ai < session.strips[si].apps.len() && !session.strips[si].apps[ai].muted;
            proof {
                if si < session@.strips.len() {
                    assert(session@.strips[si as int] == session.strips@[si as int]@);
                }
            }
            let mut temp = session.clone();
            temp.set_virtual_app_muted(si, ai, muted);
            Some(MixChange {
                event: BackendEvent::VirtualAppMutedChanged { strip_index: si, app_index: ai, muted },
                session: temp,
                sync: MixSync::Nothing,
                meter_updated: true,
            })
        },
        _ => None,
    }
}

/// What a preview of a gain does: the session with the gain applied (limited to
/// its range) that the graph is brought in line with, and the part concerned.
/// Nothing is reported and nothing is kept. No preview for other commands.
pub fn preview_change(session: &SessionState, command: &BackendCommand) -> (r: Option<(SessionState, MixSync)>)
    ensures
        match *command {
            BackendCommand::PreviewStripGain { strip_index, gain_db } => r matches Some((t, sync))
                && t@ == session@.with_strip_gain(strip_index as int, clamped_gain(gain_db))
                && sync == (MixSync::Strip { strip_index }),
            BackendCommand::PreviewBusGain { bus_index, gain_db } => r matches Some((t, sync))
                && t@ == session@.with_bus_gain(bus_index as int, clamped_gain(gain_db))
                && sync == (MixSync::Bus { bus_index }),
            _ => r is None,
        },
{
    match command {
        BackendCommand::PreviewStripGain { strip_index, gain_db } => {
            let mut temp = session.clone();
            temp.set_strip_gain(*strip_index, clamp_i32(*gain_db, GAIN_MIN, GAIN_MAX));
            Some((temp, MixSync::Strip { strip_index: *strip_index }))
        },
        BackendCommand::PreviewBusGain { bus_index, gain_db } => {
            let mut temp = session.clone();
            temp.set_bus_gain(*bus_index, clamp_i32(*gain_db, GAIN_MIN, GAIN_MAX));
            Some((temp, MixSync::Bus { bus_index: *bus_index }))
        },
        _ => None,
    }
}

/// Toggling twice gives the session back: a route, a strip's mute, solo and
/// mono, a bus's mute and an application's mute, each toggled and toggled again
/// (whether or not the strip, bus or application exists).
pub proof fn law_toggle_twice(s: SessionView, si: int, bi: int, ai: int)
    ensures
        ({
            let t = s.with_route_enabled(si, bi, toggled_route(s, si, bi));
            t.with_route_enabled(si, bi, toggled_route(t, si, bi)) == s
        }),
        ({
            let t = s.with_strip_muted(si, toggled_strip_muted(s, si));
            t.with_strip_muted(si, toggled_strip_muted(t, si)) == s
        }),
        ({
            let t = s.with_strip_solo(si, toggled_strip_solo(s, si));
            t.with_strip_solo(si, toggled_strip_solo(t, si)) == s
        }),
        ({
            let t = s.with_strip_mono(si, toggled_strip_mono(s, si));
            t.with_strip_mono(si, toggled_strip_mono(t, si)) == s
        }),
        ({
            let t = s.with_bus_muted(bi, toggled_bus_muted(s, bi));
            t.with_bus_muted(bi, toggled_bus_muted(t, bi)) == s
        }),
        ({
            let t = s.with_app_muted(si, ai, toggled_app_muted(s, si, ai));
            t.with_app_muted(si, ai, toggled_app_muted(t, si, ai)) == s
        }),
{
    if 0 <= si < s.strips.len() {
        let x = s.strips[si];
        let t = s.with_strip_muted(si, toggled_strip_muted(s, si));
        assert(t.with_strip_muted(si, toggled_strip_muted(t, si)).strips =~= s.strips);
        let t = s.with_strip_solo(si, toggled_strip_solo(s, si));
        assert(t.with_strip_solo(si, toggled_strip_solo(t, si)).strips =~= s.strips);
        let t = s.with_strip_mono(si, toggled_strip_mono(s, si));
        assert(t.with_strip_mono(si, toggled_strip_mono(t, si)).strips =~= s.strips);
        if 0 <= bi < x.routes.len() {
            let t = s.with_route_enabled(si, bi, toggled_route(s, si, bi));
            assert(t.strips[si].routes =~= x.routes.update(bi, RouteState { enabled: !x.routes[bi].enabled, ..x.routes[bi] }));
            assert(t.with_route_enabled(si, bi, toggled_route(t, si, bi)).strips[si].routes =~= x.routes);
            assert(t.with_route_enabled(si, bi, toggled_route(t, si, bi)).strips =~= s.strips);
        }
        if 0 <= ai < x.apps.len() {
            let t = s.with_app_muted(si, ai, toggled_app_muted(s, si, ai));
            assert(t.strips[si].apps =~= x.apps.update(ai, AppFeedState { muted: !x.apps[ai].muted, ..x.apps[ai] }));
            assert(t.with_app_muted(si, ai, toggled_app_muted(t, si, ai)).strips[si].apps =~= x.apps);
            assert(t.with_app_muted(si, ai, toggled_app_muted(t, si, ai)).strips =~= s.strips);
        }
    }
    if 0 <= bi < s.buses.len() {
        let t = s.with_bus_muted(bi, toggled_bus_muted(s, bi));
        assert(t.with_bus_muted(bi, toggled_bus_muted(t, bi)).buses =~= s.buses);
    }
}

} // verus!
