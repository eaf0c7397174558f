//! What the user interface asks of the mixer, and what it shows of it.
use vstd::prelude::*;
use crate::backend::BackendCommand;
use crate::controller::AppController;
use crate::model::SessionState;
use crate::text::str_eq;

verus! {

/// A request from the user interface. Indices and ids come signed from it; gains
/// are in thousandths of a dB, gates and levels in thousandths.
pub enum UiRequest {
    ToggleStripRoute { strip_index: i32, bus_index: i32 },
    SetStripGain { strip_index: i32, gain_db: i32 },
    SetStripGate { strip_index: i32, gate: i32 },
    PreviewStripGain { strip_index: i32, gain_db: i32 },
    SetBusGain { bus_index: i32, gain_db: i32 },
    PreviewBusGain { bus_index: i32, gain_db: i32 },
    PreviewAppLevel { app_id: i32, level: i32 },
    ToggleStripMuted { strip_index: i32 },
    ToggleStripSolo { strip_index: i32 },
    ToggleStripMono { strip_index: i32 },
    ToggleBusMuted { bus_index: i32 },
    SetStripDevice { strip_index: i32, device_name: String },
    SetBusDevice { bus_index: i32, device_name: String },
    SetVirtualAppLevel { strip_index: i32, app_index: i32, level: i32 },
    ToggleVirtualAppMuted { strip_index: i32, app_index: i32 },
    RefreshDemoLevels,
    RefreshAppRoutes,
    SetAppRoute { app_id: i32, target: String },
    SetAppLevel { app_id: i32, level: i32 },
    ToggleAppMuted { app_id: i32 },
}

/// The command that a request leads to, and what the interface shows again after
/// it: the session's state, its meters, or both.
pub struct UiDispatch {
    pub command: BackendCommand,
    pub refresh_state: bool,
    pub refresh_meters: bool,
}

/// A dispatch that shows state and meters again.
pub open spec fn full(d: UiDispatch, c: BackendCommand) -> bool {
    d.command == c && d.refresh_state && d.refresh_meters
}

/// A dispatch that shows nothing again.
pub open spec fn quiet(d: UiDispatch, c: BackendCommand) -> bool {
    d.command == c && !d.refresh_state && !d.refresh_meters
}

fn full_dispatch(command: BackendCommand) -> (d: UiDispatch)
    ensures
        full(d, command),
{
    UiDispatch { command, refresh_state: true, refresh_meters: true }
}

fn quiet_dispatch(command: BackendCommand) -> (d: UiDispatch)
    ensures
        quiet(d, command),
{
    UiDispatch { command, refresh_state: false, refresh_meters: false }
}

/// The dispatch of a user request: none when an index or id is negative;
/// previews show nothing again, refreshing the levels shows only the meters,
/// everything else shows state and meters.
pub fn dispatch_for(request: UiRequest) -> (r: Option<UiDispatch>)
    ensures
        match request {
            UiRequest::ToggleStripRoute { strip_index, bus_index } => if strip_index < 0 || bus_index < 0 {
                r is None
            } else {
                r matches Some(d) && full(d, BackendCommand::ToggleRoute { strip_index: strip_index as usize, bus_index: bus_index as usize })
            },
            UiRequest::SetStripGain { strip_index, gain_db } => if strip_index < 0 {
                r is None
            } else {
                r matches Some(d) && full(d, BackendCommand::SetStripGain { strip_index: strip_index as usize, gain_db })
            },
            UiRequest::SetStripGate { strip_index, gate } => if strip_index < 0 {
                r is None
            } else {
                r matches Some(d) && full(d, BackendCommand::SetStripGate { strip_index: strip_index as usize, gate })
            },
            UiRequest::PreviewStripGain { strip_index, gain_db } => if strip_index < 0 {
                r is None
            } else {
                r matches Some(d) && quiet(d, BackendCommand::PreviewStripGain { strip_index: strip_index as usize, gain_db })
            },
            UiRequest::SetBusGain { bus_index, gain_db } => if bus_index < 0 {
                r is None
            } else {
                r matches Some(d) && full(d, BackendCommand::SetBusGain { bus_index: bus_index as usize, gain_db })
            },
            UiRequest::PreviewBusGain { bus_index, gain_db } => if bus_index < 0 {
                r is None
            } else {
                r matches Some(d) && quiet(d, BackendCommand::PreviewBusGain { bus_index: bus_index as usize, gain_db })
            },
            UiRequest::PreviewAppLevel { app_id, level } => if app_id < 0 {
                r is None
            } else {
                r matches Some(d) && quiet(d, BackendCommand::PreviewAppLevel { app_id: app_id as u32, level })
            },
            UiRequest::ToggleStripMuted { strip_index } => if strip_index < 0 {
                r is None
            } else {
                r matches Some(d) && full(d, BackendCommand::ToggleStripMuted { strip_index: strip_index as usize })
            },
            UiRequest::ToggleStripSolo { strip_index } => if strip_index < 0 {
                r is None
            } else {
                r matches Some(d) && full(d, BackendCommand::ToggleStripSolo { strip_index: strip_index as usize })
            },
            UiRequest::ToggleStripMono { strip_index } => if strip_index < 0 {
                r is None
            } else {
                r matches Some(d) && full(d, BackendCommand::ToggleStripMono { strip_index: strip_index as usize })
            },
            UiRequest::ToggleBusMuted { bus_index } => if bus_index < 0 {
                r is None
            } else {
                r matches Some(d) && full(d, BackendCommand::ToggleBusMuted { bus_index: bus_index as usize })
            },
            UiRequest::SetStripDevice { strip_index, device_name } => if strip_index < 0 {
                r is None
            } else {
                r matches Some(d) && full(d, BackendCommand::SetStripDevice { strip_index: strip_index as usize, device_name })
            },
            UiRequest::SetBusDevice { bus_index, device_name } => if bus_index < 0 {
                r is None
            } else {
                r matches Some(d) && full(d, BackendCommand::SetBusDevice { bus_index: bus_index as usize, device_name })
            },
            UiRequest::SetVirtualAppLevel { strip_index, app_index, level } => if strip_index < 0 || app_index < 0 {
                r is None
            } else {
                r matches Some(d) && full(d, BackendCommand::SetVirtualAppLevel {
                    strip_index: strip_index as usize,
                    app_index: app_index as usize,
                    level,
                })
            },
            UiRequest::ToggleVirtualAppMuted { strip_index, app_index } => if strip_index < 0 || app_index < 0 {
                r is None
            } else {
                r matches Some(d) && full(d, BackendCommand::ToggleVirtualAppMuted {
                    strip_index: strip_index as usize,
                    app_index: app_index as usize,
                })
            },
            UiRequest::RefreshDemoLevels => r matches Some(d) && d.command == BackendCommand::RefreshMeters
                && !d.refresh_state && d.refresh_meters,
            UiRequest::RefreshAppRoutes => r matches Some(d) && full(d, BackendCommand::RefreshAppRoutes),
            UiRequest::SetAppRoute { app_id, target } => if app_id < 0 {
                r is None
            } else {
                r matches Some(d) && full(d, BackendCommand::SetAppRoute { app_id: app_id as u32, target })
            },
            UiRequest::SetAppLevel { app_id, level } => if app_id < 0 {
                r is None
            } else {
                r matches Some(d) && full(d, BackendCommand::SetAppLevel { app_id: app_id as u32, level })
            },
            UiRequest::ToggleAppMuted { app_id } => if app_id < 0 {
                r is None
            } else {
                r matches Some(d) && full(d, BackendCommand::ToggleAppMuted { app_id: app_id as u32 })
            },
        },
{
    match request {
        UiRequest::ToggleStripRoute { strip_index, bus_index } => {
            if strip_index < 0 || bus_index < 0 {
                return None;
            }
            Some(full_dispatch(BackendCommand::ToggleRoute { strip_index: strip_index as usize, bus_index: bus_index as usize }))
        },
        UiRequest::SetStripGain { strip_index, gain_db } => {
            if strip_index < 0 {
                return None;
            }
            Some(full_dispatch(BackendCommand::SetStripGain { strip_index: strip_index as usize, gain_db }))
        },
        UiRequest::SetStripGate { strip_index, gate } => {
            if strip_index < 0 {
                return None;
            }
            Some(full_dispatch(BackendCommand::SetStripGate { strip_index: strip_index as usize, gate }))
        },
        UiRequest::PreviewStripGain { strip_index, gain_db } => {
            if strip_index < 0 {
                return None;
            }
            Some(quiet_dispatch(BackendCommand::PreviewStripGain { strip_index: strip_index as usize, gain_db }))
        },
        UiRequest::SetBusGain { bus_index, gain_db } => {
            if bus_index < 0 {
                return None;
            }
            Some(full_dispatch(BackendCommand::SetBusGain { bus_index: bus_index as usize, gain_db }))
        },
        UiRequest::PreviewBusGain { bus_index, gain_db } => {
            if bus_index < 0 {
                return None;
            }
            Some(quiet_dispatch(BackendCommand::PreviewBusGain { bus_index: bus_index as usize, gain_db }))
        },
        UiRequest::PreviewAppLevel { app_id, level } => {
            if app_id < 0 {
                return None;
            }
            Some(quiet_dispatch(BackendCommand::PreviewAppLevel { app_id: app_id as u32, level }))
        },
        UiRequest::ToggleStripMuted { strip_index } => {
            if strip_index < 0 {
                return None;
            }
            Some(full_dispatch(BackendCommand::ToggleStripMuted { strip_index: strip_index as usize }))
        },
        UiRequest::ToggleStripSolo { strip_index } => {
            if strip_index < 0 {
                return None;
            }
            Some(full_dispatch(BackendCommand::ToggleStripSolo { strip_index: strip_index as usize }))
        },
        UiRequest::ToggleStripMono { strip_index } => {
            if strip_index < 0 {
                return None;
            }
            Some(full_dispatch(BackendCommand::ToggleStripMono { strip_index: strip_index as usize }))
        },
        UiRequest::ToggleBusMuted { bus_index } => {
            if bus_index < 0 {
                return None;
            }
            Some(full_dispatch(BackendCommand::ToggleBusMuted { bus_index: bus_index as usize }))
        },
        UiRequest::SetStripDevice { strip_index, device_name } => {
            if strip_index < 0 {
                return None;
            }
            Some(full_dispatch(BackendCommand::SetStripDevice { strip_index: strip_index as usize, device_name }))
        },
        UiRequest::SetBusDevice { bus_index, device_name } => {
            if bus_index < 0 {
                return None;
            }
            Some(full_dispatch(BackendCommand::SetBusDevice { bus_index: bus_index as usize, device_name }))
        },
        UiRequest::SetVirtualAppLevel { strip_index, app_index, level } => {
            if strip_index < 0 || app_index < 0 {
                return None;
            }
            Some(full_dispatch(BackendCommand::SetVirtualAppLevel {
                strip_index: strip_index as usize,
                app_index: app_index as usize,
                level,
            }))
        },
        UiRequest::ToggleVirtualAppMuted { strip_index, app_index } => {
            if strip_index < 0 || app_index < 0 {
                return None;
            }
            Some(full_dispatch(BackendCommand::ToggleVirtualAppMuted {
                strip_index: strip_index as usize,
                app_index: app_index as usize,
            }))
        },
        UiRequest::RefreshDemoLevels => Some(UiDispatch {
            command: BackendCommand::RefreshMeters,
            refresh_state: false,
            refresh_meters: true,
        }),
        UiRequest::RefreshAppRoutes => Some(full_dispatch(BackendCommand::RefreshAppRoutes)),
        UiRequest::SetAppRoute { app_id, target } => {
            if app_id < 0 {
                return None;
            }
            Some(full_dispatch(BackendCommand::SetAppRoute { app_id: app_id as u32, target }))
        },
        UiRequest::SetAppLevel { app_id, level } => {
            if app_id < 0 {
                return None;
            }
            Some(full_dispatch(BackendCommand::SetAppLevel { app_id: app_id as u32, level }))
        },
        UiRequest::ToggleAppMuted { app_id } => {
            if app_id < 0 {
                return None;
            }
            Some(full_dispatch(BackendCommand::ToggleAppMuted { app_id: app_id as u32 }))
        },
    }
}

/// One request to stop, given whether one was sent before: whether it is sent
/// now, and whether one counts as sent after it.
pub open spec fn shutdown_step(sent: bool) -> (bool, bool) {
    (!sent, true)
}

/// Showing a text, given the text shown: whether it changes what is shown, and
/// the text shown after it.
pub open spec fn publish_step(shown: Seq<char>, next: Seq<char>) -> (bool, Seq<char>) {
    (next != shown, next)
}

/// The backend is told to stop at most once: after any request to stop, a second
/// one sends nothing.
pub proof fn law_shutdown_sent_once(sent: bool)
    ensures
        !shutdown_step(shutdown_step(sent).1).0,
{
}

/// Showing the same text twice changes what is shown at most once.
pub proof fn law_publish_twice(shown: Seq<char>, next: Seq<char>)
    ensures
        !publish_step(publish_step(shown, next).1, next).0,
        publish_step(publish_step(shown, next).1, next).1 == publish_step(shown, next).1,
{
}

/// What the user interface holds of the mixer: the state and meter texts it
/// shows, the controller, and whether the backend was told to stop.
pub struct MixerControllerRust {
    pub state_json: String,
    pub meter_json: String,
    pub app: AppController,
    pub shutdown_sent: bool,
}

impl MixerControllerRust {
    /// A view over `app` that shows the given state and meter texts.
    pub fn new(app: AppController, state_json: String, meter_json: String) -> (m: MixerControllerRust)
        ensures
            m.app == app,
            m.state_json == state_json,
            m.meter_json == meter_json,
            !m.shutdown_sent,
    {
        MixerControllerRust { state_json, meter_json, app, shutdown_sent: false }
    }

    /// The session shown.
    pub fn session(&self) -> (s: &SessionState)
        ensures
            s@ == self.app@,
    {
        self.app.session()
    }

    /// Whether to tell the backend to stop now: only the first time.
    pub fn begin_shutdown(&mut self) -> (send: bool)
        ensures
            (send, final(self).shutdown_sent) == shutdown_step(old(self).shutdown_sent),
            final(self).state_json == old(self).state_json,
            final(self).meter_json == old(self).meter_json,
            final(self).app == old(self).app,
    {
        if self.shutdown_sent {
            return false;
        }
        self.shutdown_sent = true;
        true
    }

    /// Shows a new state text, telling whether it differs from the one shown.
    pub fn publish_state(&mut self, next: String) -> (changed: bool)
        ensures
            (changed, final(self).state_json@) == publish_step(old(self).state_json@, next@),
            final(self).meter_json == old(self).meter_json,
            final(self).app == old(self).app,
            final(self).shutdown_sent == old(self).shutdown_sent,
    {
        if str_eq(self.state_json.as_str(), next.as_str()) {
            return false;
        }
        self.state_json = next;
        true
    }

    /// Shows a new meter text, telling whether it differs from the one shown.
    pub fn publish_meters(&mut self, next: String) -> (changed: bool)
        ensures
            (changed, final(self).meter_json@) == publish_step(old(self).meter_json@, next@),
            final(self).state_json == old(self).state_json,
            final(self).app == old(self).app,
            final(self).shutdown_sent == old(self).shutdown_sent,
    {
        if str_eq(self.meter_json.as_str(), next.as_str()) {
            return false;
        }
        self.meter_json = next;
        true
    }
}

} // verus!
