//! What the mixer asks of an audio backend, and what a backend reports back.
use vstd::prelude::*;
use crate::model::{AppRouteState, DeviceOption, MeterSnapshot, SessionState};

verus! {

/// A request to the audio backend. Gains are in thousandths of a dB, gates and
/// levels in thousandths.
#[derive(Debug, Clone)]
pub enum BackendCommand {
    Start,
    Shutdown,
    RefreshMeters,
    PreviewStripGain { strip_index: usize, gain_db: i32 },
    PreviewBusGain { bus_index: usize, gain_db: i32 },
    PreviewAppLevel { app_id: u32, level: i32 },
    ToggleRoute { strip_index: usize, bus_index: usize },
    SetStripGain { strip_index: usize, gain_db: i32 },
    SetStripGate { strip_index: usize, gate: i32 },
    SetBusGain { bus_index: usize, gain_db: i32 },
    ToggleStripMuted { strip_index: usize },
    ToggleStripSolo { strip_index: usize },
    ToggleStripMono { strip_index: usize },
    ToggleBusMuted { bus_index: usize },
    SetStripDevice { strip_index: usize, device_name: String },
    SetBusDevice { bus_index: usize, device_name: String },
    SetVirtualAppLevel { strip_index: usize, app_index: usize, level: i32 },
    ToggleVirtualAppMuted { strip_index: usize, app_index: usize },
    RefreshAppRoutes,
    SetAppRoute { app_id: u32, target: String },
    SetAppLevel { app_id: u32, level: i32 },
    ToggleAppMuted { app_id: u32 },
}

/// Something the audio backend reports. Gains are in thousandths of a dB, gates
/// and levels in thousandths.
#[derive(Debug)]
pub enum BackendEvent {
    DevicesUpdated { input_devices: Vec<DeviceOption>, output_devices: Vec<DeviceOption> },
    VirtualEndpointsReady { ready: bool },
    RouteChanged { strip_index: usize, bus_index: usize, enabled: bool },
    StripGainChanged { strip_index: usize, gain_db: i32 },
    StripGateChanged { strip_index: usize, gate: i32 },
    BusGainChanged { bus_index: usize, gain_db: i32 },
    StripMutedChanged { strip_index: usize, muted: bool },
    StripSoloChanged { strip_index: usize, solo: bool },
    StripMonoChanged { strip_index: usize, mono: bool },
    BusMutedChanged { bus_index: usize, muted: bool },
    StripDeviceChanged { strip_index: usize, device_name: String },
    BusBindingChanged { bus_index: usize, device_name: String },
    VirtualAppLevelChanged { strip_index: usize, app_index: usize, level: i32 },
    VirtualAppMutedChanged { strip_index: usize, app_index: usize, muted: bool },
    AppRoutesUpdated { routes: Vec<AppRouteState> },
    MetersUpdated { snapshot: MeterSnapshot },
    BackendError { message: String },
    ConnectionStateChanged { connected: bool },
}

/// An audio backend: it carries out a command against the current session and
/// reports what happened.
pub trait AudioBackend {
    fn handle(&mut self, session: &SessionState, command: BackendCommand) -> Vec<BackendEvent>;
}

} // verus!
