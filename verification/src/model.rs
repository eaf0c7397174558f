//! The mixer session: strips, buses, application routes, and the rules that change them.
use vstd::prelude::*;
use crate::text::{chars_of, string_from_chars, str_eq, to_lowercase, trim_str, trimmed, unicode_lowercase};


verus! {

/// Lowest strip or bus gain, in thousandths of a dB.
pub const GAIN_MIN: i32 = -60000;
/// Highest strip or bus gain, in thousandths of a dB.
pub const GAIN_MAX: i32 = 12000;
/// Highest gate amount, in thousandths.
pub const GATE_MAX: i32 = 10000;
/// Full scale for levels and meters, in thousandths.
pub const UNITY: i32 = 1000;

/// `x` limited to the range `lo..=hi`.
pub open spec fn clamp(x: int, lo: int, hi: int) -> int {
    if x < lo {
        lo
    } else if x > hi {
        hi
    } else {
        x
    }
}

/// `x` limited to the range `lo..=hi` (`lo <= hi`).
pub fn clamp_i32(x: i32, lo: i32, hi: i32) -> (r: i32)
    requires
        lo <= hi,
    ensures
        r == clamp(x as int, lo as int, hi as int),
{
    if x < lo {
        lo
    } else if x > hi {
        hi
    } else {
        x
    }
}

#[derive(Clone, Copy, PartialEq, Eq, Structural, Debug)]
pub enum EndpointKind {
    HardwareInput,
    VirtualInput,
    HardwareOutput,
    VirtualOutput,
}

#[derive(Debug, PartialEq, Eq)]
pub struct DeviceOption {
    pub name: String,
    pub kind: EndpointKind,
    pub stable_id: String,
    pub device_class: String,
    pub connected: bool,
}

impl Clone for DeviceOption {
    fn clone(&self) -> (r: Self)
        ensures
            r == *self,
    {
        DeviceOption {
            name: self.name.clone(),
            kind: self.kind,
            stable_id: self.stable_id.clone(),
            device_class: self.device_class.clone(),
            connected: self.connected,
        }
    }
}

#[derive(Debug, PartialEq, Eq)]
pub struct RouteState {
    pub label: String,
    pub enabled: bool,
}

impl Clone for RouteState {
    fn clone(&self) -> (r: Self)
        ensures
            r == *self,
    {
        RouteState { label: self.label.clone(), enabled: self.enabled }
    }
}

#[derive(Debug, PartialEq, Eq)]
pub struct AppFeedState {
    pub id: u32,
    pub icon_text: String,
    pub icon_color: String,
    pub name: String,
    pub detail: String,
    /// Level, in thousandths.
    pub level: i32,
    /// Meter reading, in thousandths.
    pub meter: i32,
    pub muted: bool,
}

impl Clone for AppFeedState {
    fn clone(&self) -> (r: Self)
        ensures
            r == *self,
    {
        AppFeedState {
            id: self.id,
            icon_text: self.icon_text.clone(),
            icon_color: self.icon_color.clone(),
            name: self.name.clone(),
            detail: self.detail.clone(),
            level: self.level,
            meter: self.meter,
            muted: self.muted,
        }
    }
}

#[derive(Debug, PartialEq, Eq)]
pub struct AppRouteState {
    pub id: u32,
    pub name: String,
    pub detail: String,
    pub target: String,
    pub icon_text: String,
    pub icon_color: String,
    /// Level, in thousandths.
    pub level: i32,
    pub muted: bool,
}

impl Clone for AppRouteState {
    fn clone(&self) -> (r: Self)
        ensures
            r == *self,
    {
        AppRouteState {
            id: self.id,
            name: self.name.clone(),
            detail: self.detail.clone(),
            target: self.target.clone(),
            icon_text: self.icon_text.clone(),
            icon_color: self.icon_color.clone(),
            level: self.level,
            muted: self.muted,
        }
    }
}

#[derive(Debug, PartialEq, Eq)]
pub struct RememberedAppRouteState {
    pub name: String,
    pub detail: String,
    pub target: String,
    pub icon_text: String,
    pub icon_color: String,
    /// Level, in thousandths.
    pub level: i32,
    pub muted: bool,
}

impl Clone for RememberedAppRouteState {
    fn clone(&self) -> (r: Self)
        ensures
            r == *self,
    {
        RememberedAppRouteState {
            name: self.name.clone(),
            detail: self.detail.clone(),
            target: self.target.clone(),
            icon_text: self.icon_text.clone(),
            icon_color: self.icon_color.clone(),
            level: self.level,
            muted: self.muted,
        }
    }
}

#[derive(Debug)]
pub struct StripState {
    pub title: String,
    pub subtitle: String,
    pub device_name: String,
    pub device_options: Vec<DeviceOption>,
    pub header_name: String,
    pub header_detail: String,
    /// Gain, in thousandths of a dB.
    pub gain_db: i32,
    /// Gate amount, in thousandths.
    pub gate: i32,
    pub muted: bool,
    pub solo: bool,
    pub mono: bool,
    /// Left meter reading, in thousandths.
    pub meter_left: i32,
    /// Right meter reading, in thousandths.
    pub meter_right: i32,
    pub routes: Vec<RouteState>,
    pub endpoint_kind: EndpointKind,
    pub apps: Vec<AppFeedState>,
}

/// The mathematical value of a [`StripState`].
#[verifier::ext_equal]
pub struct StripView {
    pub title: String,
    pub subtitle: String,
    pub device_name: String,
    pub device_options: Seq<DeviceOption>,
    pub header_name: String,
    pub header_detail: String,
    pub gain_db: i32,
    pub gate: i32,
    pub muted: bool,
    pub solo: bool,
    pub mono: bool,
    pub meter_left: i32,
    pub meter_right: i32,
    pub routes: Seq<RouteState>,
    pub endpoint_kind: EndpointKind,
    pub apps: Seq<AppFeedState>,
}

impl View for StripState {
    type V = StripView;

    open spec fn view(&self) -> StripView {
        StripView {
            title: self.title,
            subtitle: self.subtitle,
            device_name: self.device_name,
            device_options: self.device_options@,
            header_name: self.header_name,
            header_detail: self.header_detail,
            gain_db: self.gain_db,
            gate: self.gate,
            muted: self.muted,
            solo: self.solo,
            mono: self.mono,
            meter_left: self.meter_left,
            meter_right: self.meter_right,
            routes: self.routes@,
            endpoint_kind: self.endpoint_kind,
            apps: self.apps@,
        }
    }
}

impl Clone for StripState {
    fn clone(&self) -> (r: Self)
        ensures
            r@ == self@,
    {
        StripState {
            title: self.title.clone(),
            subtitle: self.subtitle.clone(),
            device_name: self.device_name.clone(),
            device_options: self.device_options.clone(),
            header_name: self.header_name.clone(),
            header_detail: self.header_detail.clone(),
            gain_db: self.gain_db,
            gate: self.gate,
            muted: self.muted,
            solo: self.solo,
            mono: self.mono,
            meter_left: self.meter_left,
            meter_right: self.meter_right,
            routes: self.routes.clone(),
            endpoint_kind: self.endpoint_kind,
            apps: self.apps.clone(),
        }
    }
}

#[derive(Debug)]
pub struct BusState {
    pub title: String,
    pub subtitle: String,
    pub destination_name: String,
    pub device_options: Vec<DeviceOption>,
    /// Gain, in thousandths of a dB.
    pub gain_db: i32,
    pub muted: bool,
    /// Left meter reading, in thousandths.
    pub meter_left: i32,
    /// Right meter reading, in thousandths.
    pub meter_right: i32,
    pub endpoint_kind: EndpointKind,
}

/// The mathematical value of a [`BusState`].
#[verifier::ext_equal]
pub struct BusView {
    pub title: String,
    pub subtitle: String,
    pub destination_name: String,
    pub device_options: Seq<DeviceOption>,
    pub gain_db: i32,
    pub muted: bool,
    pub meter_left: i32,
    pub meter_right: i32,
    pub endpoint_kind: EndpointKind,
}

impl View for BusState {
    type V = BusView;

    open spec fn view(&self) -> BusView {
        BusView {
            title: self.title,
            subtitle: self.subtitle,
            destination_name: self.destination_name,
            device_options: self.device_options@,
            gain_db: self.gain_db,
            muted: self.muted,
            meter_left: self.meter_left,
            meter_right: self.meter_right,
            endpoint_kind: self.endpoint_kind,
        }
    }
}

impl Clone for BusState {
    fn clone(&self) -> (r: Self)
        ensures
            r@ == self@,
    {
        BusState {
            title: self.title.clone(),
            subtitle: self.subtitle.clone(),
            destination_name: self.destination_name.clone(),
            device_options: self.device_options.clone(),
            gain_db: self.gain_db,
            muted: self.muted,
            meter_left: self.meter_left,
            meter_right: self.meter_right,
            endpoint_kind: self.endpoint_kind,
        }
    }
}

#[derive(Debug)]
pub struct SessionState {
    pub strips: Vec<StripState>,
    pub buses: Vec<BusState>,
    pub app_routes: Vec<AppRouteState>,
    pub remembered_app_routes: Vec<RememberedAppRouteState>,
    pub quick_route_enabled: bool,
    pub backend_connected: bool,
    pub virtual_endpoints_ready: bool,
    pub last_backend_error: Option<String>,
}

/// The mathematical value of a [`SessionState`].
#[verifier::ext_equal]
pub struct SessionView {
    pub strips: Seq<StripView>,
    pub buses: Seq<BusView>,
    pub app_routes: Seq<AppRouteState>,
    pub remembered_app_routes: Seq<RememberedAppRouteState>,
    pub quick_route_enabled: bool,
    pub backend_connected: bool,
    pub virtual_endpoints_ready: bool,
    pub last_backend_error: Option<String>,
}

impl View for SessionState {
    type V = SessionView;

    open spec fn view(&self) -> SessionView {
        SessionView {
            strips: self.strips@.map_values(|s: StripState| s@),
            buses: self.buses@.map_values(|b: BusState| b@),
            app_routes: self.app_routes@,
            remembered_app_routes: self.remembered_app_routes@,
            quick_route_enabled: self.quick_route_enabled,
            backend_connected: self.backend_connected,
            virtual_endpoints_ready: self.virtual_endpoints_ready,
            last_backend_error: self.last_backend_error,
        }
    }
}

/// Clones a list of strips, keeping each one's value.
fn clone_strips(v: &Vec<StripState>) -> (r: Vec<StripState>)
    ensures
        r@.map_values(|s: StripState| s@) == v@.map_values(|s: StripState| s@),
{
    let mut r: Vec<StripState> = Vec::new();
    let mut i: usize = 0;
    while i < v.len()
        invariant
            i <= v@.len(),
            r@.len() == i,
            forall|j: int| 0 <= j < i ==> #[trigger] r@[j]@ == v@[j]@,
        decreases v@.len() - i,
    {
        r.push(v[i].clone());
        i = i + 1;
    }
    assert(r@.map_values(|s: StripState| s@) =~= v@.map_values(|s: StripState| s@));
    r
}

/// Clones a list of buses, keeping each one's value.
fn clone_buses(v: &Vec<BusState>) -> (r: Vec<BusState>)
    ensures
        r@.map_values(|b: BusState| b@) == v@.map_values(|b: BusState| b@),
{
    let mut r: Vec<BusState> = Vec::new();
    let mut i: usize = 0;
    while i < v.len()
        invariant
            i <= v@.len(),
            r@.len() == i,
            forall|j: int| 0 <= j < i ==> #[trigger] r@[j]@ == v@[j]@,
        decreases v@.len() - i,
    {
        r.push(v[i].clone());
        i = i + 1;
    }
    assert(r@.map_values(|b: BusState| b@) =~= v@.map_values(|b: BusState| b@));
    r
}

impl Clone for SessionState {
    fn clone(&self) -> (r: Self)
        ensures
            r@ == self@,
    {
        SessionState {
            strips: clone_strips(&self.strips),
            buses: clone_buses(&self.buses),
            app_routes: self.app_routes.clone(),
            remembered_app_routes: self.remembered_app_routes.clone(),
            quick_route_enabled: self.quick_route_enabled,
            backend_connected: self.backend_connected,
            virtual_endpoints_ready: self.virtual_endpoints_ready,
            last_backend_error: self.last_backend_error.clone(),
        }
    }
}

#[derive(Clone, Copy, Debug, PartialEq, Eq)]
pub struct StereoLevels {
    /// Left channel, in thousandths.
    pub left: i32,
    /// Right channel, in thousandths.
    pub right: i32,
}

#[derive(Debug)]
pub struct MeterSnapshot {
    pub strip_meters: Vec<StereoLevels>,
    pub bus_meters: Vec<StereoLevels>,
    /// For each strip, the meter of each application fed into it, in thousandths.
    pub app_meters: Vec<Vec<i32>>,
}

/// The mathematical value of a [`MeterSnapshot`].
#[verifier::ext_equal]
pub struct MeterSnapshotView {
    pub strip_meters: Seq<StereoLevels>,
    pub bus_meters: Seq<StereoLevels>,
    pub app_meters: Seq<Seq<i32>>,
}

impl View for MeterSnapshot {
    type V = MeterSnapshotView;

    open spec fn view(&self) -> MeterSnapshotView {
        MeterSnapshotView {
            strip_meters: self.strip_meters@,
            bus_meters: self.bus_meters@,
            app_meters: self.app_meters@.map_values(|m: Vec<i32>| m@),
        }
    }
}

/// Strip `i` once the readings of `snap` are applied: the strip's stereo meter
/// where the snapshot has one for it, and each application's meter where the
/// snapshot has one for it.
pub open spec fn strip_with_meters(s: StripView, i: int, snap: MeterSnapshotView) -> StripView {
    let s1 = if i < snap.strip_meters.len() {
        StripView { meter_left: snap.strip_meters[i].left, meter_right: snap.strip_meters[i].right, ..s }
    } else {
        s
    };
    if i < snap.app_meters.len() {
        StripView {
            apps: Seq::new(
                s.apps.len(),
                |j: int|
                    if j < snap.app_meters[i].len() {
                        AppFeedState { meter: snap.app_meters[i][j], ..s.apps[j] }
                    } else {
                        s.apps[j]
                    },
            ),
            ..s1
        }
    } else {
        s1
    }
}

/// Bus `i` once the readings of `snap` are applied.
pub open spec fn bus_with_meters(b: BusView, i: int, snap: MeterSnapshotView) -> BusView {
    if i < snap.bus_meters.len() {
        BusView { meter_left: snap.bus_meters[i].left, meter_right: snap.bus_meters[i].right, ..b }
    } else {
        b
    }
}

/// Index of the first strip of the given kind, or -1.
pub open spec fn first_strip_of_kind(strips: Seq<StripView>, kind: EndpointKind) -> int
    decreases strips.len(),
{
    if strips.len() == 0 {
        -1
    } else {
        let f = first_strip_of_kind(strips.drop_last(), kind);
        if f >= 0 {
            f
        } else if strips.last().endpoint_kind == kind {
            strips.len() - 1
        } else {
            -1
        }
    }
}

/// Index of the first bus of the given kind, or -1.
pub open spec fn first_bus_of_kind(buses: Seq<BusView>, kind: EndpointKind) -> int
    decreases buses.len(),
{
    if buses.len() == 0 {
        -1
    } else {
        let f = first_bus_of_kind(buses.drop_last(), kind);
        if f >= 0 {
            f
        } else if buses.last().endpoint_kind == kind {
            buses.len() - 1
        } else {
            -1
        }
    }
}

proof fn lemma_first_strip_prefix(strips: Seq<StripView>, m: int, kind: EndpointKind)
    requires
        0 <= m <= strips.len(),
        first_strip_of_kind(strips.take(m), kind) >= 0,
    ensures
        first_strip_of_kind(strips, kind) == first_strip_of_kind(strips.take(m), kind),
    decreases strips.len(),
{
    if m == strips.len() {
        assert(strips.take(m) =~= strips);
    } else {
        assert(strips.drop_last().take(m) =~= strips.take(m));
        lemma_first_strip_prefix(strips.drop_last(), m, kind);
    }
}

proof fn lemma_first_bus_prefix(buses: Seq<BusView>, m: int, kind: EndpointKind)
    requires
        0 <= m <= buses.len(),
        first_bus_of_kind(buses.take(m), kind) >= 0,
    ensures
        first_bus_of_kind(buses, kind) == first_bus_of_kind(buses.take(m), kind),
    decreases buses.len(),
{
    if m == buses.len() {
        assert(buses.take(m) =~= buses);
    } else {
        assert(buses.drop_last().take(m) =~= buses.take(m));
        lemma_first_bus_prefix(buses.drop_last(), m, kind);
    }
}

impl SessionView {
    /// This session with strip `i` replaced by `s`.
    pub open spec fn with_strip(self, i: int, s: StripView) -> SessionView {
        SessionView { strips: self.strips.update(i, s), ..self }
    }

    /// This session with bus `i` replaced by `b`.
    pub open spec fn with_bus(self, i: int, b: BusView) -> SessionView {
        SessionView { buses: self.buses.update(i, b), ..self }
    }

    /// Route `bus` of strip `strip` set to `enabled`, where both exist.
    pub open spec fn with_route_enabled(self, strip: int, bus: int, enabled: bool) -> SessionView {
        if 0 <= strip < self.strips.len() && 0 <= bus < self.strips[strip].routes.len() {
            let s = self.strips[strip];
            self.with_strip(
                strip,
                StripView { routes: s.routes.update(bus, RouteState { enabled, ..s.routes[bus] }), ..s },
            )
        } else {
            self
        }
    }

    /// Application `app` of strip `strip` replaced by `a`, where both exist.
    pub open spec fn with_strip_app(self, strip: int, app: int, a: AppFeedState) -> SessionView {
        if 0 <= strip < self.strips.len() && 0 <= app < self.strips[strip].apps.len() {
            let s = self.strips[strip];
            self.with_strip(strip, StripView { apps: s.apps.update(app, a), ..s })
        } else {
            self
        }
    }
    /// Strip `si`'s gain set to `g`, limited to `GAIN_MIN..=GAIN_MAX`, where the strip exists.
    pub open spec fn with_strip_gain(self, si: int, g: i32) -> SessionView {
        if 0 <= si < self.strips.len() {
            self.with_strip(si, StripView { gain_db: clamp(g as int, GAIN_MIN as int, GAIN_MAX as int) as i32, ..self.strips[si] })
        } else {
            self
        }
    }

    /// Strip `si`'s gate set to `g`, limited to `0..=GATE_MAX`, where the strip exists.
    pub open spec fn with_strip_gate(self, si: int, g: i32) -> SessionView {
        if 0 <= si < self.strips.len() {
            self.with_strip(si, StripView { gate: clamp(g as int, 0, GATE_MAX as int) as i32, ..self.strips[si] })
        } else {
            self
        }
    }

    /// Bus `bi`'s gain set to `g`, limited to `GAIN_MIN..=GAIN_MAX`, where the bus exists.
    pub open spec fn with_bus_gain(self, bi: int, g: i32) -> SessionView {
        if 0 <= bi < self.buses.len() {
            self.with_bus(bi, BusView { gain_db: clamp(g as int, GAIN_MIN as int, GAIN_MAX as int) as i32, ..self.buses[bi] })
        } else {
            self
        }
    }

    /// Strip `si` muted or not, where it exists.
    pub open spec fn with_strip_muted(self, si: int, m: bool) -> SessionView {
        if 0 <= si < self.strips.len() {
            self.with_strip(si, StripView { muted: m, ..self.strips[si] })
        } else {
            self
        }
    }

    /// Strip `si` soloed or not, where it exists.
    pub open spec fn with_strip_solo(self, si: int, m: bool) -> SessionView {
        if 0 <= si < self.strips.len() {
            self.with_strip(si, StripView { solo: m, ..self.strips[si] })
        } else {
            self
        }
    }

    /// Strip `si` mono or not, where it exists.
    pub open spec fn with_strip_mono(self, si: int, m: bool) -> SessionView {
        if 0 <= si < self.strips.len() {
            self.with_strip(si, StripView { mono: m, ..self.strips[si] })
        } else {
            self
        }
    }

    /// Bus `bi` muted or not, where it exists.
    pub open spec fn with_bus_muted(self, bi: int, m: bool) -> SessionView {
        if 0 <= bi < self.buses.len() {
            self.with_bus(bi, BusView { muted: m, ..self.buses[bi] })
        } else {
            self
        }
    }

    /// The level of application `ai` of strip `si` set to `level`, limited to
    /// `0..=UNITY`, where both exist.
    pub open spec fn with_app_level(self, si: int, ai: int, level: i32) -> SessionView {
        if 0 <= si < self.strips.len() && 0 <= ai < self.strips[si].apps.len() {
            self.with_strip_app(si, ai, AppFeedState { level: clamp(level as int, 0, UNITY as int) as i32, ..self.strips[si].apps[ai] })
        } else {
            self
        }
    }

    /// Application `ai` of strip `si` muted or not, where both exist.
    pub open spec fn with_app_muted(self, si: int, ai: int, muted: bool) -> SessionView {
        if 0 <= si < self.strips.len() && 0 <= ai < self.strips[si].apps.len() {
            self.with_strip_app(si, ai, AppFeedState { muted, ..self.strips[si].apps[ai] })
        } else {
            self
        }
    }

    /// The readings of `snap` shown (see [`strip_with_meters`] and [`bus_with_meters`]).
    pub open spec fn with_meters(self, snap: MeterSnapshotView) -> SessionView {
        SessionView {
            strips: Seq::new(self.strips.len(), |i: int| strip_with_meters(self.strips[i], i, snap)),
            buses: Seq::new(self.buses.len(), |i: int| bus_with_meters(self.buses[i], i, snap)),
            ..self
        }
    }

    /// `new` is this session with strip `si` assigned the device named `name`,
    /// where the strip exists.
    pub open spec fn strip_device_set(self, new: SessionView, si: int, name: Seq<char>) -> bool {
        if 0 <= si < self.strips.len() {
            &&& new == self.with_strip(si, StripView { device_name: new.strips[si].device_name, ..self.strips[si] })
            &&& new.strips[si].device_name@ == name
        } else {
            new == self
        }
    }

    /// `new` is this session with bus `bi` bound to the device named `name`,
    /// where the bus exists.
    pub open spec fn bus_device_set(self, new: SessionView, bi: int, name: Seq<char>) -> bool {
        if 0 <= bi < self.buses.len() {
            &&& new == self.with_bus(bi, BusView { destination_name: new.buses[bi].destination_name, ..self.buses[bi] })
            &&& new.buses[bi].destination_name@ == name
        } else {
            new == self
        }
    }

    /// `new` is this session with the input devices offered on its strips.
    pub open spec fn input_options_set(self, new: SessionView, devices: Seq<DeviceOption>) -> bool {
        &&& new == (SessionView { strips: new.strips, ..self })
        &&& new.strips.len() == self.strips.len()
        &&& forall|i: int| 0 <= i < self.strips.len() ==> strip_after_input_refresh(self.strips[i], #[trigger] new.strips[i], devices)
    }

    /// `new` is this session with the output devices offered on its buses.
    pub open spec fn output_options_set(self, new: SessionView, devices: Seq<DeviceOption>) -> bool {
        &&& new == (SessionView { buses: new.buses, ..self })
        &&& new.buses.len() == self.buses.len()
        &&& forall|i: int| 0 <= i < self.buses.len() ==> bus_after_output_refresh(self.buses[i], #[trigger] new.buses[i], devices)
    }

    /// The session after taking reported application routes, and whether that is
    /// worth saving (see [`SessionState::set_app_routes`]).
    pub open spec fn with_app_routes(self, routes: Seq<AppRouteState>) -> (SessionView, bool) {
        let norm = routes.map_values(|r: AppRouteState| normalized_route(r, self.app_routes));
        let (rem, rem_changed) = remember_all(self.remembered_app_routes, norm);
        if same_app_routes(self.app_routes, norm) {
            (SessionView { remembered_app_routes: rem, ..self }, rem_changed)
        } else {
            (
                SessionView {
                    strips: Seq::new(self.strips.len(), |i: int| strip_with_feeds(self.strips[i], i, norm)),
                    app_routes: norm,
                    remembered_app_routes: rem,
                    ..self
                },
                true,
            )
        }
    }
}

/// Some device in `devices` carries the name `name`.
pub open spec fn has_device_named(devices: Seq<DeviceOption>, name: Seq<char>) -> bool {
    exists|k: int| 0 <= k < devices.len() && (#[trigger] devices[k]).name@ == name
}

/// `d` is the stand-in option kept for a device that is assigned but was not
/// discovered: named after it, of the given kind and class, not connected.
pub open spec fn is_stand_in_option(d: DeviceOption, name: String, kind: EndpointKind, class: Seq<char>) -> bool {
    &&& d.name == name
    &&& d.kind == kind
    &&& d.stable_id == name
    &&& d.device_class@ == class
    &&& !d.connected
}

/// The options of an endpoint after a device refresh: the discovered devices, and
/// the stand-in for the assigned device when it is named but was not discovered.
pub open spec fn refreshed_options(
    new_options: Seq<DeviceOption>,
    devices: Seq<DeviceOption>,
    assigned: String,
    kind: EndpointKind,
    class: Seq<char>,
) -> bool {
    if assigned@.len() > 0 && !has_device_named(devices, assigned@) {
        &&& new_options.len() == devices.len() + 1
        &&& new_options.take(devices.len() as int) == devices
        &&& is_stand_in_option(new_options.last(), assigned, kind, class)
    } else {
        new_options == devices
    }
}

/// How a device refresh changes one strip.
pub open spec fn strip_after_input_refresh(old_s: StripView, new_s: StripView, devices: Seq<DeviceOption>) -> bool {
    if old_s.endpoint_kind == EndpointKind::HardwareInput {
        &&& new_s == StripView { device_options: new_s.device_options, ..old_s }
        &&& refreshed_options(new_s.device_options, devices, old_s.device_name, EndpointKind::HardwareInput, "capture"@)
    } else {
        new_s == old_s
    }
}

/// How a device refresh changes one bus.
pub open spec fn bus_after_output_refresh(old_b: BusView, new_b: BusView, devices: Seq<DeviceOption>) -> bool {
    if old_b.endpoint_kind == EndpointKind::HardwareOutput {
        &&& new_b == BusView { device_options: new_b.device_options, ..old_b }
        &&& refreshed_options(new_b.device_options, devices, old_b.destination_name, EndpointKind::HardwareOutput, "playback"@)
    } else {
        new_b == old_b
    }
}

/// After a device refresh, the device assigned to a hardware strip or bus is
/// still offered on it: found among the discovered devices, or kept as a
/// stand-in.
pub proof fn law_assigned_device_offered(old_s: StripView, new_s: StripView, old_b: BusView, new_b: BusView, inputs: Seq<DeviceOption>, outputs: Seq<DeviceOption>)
    requires
        strip_after_input_refresh(old_s, new_s, inputs),
        bus_after_output_refresh(old_b, new_b, outputs),
    ensures
        old_s.endpoint_kind == EndpointKind::HardwareInput && old_s.device_name@.len() > 0
            ==> has_device_named(new_s.device_options, old_s.device_name@),
        old_b.endpoint_kind == EndpointKind::HardwareOutput && old_b.destination_name@.len() > 0
            ==> has_device_named(new_b.device_options, old_b.destination_name@),
{
    if old_s.endpoint_kind == EndpointKind::HardwareInput && old_s.device_name@.len() > 0 {
        let opts = new_s.device_options;
        if !has_device_named(inputs, old_s.device_name@) {
            assert(opts[opts.len() - 1].name@ == old_s.device_name@);
        }
    }
    if old_b.endpoint_kind == EndpointKind::HardwareOutput && old_b.destination_name@.len() > 0 {
        let opts = new_b.device_options;
        if !has_device_named(outputs, old_b.destination_name@) {
            assert(opts[opts.len() - 1].name@ == old_b.destination_name@);
        }
    }
}

/// A copy of a list of device options.
pub fn clone_device_options(devices: &[DeviceOption]) -> (r: Vec<DeviceOption>)
    ensures
        r@ == devices@,
{
    let mut r: Vec<DeviceOption> = Vec::new();
    let mut i: usize = 0;
    while i < devices.len()
        invariant
            i <= devices@.len(),
            r@ == devices@.take(i as int),
        decreases devices@.len() - i,
    {
        r.push(devices[i].clone());
        i = i + 1;
        assert(r@ =~= devices@.take(i as int));
    }
    assert(devices@.take(i as int) =~= devices@);
    r
}

/// Whether some option carries the name `name`.
fn any_device_named(devices: &Vec<DeviceOption>, name: &String) -> (r: bool)
    ensures
        r == has_device_named(devices@, name@),
{
    let mut i: usize = 0;
    while i < devices.len()
        invariant
            i <= devices@.len(),
            forall|k: int| 0 <= k < i ==> (#[trigger] devices@[k]).name@ != name@,
        decreases devices@.len() - i,
    {
        if devices[i].name == *name {
            return true;
        }
        i = i + 1;
    }
    false
}

/// The options of an endpoint after a device refresh (see [`refreshed_options`]).
fn refresh_options(devices: &[DeviceOption], assigned: &String, kind: EndpointKind, class: &str) -> (r: Vec<DeviceOption>)
    ensures
        refreshed_options(r@, devices@, *assigned, kind, class@),
{
    let mut options = clone_device_options(devices);
    if !assigned.as_str().is_empty() && !any_device_named(&options, assigned) {
        options.push(DeviceOption {
            name: assigned.clone(),
            kind,
            stable_id: assigned.clone(),
            device_class: class.to_owned(),
            connected: false,
        });
        assert(options@.take(devices@.len() as int) =~= devices@);
    }
    options
}

/// The key under which an application route is remembered: its name and detail,
/// each trimmed and lower-cased, joined by the unit separator.
pub open spec fn identity_key(name: Seq<char>, detail: Seq<char>) -> Seq<char> {
    unicode_lowercase(trimmed(name)) + seq!['\u{1f}'] + unicode_lowercase(trimmed(detail))
}

/// The identity key of an application route (see [`identity_key`]).
pub fn app_route_identity_key(name: &str, detail: &str) -> (r: String)
    ensures
        r@ == identity_key(name@, detail@),
{
    let n = to_lowercase(trim_str(name).as_str());
    let d = to_lowercase(trim_str(detail).as_str());
    let mut v = chars_of(n.as_str());
    v.push('\u{1f}');
    let w = chars_of(d.as_str());
    let mut i: usize = 0;
    let ghost base = v@;
    while i < w.len()
        invariant
            i <= w@.len(),
            v@ == base + w@.take(i as int),
        decreases w@.len() - i,
    {
        v.push(w[i]);
        i = i + 1;
        assert(v@ =~= base + w@.take(i as int));
    }
    assert(w@.take(i as int) =~= w@);
    assert(v@ =~= identity_key(name@, detail@));
    string_from_chars(v.as_slice())
}

/// Two remembered routes hold the same values.
pub open spec fn same_remembered(a: RememberedAppRouteState, b: RememberedAppRouteState) -> bool {
    &&& a.name@ == b.name@
    &&& a.detail@ == b.detail@
    &&& a.target@ == b.target@
    &&& a.icon_text@ == b.icon_text@
    &&& a.icon_color@ == b.icon_color@
    &&& a.level == b.level
    &&& a.muted == b.muted
}

/// Two application routes hold the same values.
pub open spec fn same_app_route(a: AppRouteState, b: AppRouteState) -> bool {
    &&& a.id == b.id
    &&& a.name@ == b.name@
    &&& a.detail@ == b.detail@
    &&& a.target@ == b.target@
    &&& a.icon_text@ == b.icon_text@
    &&& a.icon_color@ == b.icon_color@
    &&& a.level == b.level
    &&& a.muted == b.muted
}

/// Two lists of application routes hold the same values, in the same order.
pub open spec fn same_app_routes(a: Seq<AppRouteState>, b: Seq<AppRouteState>) -> bool {
    a.len() == b.len() && forall|i: int| 0 <= i < a.len() ==> same_app_route(#[trigger] a[i], b[i])
}

/// What is remembered of an application route.
pub open spec fn remembered_from(r: AppRouteState) -> RememberedAppRouteState {
    RememberedAppRouteState {
        name: r.name,
        detail: r.detail,
        target: r.target,
        icon_text: r.icon_text,
        icon_color: r.icon_color,
        level: r.level,
        muted: r.muted,
    }
}

/// Index of the first remembered route with identity key `key`, or -1.
pub open spec fn find_remembered(rem: Seq<RememberedAppRouteState>, key: Seq<char>) -> int
    decreases rem.len(),
{
    if rem.len() == 0 {
        -1
    } else {
        let f = find_remembered(rem.drop_last(), key);
        if f >= 0 {
            f
        } else if identity_key(rem.last().name@, rem.last().detail@) == key {
            rem.len() - 1
        } else {
            -1
        }
    }
}

/// Remembering one route: a route not yet known under its identity key is added;
/// a known one is replaced when its values differ. The flag tells whether anything changed.
pub open spec fn remember_one(rem: Seq<RememberedAppRouteState>, r: AppRouteState) -> (Seq<RememberedAppRouteState>, bool) {
    let next = remembered_from(r);
    let k = find_remembered(rem, identity_key(r.name@, r.detail@));
    if k < 0 {
        (rem.push(next), true)
    } else if same_remembered(rem[k], next) {
        (rem, false)
    } else {
        (rem.update(k, next), true)
    }
}

/// Remembering a list of routes, in order.
pub open spec fn remember_all(rem: Seq<RememberedAppRouteState>, routes: Seq<AppRouteState>) -> (Seq<RememberedAppRouteState>, bool)
    decreases routes.len(),
{
    if routes.len() == 0 {
        (rem, false)
    } else {
        let (r1, c1) = remember_all(rem, routes.drop_last());
        let (r2, c2) = remember_one(r1, routes.last());
        (r2, c1 || c2)
    }
}

proof fn lemma_find_remembered_update(rem: Seq<RememberedAppRouteState>, key: Seq<char>, k: int, x: RememberedAppRouteState)
    requires
        0 <= k < rem.len(),
        find_remembered(rem, key) == k,
        identity_key(x.name@, x.detail@) == key,
    ensures
        find_remembered(rem.update(k, x), key) == k,
    decreases rem.len(),
{
    let u = rem.update(k, x);
    if k == rem.len() - 1 {
        assert(u.drop_last() =~= rem.drop_last());
    } else {
        lemma_find_remembered_update(rem.drop_last(), key, k, x);
        assert(u.drop_last() =~= rem.drop_last().update(k, x));
    }
}

/// Remembering a route makes it the one found under its identity key, holding its
/// values; remembering it again changes nothing.
pub proof fn law_remember_route(rem: Seq<RememberedAppRouteState>, r: AppRouteState)
    ensures
        ({
            let after = remember_one(rem, r).0;
            let k = find_remembered(after, identity_key(r.name@, r.detail@));
            &&& 0 <= k < after.len()
            &&& same_remembered(after[k], remembered_from(r))
        }),
        remember_one(remember_one(rem, r).0, r) == (remember_one(rem, r).0, false),
{
    let key = identity_key(r.name@, r.detail@);
    let next = remembered_from(r);
    let k = find_remembered(rem, key);
    lemma_find_remembered_bound(rem, key);
    if k < 0 {
        assert(rem.push(next).drop_last() =~= rem);
    } else if !same_remembered(rem[k], next) {
        lemma_find_remembered_update(rem, key, k, next);
    }
}

/// Index of the first route in `routes` with id `id`, or -1.
pub open spec fn find_route_id(routes: Seq<AppRouteState>, id: u32) -> int
    decreases routes.len(),
{
    if routes.len() == 0 {
        -1
    } else {
        let f = find_route_id(routes.drop_last(), id);
        if f >= 0 {
            f
        } else if routes.last().id == id {
            routes.len() - 1
        } else {
            -1
        }
    }
}

/// A reported route with its empty name, detail and badge filled in from the
/// previously known route with the same id, if there is one.
pub open spec fn normalized_route(r: AppRouteState, previous: Seq<AppRouteState>) -> AppRouteState {
    let k = find_route_id(previous, r.id);
    if k >= 0 {
        let p = previous[k];
        AppRouteState {
            name: if r.name@.len() == 0 { p.name } else { r.name },
            detail: if r.detail@.len() == 0 { p.detail } else { r.detail },
            icon_text: if r.icon_text@.len() == 0 { p.icon_text } else { r.icon_text },
            icon_color: if r.icon_color@.len() == 0 { p.icon_color } else { r.icon_color },
            ..r
        }
    } else {
        r
    }
}

/// The strip that a route target label feeds: `VAIO`, `AUX` and `SYS` are
/// the three virtual input strips; any other label feeds none (-1).
pub open spec fn target_strip(target: Seq<char>) -> int {
    if target == "VAIO"@ {
        3
    } else if target == "AUX"@ {
        4
    } else if target == "SYS"@ {
        5
    } else {
        -1
    }
}

/// How a routed application shows up on its strip.
pub open spec fn feed_from(r: AppRouteState) -> AppFeedState {
    AppFeedState {
        id: r.id,
        icon_text: r.icon_text,
        icon_color: r.icon_color,
        name: r.name,
        detail: r.detail,
        level: clamp(r.level as int, 0, UNITY as int) as i32,
        meter: 0,
        muted: r.muted,
    }
}

/// The applications that `routes` feed into strip `i`, in route order.
pub open spec fn feeds_for(routes: Seq<AppRouteState>, i: int) -> Seq<AppFeedState>
    decreases routes.len(),
{
    if routes.len() == 0 {
        Seq::empty()
    } else {
        let rest = feeds_for(routes.drop_last(), i);
        if target_strip(routes.last().target@) == i {
            rest.push(feed_from(routes.last()))
        } else {
            rest
        }
    }
}

/// Strip `i` once the applications of `routes` are placed: a virtual input strip
/// shows only them; any other strip keeps its own and gets them after.
pub open spec fn strip_with_feeds(s: StripView, i: int, routes: Seq<AppRouteState>) -> StripView {
    let base = if s.endpoint_kind == EndpointKind::VirtualInput { Seq::empty() } else { s.apps };
    StripView { apps: base + feeds_for(routes, i), ..s }
}

proof fn lemma_find_remembered_prefix(rem: Seq<RememberedAppRouteState>, m: int, key: Seq<char>)
    requires
        0 <= m <= rem.len(),
        find_remembered(rem.take(m), key) >= 0,
    ensures
        find_remembered(rem, key) == find_remembered(rem.take(m), key),
    decreases rem.len(),
{
    if m == rem.len() {
        assert(rem.take(m) =~= rem);
    } else {
        assert(rem.drop_last().take(m) =~= rem.take(m));
        lemma_find_remembered_prefix(rem.drop_last(), m, key);
    }
}

proof fn lemma_find_route_id_prefix(routes: Seq<AppRouteState>, m: int, id: u32)
    requires
        0 <= m <= routes.len(),
        find_route_id(routes.take(m), id) >= 0,
    ensures
        find_route_id(routes, id) == find_route_id(routes.take(m), id),
    decreases routes.len(),
{
    if m == routes.len() {
        assert(routes.take(m) =~= routes);
    } else {
        assert(routes.drop_last().take(m) =~= routes.take(m));
        lemma_find_route_id_prefix(routes.drop_last(), m, id);
    }
}

proof fn lemma_find_remembered_bound(rem: Seq<RememberedAppRouteState>, key: Seq<char>)
    ensures
        -1 <= find_remembered(rem, key) < rem.len(),
        find_remembered(rem, key) >= 0 ==> identity_key(
            rem[find_remembered(rem, key)].name@,
            rem[find_remembered(rem, key)].detail@,
        ) == key,
    decreases rem.len(),
{
    if rem.len() > 0 {
        lemma_find_remembered_bound(rem.drop_last(), key);
    }
}

proof fn lemma_find_route_id_bound(routes: Seq<AppRouteState>, id: u32)
    ensures
        -1 <= find_route_id(routes, id) < routes.len(),
        find_route_id(routes, id) >= 0 ==> routes[find_route_id(routes, id)].id == id,
    decreases routes.len(),
{
    if routes.len() > 0 {
        lemma_find_route_id_bound(routes.drop_last(), id);
    }
}

/// Index of the first route with id `id` (see [`find_route_id`]).
pub fn route_index_of(routes: &Vec<AppRouteState>, id: u32) -> (r: Option<usize>)
    ensures
        match r {
            Some(k) => find_route_id(routes@, id) == k as int && k < routes@.len(),
            None => find_route_id(routes@, id) == -1,
        },
{
    let mut j: usize = 0;
    while j < routes.len()
        invariant
            j <= routes@.len(),
            find_route_id(routes@.take(j as int), id) == -1,
        decreases routes@.len() - j,
    {
        assert(routes@.take(j + 1).drop_last() =~= routes@.take(j as int));
        if routes[j].id == id {
            proof {
                lemma_find_route_id_prefix(routes@, j + 1, id);
            }
            return Some(j);
        }
        j = j + 1;
    }
    assert(routes@.take(j as int) =~= routes@);
    None
}

/// Whether two remembered routes hold the same values.
fn remembered_eq(a: &RememberedAppRouteState, b: &RememberedAppRouteState) -> (r: bool)
    ensures
        r == same_remembered(*a, *b),
{
    a.name == b.name && a.detail == b.detail && a.target == b.target && a.icon_text == b.icon_text
        && a.icon_color == b.icon_color && a.level == b.level && a.muted == b.muted
}

/// Whether two application routes hold the same values.
fn app_route_eq(a: &AppRouteState, b: &AppRouteState) -> (r: bool)
    ensures
        r == same_app_route(*a, *b),
{
    a.id == b.id && a.name == b.name && a.detail == b.detail && a.target == b.target
        && a.icon_text == b.icon_text && a.icon_color == b.icon_color && a.level == b.level
        && a.muted == b.muted
}

/// Whether two lists of application routes hold the same values.
fn app_routes_eq(a: &Vec<AppRouteState>, b: &Vec<AppRouteState>) -> (r: bool)
    ensures
        r == same_app_routes(a@, b@),
{
    if a.len() != b.len() {
        return false;
    }
    let mut i: usize = 0;
    while i < a.len()
        invariant
            a@.len() == b@.len(),
            i <= a@.len(),
            forall|j: int| 0 <= j < i ==> same_app_route(#[trigger] a@[j], b@[j]),
        decreases a@.len() - i,
    {
        if !app_route_eq(&a[i], &b[i]) {
            return false;
        }
        i = i + 1;
    }
    true
}

/// Index of the first remembered route with identity key `key`, or `None`.
fn find_remembered_index(rem: &Vec<RememberedAppRouteState>, key: &String) -> (r: Option<usize>)
    ensures
        match r {
            Some(k) => find_remembered(rem@, key@) == k as int,
            None => find_remembered(rem@, key@) == -1,
        },
{
    let mut j: usize = 0;
    while j < rem.len()
        invariant
            j <= rem@.len(),
            find_remembered(rem@.take(j as int), key@) == -1,
        decreases rem@.len() - j,
    {
        let candidate = app_route_identity_key(rem[j].name.as_str(), rem[j].detail.as_str());
        assert(rem@.take(j + 1).drop_last() =~= rem@.take(j as int));
        if candidate == *key {
            proof {
                lemma_find_remembered_prefix(rem@, j + 1, key@);
            }
            return Some(j);
        }
        j = j + 1;
    }
    assert(rem@.take(j as int) =~= rem@);
    None
}

/// Index of the first route with id `id`, or `None`.
fn find_route_id_index(routes: &Vec<AppRouteState>, id: u32) -> (r: Option<usize>)
    ensures
        match r {
            Some(k) => find_route_id(routes@, id) == k as int,
            None => find_route_id(routes@, id) == -1,
        },
{
    let mut j: usize = 0;
    while j < routes.len()
        invariant
            j <= routes@.len(),
            find_route_id(routes@.take(j as int), id) == -1,
        decreases routes@.len() - j,
    {
        assert(routes@.take(j + 1).drop_last() =~= routes@.take(j as int));
        if routes[j].id == id {
            proof {
                lemma_find_route_id_prefix(routes@, j + 1, id);
            }
            return Some(j);
        }
        j = j + 1;
    }
    assert(routes@.take(j as int) =~= routes@);
    None
}

/// Which strip a route target label feeds (see [`target_strip`]).
fn target_strip_index(target: &String) -> (r: Option<usize>)
    ensures
        match r {
            Some(i) => target_strip(target@) == i as int,
            None => target_strip(target@) == -1,
        },
{
    if str_eq(target.as_str(), "VAIO") {
        Some(3)
    } else if str_eq(target.as_str(), "AUX") {
        Some(4)
    } else if str_eq(target.as_str(), "SYS") {
        Some(5)
    } else {
        None
    }
}

proof fn lemma_feeds_step(routes: Seq<AppRouteState>, k: int, j: int)
    requires
        0 <= k < routes.len(),
    ensures
        feeds_for(routes.take(k + 1), j) == (if target_strip(routes[k].target@) == j {
            feeds_for(routes.take(k), j).push(feed_from(routes[k]))
        } else {
            feeds_for(routes.take(k), j)
        }),
{
    assert(routes.take(k + 1).drop_last() =~= routes.take(k));
    assert(routes.take(k + 1).last() == routes[k]);
}

/// Appends to each strip the applications that `routes` feed into it.
fn append_app_feeds(strips: &mut Vec<StripState>, routes: &Vec<AppRouteState>)
    ensures
        final(strips)@.len() == old(strips)@.len(),
        forall|j: int| 0 <= j < old(strips)@.len() ==> #[trigger] final(strips)@[j]@ == (StripView {
            apps: old(strips)@[j]@.apps + feeds_for(routes@, j),
            ..old(strips)@[j]@
        }),
{
    let n = strips.len();
    let mut k: usize = 0;
    while k < routes.len()
        invariant
            n == strips@.len(),
            n == old(strips)@.len(),
            k <= routes@.len(),
            forall|j: int| 0 <= j < n ==> #[trigger] strips@[j]@ == (StripView {
                apps: old(strips)@[j]@.apps + feeds_for(routes@.take(k as int), j),
                ..old(strips)@[j]@
            }),
        decreases routes@.len() - k,
    {
        let ghost prev = strips@;
        let target = target_strip_index(&routes[k].target);
        if let Some(t) = target {
            if t < strips.len() {
                let route = &routes[k];
                let feed = AppFeedState {
                    id: route.id,
                    icon_text: route.icon_text.clone(),
                    icon_color: route.icon_color.clone(),
                    name: route.name.clone(),
                    detail: route.detail.clone(),
                    level: clamp_i32(route.level, 0, UNITY),
                    meter: 0,
                    muted: route.muted,
                };
                assert(feed == feed_from(routes@[k as int]));
                strips[t].apps.push(feed);
            }
        }
        assert forall|j: int| 0 <= j < n implies #[trigger] strips@[j]@ == (StripView {
            apps: old(strips)@[j]@.apps + feeds_for(routes@.take(k + 1), j),
            ..old(strips)@[j]@
        }) by {
            lemma_feeds_step(routes@, k as int, j);
            assert(prev[j]@ == (StripView {
                apps: old(strips)@[j]@.apps + feeds_for(routes@.take(k as int), j),
                ..old(strips)@[j]@
            }));
            assert(strips@[j]@ =~= (StripView {
                apps: old(strips)@[j]@.apps + feeds_for(routes@.take(k + 1), j),
                ..old(strips)@[j]@
            }));
        }
        k = k + 1;
    }
    assert(routes@.take(k as int) =~= routes@);
}

/// Shows on strip `i` the readings that `snapshot` has for it.
fn apply_strip_meters(strip: &mut StripState, i: usize, snapshot: &MeterSnapshot)
    ensures
        final(strip)@ == strip_with_meters(old(strip)@, i as int, snapshot@),
{
    if i < snapshot.strip_meters.len() {
        strip.meter_left = snapshot.strip_meters[i].left;
        strip.meter_right = snapshot.strip_meters[i].right;
    }
    let ghost before = strip@;
    if i < snapshot.app_meters.len() {
        let meters = &snapshot.app_meters[i];
        let m = strip.apps.len();
        let mut a: usize = 0;
        while a < m
            invariant
                m == before.apps.len(),
                a <= m,
                meters@ == snapshot@.app_meters[i as int],
                strip@ == (StripView { apps: strip@.apps, ..before }),
                strip@.apps.len() == m,
                forall|j: int| 0 <= j < a ==> #[trigger] strip@.apps[j] == (if j < meters@.len() {
                    AppFeedState { meter: meters@[j], ..before.apps[j] }
                } else {
                    before.apps[j]
                }),
                forall|j: int| a <= j < m ==> #[trigger] strip@.apps[j] == before.apps[j],
            decreases m - a,
        {
            if a < meters.len() {
                strip.apps[a].meter = meters[a];
            }
            a = a + 1;
        }
        assert(strip@.apps =~= strip_with_meters(old(strip)@, i as int, snapshot@).apps);
    }
    assert(strip@ =~= strip_with_meters(old(strip)@, i as int, snapshot@));
}

impl SessionState {
    pub fn set_connection_state(&mut self, connected: bool)
        ensures
            final(self)@ == (SessionView { backend_connected: connected, ..old(self)@ }),
    {
        self.backend_connected = connected;
    }

    pub fn set_virtual_endpoints_ready(&mut self, ready: bool)
        ensures
            final(self)@ == (SessionView { virtual_endpoints_ready: ready, ..old(self)@ }),
    {
        self.virtual_endpoints_ready = ready;
    }

    pub fn set_backend_error(&mut self, message: String)
        ensures
            final(self)@ == (SessionView { last_backend_error: Some(message), ..old(self)@ }),
    {
        self.last_backend_error = Some(message);
    }

    pub fn clear_backend_error(&mut self)
        ensures
            final(self)@ == (SessionView { last_backend_error: None, ..old(self)@ }),
    {
        self.last_backend_error = None;
    }

    pub fn set_remembered_app_routes(&mut self, routes: Vec<RememberedAppRouteState>)
        ensures
            final(self)@ == (SessionView { remembered_app_routes: routes@, ..old(self)@ }),
    {
        self.remembered_app_routes = routes;
    }

    pub fn set_quick_route_enabled(&mut self, enabled: bool)
        ensures
            final(self)@ == (SessionView { quick_route_enabled: enabled, ..old(self)@ }),
    {
        self.quick_route_enabled = enabled;
    }

    /// Offers the discovered input devices on every hardware-input strip; a strip
    /// whose assigned device is missing from them keeps it as a stand-in option.
    pub fn set_strip_device_options(&mut self, devices: &[DeviceOption])
        ensures
            old(self)@.input_options_set(final(self)@, devices@),
    {
        let n = self.strips.len();
        let mut i: usize = 0;
        while i < n
            invariant
                n == old(self)@.strips.len(),
                n == self.strips@.len(),
                i <= n,
                self@ == (SessionView { strips: self@.strips, ..old(self)@ }),
                forall|j: int| 0 <= j < i ==> strip_after_input_refresh(
                    old(self)@.strips[j],
                    #[trigger] self@.strips[j],
                    devices@,
                ),
                forall|j: int| i <= j < n ==> #[trigger] self@.strips[j] == old(self)@.strips[j],
            decreases n - i,
        {
            let ghost prev = self@;
            if self.strips[i].endpoint_kind == EndpointKind::HardwareInput {
                let options = refresh_options(devices, &self.strips[i].device_name, EndpointKind::HardwareInput, "capture");
                self.strips[i].device_options = options;
                assert(self@.strips =~= prev.strips.update(i as int, self@.strips[i as int]));
                assert(self@.strips[i as int] =~= StripView { device_options: self@.strips[i as int].device_options, ..prev.strips[i as int] });
            }
            i = i + 1;
        }
    }

    /// Offers the discovered output devices on every hardware-output bus; a bus
    /// whose assigned device is missing from them keeps it as a stand-in option.
    pub fn set_bus_device_options(&mut self, devices: &[DeviceOption])
        ensures
            old(self)@.output_options_set(final(self)@, devices@),
    {
        let n = self.buses.len();
        let mut i: usize = 0;
        while i < n
            invariant
                n == old(self)@.buses.len(),
                n == self.buses@.len(),
                i <= n,
                self@ == (SessionView { buses: self@.buses, ..old(self)@ }),
                forall|j: int| 0 <= j < i ==> bus_after_output_refresh(
                    old(self)@.buses[j],
                    #[trigger] self@.buses[j],
                    devices@,
                ),
                forall|j: int| i <= j < n ==> #[trigger] self@.buses[j] == old(self)@.buses[j],
            decreases n - i,
        {
            let ghost prev = self@;
            if self.buses[i].endpoint_kind == EndpointKind::HardwareOutput {
                let options = refresh_options(devices, &self.buses[i].destination_name, EndpointKind::HardwareOutput, "playback");
                self.buses[i].device_options = options;
                assert(self@.buses =~= prev.buses.update(i as int, self@.buses[i as int]));
                assert(self@.buses[i as int] =~= BusView { device_options: self@.buses[i as int].device_options, ..prev.buses[i as int] });
            }
            i = i + 1;
        }
    }

    /// Remembers each route under its identity key (see [`remember_all`]);
    /// tells whether the remembered routes changed.
    fn remember_app_routes(&mut self, routes: &Vec<AppRouteState>) -> (changed: bool)
        ensures
            final(self)@ == (SessionView {
                remembered_app_routes: remember_all(old(self)@.remembered_app_routes, routes@).0,
                ..old(self)@
            }),
            changed == remember_all(old(self)@.remembered_app_routes, routes@).1,
    {
        let mut changed = false;
        let mut i: usize = 0;
        while i < routes.len()
            invariant
                i <= routes@.len(),
                self@ == (SessionView { remembered_app_routes: self@.remembered_app_routes, ..old(self)@ }),
                (self@.remembered_app_routes, changed) == remember_all(
                    old(self)@.remembered_app_routes,
                    routes@.take(i as int),
                ),
            decreases routes@.len() - i,
        {
            let route = &routes[i];
            let next = RememberedAppRouteState {
                name: route.name.clone(),
                detail: route.detail.clone(),
                target: route.target.clone(),
                icon_text: route.icon_text.clone(),
                icon_color: route.icon_color.clone(),
                level: route.level,
                muted: route.muted,
            };
            assert(next == remembered_from(routes@[i as int]));
            let key = app_route_identity_key(route.name.as_str(), route.detail.as_str());
            let found = find_remembered_index(&self.remembered_app_routes, &key);
            proof {
                lemma_find_remembered_bound(self@.remembered_app_routes, key@);
                assert(routes@.take(i + 1).drop_last() =~= routes@.take(i as int));
                assert(routes@.take(i + 1).last() == routes@[i as int]);
            }
            match found {
                None => {
                    self.remembered_app_routes.push(next);
                    changed = true;
                },
                Some(k) => {
                    if !remembered_eq(&self.remembered_app_routes[k], &next) {
                        self.remembered_app_routes.set(k, next);
                        changed = true;
                    }
                },
            }
            i = i + 1;
        }
        assert(routes@.take(i as int) =~= routes@);
        changed
    }

    /// Takes the application routes that the backend reports. Empty names, details
    /// and badges are filled in from the known route with the same id; every route
    /// is remembered; when the routes differ from the current ones, they replace
    /// them and each strip's applications are rebuilt from them. Tells whether
    /// anything changed that is worth saving.
    pub fn set_app_routes(&mut self, routes: Vec<AppRouteState>) -> (changed: bool)
        ensures
            (final(self)@, changed) == old(self)@.with_app_routes(routes@),
    {
        let ghost previous = self@.app_routes;
        let ghost norm = routes@.map_values(|r: AppRouteState| normalized_route(r, previous));
        let mut normalized = routes;
        let mut i: usize = 0;
        while i < normalized.len()
            invariant
                self@ == old(self)@,
                previous == old(self)@.app_routes,
                norm == routes@.map_values(|r: AppRouteState| normalized_route(r, previous)),
                normalized@.len() == routes@.len(),
                i <= routes@.len(),
                forall|j: int| 0 <= j < i ==> #[trigger] normalized@[j] == norm[j],
                forall|j: int| i <= j < routes@.len() ==> #[trigger] normalized@[j] == routes@[j],
            decreases routes@.len() - i,
        {
            let found = find_route_id_index(&self.app_routes, normalized[i].id);
            proof {
                lemma_find_route_id_bound(previous, routes@[i as int].id);
            }
            if let Some(k) = found {
                if normalized[i].name.as_str().is_empty() {
                    normalized[i].name = self.app_routes[k].name.clone();
                }
                if normalized[i].detail.as_str().is_empty() {
                    normalized[i].detail = self.app_routes[k].detail.clone();
                }
                if normalized[i].icon_text.as_str().is_empty() {
                    normalized[i].icon_text = self.app_routes[k].icon_text.clone();
                }
                if normalized[i].icon_color.as_str().is_empty() {
                    normalized[i].icon_color = self.app_routes[k].icon_color.clone();
                }
            }
            assert(normalized@[i as int] == norm[i as int]);
            i = i + 1;
        }
        assert(normalized@ =~= norm);

        let remembered_changed = self.remember_app_routes(&normalized);
        if app_routes_eq(&self.app_routes, &normalized) {
            return remembered_changed;
        }

        self.app_routes = normalized.clone();

        let ghost mid = self@;
        let n = self.strips.len();
        let mut s: usize = 0;
        while s < n
            invariant
                n == self.strips@.len(),
                n == mid.strips.len(),
                s <= n,
                self@ == (SessionView { strips: self@.strips, ..mid }),
                forall|j: int| 0 <= j < s ==> #[trigger] self@.strips[j] == strip_with_feeds(mid.strips[j], j, Seq::empty()),
                forall|j: int| s <= j < n ==> #[trigger] self@.strips[j] == mid.strips[j],
            decreases n - s,
        {
            let ghost prev = self@;
            if self.strips[s].endpoint_kind == EndpointKind::VirtualInput {
                self.strips[s].apps.clear();
                assert(self@.strips =~= prev.strips.update(s as int, self@.strips[s as int]));
            }
            assert(self@.strips[s as int] =~= strip_with_feeds(mid.strips[s as int], s as int, Seq::empty()));
            s = s + 1;
        }

        let ghost cleared = self@;
        assert(mid.strips == old(self)@.strips);
        append_app_feeds(&mut self.strips, &normalized);
        assert forall|j: int| 0 <= j < n implies #[trigger] self@.strips[j] == strip_with_feeds(old(self)@.strips[j], j, norm) by {
            assert(self@.strips[j] == self.strips@[j]@);
            assert(cleared.strips[j] == strip_with_feeds(mid.strips[j], j, Seq::empty()));
            assert(mid.strips[j] == old(self)@.strips[j]);
            assert(feeds_for(Seq::<AppRouteState>::empty(), j) =~= Seq::empty());
            assert(self@.strips[j].apps =~= strip_with_feeds(old(self)@.strips[j], j, norm).apps);
            assert(self@.strips[j] =~= strip_with_feeds(old(self)@.strips[j], j, norm));
        }
        assert(self@.strips =~= Seq::new(
            old(self)@.strips.len(),
            |i: int| strip_with_feeds(old(self)@.strips[i], i, norm),
        ));
        true
    }

    /// Shows the readings of a meter snapshot on the strips, buses and applications
    /// that it has readings for.
    pub fn set_meters(&mut self, snapshot: &MeterSnapshot)
        ensures
            final(self)@ == old(self)@.with_meters(snapshot@),
    {
        let n = self.strips.len();
        let mut i: usize = 0;
        while i < n
            invariant
                n == self.strips@.len(),
                n == old(self)@.strips.len(),
                i <= n,
                self@ == (SessionView { strips: self@.strips, ..old(self)@ }),
                forall|j: int| 0 <= j < i ==> #[trigger] self@.strips[j] == strip_with_meters(old(self)@.strips[j], j, snapshot@),
                forall|j: int| i <= j < n ==> #[trigger] self@.strips[j] == old(self)@.strips[j],
            decreases n - i,
        {
            let ghost prev = self@;
            assert(prev.strips[i as int] == old(self)@.strips[i as int]);
            apply_strip_meters(&mut self.strips[i], i, snapshot);
            proof {
                assert(self@.strips[i as int] == self.strips@[i as int]@);
                assert(self@.strips =~= prev.strips.update(i as int, self@.strips[i as int]));
            }
            i = i + 1;
        }
        let b = self.buses.len();
        let mut i: usize = 0;
        while i < b
            invariant
                b == self.buses@.len(),
                b == old(self)@.buses.len(),
                i <= b,
                self@.strips == Seq::new(old(self)@.strips.len(), |i: int| strip_with_meters(old(self)@.strips[i], i, snapshot@)),
                self@ == (SessionView { strips: self@.strips, buses: self@.buses, ..old(self)@ }),
                forall|j: int| 0 <= j < i ==> #[trigger] self@.buses[j] == bus_with_meters(old(self)@.buses[j], j, snapshot@),
                forall|j: int| i <= j < b ==> #[trigger] self@.buses[j] == old(self)@.buses[j],
            decreases b - i,
        {
            let ghost prev = self@;
            assert(prev.buses[i as int] == old(self)@.buses[i as int]);
            if i < snapshot.bus_meters.len() {
                self.buses[i].meter_left = snapshot.bus_meters[i].left;
                self.buses[i].meter_right = snapshot.bus_meters[i].right;
            }
            proof {
                assert(self@.buses =~= prev.buses.update(i as int, self@.buses[i as int]));
                assert(self@.buses[i as int] =~= bus_with_meters(old(self)@.buses[i as int], i as int, snapshot@));
            }
            i = i + 1;
        }
        assert(self@.strips =~= Seq::new(old(self)@.strips.len(), |i: int| strip_with_meters(old(self)@.strips[i], i, snapshot@)));
        assert(self@.buses =~= Seq::new(old(self)@.buses.len(), |i: int| bus_with_meters(old(self)@.buses[i], i, snapshot@)));
    }

    /// The device options of the first hardware-input strip, or none.
    pub fn hardware_input_devices(&self) -> (r: Vec<DeviceOption>)
        ensures
            r@ == (if first_strip_of_kind(self@.strips, EndpointKind::HardwareInput) >= 0 {
                self@.strips[first_strip_of_kind(self@.strips, EndpointKind::HardwareInput)].device_options
            } else {
                Seq::empty()
            }),
    {
        let mut j: usize = 0;
        while j < self.strips.len()
            invariant
                j <= self@.strips.len(),
                first_strip_of_kind(self@.strips.take(j as int), EndpointKind::HardwareInput) == -1,
            decreases self@.strips.len() - j,
        {
            assert(self@.strips.take(j + 1).drop_last() =~= self@.strips.take(j as int));
            if self.strips[j].endpoint_kind == EndpointKind::HardwareInput {
                proof {
                    lemma_first_strip_prefix(self@.strips, j + 1, EndpointKind::HardwareInput);
                }
                return self.strips[j].device_options.clone();
            }
            j = j + 1;
        }
        assert(self@.strips.take(j as int) =~= self@.strips);
        Vec::new()
    }

    /// The device options of the first hardware-output bus, or none.
    pub fn hardware_output_devices(&self) -> (r: Vec<DeviceOption>)
        ensures
            r@ == (if first_bus_of_kind(self@.buses, EndpointKind::HardwareOutput) >= 0 {
                self@.buses[first_bus_of_kind(self@.buses, EndpointKind::HardwareOutput)].device_options
            } else {
                Seq::empty()
            }),
    {
        let mut j: usize = 0;
        while j < self.buses.len()
            invariant
                j <= self@.buses.len(),
                first_bus_of_kind(self@.buses.take(j as int), EndpointKind::HardwareOutput) == -1,
            decreases self@.buses.len() - j,
        {
            assert(self@.buses.take(j + 1).drop_last() =~= self@.buses.take(j as int));
            if self.buses[j].endpoint_kind == EndpointKind::HardwareOutput {
                proof {
                    lemma_first_bus_prefix(self@.buses, j + 1, EndpointKind::HardwareOutput);
                }
                return self.buses[j].device_options.clone();
            }
            j = j + 1;
        }
        assert(self@.buses.take(j as int) =~= self@.buses);
        Vec::new()
    }

    /// The meter readings that the session currently shows.
    pub fn current_meter_snapshot(&self) -> (r: MeterSnapshot)
        ensures
            r@.strip_meters == self@.strips.map_values(|s: StripView| StereoLevels { left: s.meter_left, right: s.meter_right }),
            r@.bus_meters == self@.buses.map_values(|b: BusView| StereoLevels { left: b.meter_left, right: b.meter_right }),
            r@.app_meters == self@.strips.map_values(|s: StripView| s.apps.map_values(|a: AppFeedState| a.meter)),
    {
        let mut strip_meters: Vec<StereoLevels> = Vec::new();
        let mut app_meters: Vec<Vec<i32>> = Vec::new();
        let mut i: usize = 0;
        while i < self.strips.len()
            invariant
                i <= self@.strips.len(),
                strip_meters@.len() == i,
                app_meters@.len() == i,
                forall|j: int| 0 <= j < i ==> #[trigger] strip_meters@[j] == (StereoLevels {
                    left: self@.strips[j].meter_left,
                    right: self@.strips[j].meter_right,
                }),
                forall|j: int| 0 <= j < i ==> #[trigger] app_meters@[j]@ == self@.strips[j].apps.map_values(|a: AppFeedState| a.meter),
            decreases self@.strips.len() - i,
        {
            strip_meters.push(StereoLevels { left: self.strips[i].meter_left, right: self.strips[i].meter_right });
            let mut meters: Vec<i32> = Vec::new();
            let mut a: usize = 0;
            while a < self.strips[i].apps.len()
                invariant
                    i < self@.strips.len(),
                    a <= self@.strips[i as int].apps.len(),
                    meters@ == self@.strips[i as int].apps.take(a as int).map_values(|x: AppFeedState| x.meter),
                decreases self@.strips[i as int].apps.len() - a,
            {
                meters.push(self.strips[i].apps[a].meter);
                a = a + 1;
                assert(meters@ =~= self@.strips[i as int].apps.take(a as int).map_values(|x: AppFeedState| x.meter));
            }
            assert(self@.strips[i as int].apps.take(a as int) =~= self@.strips[i as int].apps);
            app_meters.push(meters);
            i = i + 1;
        }
        let mut bus_meters: Vec<StereoLevels> = Vec::new();
        let mut i: usize = 0;
        while i < self.buses.len()
            invariant
                i <= self@.buses.len(),
                bus_meters@.len() == i,
                forall|j: int| 0 <= j < i ==> #[trigger] bus_meters@[j] == (StereoLevels {
                    left: self@.buses[j].meter_left,
                    right: self@.buses[j].meter_right,
                }),
            decreases self@.buses.len() - i,
        {
            bus_meters.push(StereoLevels { left: self.buses[i].meter_left, right: self.buses[i].meter_right });
            i = i + 1;
        }
        let r = MeterSnapshot { strip_meters, bus_meters, app_meters };
        assert(r@.strip_meters =~= self@.strips.map_values(|s: StripView| StereoLevels { left: s.meter_left, right: s.meter_right }));
        assert(r@.bus_meters =~= self@.buses.map_values(|b: BusView| StereoLevels { left: b.meter_left, right: b.meter_right }));
        assert(r@.app_meters =~= self@.strips.map_values(|s: StripView| s.apps.map_values(|a: AppFeedState| a.meter)));
        r
    }

    pub fn set_route_enabled(&mut self, strip_index: usize, bus_index: usize, enabled: bool)
        ensures
            final(self)@ == old(self)@.with_route_enabled(
                strip_index as int,
                bus_index as int,
                enabled,
            ),
    {
        if strip_index < self.strips.len() && bus_index < self.strips[strip_index].routes.len() {
            self.strips[strip_index].routes[bus_index].enabled = enabled;
            assert(self@.strips =~= old(self)@.with_route_enabled(
                strip_index as int,
                bus_index as int,
                enabled,
            ).strips);
        } else {
            assert(self@.strips =~= old(self)@.strips);
        }
    }

    /// Sets a strip's gain, limited to `GAIN_MIN..=GAIN_MAX`.
    pub fn set_strip_gain(&mut self, strip_index: usize, gain_db: i32)
        ensures
            final(self)@ == old(self)@.with_strip_gain(strip_index as int, gain_db),
    {
        if strip_index < self.strips.len() {
            self.strips[strip_index].gain_db = clamp_i32(gain_db, GAIN_MIN, GAIN_MAX);
        }
        proof {
            if strip_index < old(self)@.strips.len() {
                assert(self@.strips =~= old(self)@.strips.update(strip_index as int, self@.strips[strip_index as int]));
            } else {
                assert(self@.strips =~= old(self)@.strips);
            }
        }
    }

    /// Sets a strip's gate, limited to `0..=GATE_MAX`.
    pub fn set_strip_gate(&mut self, strip_index: usize, gate: i32)
        ensures
            final(self)@ == old(self)@.with_strip_gate(strip_index as int, gate),
    {
        if strip_index < self.strips.len() {
            self.strips[strip_index].gate = clamp_i32(gate, 0, GATE_MAX);
        }
        proof {
            if strip_index < old(self)@.strips.len() {
                assert(self@.strips =~= old(self)@.strips.update(strip_index as int, self@.strips[strip_index as int]));
            } else {
                assert(self@.strips =~= old(self)@.strips);
            }
        }
    }

    /// Sets a bus's gain, limited to `GAIN_MIN..=GAIN_MAX`.
    pub fn set_bus_gain(&mut self, bus_index: usize, gain_db: i32)
        ensures
            final(self)@ == old(self)@.with_bus_gain(bus_index as int, gain_db),
    {
        if bus_index < self.buses.len() {
            self.buses[bus_index].gain_db = clamp_i32(gain_db, GAIN_MIN, GAIN_MAX);
        }
        proof {
            if bus_index < old(self)@.buses.len() {
                assert(self@.buses =~= old(self)@.buses.update(bus_index as int, self@.buses[bus_index as int]));
            } else {
                assert(self@.buses =~= old(self)@.buses);
            }
        }
    }

    pub fn set_strip_muted(&mut self, strip_index: usize, muted: bool)
        ensures
            final(self)@ == old(self)@.with_strip_muted(strip_index as int, muted),
    {
        if strip_index < self.strips.len() {
            self.strips[strip_index].muted = muted;
        }
        proof {
            if strip_index < old(self)@.strips.len() {
                assert(self@.strips =~= old(self)@.strips.update(strip_index as int, self@.strips[strip_index as int]));
            } else {
                assert(self@.strips =~= old(self)@.strips);
            }
        }
    }

    pub fn set_strip_solo(&mut self, strip_index: usize, solo: bool)
        ensures
            final(self)@ == old(self)@.with_strip_solo(strip_index as int, solo),
    {
        if strip_index < self.strips.len() {
            self.strips[strip_index].solo = solo;
        }
        proof {
            if strip_index < old(self)@.strips.len() {
                assert(self@.strips =~= old(self)@.strips.update(strip_index as int, self@.strips[strip_index as int]));
            } else {
                assert(self@.strips =~= old(self)@.strips);
            }
        }
    }

    pub fn set_strip_mono(&mut self, strip_index: usize, mono: bool)
        ensures
            final(self)@ == old(self)@.with_strip_mono(strip_index as int, mono),
    {
        if strip_index < self.strips.len() {
            self.strips[strip_index].mono = mono;
        }
        proof {
            if strip_index < old(self)@.strips.len() {
                assert(self@.strips =~= old(self)@.strips.update(strip_index as int, self@.strips[strip_index as int]));
            } else {
                assert(self@.strips =~= old(self)@.strips);
            }
        }
    }

    pub fn set_bus_muted(&mut self, bus_index: usize, muted: bool)
        ensures
            final(self)@ == old(self)@.with_bus_muted(bus_index as int, muted),
    {
        if bus_index < self.buses.len() {
            self.buses[bus_index].muted = muted;
        }
        proof {
            if bus_index < old(self)@.buses.len() {
                assert(self@.buses =~= old(self)@.buses.update(bus_index as int, self@.buses[bus_index as int]));
            } else {
                assert(self@.buses =~= old(self)@.buses);
            }
        }
    }

    pub fn set_strip_device(&mut self, strip_index: usize, device_name: &str)
        ensures
            old(self)@.strip_device_set(final(self)@, strip_index as int, device_name@),
    {
        if strip_index < self.strips.len() {
            self.strips[strip_index].device_name = device_name.to_owned();
        }
        proof {
            if strip_index < old(self)@.strips.len() {
                assert(self@.strips =~= old(self)@.strips.update(strip_index as int, self@.strips[strip_index as int]));
            } else {
                assert(self@.strips =~= old(self)@.strips);
            }
        }
    }

    pub fn set_bus_device(&mut self, bus_index: usize, device_name: &str)
        ensures
            old(self)@.bus_device_set(final(self)@, bus_index as int, device_name@),
    {
        if bus_index < self.buses.len() {
            self.buses[bus_index].destination_name = device_name.to_owned();
        }
        proof {
            if bus_index < old(self)@.buses.len() {
                assert(self@.buses =~= old(self)@.buses.update(bus_index as int, self@.buses[bus_index as int]));
            } else {
                assert(self@.buses =~= old(self)@.buses);
            }
        }
    }

    /// Sets the level of an application fed into a strip, limited to `0..=UNITY`.
    pub fn set_virtual_app_level(&mut self, strip_index: usize, app_index: usize, level: i32)
        ensures
            final(self)@ == old(self)@.with_app_level(strip_index as int, app_index as int, level),
    {
        if strip_index < self.strips.len() && app_index < self.strips[strip_index].apps.len() {
            self.strips[strip_index].apps[app_index].level = clamp_i32(level, 0, UNITY);
            assert(self@.strips[strip_index as int].apps =~= old(self)@.strips[strip_index as int].apps.update(
                app_index as int, self@.strips[strip_index as int].apps[app_index as int]));
            assert(self@.strips =~= old(self)@.strips.update(strip_index as int, self@.strips[strip_index as int]));
        } else {
            assert(self@.strips =~= old(self)@.strips);
        }
    }

    pub fn set_virtual_app_muted(&mut self, strip_index: usize, app_index: usize, muted: bool)
        ensures
            final(self)@ == old(self)@.with_app_muted(strip_index as int, app_index as int, muted),
    {
        if strip_index < self.strips.len() && app_index < self.strips[strip_index].apps.len() {
            self.strips[strip_index].apps[app_index].muted = muted;
            assert(self@.strips[strip_index as int].apps =~= old(self)@.strips[strip_index as int].apps.update(
                app_index as int, self@.strips[strip_index as int].apps[app_index as int]));
            assert(self@.strips =~= old(self)@.strips.update(strip_index as int, self@.strips[strip_index as int]));
        } else {
            assert(self@.strips =~= old(self)@.strips);
        }
    }
}

} // verus!
