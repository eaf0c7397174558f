//! The demonstration session that the mixer starts from when nothing was saved.
use vstd::prelude::*;
use crate::model::{
    AppFeedState, AppRouteState, BusState, BusView, DeviceOption, EndpointKind,
    RememberedAppRouteState, RouteState, SessionState, SessionView, StripState, StripView,
    remembered_from, UNITY,
};

verus! {

/// `d` is a connected device option with the given name, kind, id and class.
pub open spec fn is_demo_device(d: DeviceOption, name: Seq<char>, kind: EndpointKind, stable_id: Seq<char>, class: Seq<char>) -> bool {
    &&& d.name@ == name
    &&& d.kind == kind
    &&& d.stable_id@ == stable_id
    &&& d.device_class@ == class
    &&& d.connected
}

/// The three microphones of the demonstration.
pub open spec fn is_demo_mics(ds: Seq<DeviceOption>) -> bool {
    &&& ds.len() == 3
    &&& is_demo_device(ds[0], "Scarlett 2i2 Mic 1"@, EndpointKind::HardwareInput, "scarlett-2i2-mic-1"@, "capture"@)
    &&& is_demo_device(ds[1], "USB Podcast Mic"@, EndpointKind::HardwareInput, "usb-podcast-mic"@, "capture"@)
    &&& is_demo_device(ds[2], "HD Webcam Mic"@, EndpointKind::HardwareInput, "hd-webcam-mic"@, "capture"@)
}

/// The three virtual inputs of the demonstration.
pub open spec fn is_demo_virtual_inputs(ds: Seq<DeviceOption>) -> bool {
    &&& ds.len() == 3
    &&& is_demo_device(ds[0], "VoiceWire VAIO"@, EndpointKind::VirtualInput, "voicewire-in-1"@, "virtual-playback"@)
    &&& is_demo_device(ds[1], "VoiceWire AUX"@, EndpointKind::VirtualInput, "voicewire-in-2"@, "virtual-playback"@)
    &&& is_demo_device(ds[2], "VoiceWire SYS"@, EndpointKind::VirtualInput, "voicewire-in-3"@, "virtual-playback"@)
}

/// The three hardware outputs of the demonstration.
pub open spec fn is_demo_outputs(ds: Seq<DeviceOption>) -> bool {
    &&& ds.len() == 3
    &&& is_demo_device(ds[0], "Desk Speakers"@, EndpointKind::HardwareOutput, "desk-speakers"@, "playback"@)
    &&& is_demo_device(ds[1], "Studio Headphones"@, EndpointKind::HardwareOutput, "studio-headphones"@, "playback"@)
    &&& is_demo_device(ds[2], "USB Monitor"@, EndpointKind::HardwareOutput, "usb-monitor"@, "playback"@)
}

/// `a` is a demonstration application: id 0, no detail, full level, unmuted.
pub open spec fn is_demo_app(a: AppFeedState, icon_text: Seq<char>, icon_color: Seq<char>, name: Seq<char>) -> bool {
    &&& a.id == 0
    &&& a.icon_text@ == icon_text
    &&& a.icon_color@ == icon_color
    &&& a.name@ == name
    &&& a.detail@ == Seq::<char>::empty()
    &&& a.level == UNITY
    &&& a.meter == 0
    &&& !a.muted
}

/// The applications that the demonstration shows on strip `i`.
pub open spec fn is_demo_apps(i: int, apps: Seq<AppFeedState>) -> bool {
    if i < 3 {
        apps.len() == 0
    } else if i == 3 {
        &&& apps.len() == 5
        &&& is_demo_app(apps[0], "SP"@, "#335c44"@, "Spotify"@)
        &&& is_demo_app(apps[1], "YT"@, "#6d463f"@, "YouTube"@)
        &&& is_demo_app(apps[2], "VL"@, "#886b32"@, "VLC"@)
        &&& is_demo_app(apps[3], "FF"@, "#584136"@, "Firefox"@)
        &&& is_demo_app(apps[4], "TM"@, "#42466a"@, "Tidal"@)
    } else if i == 4 {
        &&& apps.len() == 5
        &&& is_demo_app(apps[0], "FF"@, "#584136"@, "Firefox"@)
        &&& is_demo_app(apps[1], "OB"@, "#444444"@, "OBS 23.0.2"@)
        &&& is_demo_app(apps[2], "ST"@, "#2d5460"@, "Steam"@)
        &&& is_demo_app(apps[3], "VL"@, "#886b32"@, "Vivaldi"@)
        &&& is_demo_app(apps[4], "DC"@, "#42466a"@, "Discord Overlay"@)
    } else {
        &&& apps.len() == 3
        &&& is_demo_app(apps[0], "DC"@, "#42466a"@, "Discord"@)
        &&& is_demo_app(apps[1], "TS"@, "#4b5a3f"@, "Teamspeak"@)
        &&& is_demo_app(apps[2], "SL"@, "#5f433e"@, "Slack Huddle"@)
    }
}

/// The label of bus `b`.
pub open spec fn demo_bus_label(b: int) -> Seq<char> {
    if b == 0 {
        "A1"@
    } else if b == 1 {
        "A2"@
    } else if b == 2 {
        "A3"@
    } else if b == 3 {
        "B1"@
    } else if b == 4 {
        "B2"@
    } else {
        "B3"@
    }
}

/// Whether strip `s` is routed to bus `b` in the demonstration.
pub open spec fn demo_route_enabled(s: int, b: int) -> bool {
    ||| (s == 0 && b == 0)
    ||| (s == 0 && b == 3)
    ||| (s == 3 && b == 0)
    ||| (s == 4 && b == 1)
    ||| (s == 4 && b == 4)
    ||| (s == 5 && b == 0)
    ||| (s == 5 && b == 3)
}

/// The routes of strip `s`: one per bus, labelled after it.
pub open spec fn is_demo_routes(s: int, routes: Seq<RouteState>) -> bool {
    &&& routes.len() == 6
    &&& forall|b: int| 0 <= b < 6 ==> (#[trigger] routes[b]).label@ == demo_bus_label(b)
        && routes[b].enabled == demo_route_enabled(s, b)
}

/// Strip `i` of the demonstration.
pub open spec fn is_demo_strip(
    s: StripView,
    i: int,
    title: Seq<char>,
    subtitle: Seq<char>,
    device_name: Seq<char>,
    header_name: Seq<char>,
    header_detail: Seq<char>,
) -> bool {
    let hardware = i < 3;
    &&& s.title@ == title
    &&& s.subtitle@ == subtitle
    &&& s.device_name@ == device_name
    &&& (if hardware { is_demo_mics(s.device_options) } else { is_demo_virtual_inputs(s.device_options) })
    &&& s.header_name@ == header_name
    &&& s.header_detail@ == header_detail
    &&& s.gain_db == (if i == 0 { -2000i32 } else { 0i32 })
    &&& s.gate == 0
    &&& !s.muted && !s.solo && !s.mono
    &&& s.meter_left == 0 && s.meter_right == 0
    &&& is_demo_routes(i, s.routes)
    &&& s.endpoint_kind == (if hardware { EndpointKind::HardwareInput } else { EndpointKind::VirtualInput })
    &&& is_demo_apps(i, s.apps)
}

/// The strips of the demonstration.
pub open spec fn is_demo_strips(strips: Seq<StripView>) -> bool {
    &&& strips.len() == 6
    &&& is_demo_strip(strips[0], 0, "MICROPHONE 1"@, "Hardware Input 1"@, "Scarlett 2i2 Mic 1"@, "Scarlett 2i2"@, "48000 Hz - 512"@)
    &&& is_demo_strip(strips[1], 1, "MICROPHONE 2"@, "Hardware Input 2"@, "USB Podcast Mic"@, "USB Podcast Mic"@, "48000 Hz - 512"@)
    &&& is_demo_strip(strips[2], 2, "MICROPHONE 3"@, "Hardware Input 3"@, "HD Webcam Mic"@, "HD Webcam Mic"@, "48000 Hz - 512"@)
    &&& is_demo_strip(strips[3], 3, "MUSIC"@, "Virtual Input 1"@, "VoiceWire VAIO"@, "VoiceWire VAIO"@, "44100 Hz - 7168"@)
    &&& is_demo_strip(strips[4], 4, "DESKTOP"@, "Virtual Input 2"@, "VoiceWire AUX"@, "VoiceWire AUX"@, "44100 Hz - 7168"@)
    &&& is_demo_strip(strips[5], 5, "CHAT"@, "Virtual Input 3"@, "VoiceWire SYS"@, "VoiceWire SYS"@, "44100 Hz - 7168"@)
}

/// Bus `b` of the demonstration; a virtual bus offers only its own endpoint.
pub open spec fn is_demo_bus(b: BusView, hardware: bool, title: Seq<char>, subtitle: Seq<char>, destination: Seq<char>, virtual_id: Seq<char>) -> bool {
    &&& b.title@ == title
    &&& b.subtitle@ == subtitle
    &&& b.destination_name@ == destination
    &&& (if hardware {
        is_demo_outputs(b.device_options)
    } else {
        b.device_options.len() == 1 && is_demo_device(b.device_options[0], destination, EndpointKind::VirtualOutput, virtual_id, "virtual-capture"@)
    })
    &&& b.gain_db == 0
    &&& !b.muted
    &&& b.meter_left == 0 && b.meter_right == 0
    &&& b.endpoint_kind == (if hardware { EndpointKind::HardwareOutput } else { EndpointKind::VirtualOutput })
}

/// The buses of the demonstration.
pub open spec fn is_demo_buses(buses: Seq<BusView>) -> bool {
    &&& buses.len() == 6
    &&& is_demo_bus(buses[0], true, "A1"@, "Hardware Out"@, "Desk Speakers"@, Seq::empty())
    &&& is_demo_bus(buses[1], true, "A2"@, "Hardware Out"@, "Studio Headphones"@, Seq::empty())
    &&& is_demo_bus(buses[2], true, "A3"@, "Hardware Out"@, "USB Monitor"@, Seq::empty())
    &&& is_demo_bus(buses[3], false, "B1"@, "Virtual Out"@, "VoiceWire B1"@, "voicewire-b1"@)
    &&& is_demo_bus(buses[4], false, "B2"@, "Virtual Out"@, "VoiceWire B2"@, "voicewire-b2"@)
    &&& is_demo_bus(buses[5], false, "B3"@, "Virtual Out"@, "VoiceWire B3"@, "voicewire-b3"@)
}

/// `r` is a demonstration application route: full level, unmuted.
pub open spec fn is_demo_route(r: AppRouteState, id: u32, name: Seq<char>, detail: Seq<char>, target: Seq<char>, icon_text: Seq<char>, icon_color: Seq<char>) -> bool {
    &&& r.id == id
    &&& r.name@ == name
    &&& r.detail@ == detail
    &&& r.target@ == target
    &&& r.icon_text@ == icon_text
    &&& r.icon_color@ == icon_color
    &&& r.level == UNITY
    &&& !r.muted
}

/// The application routes of the demonstration.
pub open spec fn is_demo_app_routes(routes: Seq<AppRouteState>) -> bool {
    &&& routes.len() == 3
    &&& is_demo_route(routes[0], 1, "Spotify"@, "spotify"@, "VAIO"@, "SP"@, "#335c44"@)
    &&& is_demo_route(routes[1], 2, "Discord"@, "WEBRTC VoiceEngine"@, "AUX"@, "DC"@, "#42466a"@)
    &&& is_demo_route(routes[2], 3, "Zen"@, "YouTube"@, "SYS"@, "ZE"@, "#584136"@)
}

/// The whole demonstration session: the strips, buses and application routes
/// above, every route remembered, everything else off.
pub open spec fn is_demo_session(s: SessionView) -> bool {
    &&& is_demo_strips(s.strips)
    &&& is_demo_buses(s.buses)
    &&& is_demo_app_routes(s.app_routes)
    &&& s.remembered_app_routes == s.app_routes.map_values(|r: AppRouteState| remembered_from(r))
    &&& !s.quick_route_enabled
    &&& !s.backend_connected
    &&& !s.virtual_endpoints_ready
    &&& s.last_backend_error.is_none()
}

/// A connected device option.
pub fn demo_device(name: &str, kind: EndpointKind, stable_id: &str, device_class: &str) -> (d: DeviceOption)
    ensures
        is_demo_device(d, name@, kind, stable_id@, device_class@),
{
    DeviceOption {
        name: name.to_owned(),
        kind,
        stable_id: stable_id.to_owned(),
        device_class: device_class.to_owned(),
        connected: true,
    }
}

/// A demonstration application.
pub fn demo_app(icon_text: &str, icon_color: &str, name: &str) -> (a: AppFeedState)
    ensures
        is_demo_app(a, icon_text@, icon_color@, name@),
{
    AppFeedState {
        id: 0,
        icon_text: icon_text.to_owned(),
        icon_color: icon_color.to_owned(),
        name: name.to_owned(),
        detail: String::new(),
        level: UNITY,
        meter: 0,
        muted: false,
    }
}

fn demo_mics() -> (v: Vec<DeviceOption>)
    ensures
        is_demo_mics(v@),
{
    let mut v = Vec::new();
    v.push(demo_device("Scarlett 2i2 Mic 1", EndpointKind::HardwareInput, "scarlett-2i2-mic-1", "capture"));
    v.push(demo_device("USB Podcast Mic", EndpointKind::HardwareInput, "usb-podcast-mic", "capture"));
    v.push(demo_device("HD Webcam Mic", EndpointKind::HardwareInput, "hd-webcam-mic", "capture"));
    v
}

fn demo_virtual_inputs() -> (v: Vec<DeviceOption>)
    ensures
        is_demo_virtual_inputs(v@),
{
    let mut v = Vec::new();
    v.push(demo_device("VoiceWire VAIO", EndpointKind::VirtualInput, "voicewire-in-1", "virtual-playback"));
    v.push(demo_device("VoiceWire AUX", EndpointKind::VirtualInput, "voicewire-in-2", "virtual-playback"));
    v.push(demo_device("VoiceWire SYS", EndpointKind::VirtualInput, "voicewire-in-3", "virtual-playback"));
    v
}

fn demo_outputs() -> (v: Vec<DeviceOption>)
    ensures
        is_demo_outputs(v@),
{
    let mut v = Vec::new();
    v.push(demo_device("Desk Speakers", EndpointKind::HardwareOutput, "desk-speakers", "playback"));
    v.push(demo_device("Studio Headphones", EndpointKind::HardwareOutput, "studio-headphones", "playback"));
    v.push(demo_device("USB Monitor", EndpointKind::HardwareOutput, "usb-monitor", "playback"));
    v
}

fn demo_apps(i: usize) -> (v: Vec<AppFeedState>)
    requires
        i < 6,
    ensures
        is_demo_apps(i as int, v@),
{
    let mut v = Vec::new();
    if i == 3 {
        v.push(demo_app("SP", "#335c44", "Spotify"));
        v.push(demo_app("YT", "#6d463f", "YouTube"));
        v.push(demo_app("VL", "#886b32", "VLC"));
        v.push(demo_app("FF", "#584136", "Firefox"));
        v.push(demo_app("TM", "#42466a", "Tidal"));
    } else if i == 4 {
        v.push(demo_app("FF", "#584136", "Firefox"));
        v.push(demo_app("OB", "#444444", "OBS 23.0.2"));
        v.push(demo_app("ST", "#2d5460", "Steam"));
        v.push(demo_app("VL", "#886b32", "Vivaldi"));
        v.push(demo_app("DC", "#42466a", "Discord Overlay"));
    } else if i == 5 {
        v.push(demo_app("DC", "#42466a", "Discord"));
        v.push(demo_app("TS", "#4b5a3f", "Teamspeak"));
        v.push(demo_app("SL", "#5f433e", "Slack Huddle"));
    }
    v
}

fn demo_label(b: usize) -> (r: &'static str)
    ensures
        r@ == demo_bus_label(b as int),
{
    if b == 0 {
        "A1"
    } else if b == 1 {
        "A2"
    } else if b == 2 {
        "A3"
    } else if b == 3 {
        "B1"
    } else if b == 4 {
        "B2"
    } else {
        "B3"
    }
}

fn demo_routes(s: usize) -> (v: Vec<RouteState>)
    ensures
        is_demo_routes(s as int, v@),
{
    let mut v: Vec<RouteState> = Vec::new();
    let mut b: usize = 0;
    while b < 6
        invariant
            b <= 6,
            v@.len() == b,
            forall|k: int| 0 <= k < b ==> (#[trigger] v@[k]).label@ == demo_bus_label(k)
                && v@[k].enabled == demo_route_enabled(s as int, k),
        decreases 6 - b,
    {
        let enabled = (s == 0 && b == 0) || (s == 0 && b == 3) || (s == 3 && b == 0) || (s == 4 && b == 1)
            || (s == 4 && b == 4) || (s == 5 && b == 0) || (s == 5 && b == 3);
        v.push(RouteState { label: demo_label(b).to_owned(), enabled });
        b = b + 1;
    }
    v
}

fn demo_strip(i: usize, title: &str, subtitle: &str, device_name: &str, header_name: &str, header_detail: &str) -> (s: StripState)
    requires
        i < 6,
    ensures
        is_demo_strip(s@, i as int, title@, subtitle@, device_name@, header_name@, header_detail@),
{
    let hardware = i < 3;
    StripState {
        title: title.to_owned(),
        subtitle: subtitle.to_owned(),
        device_name: device_name.to_owned(),
        device_options: if hardware { demo_mics() } else { demo_virtual_inputs() },
        header_name: header_name.to_owned(),
        header_detail: header_detail.to_owned(),
        gain_db: if i == 0 { -2000 } else { 0 },
        gate: 0,
        muted: false,
        solo: false,
        mono: false,
        meter_left: 0,
        meter_right: 0,
        routes: demo_routes(i),
        endpoint_kind: if hardware { EndpointKind::HardwareInput } else { EndpointKind::VirtualInput },
        apps: demo_apps(i),
    }
}

fn demo_strips() -> (v: Vec<StripState>)
    ensures
        is_demo_strips(v@.map_values(|s: StripState| s@)),
{
    let mut v: Vec<StripState> = Vec::new();
    v.push(demo_strip(0, "MICROPHONE 1", "Hardware Input 1", "Scarlett 2i2 Mic 1", "Scarlett 2i2", "48000 Hz - 512"));
    v.push(demo_strip(1, "MICROPHONE 2", "Hardware Input 2", "USB Podcast Mic", "USB Podcast Mic", "48000 Hz - 512"));
    v.push(demo_strip(2, "MICROPHONE 3", "Hardware Input 3", "HD Webcam Mic", "HD Webcam Mic", "48000 Hz - 512"));
    v.push(demo_strip(3, "MUSIC", "Virtual Input 1", "VoiceWire VAIO", "VoiceWire VAIO", "44100 Hz - 7168"));
    v.push(demo_strip(4, "DESKTOP", "Virtual Input 2", "VoiceWire AUX", "VoiceWire AUX", "44100 Hz - 7168"));
    v.push(demo_strip(5, "CHAT", "Virtual Input 3", "VoiceWire SYS", "VoiceWire SYS", "44100 Hz - 7168"));
    v
}

fn demo_bus(hardware: bool, title: &str, subtitle: &str, destination: &str, virtual_id: &str) -> (b: BusState)
    ensures
        is_demo_bus(b@, hardware, title@, subtitle@, destination@, virtual_id@),
{
    let device_options = if hardware {
        demo_outputs()
    } else {
        let mut v = Vec::new();
        v.push(demo_device(destination, EndpointKind::VirtualOutput, virtual_id, "virtual-capture"));
        v
    };
    BusState {
        title: title.to_owned(),
        subtitle: subtitle.to_owned(),
        destination_name: destination.to_owned(),
        device_options,
        gain_db: 0,
        muted: false,
        meter_left: 0,
        meter_right: 0,
        endpoint_kind: if hardware { EndpointKind::HardwareOutput } else { EndpointKind::VirtualOutput },
    }
}

fn demo_buses() -> (v: Vec<BusState>)
    ensures
        is_demo_buses(v@.map_values(|b: BusState| b@)),
{
    let mut v: Vec<BusState> = Vec::new();
    v.push(demo_bus(true, "A1", "Hardware Out", "Desk Speakers", ""));
    v.push(demo_bus(true, "A2", "Hardware Out", "Studio Headphones", ""));
    v.push(demo_bus(true, "A3", "Hardware Out", "USB Monitor", ""));
    v.push(demo_bus(false, "B1", "Virtual Out", "VoiceWire B1", "voicewire-b1"));
    v.push(demo_bus(false, "B2", "Virtual Out", "VoiceWire B2", "voicewire-b2"));
    v.push(demo_bus(false, "B3", "Virtual Out", "VoiceWire B3", "voicewire-b3"));
    v
}

fn demo_route(id: u32, name: &str, detail: &str, target: &str, icon_text: &str, icon_color: &str) -> (r: AppRouteState)
    ensures
        is_demo_route(r, id, name@, detail@, target@, icon_text@, icon_color@),
{
    AppRouteState {
        id,
        name: name.to_owned(),
        detail: detail.to_owned(),
        target: target.to_owned(),
        icon_text: icon_text.to_owned(),
        icon_color: icon_color.to_owned(),
        level: UNITY,
        muted: false,
    }
}

/// What is remembered of each route of a list.
fn remember_each(routes: &Vec<AppRouteState>) -> (v: Vec<RememberedAppRouteState>)
    ensures
        v@ == routes@.map_values(|r: AppRouteState| remembered_from(r)),
{
    let mut v: Vec<RememberedAppRouteState> = Vec::new();
    let mut i: usize = 0;
    while i < routes.len()
        invariant
            i <= routes@.len(),
            v@ == routes@.take(i as int).map_values(|r: AppRouteState| remembered_from(r)),
        decreases routes@.len() - i,
    {
        let route = &routes[i];
        v.push(RememberedAppRouteState {
            name: route.name.clone(),
            detail: route.detail.clone(),
            target: route.target.clone(),
            icon_text: route.icon_text.clone(),
            icon_color: route.icon_color.clone(),
            level: route.level,
            muted: route.muted,
        });
        i = i + 1;
        assert(v@ =~= routes@.take(i as int).map_values(|r: AppRouteState| remembered_from(r)));
    }
    assert(routes@.take(i as int) =~= routes@);
    v
}

impl SessionState {
    /// The demonstration session (see [`is_demo_session`]).
    pub fn demo() -> (s: SessionState)
        ensures
            is_demo_session(s@),
    {
        let mut app_routes: Vec<AppRouteState> = Vec::new();
        app_routes.push(demo_route(1, "Spotify", "spotify", "VAIO", "SP", "#335c44"));
        app_routes.push(demo_route(2, "Discord", "WEBRTC VoiceEngine", "AUX", "DC", "#42466a"));
        app_routes.push(demo_route(3, "Zen", "YouTube", "SYS", "ZE", "#584136"));
        let remembered_app_routes = remember_each(&app_routes);
        SessionState {
            strips: demo_strips(),
            buses: demo_buses(),
            remembered_app_routes,
            app_routes,
            quick_route_enabled: false,
            backend_connected: false,
            virtual_endpoints_ready: false,
            last_backend_error: None,
        }
    }
}

} // verus!
