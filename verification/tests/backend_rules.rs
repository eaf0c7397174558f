use voicewire::backend::{BackendCommand, BackendEvent};
use voicewire::json::JsonValue;
use voicewire::model::{EndpointKind, SessionState};
use voicewire::pipewire::{
    app_badge, build_hardware_input_links, build_hardware_input_mono_links, bus_label, device_refresh_for,
    display_app_detail, display_app_name, has_complete_virtual_layout, humanize_binary_name, is_managed_virtual_node,
    link_ids_in_listing, null_sink_module_args, parse_app_routes, parse_link_line, parse_port_header,
    parse_sink_indexes, parse_virtual_endpoint_nodes, pick_stereo_ports, playback_ports, plan_meter_taps,
    ports_in_listing, pulse_mute_command, pulse_volume_command, remap_source_module_args, resync_after_devices,
    route_links, route_target_sink, sink_input_muted, sink_name_to_route_label, virtual_bus_endpoints,
    virtual_bus_module_ids, virtual_endpoint_properties, virtual_input_endpoints, ActiveRoute, BusBinding,
    handle_steps, DeviceRefresh, HandleStep, LinkDirection, PipeWireDeviceNode, PipeWireDiscoveryBackend, RouteLink, VirtualEndpointNode,
};

fn convert(value: &serde_json::Value) -> JsonValue {
    match value {
        serde_json::Value::Null => JsonValue::Null,
        serde_json::Value::Bool(b) => JsonValue::Bool(*b),
        serde_json::Value::Number(n) => JsonValue::Number(n.as_u64()),
        serde_json::Value::String(s) => JsonValue::Str(s.clone()),
        serde_json::Value::Array(items) => JsonValue::Array(items.iter().map(convert).collect()),
        serde_json::Value::Object(members) => {
            JsonValue::Object(members.iter().map(|(k, v)| (k.clone(), convert(v))).collect())
        }
    }
}

fn json(text: &str) -> JsonValue {
    let value: serde_json::Value = serde_json::from_str(text).expect("test json should parse");
    convert(&value)
}

fn node(id: u32, name: &str, stable_id: &str, node_name: &str) -> PipeWireDeviceNode {
    PipeWireDeviceNode {
        id,
        name: name.to_string(),
        stable_id: stable_id.to_string(),
        node_name: node_name.to_string(),
        device_class: "playback".to_string(),
        kind: EndpointKind::HardwareOutput,
    }
}

fn strings(items: &[&str]) -> Vec<String> {
    items.iter().map(|s| s.to_string()).collect()
}

#[test]
fn humanizes_binary_names() {
    assert_eq!(humanize_binary_name("google-chrome"), "Google Chrome");
    assert_eq!(humanize_binary_name("firefox_bin"), "Firefox Bin");
    assert_eq!(humanize_binary_name("--"), "");
}

#[test]
fn names_application_streams() {
    assert_eq!(display_app_name("", "", "spotify", 7), "Spotify");
    assert_eq!(display_app_name("", "", "", 7), "App 7");
    assert_eq!(display_app_name("firefox", "", "", 1), "Firefox");
    assert_eq!(display_app_name("Firefox", "", "", 1), "Firefox");
    assert_eq!(display_app_name("VLC", "", "", 1), "VLC");
    assert_eq!(display_app_name("playStream", "Spotify Premium", "spotify", 3), "Spotify");
}

#[test]
fn describes_application_streams() {
    assert_eq!(display_app_detail("playStream", "Spotify Premium", "spotify", "Spotify"), "Spotify Premium");
    assert_eq!(display_app_detail("Discord", "WEBRTC VoiceEngine", "discord", "Discord"), "");
}

#[test]
fn badges_applications() {
    assert_eq!(app_badge("Spotify", "Spotify", "spotify"), ("SP".to_string(), "#4f5b4b".to_string()));
    assert_eq!(app_badge("Firefox", "", "firefox"), ("FI".to_string(), "#6a5b3f".to_string()));
    assert_eq!(app_badge("--", "", ""), ("--".to_string(), "#5b463b".to_string()));
}

#[test]
fn maps_route_targets_and_labels() {
    assert_eq!(route_target_sink("VAIO"), Ok("voicewire.in1"));
    assert_eq!(route_target_sink("SYS"), Ok("voicewire.in3"));
    assert_eq!(route_target_sink("Other"), Err("unsupported app route target \"Other\"".to_string()));
    assert_eq!(sink_name_to_route_label("voicewire.in2"), "AUX");
    assert_eq!(sink_name_to_route_label("alsa_output"), "");
    assert_eq!(bus_label(1), "A2");
    assert_eq!(bus_label(4), "B2");
    assert_eq!(bus_label(9), "bus");
}

#[test]
fn reads_port_and_link_lines() {
    assert_eq!(parse_port_header("  42 alsa_output:playback_FL"), Some((42, "alsa_output:playback_FL".to_string())));
    assert_eq!(parse_port_header("   55 |-> 44 alsa:playback_FL"), None);
    assert_eq!(parse_port_header("42"), None);
    match parse_link_line("   55 |-> 44 alsa:playback_FL") {
        Some((55, LinkDirection::Output, port)) => assert_eq!(port, "alsa:playback_FL"),
        _ => panic!("link line should parse"),
    }
    match parse_link_line("   56 |<- 30 voicewire.in1:monitor_FL") {
        Some((56, LinkDirection::Input, port)) => assert_eq!(port, "voicewire.in1:monitor_FL"),
        _ => panic!("link line should parse"),
    }
    assert!(parse_link_line("   57 -- 30 x").is_none());
}

#[test]
fn finds_link_ids_and_ports_in_listings() {
    let listing = " 30 voicewire.in1:monitor_FL\n   55 |-> 44 alsa_output:playback_FL\n 44 alsa_output:playback_FL\n   55 |<- 30 voicewire.in1:monitor_FL\n";
    assert_eq!(link_ids_in_listing(listing, "voicewire.in1:monitor_FL", "alsa_output:playback_FL"), vec![55, 55]);
    assert_eq!(link_ids_in_listing(listing, "voicewire.in1:monitor_FL", "other:playback_FL"), Vec::<u32>::new());
    let ports = "alsa_output:playback_FR\n  alsa_output:playback_FL\nother:x\n";
    assert_eq!(ports_in_listing(ports, "alsa_output"), strings(&["alsa_output:playback_FL", "alsa_output:playback_FR"]));
}

#[test]
fn reads_virtual_bus_modules() {
    let listing = "536870913\tmodule-null-sink\tsink_name=voicewire.internal.b1 sink_properties=x\n12\tmodule-x\tfoo\n14\tmodule-remap-source\tmaster=voicewire.internal.b2.monitor source_name=voicewire.b2\n";
    assert_eq!(virtual_bus_module_ids(listing), vec![536870913, 14]);
}

#[test]
fn knows_its_own_nodes() {
    assert!(is_managed_virtual_node("voicewire.in1"));
    assert!(is_managed_virtual_node("voicewire.internal.b3"));
    assert!(is_managed_virtual_node("voicewire.b2"));
    assert!(!is_managed_virtual_node("voicewire.other"));
    let mut nodes = Vec::new();
    for spec in virtual_input_endpoints() {
        nodes.push(VirtualEndpointNode { id: 1, name: spec.node_name.to_string(), media_class: spec.media_class.to_string() });
    }
    assert!(!has_complete_virtual_layout(&nodes));
    for spec in virtual_bus_endpoints() {
        nodes.push(VirtualEndpointNode { id: 2, name: spec.sink_node_name.to_string(), media_class: "Audio/Sink".to_string() });
        nodes.push(VirtualEndpointNode { id: 3, name: spec.source_node_name.to_string(), media_class: "Audio/Source".to_string() });
    }
    assert!(has_complete_virtual_layout(&nodes));
}

#[test]
fn builds_module_arguments() {
    let inputs = virtual_input_endpoints();
    assert_eq!(
        virtual_endpoint_properties(&inputs[0]),
        "{ factory.name = support.null-audio-sink node.name = \"voicewire.in1\" node.description = \"VoiceWire VAIO\" media.class = \"Audio/Sink\" object.linger = true audio.position = [ FL FR ] }"
    );
    let buses = virtual_bus_endpoints();
    assert_eq!(
        null_sink_module_args(&buses[0]),
        strings(&[
            "load-module",
            "module-null-sink",
            "sink_name=voicewire.internal.b1",
            "sink_properties=device.description=VoiceWire-B1-Internal media.name=VoiceWire-B1-Internal node.description=VoiceWire-B1-Internal",
        ])
    );
    assert_eq!(
        remap_source_module_args(&buses[1]),
        strings(&[
            "load-module",
            "module-remap-source",
            "master=voicewire.internal.b2.monitor",
            "source_name=voicewire.b2",
            "source_properties=device.description=VoiceWire-B2 media.name=VoiceWire-B2 node.description=VoiceWire-B2",
        ])
    );
    assert_eq!(pulse_volume_command("sink"), Some("set-sink-volume"));
    assert_eq!(pulse_volume_command("source"), Some("set-source-volume"));
    assert_eq!(pulse_mute_command("source"), Some("set-source-mute"));
    assert_eq!(pulse_volume_command("card"), None);
}

#[test]
fn picks_ports_and_builds_links() {
    let ports = strings(&["a:playback_FR", "a:playback_FL"]);
    assert_eq!(
        pick_stereo_ports(&ports, &[("playback_FL", "playback_FR")]),
        Some(("a:playback_FL".to_string(), "a:playback_FR".to_string()))
    );
    let capture = strings(&["mic:capture_FL", "mic:capture_FR"]);
    let links = build_hardware_input_links(&capture, "bus:playback_FL", "bus:playback_FR").expect("links");
    assert_eq!(links.len(), 2);
    assert_eq!((links[0].source_port.as_str(), links[0].dest_port.as_str()), ("mic:capture_FL", "bus:playback_FL"));
    assert_eq!((links[1].source_port.as_str(), links[1].dest_port.as_str()), ("mic:capture_FR", "bus:playback_FR"));
    let mono = build_hardware_input_mono_links(&capture, "bus:playback_FL", "bus:playback_FR").expect("links");
    assert_eq!((mono[1].source_port.as_str(), mono[1].dest_port.as_str()), ("mic:capture_FL", "bus:playback_FR"));
    let single = build_hardware_input_links(&strings(&["mic:capture_MONO"]), "l", "r").expect("links");
    assert_eq!((single[1].source_port.as_str(), single[1].dest_port.as_str()), ("mic:capture_MONO", "r"));
    assert!(build_hardware_input_links(&[], "l", "r").is_none());
    assert_eq!(playback_ports(&[], "Desk"), Err("Desk has no usable playback ports".to_string()));
    assert_eq!(
        playback_ports(&strings(&["d:playback_AUX1", "d:playback_AUX0"]), "Desk"),
        Ok(("d:playback_AUX0".to_string(), "d:playback_AUX1".to_string()))
    );
}

#[test]
fn links_virtual_strips_from_their_monitor() {
    let mut session = SessionState::demo();
    let ports = strings(&["voicewire.in1:monitor_FR", "voicewire.in1:monitor_FL"]);
    let links = route_links(&session.strips[3], &ports, "b:playback_FL", "b:playback_FR").expect("links");
    assert_eq!(links[0].source_port, "voicewire.in1:monitor_FL");
    assert_eq!(links[1].source_port, "voicewire.in1:monitor_FR");
    session.set_strip_mono(3, true);
    let links = route_links(&session.strips[3], &ports, "b:playback_FL", "b:playback_FR").expect("links");
    assert_eq!(links[1].source_port, "voicewire.in1:monitor_FL");
    assert_eq!(
        route_links(&session.strips[3], &[], "l", "r").err(),
        Some("VoiceWire VAIO has no usable monitor ports".to_string())
    );
    assert_eq!(
        route_links(&session.strips[0], &[], "l", "r").err(),
        Some("Scarlett 2i2 Mic 1 has no usable capture ports".to_string())
    );
}

#[test]
fn resolves_route_sources_and_targets() {
    let session = SessionState::demo();
    let mut backend = PipeWireDiscoveryBackend::default();
    assert_eq!(backend.route_source(9, &session), Err("strip 9 was missing".to_string()));
    assert_eq!(backend.route_source(3, &session), Ok("voicewire.in1".to_string()));
    assert_eq!(
        backend.route_source(0, &session),
        Err("MICROPHONE 1 is not assigned to an available input device".to_string())
    );
    assert_eq!(backend.route_target(0, 0, &session), None);
    assert_eq!(backend.route_target(0, 3, &session), Some("voicewire.internal.b1"));
    assert_eq!(backend.route_target(0, 1, &session), None);
    backend.known_output_nodes = vec![node(41, "Desk Speakers", "desk", "alsa_output.desk")];
    let events = backend.ensure_session_bus_bindings(&session);
    assert_eq!(events.len(), 1);
    assert_eq!(backend.route_target(0, 0, &session), Some("alsa_output.desk"));
    assert_eq!(backend.resolve_bus_volume_target(0), Some("alsa_output.desk"));
    assert_eq!(backend.resolve_bus_target_node_name(5), Some("voicewire.internal.b3"));
    assert_eq!(backend.resolve_bus_target_node_name(1), None);
}

#[test]
fn hears_soloed_and_unmuted_strips() {
    let mut session = SessionState::demo();
    let backend = PipeWireDiscoveryBackend::default();
    assert!(backend.strip_is_audible(0, &session));
    session.set_strip_solo(1, true);
    assert!(!backend.strip_is_audible(0, &session));
    assert!(backend.strip_is_audible(1, &session));
    assert!(backend.strip_is_audible(3, &session));
    session.set_strip_muted(1, true);
    assert!(backend.strip_is_audible(0, &session));
    assert!(!backend.strip_is_audible(1, &session));
    assert!(!backend.strip_is_audible(7, &session));
}

#[test]
fn resolves_volume_and_meter_targets() {
    let session = SessionState::demo();
    let mut backend = PipeWireDiscoveryBackend::default();
    assert_eq!(
        backend.resolve_strip_volume_targets(3, &session),
        vec![("sink", "voicewire.in1".to_string()), ("source", "voicewire.in1.monitor".to_string())]
    );
    assert!(backend.resolve_strip_volume_targets(0, &session).is_empty());
    let mut mic = node(7, "Scarlett 2i2 Mic 1", "s", "alsa_input.scarlett");
    mic.kind = EndpointKind::HardwareInput;
    backend.known_input_nodes = vec![mic];
    assert_eq!(backend.resolve_strip_volume_targets(0, &session), vec![("source", "alsa_input.scarlett".to_string())]);
    assert_eq!(
        backend.meter_targets(&session),
        vec![
            Some("alsa_input.scarlett".to_string()),
            None,
            None,
            Some("voicewire.in1.monitor".to_string()),
            Some("voicewire.in2.monitor".to_string()),
            Some("voicewire.in3.monitor".to_string()),
        ]
    );
}

#[test]
fn plans_meter_taps() {
    let taps = vec![(0, "a".to_string()), (1, "old".to_string()), (7, "x".to_string())];
    let desired = vec![Some("a".to_string()), Some("new".to_string()), None];
    let plan = plan_meter_taps(&taps, &desired);
    assert_eq!(plan.keep, vec![true, false, false]);
    assert_eq!(plan.start, vec![(1, "new".to_string())]);
}

#[test]
fn follows_bindings_across_device_refreshes() {
    let mut backend = PipeWireDiscoveryBackend::default();
    backend.bus_bindings = vec![
        BusBinding { bus_index: 0, stable_id: "desk".into(), node_name: "old".into(), node_id: 1 },
        BusBinding { bus_index: 1, stable_id: "gone".into(), node_name: "gone".into(), node_id: 2 },
    ];
    backend.active_routes = vec![
        ActiveRoute { strip_index: 0, bus_index: 1, links: vec![] },
        ActiveRoute { strip_index: 0, bus_index: 3, links: vec![] },
        ActiveRoute { strip_index: 1, bus_index: 0, links: vec![] },
    ];
    let events = backend.apply_discovered_devices(Vec::new(), vec![node(9, "Desk Speakers", "desk", "alsa_output.new")]);
    assert_eq!(events.len(), 2);
    assert!(matches!(events[0], BackendEvent::ConnectionStateChanged { connected: true }));
    match &events[1] {
        BackendEvent::DevicesUpdated { input_devices, output_devices } => {
            assert!(input_devices.is_empty());
            assert_eq!(output_devices.len(), 1);
            assert_eq!(output_devices[0].name, "Desk Speakers");
            assert_eq!(output_devices[0].device_class, "playback");
            assert!(output_devices[0].connected);
        }
        _ => panic!("devices should be reported"),
    }
    assert_eq!(backend.bus_bindings.len(), 1);
    assert_eq!(backend.bus_bindings[0].node_name, "alsa_output.new");
    assert_eq!(backend.bus_bindings[0].node_id, 9);
    let kept: Vec<(usize, usize)> = backend.active_routes.iter().map(|r| (r.strip_index, r.bus_index)).collect();
    assert_eq!(kept, vec![(0, 3), (1, 0)]);
    let again = backend.apply_discovered_devices(Vec::new(), vec![node(9, "Desk Speakers", "desk", "alsa_output.new")]);
    assert!(again.is_empty());
    let failed = backend.discovery_failed("gone".to_string());
    assert_eq!(failed.len(), 2);
    assert!(!backend.connected);
    assert_eq!(backend.discovery_failed("still gone".to_string()).len(), 1);
}

#[test]
fn takes_and_records_route_links() {
    let mut backend = PipeWireDiscoveryBackend::default();
    let link = |s: &str, d: &str| RouteLink { source_port: s.to_string(), dest_port: d.to_string() };
    backend.record_route(0, 0, vec![link("a", "b")]);
    backend.record_route(1, 0, vec![link("c", "d"), link("e", "f")]);
    backend.record_route(0, 0, vec![link("g", "h")]);
    let taken = backend.take_route_links(0, 0);
    assert_eq!(taken.iter().map(|l| l.source_port.as_str()).collect::<Vec<_>>(), vec!["a", "g"]);
    assert_eq!(backend.active_routes.len(), 1);
    let all = backend.take_all_route_links();
    assert_eq!(all.len(), 2);
    assert!(backend.active_routes.is_empty());
}

#[test]
fn binding_twice_keeps_one_binding() {
    let mut backend = PipeWireDiscoveryBackend::default();
    backend.known_output_nodes = vec![node(41, "Desk Speakers", "desk", "alsa_output.desk"), node(42, "Phones", "ph", "alsa_output.ph")];
    backend.bind_hardware_bus(0, "Desk Speakers");
    backend.bind_hardware_bus(0, "Desk Speakers");
    assert_eq!(backend.bus_bindings.len(), 1);
    backend.bind_hardware_bus(0, "Phones");
    assert_eq!(backend.bus_bindings.len(), 1);
    assert_eq!(backend.bus_bindings[0].node_id, 42);
    let events = backend.bind_hardware_bus(0, "");
    assert!(matches!(&events[0], BackendEvent::BusBindingChanged { bus_index: 0, device_name } if device_name.is_empty()));
    assert!(backend.bus_bindings.is_empty());
    let events = backend.bind_hardware_bus(4, "Anything");
    assert!(matches!(&events[0], BackendEvent::BusBindingChanged { bus_index: 4, device_name } if device_name == "Anything"));
}

#[test]
fn plans_bus_device_changes() {
    let session = SessionState::demo();
    let mut backend = PipeWireDiscoveryBackend::default();
    let plan = backend.plan_bus_device(&session, 0, "Missing");
    assert!(plan.session.is_none());
    assert!(!plan.sync_runtime);
    assert!(matches!(&plan.events[0], BackendEvent::BackendError { .. }));
    backend.known_output_nodes = vec![node(41, "Phones", "ph", "alsa_output.ph")];
    let plan = backend.plan_bus_device(&session, 0, "Phones");
    assert!(plan.sync_runtime);
    assert_eq!(plan.session.expect("session").buses[0].destination_name, "Phones");
    let plan = backend.plan_bus_device(&session, 2, "");
    assert_eq!(plan.session.expect("session").buses[2].destination_name, "");
}

#[test]
fn records_virtual_endpoints() {
    let mut backend = PipeWireDiscoveryBackend::default();
    let events = backend.record_virtual_endpoints(Err("no pw-dump".to_string()));
    assert!(matches!(events[0], BackendEvent::VirtualEndpointsReady { ready: false }));
    assert!(matches!(&events[1], BackendEvent::BackendError { message } if message == "no pw-dump"));
    let nodes = vec![VirtualEndpointNode { id: 5, name: "voicewire.in1".into(), media_class: "Audio/Sink".into() }];
    let events = backend.record_virtual_endpoints(Ok(nodes));
    assert_eq!(backend.virtual_endpoint_ids, vec![5]);
    assert!(matches!(&events[1], BackendEvent::BackendError { message } if message == "virtual endpoints were created incompletely"));
}

#[test]
fn parses_virtual_nodes_and_sinks() {
    assert_eq!(parse_virtual_endpoint_nodes(&json("{}")).err(), Some("pw-dump output was not a json array".to_string()));
    let dump = json(r#"[
        {"id": 3, "type": "PipeWire:Interface:Node", "info": {"props": {"node.name": "voicewire.in1", "media.class": "Audio/Sink"}}},
        {"id": 4, "type": "PipeWire:Interface:Node", "info": {"props": {"node.name": "alsa_output.x", "media.class": "Audio/Sink"}}},
        {"id": 5, "type": "PipeWire:Interface:Port", "info": {"props": {"node.name": "voicewire.in2"}}}
    ]"#);
    let nodes = parse_virtual_endpoint_nodes(&dump).expect("nodes");
    assert_eq!(nodes.len(), 1);
    assert_eq!((nodes[0].id, nodes[0].name.as_str(), nodes[0].media_class.as_str()), (3, "voicewire.in1", "Audio/Sink"));
    let missing = json(r#"[{"type": "PipeWire:Interface:Node", "info": {"props": {"node.name": "voicewire.b1"}}}]"#);
    assert_eq!(parse_virtual_endpoint_nodes(&missing).err(), Some("virtual endpoint node missing id".to_string()));
    let sinks = json(r#"[{"index": 7, "name": "voicewire.in1"}, {"name": "nameless"}, {"index": 9, "name": "alsa"}]"#);
    assert_eq!(parse_sink_indexes(&sinks), Ok(vec![("voicewire.in1".to_string(), 7), ("alsa".to_string(), 9)]));
    assert_eq!(parse_sink_indexes(&json("3")).err(), Some("Pulse sink output was not a json array".to_string()));
}

#[test]
fn lists_application_routes_in_name_order() {
    let inputs = json(r#"[
        {"index": 21, "sink": 7, "mute": true, "properties": {"application.name": "zoom", "application.process.binary": "zoom"}},
        {"index": 22, "sink": 9, "properties": {"application.name": "Alpha", "media.name": "Alpha Player"}},
        {"index": 23, "sink": 7, "properties": {"application.process.binary": "pactl"}},
        {"sink": 7, "properties": {"application.name": "nameless"}}
    ]"#);
    let sinks = vec![("voicewire.in1".to_string(), 7), ("alsa".to_string(), 9)];
    let routes = parse_app_routes(&inputs, &sinks, &[800, 1000, 1000, 1000]).expect("routes");
    assert_eq!(routes.len(), 2);
    assert_eq!(routes[0].name, "Alpha");
    assert_eq!(routes[0].detail, "Alpha Player");
    assert_eq!(routes[0].target, "");
    assert_eq!(routes[0].level, 1000);
    assert!(!routes[0].muted);
    assert_eq!(routes[1].name, "Zoom");
    assert_eq!(routes[1].id, 21);
    assert_eq!(routes[1].target, "VAIO");
    assert_eq!(routes[1].level, 800);
    assert!(routes[1].muted);
    assert_eq!(routes[1].icon_text, "ZO");
    assert_eq!(parse_app_routes(&json("{}"), &sinks, &[]).err(), Some("Pulse sink-input output was not a json array".to_string()));
}

#[test]
fn tells_whether_a_sink_input_is_muted() {
    let inputs = json(r#"[{"index": 21, "mute": true}, {"index": 22}, {"index": 23, "mute": false}]"#);
    assert_eq!(sink_input_muted(&inputs, 21), Ok(true));
    assert_eq!(sink_input_muted(&inputs, 23), Ok(false));
    assert_eq!(sink_input_muted(&inputs, 22), Err("could not find sink input 22".to_string()));
    assert_eq!(sink_input_muted(&inputs, 99), Err("could not find sink input 99".to_string()));
    assert_eq!(sink_input_muted(&json("null"), 1), Err("Pulse sink-input output was not a json array".to_string()));
}

#[test]
fn decides_device_refreshes_and_resyncs() {
    assert_eq!(device_refresh_for(&BackendCommand::Start), DeviceRefresh::Now);
    assert_eq!(device_refresh_for(&BackendCommand::RefreshMeters), DeviceRefresh::IfStale);
    assert_eq!(device_refresh_for(&BackendCommand::ToggleStripMuted { strip_index: 0 }), DeviceRefresh::Never);
    let updated = vec![BackendEvent::DevicesUpdated { input_devices: vec![], output_devices: vec![] }];
    assert!(resync_after_devices(&BackendCommand::RefreshMeters, &updated));
    assert!(!resync_after_devices(&BackendCommand::Start, &updated));
    assert!(!resync_after_devices(&BackendCommand::RefreshMeters, &vec![]));
}

#[test]
fn plans_the_work_on_each_command() {
    let start = handle_steps(&BackendCommand::Start);
    assert_eq!(start.len(), 8);
    assert!(matches!(start[0], HandleStep::RefreshDevices));
    assert!(matches!(start[1], HandleStep::ReportConnected));
    assert!(matches!(start[7], HandleStep::Meter));
    let stop = handle_steps(&BackendCommand::Shutdown);
    assert_eq!(stop.len(), 5);
    assert!(matches!(stop[3], HandleStep::Report(BackendEvent::ConnectionStateChanged { connected: false })));
    let bus = handle_steps(&BackendCommand::SetBusDevice { bus_index: 0, device_name: "Desk".into() });
    assert!(matches!(bus[1], HandleStep::SetBusDevice));
    assert!(matches!(bus[2], HandleStep::ResyncIfDevicesChanged));
    let gain = handle_steps(&BackendCommand::SetStripGain { strip_index: 0, gain_db: 0 });
    assert_eq!(gain.len(), 1);
    assert!(matches!(gain[0], HandleStep::ApplyMix));
    assert!(handle_steps(&BackendCommand::PreviewAppLevel { app_id: 1, level: 0 }).is_empty());
    let app = handle_steps(&BackendCommand::ToggleAppMuted { app_id: 4 });
    assert!(matches!(app[0], HandleStep::ToggleAppStreamMute));
    assert!(matches!(app[1], HandleStep::RefreshAppRoutes));
}

#[test]
fn sorts_application_routes_ignoring_case() {
    let route = |id: u32, name: &str| voicewire::model::AppRouteState {
        id,
        name: name.to_string(),
        detail: String::new(),
        target: String::new(),
        icon_text: String::new(),
        icon_color: String::new(),
        level: 1000,
        muted: false,
    };
    let sorted = voicewire::pipewire::sort_routes_by_name(vec![route(1, "Zeta"), route(2, "alpha"), route(3, "Beta"), route(4, "ALPHA")]);
    let names: Vec<&str> = sorted.iter().map(|r| r.name.as_str()).collect();
    assert_eq!(names, vec!["alpha", "ALPHA", "Beta", "Zeta"]);
}

#[test]
fn keys_remembered_routes_by_lower_case_name_and_detail() {
    assert_eq!(voicewire::model::app_route_identity_key("  Spotify ", "Music"), "spotify\u{1f}music");
    assert_eq!(
        voicewire::model::app_route_identity_key("Spotify", "Music"),
        voicewire::model::app_route_identity_key("SPOTIFY", "music ")
    );
}

#[test]
fn offers_each_device_once_in_name_order() {
    let dump = json(r#"[
        {"id": 1, "type": "PipeWire:Interface:Node", "info": {"props": {"media.class": "Audio/Sink", "node.name": "alsa.z", "node.description": "Zeta Speakers", "device.serial": "z", "device.api": "alsa"}}},
        {"id": 2, "type": "PipeWire:Interface:Node", "info": {"props": {"media.class": "Audio/Sink", "node.name": "alsa.a", "node.nick": "Alpha Phones", "factory.name": "api.alsa.pcm.sink"}}},
        {"id": 3, "type": "PipeWire:Interface:Node", "info": {"props": {"media.class": "Audio/Sink", "node.name": "alsa.z2", "node.description": "Zeta Copy", "device.serial": "z", "device.api": "alsa"}}},
        {"id": 4, "type": "PipeWire:Interface:Node", "info": {"props": {"media.class": "Audio/Source", "node.name": "bluez.mic", "node.description": "Headset Mic"}}},
        {"type": "PipeWire:Interface:Node", "info": {"props": {"media.class": "Audio/Source", "node.name": "alsa.noid", "device.api": "alsa"}}},
        {"id": 6, "type": "PipeWire:Interface:Node", "info": {"props": {"media.class": "Audio/Source", "node.name": "alsa.bare", "device.api": "alsa"}}}
    ]"#);
    let (inputs, outputs) = voicewire::pipewire::parse_dump_device_nodes(&dump).expect("valid dump");
    let names: Vec<&str> = outputs.iter().map(|n| n.name.as_str()).collect();
    assert_eq!(names, vec!["Alpha Phones", "Zeta Speakers"]);
    assert_eq!(outputs[0].stable_id, "alsa.a");
    assert_eq!(outputs[0].device_class, "playback");
    assert_eq!(inputs.len(), 1);
    assert_eq!(inputs[0].name, "alsa.bare");
    assert_eq!(inputs[0].id, 6);
    assert_eq!(inputs[0].device_class, "capture");
    assert_eq!(inputs[0].kind, EndpointKind::HardwareInput);
    assert_eq!(
        voicewire::pipewire::parse_dump_device_nodes(&json("{}")).err(),
        Some("pw-dump output was not a json array".to_string())
    );
}
