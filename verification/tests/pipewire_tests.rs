use voicewire::backend::BackendEvent;
use voicewire::json::JsonValue;
use voicewire::model::EndpointKind;
use voicewire::pipewire::{parse_dump_device_nodes, PipeWireDeviceNode, PipeWireDiscoveryBackend};

fn convert(value: &serde_json::Value) -> JsonValue {
    match value {
        serde_json::Value::Null => JsonValue::Null,
        serde_json::Value::Bool(b) => JsonValue::Bool(*b),
        serde_json::Value::Number(n) => JsonValue::Number(n.as_u64()),
        serde_json::Value::String(s) => JsonValue::Str(s.clone()),
        serde_json::Value::Array(items) => JsonValue::Array(items.iter().map(convert).collect()),
        serde_json::Value::Object(members) => {
            JsonValue::Object(members.iter().map(|(k, v)| (k.clone(), convert(v))).collect())
        }
    }
}

fn json(text: &str) -> JsonValue {
    let value: serde_json::Value = serde_json::from_str(text).expect("test json should parse");
    convert(&value)
}

fn event_name(event: &BackendEvent) -> &'static str {
    match event {
        BackendEvent::DevicesUpdated { .. } => "DevicesUpdated",
        BackendEvent::VirtualEndpointsReady { .. } => "VirtualEndpointsReady",
        BackendEvent::RouteChanged { .. } => "RouteChanged",
        BackendEvent::StripGainChanged { .. } => "StripGainChanged",
        BackendEvent::StripGateChanged { .. } => "StripGateChanged",
        BackendEvent::BusGainChanged { .. } => "BusGainChanged",
        BackendEvent::StripMutedChanged { .. } => "StripMutedChanged",
        BackendEvent::StripSoloChanged { .. } => "StripSoloChanged",
        BackendEvent::StripMonoChanged { .. } => "StripMonoChanged",
        BackendEvent::BusMutedChanged { .. } => "BusMutedChanged",
        BackendEvent::StripDeviceChanged { .. } => "StripDeviceChanged",
        BackendEvent::BusBindingChanged { .. } => "BusBindingChanged",
        BackendEvent::VirtualAppLevelChanged { .. } => "VirtualAppLevelChanged",
        BackendEvent::VirtualAppMutedChanged { .. } => "VirtualAppMutedChanged",
        BackendEvent::AppRoutesUpdated { .. } => "AppRoutesUpdated",
        BackendEvent::MetersUpdated { .. } => "MetersUpdated",
        BackendEvent::BackendError { .. } => "BackendError",
        BackendEvent::ConnectionStateChanged { .. } => "ConnectionStateChanged",
    }
}

#[test]
fn parses_hardware_input_and_output_nodes_only() {
    let dump = json(
        r#"[
            {
                "id": 10,
                "type": "PipeWire:Interface:Node",
                "info": {
                    "props": {
                        "media.class": "Audio/Sink",
                        "node.name": "alsa_output.usb-real.sink",
                        "node.description": "Real Speakers",
                        "device.api": "alsa",
                        "factory.name": "api.alsa.pcm.sink"
                    }
                }
            },
            {
                "id": 11,
                "type": "PipeWire:Interface:Node",
                "info": {
                    "props": {
                        "media.class": "Audio/Source",
                        "node.name": "alsa_input.usb-real.source",
                        "node.description": "Real Mic",
                        "device.api": "alsa",
                        "factory.name": "api.alsa.pcm.source"
                    }
                }
            },
            {
                "id": 12,
                "type": "PipeWire:Interface:Node",
                "info": {
                    "props": {
                        "media.class": "Stream/Output/Audio",
                        "node.name": "spotify"
                    }
                }
            },
            {
                "id": 13,
                "type": "PipeWire:Interface:Node",
                "info": {
                    "props": {
                        "media.class": "Audio/Source",
                        "node.name": "alsa_output.usb-real.monitor",
                        "node.description": "Monitor of Real Speakers",
                        "device.api": "alsa",
                        "factory.name": "api.alsa.pcm.source"
                    }
                }
            },
            {
                "id": 14,
                "type": "PipeWire:Interface:Node",
                "info": {
                    "props": {
                        "media.class": "Audio/Sink",
                        "node.name": "voicewire.in1",
                        "node.description": "VoiceWire In 1",
                        "factory.name": "support.null-audio-sink"
                    }
                }
            },
            {
                "id": 15,
                "type": "PipeWire:Interface:Node",
                "info": {
                    "props": {
                        "media.class": "Audio/Source",
                        "node.name": "voicewire.b1",
                        "node.description": "VoiceWire B1",
                        "factory.name": "support.null-audio-sink"
                    }
                }
            }
        ]"#,
    );

    let (inputs, outputs) = parse_dump_device_nodes(&dump).expect("valid dump should parse");

    assert_eq!(inputs.len(), 1);
    assert_eq!(outputs.len(), 1);
    assert_eq!(inputs[0].name, "Real Mic");
    assert_eq!(outputs[0].name, "Real Speakers");
}

#[test]
fn parse_dump_device_nodes_keeps_node_identity_for_output_binding() {
    let dump = json(
        r#"[
            {
                "id": 41,
                "type": "PipeWire:Interface:Node",
                "info": {
                    "props": {
                        "media.class": "Audio/Sink",
                        "node.name": "alsa_output.pci-0000_00_1f.3.analog-stereo",
                        "node.description": "Desk Speakers",
                        "device.serial": "desk-speakers-serial",
                        "device.api": "alsa",
                        "factory.name": "api.alsa.pcm.sink"
                    }
                }
            }
        ]"#,
    );

    let (_inputs, outputs) = parse_dump_device_nodes(&dump).expect("valid dump should parse");

    assert_eq!(outputs.len(), 1);
    assert_eq!(outputs[0].id, 41);
    assert_eq!(outputs[0].name, "Desk Speakers");
    assert_eq!(outputs[0].stable_id, "desk-speakers-serial");
    assert_eq!(outputs[0].node_name, "alsa_output.pci-0000_00_1f.3.analog-stereo");
}

#[test]
fn bind_hardware_bus_resolves_real_output_node() {
    let mut backend = PipeWireDiscoveryBackend::default();
    backend.known_output_nodes = vec![PipeWireDeviceNode {
        id: 41,
        name: "Desk Speakers".into(),
        stable_id: "desk-speakers-serial".into(),
        node_name: "alsa_output.pci-0000_00_1f.3.analog-stereo".into(),
        device_class: "playback".into(),
        kind: EndpointKind::HardwareOutput,
    }];

    let events = backend.bind_hardware_bus(0, "Desk Speakers");

    assert_eq!(events.len(), 1);
    match &events[0] {
        BackendEvent::BusBindingChanged { bus_index, device_name } => {
            assert_eq!(*bus_index, 0);
            assert_eq!(device_name, "Desk Speakers");
        }
        other => panic!("unexpected event: {:?}", event_name(other)),
    }
    assert_eq!(backend.bus_bindings.len(), 1);
    assert_eq!(backend.bus_bindings[0].node_id, 41);
    assert_eq!(backend.bus_bindings[0].node_name, "alsa_output.pci-0000_00_1f.3.analog-stereo");
}

#[test]
fn bind_hardware_bus_rejects_unknown_output() {
    let mut backend = PipeWireDiscoveryBackend::default();

    let events = backend.bind_hardware_bus(1, "Missing Device");

    assert_eq!(events.len(), 1);
    match &events[0] {
        BackendEvent::BackendError { message } => {
            assert!(message.contains("A2"));
            assert!(message.contains("Missing Device"));
        }
        other => panic!("unexpected event: {:?}", event_name(other)),
    }
    assert!(backend.bus_bindings.is_empty());
}
