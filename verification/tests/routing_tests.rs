use vjoy::Axis;
use vjoy::AxisMap;
use vjoy::Button;
use vjoy::ButtonMap;
use vjoy::EmittedEvent;
use vjoy::EventEnvelope;
use vjoy::EventKind;
use vjoy::OutputType;
use vjoy::RouteAction;
use vjoy::VJoyDescriptor;
use vjoy::route_event;

fn descriptor(output: OutputType) -> VJoyDescriptor {
    let mut key_mappings = ButtonMap::new();
    key_mappings.insert(0, Button::BTN_TRIGGER, Button::BTN_THUMB);
    key_mappings.insert(1, Button::BTN_TRIGGER, Button::BTN_TRIGGER);
    key_mappings.insert(1, Button::BTN_THUMB, Button::Stub);
    let mut axis_mappings = AxisMap::new();
    axis_mappings.insert(0, Axis::ABS_X, Axis::Stub);
    axis_mappings.insert(1, Axis::ABS_Y, Axis::ABS_RZ);
    VJoyDescriptor {
        input_devices: vec!["DeviceA".to_string(), "DeviceB".to_string()],
        output_device: output,
        key_mappings,
        axis_mappings,
    }
}

#[test]
fn unmapped_axis_event_emits_nothing() {
    // An axis event for a pair with no map entry is dropped silently.
    let d = descriptor(OutputType::Combined("Out".to_string()));
    let envelope = EventEnvelope { device_index: 1, kind: EventKind::Axis, code: 0x00, value: 42 };
    assert_eq!(route_event(&d, &envelope), RouteAction::Drop);
}

#[test]
fn stub_mapped_axis_event_emits_nothing() {
    // The pair is described, but its destination is the stub sentinel:
    // conversion fails and the event is dropped without any crash.
    let d = descriptor(OutputType::Combined("Out".to_string()));
    let envelope = EventEnvelope { device_index: 0, kind: EventKind::Axis, code: 0x00, value: 7 };
    assert_eq!(route_event(&d, &envelope), RouteAction::Drop);
}

#[test]
fn key_event_translates_and_goes_to_the_combined_output() {
    let d = descriptor(OutputType::Combined("Out".to_string()));
    let envelope = EventEnvelope { device_index: 0, kind: EventKind::Key, code: 0x120, value: 1 };
    assert_eq!(
        route_event(&d, &envelope),
        RouteAction::Emit(EmittedEvent { output_index: 0, kind: EventKind::Key, code: 0x121, value: 1 })
    );
    // In combined mode every device feeds output 0.
    let envelope = EventEnvelope { device_index: 1, kind: EventKind::Key, code: 0x120, value: 0 };
    assert_eq!(
        route_event(&d, &envelope),
        RouteAction::Emit(EmittedEvent { output_index: 0, kind: EventKind::Key, code: 0x120, value: 0 })
    );
}

#[test]
fn passthrough_routes_by_device_index() {
    let d = descriptor(OutputType::Passthrough(vec!["X".to_string(), "Y".to_string()]));
    let envelope = EventEnvelope { device_index: 1, kind: EventKind::Axis, code: 0x01, value: -3 };
    assert_eq!(
        route_event(&d, &envelope),
        RouteAction::Emit(EmittedEvent { output_index: 1, kind: EventKind::Axis, code: 0x05, value: -3 })
    );
}

#[test]
fn stub_mapped_key_event_emits_nothing() {
    let d = descriptor(OutputType::Combined("Out".to_string()));
    let envelope = EventEnvelope { device_index: 1, kind: EventKind::Key, code: 0x121, value: 1 };
    assert_eq!(route_event(&d, &envelope), RouteAction::Drop);
}

#[test]
fn other_event_kinds_are_ignored() {
    let d = descriptor(OutputType::Combined("Out".to_string()));
    let envelope = EventEnvelope { device_index: 0, kind: EventKind::Other, code: 0, value: 0 };
    assert_eq!(route_event(&d, &envelope), RouteAction::Drop);
}

#[test]
fn unknown_key_codes_still_route() {
    let mut key_mappings = ButtonMap::new();
    key_mappings.insert(0, Button::Unknown(0x2c0), Button::Unknown(0x2c0));
    let d = VJoyDescriptor {
        input_devices: vec!["DeviceA".to_string()],
        output_device: OutputType::Combined("Out".to_string()),
        key_mappings,
        axis_mappings: AxisMap::new(),
    };
    let envelope = EventEnvelope { device_index: 0, kind: EventKind::Key, code: 0x2c0, value: 1 };
    assert_eq!(
        route_event(&d, &envelope),
        RouteAction::Emit(EmittedEvent { output_index: 0, kind: EventKind::Key, code: 0x2c0, value: 1 })
    );
}
