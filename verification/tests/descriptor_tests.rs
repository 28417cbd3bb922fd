use vjoy::Axis;
use vjoy::Button;
use vjoy::ButtonMap;
use vjoy::GenerationDescription;
use vjoy::GenerationError;
use vjoy::InputDeviceRef;
use vjoy::OutputType;
use vjoy::VJoyDescriptor;

fn device(index: usize, path: &str, keys: Vec<Button>, axes: Vec<Axis>) -> InputDeviceRef {
    InputDeviceRef {
        index,
        system_path: path.to_string(),
        keys,
        axes,
        axis_info: Vec::new(),
    }
}

#[test]
fn output_type_is_combined() {
    assert!(OutputType::Combined("Out".to_string()).is_combined());
    assert!(!OutputType::Passthrough(vec!["X".to_string()]).is_combined());
}

#[test]
fn output_type_count() {
    assert_eq!(OutputType::Combined("Out".to_string()).count(), 1);
    let names = vec!["X".to_string(), "Y".to_string(), "Z".to_string()];
    assert_eq!(OutputType::Passthrough(names).count(), 3);
}

#[test]
fn map_lookup_is_deterministic_pure_data() {
    let mut map = ButtonMap::new();
    map.insert(0, Button::BTN_TRIGGER, Button::BTN_TRIGGER);
    map.insert(1, Button::BTN_TRIGGER, Button::Stub);
    let first = map.get(1, Button::BTN_TRIGGER);
    let second = map.get(1, Button::BTN_TRIGGER);
    assert_eq!(first, Some(Button::Stub));
    assert_eq!(first, second);
    assert_eq!(map.get(0, Button::BTN_TRIGGER), Some(Button::BTN_TRIGGER));
    assert_eq!(map.get(2, Button::BTN_TRIGGER), None);
    assert_eq!(map.len(), 2);
    assert_eq!(map.entry_at(0), ((0, Button::BTN_TRIGGER), Button::BTN_TRIGGER));
}

#[test]
fn passthrough_count_mismatch_fails_generation() {
    let generation = GenerationDescription {
        input: vec!["DeviceA".to_string(), "DeviceB".to_string()],
        output: OutputType::Passthrough(vec!["X".to_string()]),
    };
    let devices = vec![
        device(0, "/dev/input/event0", vec![Button::BTN_0], vec![]),
        device(1, "/dev/input/event1", vec![Button::BTN_1], vec![]),
    ];
    let result = VJoyDescriptor::generate_descriptor(generation, &devices);
    assert_eq!(result, Err(GenerationError::CountMismatch));
}

#[test]
fn combined_generation_identity_then_stub() {
    // Two devices sharing one name, bound to distinct paths: the first passes
    // through unchanged, the second is muted.
    let generation = GenerationDescription {
        input: vec!["DeviceA".to_string(), "DeviceA".to_string()],
        output: OutputType::Combined("Out".to_string()),
    };
    let devices = vec![
        device(
            0,
            "/dev/input/event0",
            vec![Button::BTN_TRIGGER, Button::BTN_THUMB],
            vec![Axis::ABS_X, Axis::ABS_Y],
        ),
        device(1, "/dev/input/event1", vec![Button::BTN_TRIGGER], vec![Axis::ABS_Z]),
    ];
    let descriptor = VJoyDescriptor::generate_descriptor(generation, &devices).unwrap();
    assert_eq!(descriptor.input_devices, vec!["DeviceA".to_string(), "DeviceA".to_string()]);
    assert_eq!(descriptor.output_device, OutputType::Combined("Out".to_string()));
    assert_eq!(
        descriptor.key_mappings.get(0, Button::BTN_TRIGGER),
        Some(Button::BTN_TRIGGER)
    );
    assert_eq!(descriptor.key_mappings.get(0, Button::BTN_THUMB), Some(Button::BTN_THUMB));
    assert_eq!(descriptor.key_mappings.get(1, Button::BTN_TRIGGER), Some(Button::Stub));
    assert_eq!(descriptor.axis_mappings.get(0, Axis::ABS_X), Some(Axis::ABS_X));
    assert_eq!(descriptor.axis_mappings.get(0, Axis::ABS_Y), Some(Axis::ABS_Y));
    assert_eq!(descriptor.axis_mappings.get(1, Axis::ABS_Z), Some(Axis::Stub));
    // Pairs outside the declared capabilities are absent.
    assert_eq!(descriptor.key_mappings.get(1, Button::BTN_THUMB), None);
    assert_eq!(descriptor.axis_mappings.get(0, Axis::ABS_Z), None);
}

#[test]
fn passthrough_generation_identity_everywhere() {
    let generation = GenerationDescription {
        input: vec!["DeviceA".to_string(), "DeviceB".to_string()],
        output: OutputType::Passthrough(vec!["X".to_string(), "Y".to_string()]),
    };
    let devices = vec![
        device(0, "/dev/input/event0", vec![Button::BTN_0], vec![Axis::ABS_X]),
        device(1, "/dev/input/event1", vec![Button::BTN_1], vec![Axis::ABS_Y]),
    ];
    let descriptor = VJoyDescriptor::generate_descriptor(generation, &devices).unwrap();
    assert_eq!(descriptor.output_device.count(), descriptor.input_devices.len());
    assert_eq!(descriptor.key_mappings.get(0, Button::BTN_0), Some(Button::BTN_0));
    assert_eq!(descriptor.key_mappings.get(1, Button::BTN_1), Some(Button::BTN_1));
    assert_eq!(descriptor.axis_mappings.get(0, Axis::ABS_X), Some(Axis::ABS_X));
    assert_eq!(descriptor.axis_mappings.get(1, Axis::ABS_Y), Some(Axis::ABS_Y));
    assert_eq!(descriptor.key_mappings.get(1, Button::BTN_0), None);
}

#[test]
fn parse_output_without_comma_is_combined() {
    assert_eq!(
        OutputType::parse("Combined Joystick".to_string()),
        OutputType::Combined("Combined Joystick".to_string())
    );
}

#[test]
fn parse_output_with_commas_is_passthrough() {
    assert_eq!(
        OutputType::parse("X,Y".to_string()),
        OutputType::Passthrough(vec!["X".to_string(), "Y".to_string()])
    );
    assert_eq!(
        OutputType::parse("A,,C,".to_string()),
        OutputType::Passthrough(vec![
            "A".to_string(),
            "".to_string(),
            "C".to_string(),
            "".to_string()
        ])
    );
    assert_eq!(OutputType::parse("".to_string()), OutputType::Combined("".to_string()));
}
