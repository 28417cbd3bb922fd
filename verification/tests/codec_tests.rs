use vjoy::Axis;
use vjoy::AxisMap;
use vjoy::Button;
use vjoy::ButtonMap;
use vjoy::OutputType;
use vjoy::VJoyDescriptor;
use vjoy::decode_descriptor;
use vjoy::encode_descriptor;

fn sample_combined() -> VJoyDescriptor {
    let mut key_mappings = ButtonMap::new();
    key_mappings.insert(0, Button::BTN_TRIGGER, Button::BTN_TRIGGER);
    key_mappings.insert(1, Button::BTN_TRIGGER, Button::Stub);
    key_mappings.insert(1, Button::Unknown(0x2c0), Button::BTN_DEAD);
    let mut axis_mappings = AxisMap::new();
    axis_mappings.insert(0, Axis::ABS_X, Axis::ABS_X);
    axis_mappings.insert(1, Axis::ABS_Y, Axis::Stub);
    VJoyDescriptor {
        input_devices: vec!["Thrustmaster T.16000M".to_string(), "Thrustmaster T.16000M".to_string()],
        output_device: OutputType::Combined("Combined Joystick".to_string()),
        key_mappings,
        axis_mappings,
    }
}

#[test]
fn round_trip_combined_descriptor() {
    let descriptor = sample_combined();
    let tokens = encode_descriptor(&descriptor);
    let decoded = decode_descriptor(&tokens).unwrap();
    assert_eq!(decoded, descriptor);
}

#[test]
fn round_trip_passthrough_descriptor() {
    let mut key_mappings = ButtonMap::new();
    key_mappings.insert(0, Button::BTN_0, Button::BTN_0);
    key_mappings.insert(1, Button::BTN_1, Button::BTN_1);
    let descriptor = VJoyDescriptor {
        input_devices: vec!["DeviceA".to_string(), "DeviceB".to_string()],
        output_device: OutputType::Passthrough(vec!["X".to_string(), "Y".to_string()]),
        key_mappings,
        axis_mappings: AxisMap::new(),
    };
    let tokens = encode_descriptor(&descriptor);
    let decoded = decode_descriptor(&tokens).unwrap();
    assert_eq!(decoded, descriptor);
}

#[test]
fn round_trip_keeps_input_name_order_and_non_ascii() {
    let descriptor = VJoyDescriptor {
        input_devices: vec!["pédale à câble".to_string(), "".to_string(), "ручка".to_string()],
        output_device: OutputType::Combined("出力".to_string()),
        key_mappings: ButtonMap::new(),
        axis_mappings: AxisMap::new(),
    };
    let tokens = encode_descriptor(&descriptor);
    let decoded = decode_descriptor(&tokens).unwrap();
    assert_eq!(decoded.input_devices, descriptor.input_devices);
    assert_eq!(decoded, descriptor);
}

#[test]
fn trailing_tokens_are_rejected() {
    let descriptor = sample_combined();
    let mut tokens = encode_descriptor(&descriptor);
    tokens.push(0);
    assert_eq!(decode_descriptor(&tokens), None);
}

#[test]
fn truncated_streams_are_rejected() {
    let descriptor = sample_combined();
    let mut tokens = encode_descriptor(&descriptor);
    tokens.pop();
    assert_eq!(decode_descriptor(&tokens), None);
    assert_eq!(decode_descriptor(&Vec::new()), None);
}

#[test]
fn repeated_map_keys_are_rejected() {
    // inputs: empty list; output: Combined with an empty name; two button map
    // entries that repeat the key (device 0, BTN_0); no axis entries.
    let tokens: Vec<u64> = vec![
        0, // no input names
        0, 1, 0, // Combined, name of byte length 0
        2, // two button entries
        0, 0, 0x100, 0, 0x100, // (0, BTN_0) -> BTN_0
        0, 0, 0x100, 2, 0, // (0, BTN_0) -> Stub, repeated key
        0, // no axis entries
    ];
    assert_eq!(decode_descriptor(&tokens), None);
}
