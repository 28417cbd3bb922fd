use vjoy::AbsAxisInfo;
use vjoy::Axis;
use vjoy::BuildError;
use vjoy::Button;
use vjoy::GenerationDescription;
use vjoy::InputDeviceRef;
use vjoy::Output;
use vjoy::OutputType;
use vjoy::VJoyDescriptor;
use vjoy::plan_outputs;

fn info(minimum: i32, maximum: i32) -> AbsAxisInfo {
    AbsAxisInfo { value: 0, minimum, maximum, fuzz: 0, flat: 0, resolution: 0 }
}

fn device(
    index: usize,
    path: &str,
    keys: Vec<Button>,
    axes: Vec<Axis>,
    axis_info: Vec<(u16, AbsAxisInfo)>,
) -> InputDeviceRef {
    InputDeviceRef { index, system_path: path.to_string(), keys, axes, axis_info }
}

#[test]
fn passthrough_builds_one_aligned_device_per_input() {
    // DeviceA carries a trigger and the X axis, DeviceB a thumb button and
    // the Y axis; the two virtual devices mirror them index for index.
    let generation = GenerationDescription {
        input: vec!["DeviceA".to_string(), "DeviceB".to_string()],
        output: OutputType::Passthrough(vec!["X".to_string(), "Y".to_string()]),
    };
    let devices = vec![
        device(
            0,
            "/dev/input/event0",
            vec![Button::BTN_TRIGGER],
            vec![Axis::ABS_X],
            vec![(0x00, info(-512, 512))],
        ),
        device(
            1,
            "/dev/input/event1",
            vec![Button::BTN_THUMB],
            vec![Axis::ABS_Y],
            vec![(0x01, info(0, 255))],
        ),
    ];
    let descriptor = VJoyDescriptor::generate_descriptor(generation, &devices).unwrap();
    let output = plan_outputs(&descriptor, &devices).unwrap();
    match output {
        Output::Passthrough(plans) => {
            assert_eq!(plans.len(), 2);
            assert_eq!(plans[0].name, "X".to_string());
            assert_eq!(plans[0].keys, vec![0x120u16]);
            assert_eq!(plans[0].axes, vec![(0x00u16, info(-512, 512))]);
            assert_eq!(plans[1].name, "Y".to_string());
            assert_eq!(plans[1].keys, vec![0x121u16]);
            assert_eq!(plans[1].axes, vec![(0x01u16, info(0, 255))]);
        },
        Output::Combined(_) => panic!("expected a passthrough topology"),
    }
}

#[test]
fn combined_plan_excludes_stub_destinations() {
    let generation = GenerationDescription {
        input: vec!["DeviceA".to_string(), "DeviceA".to_string()],
        output: OutputType::Combined("Out".to_string()),
    };
    let devices = vec![
        device(
            0,
            "/dev/input/event0",
            vec![Button::BTN_TRIGGER],
            vec![Axis::ABS_X],
            vec![(0x00, info(-100, 100))],
        ),
        device(
            1,
            "/dev/input/event1",
            vec![Button::BTN_THUMB],
            vec![Axis::ABS_Y],
            vec![(0x01, info(-1, 1))],
        ),
    ];
    let descriptor = VJoyDescriptor::generate_descriptor(generation, &devices).unwrap();
    let output = plan_outputs(&descriptor, &devices).unwrap();
    match output {
        Output::Combined(plan) => {
            assert_eq!(plan.name, "Out".to_string());
            // The muted second device contributes no key and no axis.
            assert_eq!(plan.keys, vec![0x120u16]);
            assert_eq!(plan.axes, vec![(0x00u16, info(-100, 100))]);
        },
        Output::Passthrough(_) => panic!("expected a combined topology"),
    }
}

#[test]
fn missing_axis_metadata_is_fatal() {
    let generation = GenerationDescription {
        input: vec!["DeviceA".to_string()],
        output: OutputType::Combined("Out".to_string()),
    };
    // The device declares the X axis but reports no calibration for it.
    let devices = vec![
        device(0, "/dev/input/event0", vec![], vec![Axis::ABS_X], vec![(0x01, info(0, 1))]),
    ];
    let descriptor = VJoyDescriptor::generate_descriptor(generation, &devices).unwrap();
    let result = plan_outputs(&descriptor, &devices);
    assert_eq!(result, Err(BuildError::AxisMetadataMissing(0, Axis::ABS_X)));
}

#[test]
fn stub_axis_source_is_fatal() {
    let mut descriptor = VJoyDescriptor {
        input_devices: vec!["DeviceA".to_string()],
        output_device: OutputType::Combined("Out".to_string()),
        key_mappings: vjoy::ButtonMap::new(),
        axis_mappings: vjoy::AxisMap::new(),
    };
    descriptor.axis_mappings.insert(0, Axis::Stub, Axis::ABS_X);
    let devices = vec![
        device(0, "/dev/input/event0", vec![], vec![], vec![(0x00, info(0, 1))]),
    ];
    let result = plan_outputs(&descriptor, &devices);
    assert_eq!(result, Err(BuildError::SourceAxisStub(0)));
}
