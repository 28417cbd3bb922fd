use vjoy::DiscoveredDevice;
use vjoy::DiscoveryError;
use vjoy::InputDeviceRef;

fn available(name: &str, path: &str) -> DiscoveredDevice {
    DiscoveredDevice {
        name: name.to_string(),
        system_path: path.to_string(),
        keys: Vec::new(),
        axes: Vec::new(),
        axis_info: Vec::new(),
    }
}

#[test]
fn duplicate_names_bind_distinct_paths() {
    let requested = vec!["DeviceA".to_string(), "DeviceA".to_string()];
    let devices = vec![
        available("DeviceA", "/dev/input/event0"),
        available("DeviceA", "/dev/input/event1"),
    ];
    let selection = InputDeviceRef::find_unique_input_devices(&requested, &devices).unwrap();
    assert_eq!(selection, vec![0, 1]);
}

#[test]
fn resolution_follows_name_list_order() {
    let requested = vec!["DeviceB".to_string(), "DeviceA".to_string()];
    let devices = vec![
        available("DeviceA", "/dev/input/event0"),
        available("DeviceB", "/dev/input/event1"),
        available("DeviceA", "/dev/input/event2"),
    ];
    let selection = InputDeviceRef::find_unique_input_devices(&requested, &devices).unwrap();
    // Each request takes the first unclaimed match in enumeration order.
    assert_eq!(selection, vec![1, 0]);
}

#[test]
fn missing_device_fails_with_its_name() {
    let requested = vec!["DeviceA".to_string(), "DeviceC".to_string()];
    let devices = vec![available("DeviceA", "/dev/input/event0")];
    let result = InputDeviceRef::find_unique_input_devices(&requested, &devices);
    assert_eq!(result, Err(DiscoveryError::DeviceNotFound("DeviceC".to_string())));
}

#[test]
fn exhausted_duplicates_fail_with_the_name() {
    let requested = vec!["DeviceA".to_string(), "DeviceA".to_string()];
    let devices = vec![available("DeviceA", "/dev/input/event0")];
    let result = InputDeviceRef::find_unique_input_devices(&requested, &devices);
    assert_eq!(result, Err(DiscoveryError::DeviceNotFound("DeviceA".to_string())));
}

#[test]
fn same_path_is_claimed_only_once() {
    let requested = vec!["DeviceA".to_string(), "DeviceA".to_string()];
    let devices = vec![
        available("DeviceA", "/dev/input/event0"),
        available("DeviceA", "/dev/input/event0"),
        available("DeviceA", "/dev/input/event5"),
    ];
    let selection = InputDeviceRef::find_unique_input_devices(&requested, &devices).unwrap();
    assert_eq!(selection, vec![0, 2]);
}
