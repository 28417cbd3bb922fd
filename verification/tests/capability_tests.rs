use vjoy::Axis;
use vjoy::Button;
use vjoy::ConversionError;

#[test]
fn button_stub_conversion_always_fails() {
    assert_eq!(Button::Stub.to_raw(), Err(ConversionError::Stub));
}

#[test]
fn axis_stub_conversion_always_fails() {
    assert_eq!(Axis::Stub.to_raw(), Err(ConversionError::Stub));
}

#[test]
fn button_named_conversion_inverts_from_raw() {
    let named = vec![
        (0x100u16, Button::BTN_0),
        (0x109, Button::BTN_9),
        (0x110, Button::BTN_LEFT),
        (0x111, Button::BTN_RIGHT),
        (0x112, Button::BTN_MIDDLE),
        (0x113, Button::BTN_SIDE),
        (0x120, Button::BTN_TRIGGER),
        (0x121, Button::BTN_THUMB),
        (0x122, Button::BTN_THUMB2),
        (0x123, Button::BTN_TOP),
        (0x124, Button::BTN_TOP2),
        (0x125, Button::BTN_PINKIE),
        (0x126, Button::BTN_BASE),
        (0x12b, Button::BTN_BASE6),
        (0x12f, Button::BTN_DEAD),
    ];
    for (code, button) in named {
        assert_eq!(Button::from_raw(code), button);
        assert_eq!(button.to_raw(), Ok(code));
        assert_eq!(Button::from_raw(button.to_raw().unwrap()), button);
    }
}

#[test]
fn button_unknown_raw_codes_fall_back() {
    assert_eq!(Button::from_raw(0x1ff), Button::Unknown(0x1ff));
    assert_eq!(Button::Unknown(0x1ff).to_raw(), Ok(0x1ff));
    assert_eq!(Button::from_raw(30), Button::Unknown(30));
}

#[test]
fn axis_named_conversion_inverts_from_raw() {
    let named = vec![
        (0x00u16, Axis::ABS_X),
        (0x01, Axis::ABS_Y),
        (0x02, Axis::ABS_Z),
        (0x03, Axis::ABS_RX),
        (0x04, Axis::ABS_RY),
        (0x05, Axis::ABS_RZ),
        (0x06, Axis::ABS_THROTTLE),
        (0x07, Axis::ABS_RUDDER),
        (0x08, Axis::ABS_WHEEL),
        (0x0a, Axis::ABS_BRAKE),
        (0x10, Axis::ABS_HAT0X),
        (0x11, Axis::ABS_HAT0Y),
        (0x15, Axis::ABS_HAT2Y),
    ];
    for (code, axis) in named {
        assert_eq!(Axis::from_raw(code), Some(axis));
        assert_eq!(axis.to_raw(), Ok(code));
        assert_eq!(Axis::from_raw(axis.to_raw().unwrap()), Some(axis));
    }
}

#[test]
fn axis_has_no_fallback_for_unknown_codes() {
    assert_eq!(Axis::from_raw(0x09), None);
    assert_eq!(Axis::from_raw(0x16), None);
    assert_eq!(Axis::from_raw(0x3f), None);
}
