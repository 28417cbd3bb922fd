use vstd::prelude::*;

verus! {

/// Why a capability code could not be converted to a raw hardware code.
#[derive(Debug, PartialEq, Eq, Structural, Clone, Copy)]
pub enum ConversionError {
    /// The code was the `Stub` sentinel, which has no hardware counterpart.
    Stub,
}

/// A button capability of a physical or virtual device.
///
/// The named variants are the hardware key codes a joystick-class device
/// commonly declares; `Unknown` carries any other raw key code unchanged;
/// `Stub` marks a translation target that is accepted as input but
/// intentionally never forwarded to an output.
#[allow(non_camel_case_types)]
#[derive(Debug, PartialEq, Eq, Structural, Clone, Copy, Hash)]
pub enum Button {
    BTN_0,
    BTN_1,
    BTN_2,
    BTN_3,
    BTN_4,
    BTN_5,
    BTN_6,
    BTN_7,
    BTN_8,
    BTN_9,
    BTN_LEFT,
    BTN_RIGHT,
    BTN_MIDDLE,
    BTN_TOP,
    BTN_TOP2,
    BTN_SIDE,
    BTN_TRIGGER,
    BTN_THUMB,
    BTN_THUMB2,
    BTN_PINKIE,
    BTN_BASE,
    BTN_BASE2,
    BTN_BASE3,
    BTN_BASE4,
    BTN_BASE5,
    BTN_BASE6,
    BTN_DEAD,
    Unknown(u16),
    Stub,
}

impl Button {
    /// The raw hardware code that each button converts to; `Stub` has none.
    pub open spec fn spec_to_raw(self) -> Result<u16, ConversionError> {
        match self {
            Button::BTN_0 => Ok(0x100),
            Button::BTN_1 => Ok(0x101),
            Button::BTN_2 => Ok(0x102),
            Button::BTN_3 => Ok(0x103),
            Button::BTN_4 => Ok(0x104),
            Button::BTN_5 => Ok(0x105),
            Button::BTN_6 => Ok(0x106),
            Button::BTN_7 => Ok(0x107),
            Button::BTN_8 => Ok(0x108),
            Button::BTN_9 => Ok(0x109),
            Button::BTN_LEFT => Ok(0x110),
            Button::BTN_RIGHT => Ok(0x111),
            Button::BTN_MIDDLE => Ok(0x112),
            Button::BTN_TOP => Ok(0x123),
            Button::BTN_TOP2 => Ok(0x124),
            Button::BTN_SIDE => Ok(0x113),
            Button::BTN_TRIGGER => Ok(0x120),
            Button::BTN_THUMB => Ok(0x121),
            Button::BTN_THUMB2 => Ok(0x122),
            Button::BTN_PINKIE => Ok(0x125),
            Button::BTN_BASE => Ok(0x126),
            Button::BTN_BASE2 => Ok(0x127),
            Button::BTN_BASE3 => Ok(0x128),
            Button::BTN_BASE4 => Ok(0x129),
            Button::BTN_BASE5 => Ok(0x12a),
            Button::BTN_BASE6 => Ok(0x12b),
            Button::BTN_DEAD => Ok(0x12f),
            Button::Unknown(code) => Ok(code),
            Button::Stub => Err(ConversionError::Stub),
        }
    }

    /// The button that a raw hardware key code translates to: the named
    /// variant where one exists, otherwise the `Unknown` fallback.
    pub open spec fn spec_from_raw(code: u16) -> Button {
        if code == 0x100 {
            Button::BTN_0
        } else if code == 0x101 {
            Button::BTN_1
        } else if code == 0x102 {
            Button::BTN_2
        } else if code == 0x103 {
            Button::BTN_3
        } else if code == 0x104 {
            Button::BTN_4
        } else if code == 0x105 {
            Button::BTN_5
        } else if code == 0x106 {
            Button::BTN_6
        } else if code == 0x107 {
            Button::BTN_7
        } else if code == 0x108 {
            Button::BTN_8
        } else if code == 0x109 {
            Button::BTN_9
        } else if code == 0x110 {
            Button::BTN_LEFT
        } else if code == 0x111 {
            Button::BTN_RIGHT
        } else if code == 0x112 {
            Button::BTN_MIDDLE
        } else if code == 0x123 {
            Button::BTN_TOP
        } else if code == 0x124 {
            Button::BTN_TOP2
        } else if code == 0x113 {
            Button::BTN_SIDE
        } else if code == 0x120 {
            Button::BTN_TRIGGER
        } else if code == 0x121 {
            Button::BTN_THUMB
        } else if code == 0x122 {
            Button::BTN_THUMB2
        } else if code == 0x125 {
            Button::BTN_PINKIE
        } else if code == 0x126 {
            Button::BTN_BASE
        } else if code == 0x127 {
            Button::BTN_BASE2
        } else if code == 0x128 {
            Button::BTN_BASE3
        } else if code == 0x129 {
            Button::BTN_BASE4
        } else if code == 0x12a {
            Button::BTN_BASE5
        } else if code == 0x12b {
            Button::BTN_BASE6
        } else if code == 0x12f {
            Button::BTN_DEAD
        } else {
            Button::Unknown(code)
        }
    }

    /// A named variant: neither the `Unknown` fallback nor the `Stub` sentinel.
    pub open spec fn is_named(self) -> bool {
        !(self is Unknown) && !(self is Stub)
    }

    /// Translate a raw hardware key code into the capability model.
    /// Every raw code is accepted: unrecognized codes become `Unknown`.
    pub fn from_raw(code: u16) -> (r: Button)
        ensures
            r == Button::spec_from_raw(code),
    {
        if code >= 0x100 && code <= 0x109 {
            match code {
                0x100 => Button::BTN_0,
                0x101 => Button::BTN_1,
                0x102 => Button::BTN_2,
                0x103 => Button::BTN_3,
                0x104 => Button::BTN_4,
                0x105 => Button::BTN_5,
                0x106 => Button::BTN_6,
                0x107 => Button::BTN_7,
                0x108 => Button::BTN_8,
                _ => Button::BTN_9,
            }
        } else {
            match code {
                0x110 => Button::BTN_LEFT,
                0x111 => Button::BTN_RIGHT,
                0x112 => Button::BTN_MIDDLE,
                0x123 => Button::BTN_TOP,
                0x124 => Button::BTN_TOP2,
                0x113 => Button::BTN_SIDE,
                0x120 => Button::BTN_TRIGGER,
                0x121 => Button::BTN_THUMB,
                0x122 => Button::BTN_THUMB2,
                0x125 => Button::BTN_PINKIE,
                0x126 => Button::BTN_BASE,
                0x127 => Button::BTN_BASE2,
                0x128 => Button::BTN_BASE3,
                0x129 => Button::BTN_BASE4,
                0x12a => Button::BTN_BASE5,
                0x12b => Button::BTN_BASE6,
                0x12f => Button::BTN_DEAD,
                _ => Button::Unknown(code),
            }
        }
    }

    /// Convert a button back to its raw hardware key code.
    /// Fails exactly when the button is the `Stub` sentinel.
    pub fn to_raw(self) -> (r: Result<u16, ConversionError>)
        ensures
            r == self.spec_to_raw(),
            r is Err <==> self is Stub,
    {
        match self {
            Button::BTN_0 => Ok(0x100),
            Button::BTN_1 => Ok(0x101),
            Button::BTN_2 => Ok(0x102),
            Button::BTN_3 => Ok(0x103),
            Button::BTN_4 => Ok(0x104),
            Button::BTN_5 => Ok(0x105),
            Button::BTN_6 => Ok(0x106),
            Button::BTN_7 => Ok(0x107),
            Button::BTN_8 => Ok(0x108),
            Button::BTN_9 => Ok(0x109),
            Button::BTN_LEFT => Ok(0x110),
            Button::BTN_RIGHT => Ok(0x111),
            Button::BTN_MIDDLE => Ok(0x112),
            Button::BTN_TOP => Ok(0x123),
            Button::BTN_TOP2 => Ok(0x124),
            Button::BTN_SIDE => Ok(0x113),
            Button::BTN_TRIGGER => Ok(0x120),
            Button::BTN_THUMB => Ok(0x121),
            Button::BTN_THUMB2 => Ok(0x122),
            Button::BTN_PINKIE => Ok(0x125),
            Button::BTN_BASE => Ok(0x126),
            Button::BTN_BASE2 => Ok(0x127),
            Button::BTN_BASE3 => Ok(0x128),
            Button::BTN_BASE4 => Ok(0x129),
            Button::BTN_BASE5 => Ok(0x12a),
            Button::BTN_BASE6 => Ok(0x12b),
            Button::BTN_DEAD => Ok(0x12f),
            Button::Unknown(code) => Ok(code),
            Button::Stub => Err(ConversionError::Stub),
        }
    }
}

/// Converting `Stub` to a raw hardware code always fails; converting any
/// named button always succeeds, and translating the raw code back yields
/// the same named button.
pub proof fn lemma_button_conversion_inverse(b: Button)
    ensures
        b is Stub <==> b.spec_to_raw() is Err,
        b.is_named() ==> Button::spec_from_raw(b.spec_to_raw()->Ok_0) == b,
{
}

/// Translating any raw key code into the capability model and back returns
/// the original raw code.
pub proof fn lemma_button_raw_identity(code: u16)
    ensures
        Button::spec_from_raw(code).spec_to_raw() == Ok::<u16, ConversionError>(code),
{
}

/// An absolute-axis capability of a physical or virtual device.
///
/// The named variants are the absolute axes a joystick-class device commonly
/// declares; `Stub` marks a translation target that is accepted as input but
/// intentionally never forwarded. There is no fallback for unrecognized raw
/// axis codes: translating one is a hard error.
#[allow(non_camel_case_types)]
#[derive(Debug, PartialEq, Eq, Structural, Clone, Copy, Hash)]
pub enum Axis {
    ABS_X,
    ABS_Y,
    ABS_Z,
    ABS_RX,
    ABS_RY,
    ABS_RZ,
    ABS_THROTTLE,
    ABS_RUDDER,
    ABS_WHEEL,
    ABS_BRAKE,
    ABS_HAT0X,
    ABS_HAT0Y,
    ABS_HAT1X,
    ABS_HAT1Y,
    ABS_HAT2X,
    ABS_HAT2Y,
    Stub,
}

impl Axis {
    /// The raw hardware code that each axis converts to; `Stub` has none.
    pub open spec fn spec_to_raw(self) -> Result<u16, ConversionError> {
        match self {
            Axis::ABS_X => Ok(0x00),
            Axis::ABS_Y => Ok(0x01),
            Axis::ABS_Z => Ok(0x02),
            Axis::ABS_RX => Ok(0x03),
            Axis::ABS_RY => Ok(0x04),
            Axis::ABS_RZ => Ok(0x05),
            Axis::ABS_THROTTLE => Ok(0x06),
            Axis::ABS_RUDDER => Ok(0x07),
            Axis::ABS_WHEEL => Ok(0x08),
            Axis::ABS_BRAKE => Ok(0x0a),
            Axis::ABS_HAT0X => Ok(0x10),
            Axis::ABS_HAT0Y => Ok(0x11),
            Axis::ABS_HAT1X => Ok(0x12),
            Axis::ABS_HAT1Y => Ok(0x13),
            Axis::ABS_HAT2X => Ok(0x14),
            Axis::ABS_HAT2Y => Ok(0x15),
            Axis::Stub => Err(ConversionError::Stub),
        }
    }

    /// The axis that a raw hardware axis code translates to, if any: there is
    /// no fallback variant for unrecognized axis codes.
    pub open spec fn spec_from_raw(code: u16) -> Option<Axis> {
        if code == 0x00 {
            Some(Axis::ABS_X)
        } else if code == 0x01 {
            Some(Axis::ABS_Y)
        } else if code == 0x02 {
            Some(Axis::ABS_Z)
        } else if code == 0x03 {
            Some(Axis::ABS_RX)
        } else if code == 0x04 {
            Some(Axis::ABS_RY)
        } else if code == 0x05 {
            Some(Axis::ABS_RZ)
        } else if code == 0x06 {
            Some(Axis::ABS_THROTTLE)
        } else if code == 0x07 {
            Some(Axis::ABS_RUDDER)
        } else if code == 0x08 {
            Some(Axis::ABS_WHEEL)
        } else if code == 0x0a {
            Some(Axis::ABS_BRAKE)
        } else if code == 0x10 {
            Some(Axis::ABS_HAT0X)
        } else if code == 0x11 {
            Some(Axis::ABS_HAT0Y)
        } else if code == 0x12 {
            Some(Axis::ABS_HAT1X)
        } else if code == 0x13 {
            Some(Axis::ABS_HAT1Y)
        } else if code == 0x14 {
            Some(Axis::ABS_HAT2X)
        } else if code == 0x15 {
            Some(Axis::ABS_HAT2Y)
        } else {
            None
        }
    }

    /// A named variant: any axis other than the `Stub` sentinel.
    pub open spec fn is_named(self) -> bool {
        !(self is Stub)
    }

    /// Whether a raw hardware axis code is known to the capability model.
    pub open spec fn spec_code_known(code: u16) -> bool {
        Axis::spec_from_raw(code) is Some
    }

    /// Translate a raw hardware axis code into the capability model.
    /// Unrecognized codes are rejected: the axis table has no fallback.
    pub fn from_raw(code: u16) -> (r: Option<Axis>)
        ensures
            r == Axis::spec_from_raw(code),
            r is Some <==> Axis::spec_code_known(code),
    {
        match code {
            0x00 => Some(Axis::ABS_X),
            0x01 => Some(Axis::ABS_Y),
            0x02 => Some(Axis::ABS_Z),
            0x03 => Some(Axis::ABS_RX),
            0x04 => Some(Axis::ABS_RY),
            0x05 => Some(Axis::ABS_RZ),
            0x06 => Some(Axis::ABS_THROTTLE),
            0x07 => Some(Axis::ABS_RUDDER),
            0x08 => Some(Axis::ABS_WHEEL),
            0x0a => Some(Axis::ABS_BRAKE),
            0x10 => Some(Axis::ABS_HAT0X),
            0x11 => Some(Axis::ABS_HAT0Y),
            0x12 => Some(Axis::ABS_HAT1X),
            0x13 => Some(Axis::ABS_HAT1Y),
            0x14 => Some(Axis::ABS_HAT2X),
            0x15 => Some(Axis::ABS_HAT2Y),
            _ => None,
        }
    }

    /// Convert an axis back to its raw hardware code.
    /// Fails exactly when the axis is the `Stub` sentinel.
    pub fn to_raw(self) -> (r: Result<u16, ConversionError>)
        ensures
            r == self.spec_to_raw(),
            r is Err <==> self is Stub,
    {
        match self {
            Axis::ABS_X => Ok(0x00),
            Axis::ABS_Y => Ok(0x01),
            Axis::ABS_Z => Ok(0x02),
            Axis::ABS_RX => Ok(0x03),
            Axis::ABS_RY => Ok(0x04),
            Axis::ABS_RZ => Ok(0x05),
            Axis::ABS_THROTTLE => Ok(0x06),
            Axis::ABS_RUDDER => Ok(0x07),
            Axis::ABS_WHEEL => Ok(0x08),
            Axis::ABS_BRAKE => Ok(0x0a),
            Axis::ABS_HAT0X => Ok(0x10),
            Axis::ABS_HAT0Y => Ok(0x11),
            Axis::ABS_HAT1X => Ok(0x12),
            Axis::ABS_HAT1Y => Ok(0x13),
            Axis::ABS_HAT2X => Ok(0x14),
            Axis::ABS_HAT2Y => Ok(0x15),
            Axis::Stub => Err(ConversionError::Stub),
        }
    }
}

/// Converting `Stub` to a raw hardware code always fails; converting any
/// named axis always succeeds, and translating the raw code back yields the
/// same named axis.
pub proof fn lemma_axis_conversion_inverse(a: Axis)
    ensures
        a is Stub <==> a.spec_to_raw() is Err,
        a.is_named() ==> Axis::spec_from_raw(a.spec_to_raw()->Ok_0) == Some(a),
{
}

/// Translating any known raw axis code into the capability model and back
/// returns the original raw code.
pub proof fn lemma_axis_raw_identity(code: u16)
    requires
        Axis::spec_code_known(code),
    ensures
        Axis::spec_from_raw(code)->Some_0.spec_to_raw() == Ok::<u16, ConversionError>(code),
{
}

} // verus!
