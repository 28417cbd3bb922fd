use vstd::prelude::*;

use crate::descriptor::VJoyDescriptor;
use crate::mappings::Axis;
use crate::mappings::Button;

verus! {

/// How an incoming raw event is classified: a button state change, an
/// absolute-axis movement, or anything else (ignored outright).
#[derive(Debug, PartialEq, Eq, Structural, Clone, Copy)]
pub enum EventKind {
    Key,
    Axis,
    Other,
}

/// The unit flowing through the fan-in channel: one raw event, tagged by the
/// reader with the ordinal index of the device it came from.
#[derive(Debug, PartialEq, Eq, Structural, Clone, Copy)]
pub struct EventEnvelope {
    pub device_index: usize,
    pub kind: EventKind,
    pub code: u16,
    pub value: i32,
}

/// A translated event ready to be written to a virtual device:
/// `output_index` selects the target (always 0 in combined mode, the
/// originating device index in passthrough mode).
#[derive(Debug, PartialEq, Eq, Structural, Clone, Copy)]
pub struct EmittedEvent {
    pub output_index: usize,
    pub kind: EventKind,
    pub code: u16,
    pub value: i32,
}

/// What the routing loop does with one envelope: drop it silently, or emit
/// one translated event.
#[derive(Debug, PartialEq, Eq, Structural, Clone, Copy)]
pub enum RouteAction {
    Drop,
    Emit(EmittedEvent),
}

/// Which virtual device a translated event goes to: the single combined
/// device, or the output aligned with the originating device index.
pub open spec fn spec_output_index(descriptor: VJoyDescriptor, device_index: usize) -> usize {
    if descriptor.output_device.spec_is_combined() {
        0
    } else {
        device_index
    }
}

/// The routing decision for one envelope, as pure data: non-key, non-axis
/// events are ignored; a pair absent from the relevant table is dropped
/// silently; a pair translating to `Stub` fails raw-code conversion and is
/// dropped silently; anything else is emitted under the destination's raw
/// code, on the output selected by the originating device index.
pub open spec fn spec_route(descriptor: VJoyDescriptor, envelope: EventEnvelope) -> RouteAction {
    match envelope.kind {
        EventKind::Key => match descriptor.key_mappings.spec_lookup(
            envelope.device_index,
            Button::spec_from_raw(envelope.code),
        ) {
            Some(target) => match target.spec_to_raw() {
                Ok(code) => RouteAction::Emit(
                    EmittedEvent {
                        output_index: spec_output_index(descriptor, envelope.device_index),
                        kind: EventKind::Key,
                        code,
                        value: envelope.value,
                    },
                ),
                Err(_) => RouteAction::Drop,
            },
            None => RouteAction::Drop,
        },
        EventKind::Axis => match Axis::spec_from_raw(envelope.code) {
            Some(source) => match descriptor.axis_mappings.spec_lookup(
                envelope.device_index,
                source,
            ) {
                Some(target) => match target.spec_to_raw() {
                    Ok(code) => RouteAction::Emit(
                        EmittedEvent {
                            output_index: spec_output_index(descriptor, envelope.device_index),
                            kind: EventKind::Axis,
                            code,
                            value: envelope.value,
                        },
                    ),
                    Err(_) => RouteAction::Drop,
                },
                None => RouteAction::Drop,
            },
            None => RouteAction::Drop,
        },
        EventKind::Other => RouteAction::Drop,
    }
}

/// Decide what to do with one envelope from the fan-in channel.
///
/// The decision consults nothing but the descriptor: no entry for the
/// `(device index, source code)` pair means "not described, drop silently"; an
/// entry translating to `Stub` means "explicitly muted, drop silently"; a
/// convertible entry is emitted on the output that the originating device
/// index selects. The envelope is never duplicated: at most one event is
/// emitted per envelope.
pub fn route_event(descriptor: &VJoyDescriptor, envelope: &EventEnvelope) -> (r: RouteAction)
    requires
        envelope.kind is Axis ==> Axis::spec_code_known(envelope.code),
    ensures
        r == spec_route(*descriptor, *envelope),
        envelope.kind is Other ==> r is Drop,
        envelope.kind is Key && descriptor.key_mappings.spec_lookup(
            envelope.device_index,
            Button::spec_from_raw(envelope.code),
        ) is None ==> r is Drop,
        envelope.kind is Key && descriptor.key_mappings.spec_lookup(
            envelope.device_index,
            Button::spec_from_raw(envelope.code),
        ) == Some(Button::Stub) ==> r is Drop,
        envelope.kind is Axis && descriptor.axis_mappings.spec_lookup(
            envelope.device_index,
            Axis::spec_from_raw(envelope.code)->Some_0,
        ) is None ==> r is Drop,
        envelope.kind is Axis && descriptor.axis_mappings.spec_lookup(
            envelope.device_index,
            Axis::spec_from_raw(envelope.code)->Some_0,
        ) == Some(Axis::Stub) ==> r is Drop,
{
    match envelope.kind {
        EventKind::Key => {
            let source = Button::from_raw(envelope.code);
            match descriptor.key_mappings.get(envelope.device_index, source) {
                Some(target) => match target.to_raw() {
                    Ok(code) => RouteAction::Emit(
                        EmittedEvent {
                            output_index: if descriptor.output_device.is_combined() {
                                0
                            } else {
                                envelope.device_index
                            },
                            kind: EventKind::Key,
                            code,
                            value: envelope.value,
                        },
                    ),
                    Err(_) => RouteAction::Drop,
                },
                None => RouteAction::Drop,
            }
        },
        EventKind::Axis => {
            match Axis::from_raw(envelope.code) {
                Some(source) => match descriptor.axis_mappings.get(envelope.device_index, source) {
                    Some(target) => match target.to_raw() {
                        Ok(code) => RouteAction::Emit(
                            EmittedEvent {
                                output_index: if descriptor.output_device.is_combined() {
                                    0
                                } else {
                                    envelope.device_index
                                },
                                kind: EventKind::Axis,
                                code,
                                value: envelope.value,
                            },
                        ),
                        Err(_) => RouteAction::Drop,
                    },
                    None => RouteAction::Drop,
                },
                None => RouteAction::Drop,
            }
        },
        EventKind::Other => RouteAction::Drop,
    }
}

} // verus!
