use vstd::prelude::*;

mod codec;
mod descriptor;
mod input_device;
mod mappings;
mod output_device;
mod routing;

pub use codec::DescriptorModel;
pub use codec::OutputModel;
pub use codec::decode_descriptor;
pub use codec::encode_descriptor;
pub use codec::lemma_descriptor_round_trip;
pub use codec::spec_decode_descriptor;
pub use codec::spec_encode_descriptor;
pub use codec::spec_model_bounded;
pub use codec::spec_output_model;
pub use descriptor::AxisMap;
pub use descriptor::ButtonMap;
pub use descriptor::GenerationDescription;
pub use descriptor::GenerationError;
pub use descriptor::OutputType;
pub use descriptor::VJoyDescriptor;
pub use descriptor::entries_unique;
pub use descriptor::lemma_seq_lookup_none_iff_absent;
pub use descriptor::seq_lookup;
pub use input_device::AbsAxisInfo;
pub use input_device::DiscoveredDevice;
pub use input_device::DiscoveryError;
pub use input_device::InputDeviceRef;
pub use input_device::as_int_seq;
pub use input_device::lemma_resolution_properties;
pub use input_device::path_claimed;
pub use input_device::spec_first_unclaimed_match;
pub use input_device::spec_resolve;
pub use input_device::spec_resolve_from;
pub use mappings::Axis;
pub use mappings::Button;
pub use mappings::ConversionError;
pub use mappings::lemma_axis_conversion_inverse;
pub use mappings::lemma_axis_raw_identity;
pub use mappings::lemma_button_conversion_inverse;
pub use mappings::lemma_button_raw_identity;
pub use output_device::BuildError;
pub use output_device::Output;
pub use output_device::VirtualDevicePlan;
pub use output_device::plan_outputs;
pub use output_device::spec_find_axis_info;
pub use output_device::spec_plan_axes;
pub use output_device::spec_plan_keys;
pub use routing::EmittedEvent;
pub use routing::EventEnvelope;
pub use routing::EventKind;
pub use routing::RouteAction;
pub use routing::route_event;
pub use routing::spec_output_index;
pub use routing::spec_route;

verus! {

} // verus!
