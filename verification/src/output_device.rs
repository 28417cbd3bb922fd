use vstd::prelude::*;

use crate::descriptor::OutputType;
use crate::descriptor::VJoyDescriptor;
use crate::input_device::AbsAxisInfo;
use crate::input_device::InputDeviceRef;
use crate::mappings::Axis;
use crate::mappings::Button;

verus! {

/// Why the output topology could not be built.
#[derive(Debug, PartialEq, Eq, Structural, Clone, Copy)]
pub enum BuildError {
    /// An axis map entry names a source device and axis for which no live
    /// calibration metadata exists; a virtual axis cannot be created without
    /// real calibration data, so the build is refused outright.
    AxisMetadataMissing(usize, Axis),
    /// An axis map entry has the `Stub` sentinel as its source, which names
    /// no real axis to read calibration metadata from.
    SourceAxisStub(usize),
}

/// Everything one virtual device is created from: its name, the raw codes of
/// the keys it exposes, and its absolute axes, each the raw destination code
/// paired with the source device's live calibration metadata.
#[derive(Debug, Clone, PartialEq)]
pub struct VirtualDevicePlan {
    pub name: String,
    pub keys: Vec<u16>,
    pub axes: Vec<(u16, AbsAxisInfo)>,
}

/// The planned output topology: one virtual device taking every translated
/// event, or one virtual device per input device, index-aligned.
#[derive(Debug, Clone, PartialEq)]
pub enum Output {
    Combined(VirtualDevicePlan),
    Passthrough(Vec<VirtualDevicePlan>),
}

/// The first calibration record for a raw axis code among the records a
/// device reports.
pub open spec fn spec_find_axis_info(infos: Seq<(u16, AbsAxisInfo)>, code: u16) -> Option<
    AbsAxisInfo,
>
    decreases infos.len(),
{
    if infos.len() == 0 {
        None
    } else if infos[0].0 == code {
        Some(infos[0].1)
    } else {
        spec_find_axis_info(infos.drop_first(), code)
    }
}

/// The raw key codes a planned virtual device exposes: the destinations of
/// the button map entries that pass the device filter, in entry order,
/// excluding the destinations that fail raw-code conversion (`Stub`).
pub open spec fn spec_plan_keys(entries: Seq<((usize, Button), Button)>, filter: Option<
    usize,
>) -> Seq<u16>
    decreases entries.len(),
{
    if entries.len() == 0 {
        Seq::empty()
    } else {
        let rest = spec_plan_keys(entries.drop_last(), filter);
        let e = entries.last();
        if (match filter {
            Some(f) => e.0.0 == f,
            None => true,
        }) && e.1.spec_to_raw() is Ok {
            rest.push(e.1.spec_to_raw()->Ok_0)
        } else {
            rest
        }
    }
}

/// The planned absolute axes of one virtual device: for every axis map entry
/// that passes the device filter and whose destination converts (is not
/// `Stub`), the raw destination code paired with the source device's live
/// calibration metadata for the source axis, in entry order. A `Stub` source
/// or missing source metadata fails the whole plan, earliest entry first.
pub open spec fn spec_plan_axes(
    entries: Seq<((usize, Axis), Axis)>,
    filter: Option<usize>,
    devices: Seq<InputDeviceRef>,
) -> Result<Seq<(u16, AbsAxisInfo)>, BuildError>
    decreases entries.len(),
{
    if entries.len() == 0 {
        Ok(Seq::empty())
    } else {
        match spec_plan_axes(entries.drop_last(), filter, devices) {
            Err(e) => Err(e),
            Ok(rest) => {
                let e = entries.last();
                let index = e.0.0;
                let src = e.0.1;
                let dst = e.1;
                if !(match filter {
                    Some(f) => index == f,
                    None => true,
                }) {
                    Ok(rest)
                } else if dst.spec_to_raw() is Err {
                    Ok(rest)
                } else if src.spec_to_raw() is Err {
                    Err(BuildError::SourceAxisStub(index))
                } else if index >= devices.len() {
                    Err(BuildError::AxisMetadataMissing(index, src))
                } else {
                    match spec_find_axis_info(
                        devices[index as int].axis_info@,
                        src.spec_to_raw()->Ok_0,
                    ) {
                        Some(info) => Ok(rest.push((dst.spec_to_raw()->Ok_0, info))),
                        None => Err(BuildError::AxisMetadataMissing(index, src)),
                    }
                }
            },
        }
    }
}

/// A failing prefix decides the whole axis plan: entries after the first
/// failing one change nothing.
proof fn lemma_plan_axes_prefix_err(
    entries: Seq<((usize, Axis), Axis)>,
    filter: Option<usize>,
    devices: Seq<InputDeviceRef>,
    j: int,
)
    requires
        0 <= j <= entries.len(),
        spec_plan_axes(entries.take(j), filter, devices) is Err,
    ensures
        spec_plan_axes(entries, filter, devices) == spec_plan_axes(entries.take(j), filter, devices),
    decreases entries.len() - j,
{
    if j < entries.len() {
        assert(entries.take(j + 1).drop_last() =~= entries.take(j));
        assert(entries.take(j + 1).last() == entries[j]);
        lemma_plan_axes_prefix_err(entries, filter, devices, j + 1);
    } else {
        assert(entries.take(j) =~= entries);
    }
}

/// Look the first calibration record for a raw axis code up among the records
/// a device reports.
fn find_axis_info(infos: &Vec<(u16, AbsAxisInfo)>, code: u16) -> (r: Option<AbsAxisInfo>)
    ensures
        r == spec_find_axis_info(infos@, code),
{
    let n = infos.len();
    let mut i: usize = 0;
    proof {
        assert(infos@.skip(0) =~= infos@);
    }
    while i < n
        invariant
            n == infos@.len(),
            i <= n,
            spec_find_axis_info(infos@, code) == spec_find_axis_info(infos@.skip(i as int), code),
        decreases n - i,
    {
        let entry = infos[i];
        proof {
            assert(infos@.skip(i as int)[0] == infos@[i as int]);
            assert(infos@.skip(i as int).drop_first() =~= infos@.skip(i as int + 1));
        }
        if entry.0 == code {
            return Some(entry.1);
        }
        i = i + 1;
    }
    proof {
        assert(infos@.skip(n as int) =~= Seq::<(u16, AbsAxisInfo)>::empty());
    }
    None
}

/// Compute the plan of one virtual device from the map entries that pass the
/// device filter, reading axis calibration metadata from the source devices.
fn plan_one(
    name: &String,
    descriptor: &VJoyDescriptor,
    devices: &Vec<InputDeviceRef>,
    filter: Option<usize>,
) -> (r: Result<VirtualDevicePlan, BuildError>)
    ensures
        r is Ok <==> spec_plan_axes(
            descriptor.axis_mappings.entries_view(),
            filter,
            devices@,
        ) is Ok,
        r is Err ==> r->Err_0 == spec_plan_axes(
            descriptor.axis_mappings.entries_view(),
            filter,
            devices@,
        )->Err_0,
        r is Ok ==> r->Ok_0.name == *name,
        r is Ok ==> r->Ok_0.keys@ == spec_plan_keys(descriptor.key_mappings.entries_view(), filter),
        r is Ok ==> r->Ok_0.axes@ == spec_plan_axes(
            descriptor.axis_mappings.entries_view(),
            filter,
            devices@,
        )->Ok_0,
{
    let mut keys: Vec<u16> = Vec::new();
    let n_keys = descriptor.key_mappings.len();
    let mut i: usize = 0;
    proof {
        assert(descriptor.key_mappings.entries_view().take(0) =~= Seq::<
            ((usize, Button), Button),
        >::empty());
    }
    while i < n_keys
        invariant
            n_keys == descriptor.key_mappings.entries_view().len(),
            i <= n_keys,
            keys@ == spec_plan_keys(descriptor.key_mappings.entries_view().take(i as int), filter),
        decreases n_keys - i,
    {
        let entry = descriptor.key_mappings.entry_at(i);
        proof {
            assert(descriptor.key_mappings.entries_view().take(i as int + 1).drop_last()
                =~= descriptor.key_mappings.entries_view().take(i as int));
            assert(descriptor.key_mappings.entries_view().take(i as int + 1).last()
                == descriptor.key_mappings.entries_view()[i as int]);
        }
        let keep = match filter {
            Some(f) => entry.0.0 == f,
            None => true,
        };
        if keep {
            match entry.1.to_raw() {
                Ok(code) => keys.push(code),
                Err(_) => {},
            }
        }
        i = i + 1;
    }
    proof {
        assert(descriptor.key_mappings.entries_view().take(n_keys as int)
            =~= descriptor.key_mappings.entries_view());
    }
    let mut axes: Vec<(u16, AbsAxisInfo)> = Vec::new();
    let n_axes = descriptor.axis_mappings.len();
    let n_devices = devices.len();
    let mut i: usize = 0;
    proof {
        assert(descriptor.axis_mappings.entries_view().take(0) =~= Seq::<
            ((usize, Axis), Axis),
        >::empty());
    }
    while i < n_axes
        invariant
            n_axes == descriptor.axis_mappings.entries_view().len(),
            n_devices == devices@.len(),
            i <= n_axes,
            spec_plan_axes(descriptor.axis_mappings.entries_view().take(i as int), filter, devices@)
                == Ok::<Seq<(u16, AbsAxisInfo)>, BuildError>(axes@),
        decreases n_axes - i,
    {
        let entry = descriptor.axis_mappings.entry_at(i);
        let index = entry.0.0;
        let src = entry.0.1;
        let dst = entry.1;
        proof {
            assert(descriptor.axis_mappings.entries_view().take(i as int + 1).drop_last()
                =~= descriptor.axis_mappings.entries_view().take(i as int));
            assert(descriptor.axis_mappings.entries_view().take(i as int + 1).last()
                == descriptor.axis_mappings.entries_view()[i as int]);
        }
        let keep = match filter {
            Some(f) => index == f,
            None => true,
        };
        if keep {
            match dst.to_raw() {
                Err(_) => {},
                Ok(dst_code) => {
                    match src.to_raw() {
                        Err(_) => {
                            proof {
                                lemma_plan_axes_prefix_err(
                                    descriptor.axis_mappings.entries_view(),
                                    filter,
                                    devices@,
                                    i as int + 1,
                                );
                            }
                            return Err(BuildError::SourceAxisStub(index));
                        },
                        Ok(src_code) => {
                            if index >= n_devices {
                                proof {
                                    lemma_plan_axes_prefix_err(
                                        descriptor.axis_mappings.entries_view(),
                                        filter,
                                        devices@,
                                        i as int + 1,
                                    );
                                }
                                return Err(BuildError::AxisMetadataMissing(index, src));
                            }
                            match find_axis_info(&devices[index].axis_info, src_code) {
                                Some(info) => axes.push((dst_code, info)),
                                None => {
                                    proof {
                                        lemma_plan_axes_prefix_err(
                                            descriptor.axis_mappings.entries_view(),
                                            filter,
                                            devices@,
                                            i as int + 1,
                                        );
                                    }
                                    return Err(BuildError::AxisMetadataMissing(index, src));
                                },
                            }
                        },
                    }
                },
            }
        }
        i = i + 1;
    }
    proof {
        assert(descriptor.axis_mappings.entries_view().take(n_axes as int)
            =~= descriptor.axis_mappings.entries_view());
    }
    Ok(VirtualDevicePlan { name: name.clone(), keys, axes })
}

/// Build the planned output topology from the descriptor and the live
/// capabilities of the resolved input devices.
///
/// Combined mode plans one virtual device carrying the destinations of all
/// map entries; passthrough mode plans one virtual device per named output,
/// index-aligned with the input devices, each restricted to the map entries
/// of its own device index. Either way a `Stub` axis source or missing source
/// calibration metadata is fatal, earliest virtual device and entry first.
pub fn plan_outputs(descriptor: &VJoyDescriptor, devices: &Vec<InputDeviceRef>) -> (r: Result<
    Output,
    BuildError,
>)
    ensures
        descriptor.output_device is Combined ==> {
            &&& r is Ok <==> spec_plan_axes(
                descriptor.axis_mappings.entries_view(),
                None,
                devices@,
            ) is Ok
            &&& r is Err ==> r->Err_0 == spec_plan_axes(
                descriptor.axis_mappings.entries_view(),
                None,
                devices@,
            )->Err_0
            &&& r is Ok ==> r->Ok_0 is Combined
            &&& r is Ok ==> r->Ok_0->Combined_0.name == descriptor.output_device->Combined_0
            &&& r is Ok ==> r->Ok_0->Combined_0.keys@ == spec_plan_keys(
                descriptor.key_mappings.entries_view(),
                None,
            )
            &&& r is Ok ==> r->Ok_0->Combined_0.axes@ == spec_plan_axes(
                descriptor.axis_mappings.entries_view(),
                None,
                devices@,
            )->Ok_0
        },
        descriptor.output_device is Passthrough ==> {
            let names = descriptor.output_device->Passthrough_0;
            &&& r is Ok <==> (forall|i: int|
                0 <= i < names@.len() ==> (#[trigger] spec_plan_axes(
                    descriptor.axis_mappings.entries_view(),
                    Some(i as usize),
                    devices@,
                )) is Ok)
            &&& r is Ok ==> r->Ok_0 is Passthrough
            &&& r is Ok ==> r->Ok_0->Passthrough_0@.len() == names@.len()
            &&& r is Ok ==> (forall|i: int|
                0 <= i < names@.len() ==> {
                    &&& (#[trigger] r->Ok_0->Passthrough_0@[i]).name == names@[i]
                    &&& r->Ok_0->Passthrough_0@[i].keys@ == spec_plan_keys(
                        descriptor.key_mappings.entries_view(),
                        Some(i as usize),
                    )
                    &&& r->Ok_0->Passthrough_0@[i].axes@ == spec_plan_axes(
                        descriptor.axis_mappings.entries_view(),
                        Some(i as usize),
                        devices@,
                    )->Ok_0
                })
            &&& r is Err ==> (exists|i: int|
                0 <= i < names@.len() && spec_plan_axes(
                    descriptor.axis_mappings.entries_view(),
                    Some(i as usize),
                    devices@,
                ) is Err && r->Err_0 == (#[trigger] spec_plan_axes(
                    descriptor.axis_mappings.entries_view(),
                    Some(i as usize),
                    devices@,
                ))->Err_0 && (forall|i2: int|
                    0 <= i2 < i ==> (#[trigger] spec_plan_axes(
                        descriptor.axis_mappings.entries_view(),
                        Some(i2 as usize),
                        devices@,
                    )) is Ok))
        },
{
    match &descriptor.output_device {
        OutputType::Combined(name) => {
            match plan_one(name, descriptor, devices, None) {
                Ok(plan) => Ok(Output::Combined(plan)),
                Err(e) => Err(e),
            }
        },
        OutputType::Passthrough(names) => {
            let n = names.len();
            let mut plans: Vec<VirtualDevicePlan> = Vec::new();
            let mut i: usize = 0;
            while i < n
                invariant
                    n == names@.len(),
                    descriptor.output_device == OutputType::Passthrough(*names),
                    i <= n,
                    plans@.len() == i,
                    forall|i2: int|
                        0 <= i2 < i as int ==> (#[trigger] spec_plan_axes(
                            descriptor.axis_mappings.entries_view(),
                            Some(i2 as usize),
                            devices@,
                        )) is Ok,
                    forall|i2: int|
                        0 <= i2 < i as int ==> {
                            &&& (#[trigger] plans@[i2]).name == names@[i2]
                            &&& plans@[i2].keys@ == spec_plan_keys(
                                descriptor.key_mappings.entries_view(),
                                Some(i2 as usize),
                            )
                            &&& plans@[i2].axes@ == spec_plan_axes(
                                descriptor.axis_mappings.entries_view(),
                                Some(i2 as usize),
                                devices@,
                            )->Ok_0
                        },
                decreases n - i,
            {
                match plan_one(&names[i], descriptor, devices, Some(i)) {
                    Ok(plan) => plans.push(plan),
                    Err(e) => {
                        proof {
                            assert(spec_plan_axes(
                                descriptor.axis_mappings.entries_view(),
                                Some((i as int) as usize),
                                devices@,
                            ) is Err);
                        }
                        return Err(e);
                    },
                }
                i = i + 1;
            }
            Ok(Output::Passthrough(plans))
        },
    }
}

} // verus!
