use vstd::prelude::*;

use crate::mappings::Axis;
use crate::mappings::Button;

verus! {

/// Calibration metadata of one absolute axis, as a physical device reports
/// it: current value, range, noise filter, dead zone and resolution.
#[derive(Debug, PartialEq, Eq, Structural, Clone, Copy)]
pub struct AbsAxisInfo {
    pub value: i32,
    pub minimum: i32,
    pub maximum: i32,
    pub fuzz: i32,
    pub flat: i32,
    pub resolution: i32,
}

/// One physical device as enumeration shows it: its declared name, the path
/// of its device node, and its declared capabilities translated through the
/// capability model, with the calibration metadata of its absolute axes keyed
/// by raw axis code.
#[derive(Debug, Clone)]
pub struct DiscoveredDevice {
    pub name: String,
    pub system_path: String,
    pub keys: Vec<Button>,
    pub axes: Vec<Axis>,
    pub axis_info: Vec<(u16, AbsAxisInfo)>,
}

/// One resolved input device: its ordinal position among the resolved input
/// devices (the join key of the translation tables), the path of its device
/// node, and its capabilities. Immutable after discovery.
#[derive(Debug, Clone)]
pub struct InputDeviceRef {
    pub index: usize,
    pub system_path: String,
    pub keys: Vec<Button>,
    pub axes: Vec<Axis>,
    pub axis_info: Vec<(u16, AbsAxisInfo)>,
}

impl InputDeviceRef {
    /// The declared capabilities form sets: no button and no axis is listed
    /// twice.
    pub open spec fn caps_unique(self) -> bool {
        (forall|i: int, j: int|
            0 <= i < j < self.keys@.len() ==> self.keys@[i] != self.keys@[j]) && (forall|
            i: int,
            j: int,
        |
            0 <= i < j < self.axes@.len() ==> self.axes@[i] != self.axes@[j])
    }
}

/// Why discovery failed.
#[derive(Debug, Clone, PartialEq)]
pub enum DiscoveryError {
    /// No currently present device carries the requested name, or every one
    /// that does is already claimed by an earlier entry of the name list.
    DeviceNotFound(String),
}

/// Whether the device node path `path` is already claimed by one of the
/// devices selected so far (`sel` holds positions into `available`).
pub open spec fn path_claimed(available: Seq<DiscoveredDevice>, sel: Seq<int>, path: Seq<char>) -> bool {
    exists|t: int| 0 <= t < sel.len() && available[sel[t]].system_path@ == path
}

/// The position of the first device, at or after position `j`, whose declared
/// name equals `name` and whose path no earlier selection has claimed.
pub open spec fn spec_first_unclaimed_match(
    available: Seq<DiscoveredDevice>,
    name: Seq<char>,
    sel: Seq<int>,
    j: int,
) -> Option<int>
    decreases available.len() - j,
{
    if j < 0 || j >= available.len() {
        None
    } else if available[j].name@ == name && !path_claimed(available, sel, available[j].system_path@) {
        Some(j)
    } else {
        spec_first_unclaimed_match(available, name, sel, j + 1)
    }
}

/// Resolution of the requested names against the enumerated devices, one name
/// at a time in name-list order, each binding the first unclaimed match; the
/// error carries the position of the first name that cannot be bound.
pub open spec fn spec_resolve_from(
    requested: Seq<String>,
    available: Seq<DiscoveredDevice>,
    sel: Seq<int>,
    k: int,
) -> Result<Seq<int>, int>
    decreases requested.len() - k,
{
    if !(0 <= k < requested.len()) {
        Ok(sel)
    } else {
        match spec_first_unclaimed_match(available, requested[k]@, sel, 0) {
            Some(j) => spec_resolve_from(requested, available, sel.push(j), k + 1),
            None => Err(k),
        }
    }
}

/// Resolution of all requested names, starting from an empty selection.
pub open spec fn spec_resolve(requested: Seq<String>, available: Seq<DiscoveredDevice>) -> Result<
    Seq<int>,
    int,
> {
    spec_resolve_from(requested, available, Seq::empty(), 0)
}

/// A selection as a sequence of mathematical integers.
pub open spec fn as_int_seq(s: Seq<usize>) -> Seq<int> {
    s.map_values(|v: usize| v as int)
}

proof fn lemma_first_match_found(
    available: Seq<DiscoveredDevice>,
    name: Seq<char>,
    sel: Seq<int>,
    j: int,
)
    requires
        spec_first_unclaimed_match(available, name, sel, j) is Some,
    ensures
        ({
            let m = spec_first_unclaimed_match(available, name, sel, j)->Some_0;
            &&& j <= m < available.len()
            &&& available[m].name@ == name
            &&& !path_claimed(available, sel, available[m].system_path@)
        }),
    decreases available.len() - j,
{
    if !(j < 0 || j >= available.len()) {
        if !(available[j].name@ == name && !path_claimed(available, sel, available[j].system_path@)) {
            lemma_first_match_found(available, name, sel, j + 1);
        }
    }
}

proof fn lemma_resolve_from_properties(
    requested: Seq<String>,
    available: Seq<DiscoveredDevice>,
    sel: Seq<int>,
    k: int,
)
    requires
        0 <= k <= requested.len(),
        sel.len() == k,
        spec_resolve_from(requested, available, sel, k) is Ok,
        forall|i: int| 0 <= i < sel.len() ==> 0 <= #[trigger] sel[i] < available.len(),
        forall|i: int| 0 <= i < sel.len() ==> available[#[trigger] sel[i]].name@ == requested[i]@,
        forall|i: int, j: int|
            0 <= i < j < sel.len() ==> available[sel[i]].system_path@
                != available[sel[j]].system_path@,
    ensures
        ({
            let full = spec_resolve_from(requested, available, sel, k)->Ok_0;
            &&& full.len() == requested.len()
            &&& forall|i: int| 0 <= i < full.len() ==> 0 <= #[trigger] full[i] < available.len()
            &&& forall|i: int|
                0 <= i < full.len() ==> available[#[trigger] full[i]].name@ == requested[i]@
            &&& forall|i: int, j: int|
                0 <= i < j < full.len() ==> available[full[i]].system_path@
                    != available[full[j]].system_path@
        }),
    decreases requested.len() - k,
{
    if 0 <= k < requested.len() {
        let found = spec_first_unclaimed_match(available, requested[k]@, sel, 0);
        match found {
            Some(j) => {
                lemma_first_match_found(available, requested[k]@, sel, 0);
                let sel2 = sel.push(j);
                assert forall|i: int, j2: int|
                    0 <= i < j2 < sel2.len() implies available[sel2[i]].system_path@
                    != available[sel2[j2]].system_path@ by {
                    if j2 == sel.len() {
                        assert(!path_claimed(available, sel, available[j].system_path@));
                        assert(sel2[i] == sel[i]);
                    }
                }
                lemma_resolve_from_properties(requested, available, sel2, k + 1);
            },
            None => {},
        }
    }
}

/// Of a successful resolution: one device per requested name; each selected
/// device carries the requested name; and all selected devices sit on
/// pairwise-distinct device node paths, even where names repeat.
pub proof fn lemma_resolution_properties(requested: Seq<String>, available: Seq<DiscoveredDevice>)
    requires
        spec_resolve(requested, available) is Ok,
    ensures
        ({
            let sel = spec_resolve(requested, available)->Ok_0;
            &&& sel.len() == requested.len()
            &&& forall|i: int| 0 <= i < sel.len() ==> 0 <= #[trigger] sel[i] < available.len()
            &&& forall|i: int|
                0 <= i < sel.len() ==> available[#[trigger] sel[i]].name@ == requested[i]@
            &&& forall|i: int, j: int|
                0 <= i < j < sel.len() ==> available[sel[i]].system_path@
                    != available[sel[j]].system_path@
        }),
{
    lemma_resolve_from_properties(requested, available, Seq::empty(), 0);
}

impl InputDeviceRef {
    /// Bind each requested input device name, in name-list order, to the
    /// first enumerated device that carries that name and whose path no
    /// earlier entry has claimed; duplicate names thus bind distinct physical
    /// units. The result holds, per requested name, the position of the
    /// chosen device in `available`. Fails with the first name for which no
    /// unclaimed match exists.
    pub fn find_unique_input_devices(requested: &Vec<String>, available: &Vec<DiscoveredDevice>) -> (r:
        Result<Vec<usize>, DiscoveryError>)
        ensures
            r is Ok <==> spec_resolve(requested@, available@) is Ok,
            r is Ok ==> as_int_seq(r->Ok_0@) == spec_resolve(requested@, available@)->Ok_0,
            r is Err ==> r->Err_0->DeviceNotFound_0@ == requested@[spec_resolve(
                requested@,
                available@,
            )->Err_0]@,
    {
        let n_requested = requested.len();
        let n_available = available.len();
        let mut selection: Vec<usize> = Vec::new();
        let mut k: usize = 0;
        proof {
            assert(as_int_seq(selection@) =~= Seq::<int>::empty());
        }
        while k < n_requested
            invariant
                n_requested == requested@.len(),
                n_available == available@.len(),
                k <= n_requested,
                selection@.len() == k,
                forall|i: int| 0 <= i < selection@.len() ==> #[trigger] selection@[i] < n_available,
                spec_resolve_from(requested@, available@, as_int_seq(selection@), k as int)
                    == spec_resolve(requested@, available@),
            decreases n_requested - k,
        {
            let ghost sel_int = as_int_seq(selection@);
            let mut j: usize = 0;
            let mut found: Option<usize> = None;
            while found.is_none() && j < n_available
                invariant
                    n_available == available@.len(),
                    k < n_requested == requested@.len(),
                    j <= n_available,
                    selection@.len() == k,
                    forall|i: int|
                        0 <= i < selection@.len() ==> #[trigger] selection@[i] < n_available,
                    sel_int == as_int_seq(selection@),
                    match found {
                        None => spec_first_unclaimed_match(
                            available@,
                            requested@[k as int]@,
                            sel_int,
                            0,
                        ) == spec_first_unclaimed_match(
                            available@,
                            requested@[k as int]@,
                            sel_int,
                            j as int,
                        ),
                        Some(f) => f < n_available && spec_first_unclaimed_match(
                            available@,
                            requested@[k as int]@,
                            sel_int,
                            0,
                        ) == Some(f as int),
                    },
                decreases n_available - j + (if found is None {
                    1int
                } else {
                    0int
                }),
            {
                if available[j].name == requested[k] {
                    let path = &available[j].system_path;
                    let n_selected = selection.len();
                    let mut claimed = false;
                    let mut t: usize = 0;
                    while t < n_selected
                        invariant
                            n_available == available@.len(),
                            n_selected == selection@.len(),
                            t <= n_selected,
                            j < n_available,
                            forall|i: int|
                                0 <= i < selection@.len() ==> #[trigger] selection@[i]
                                    < n_available,
                            sel_int == as_int_seq(selection@),
                            *path == available@[j as int].system_path,
                            claimed == (exists|w: int|
                                0 <= w < t && available@[sel_int[w]].system_path@ == path@),
                        decreases n_selected - t,
                    {
                        if available[selection[t]].system_path == *path {
                            claimed = true;
                            proof {
                                assert(sel_int[t as int] == selection@[t as int] as int);
                                assert(available@[sel_int[t as int]].system_path@ == path@);
                            }
                        }
                        proof {
                            if claimed && !(exists|w: int|
                                0 <= w < t && available@[sel_int[w]].system_path@ == path@) {
                                assert(available@[sel_int[t as int]].system_path@ == path@);
                            }
                        }
                        t = t + 1;
                    }
                    proof {
                        assert(claimed == path_claimed(available@, sel_int, path@));
                    }
                    if !claimed {
                        found = Some(j);
                    }
                } else {
                    proof {
                        assert(available@[j as int].name@ != requested@[k as int]@);
                    }
                }
                if found.is_none() {
                    proof {
                        assert(spec_first_unclaimed_match(
                            available@,
                            requested@[k as int]@,
                            sel_int,
                            j as int,
                        ) == spec_first_unclaimed_match(
                            available@,
                            requested@[k as int]@,
                            sel_int,
                            j as int + 1,
                        ));
                    }
                    j = j + 1;
                }
            }
            match found {
                Some(f) => {
                    selection.push(f);
                    proof {
                        assert(as_int_seq(selection@) =~= sel_int.push(f as int));
                    }
                    k = k + 1;
                },
                None => {
                    proof {
                        assert(spec_first_unclaimed_match(
                            available@,
                            requested@[k as int]@,
                            sel_int,
                            n_available as int,
                        ) is None);
                    }
                    return Err(DiscoveryError::DeviceNotFound(requested[k].clone()));
                },
            }
        }
        Ok(selection)
    }
}

} // verus!
