use vstd::prelude::*;

use crate::input_device::InputDeviceRef;
use crate::mappings::Axis;
use crate::mappings::Button;

verus! {

/// Whether one of the first `n` elements of a sequence equals `x`.
pub open spec fn seq_contains_prefix<T>(s: Seq<T>, n: int, x: T) -> bool {
    exists|i: int| 0 <= i < n && s[i] == x
}

/// No two entries share a `(device index, source code)` key.
pub open spec fn entries_unique<C>(s: Seq<((usize, C), C)>) -> bool {
    forall|i: int, j: int| 0 <= i < j < s.len() ==> s[i].0 != s[j].0
}

/// First-match lookup of a `(device index, source code)` key in a sequence of
/// translation entries.
pub open spec fn seq_lookup<C>(s: Seq<((usize, C), C)>, index: usize, code: C) -> Option<C>
    decreases s.len(),
{
    if s.len() == 0 {
        None
    } else if s[0].0.0 == index && s[0].0.1 == code {
        Some(s[0].1)
    } else {
        seq_lookup(s.drop_first(), index, code)
    }
}

/// A key is absent from a sequence of entries exactly when looking it up
/// finds nothing.
pub proof fn lemma_seq_lookup_none_iff_absent<C>(s: Seq<((usize, C), C)>, index: usize, code: C)
    ensures
        seq_lookup(s, index, code) is None <==> (forall|i: int|
            0 <= i < s.len() ==> !(s[i].0.0 == index && s[i].0.1 == code)),
    decreases s.len(),
{
    if s.len() > 0 {
        lemma_seq_lookup_none_iff_absent(s.drop_first(), index, code);
        if seq_lookup(s, index, code) is None {
            assert forall|i: int| 0 <= i < s.len() implies !(s[i].0.0 == index && s[i].0.1
                == code) by {
                if i >= 1 {
                    assert(s.drop_first()[i - 1] == s[i]);
                }
            }
        } else {
            if !(s[0].0.0 == index && s[0].0.1 == code) {
                assert(seq_lookup(s.drop_first(), index, code) is Some);
                assert(exists|i: int|
                    0 <= i < s.drop_first().len() && s.drop_first()[i].0.0 == index
                        && s.drop_first()[i].0.1 == code);
                let j = choose|i: int|
                    0 <= i < s.drop_first().len() && s.drop_first()[i].0.0 == index
                        && s.drop_first()[i].0.1 == code;
                assert(s[j + 1] == s.drop_first()[j]);
            }
        }
    }
}

/// Appending an entry whose key is absent leaves every other lookup unchanged
/// and makes the new key resolve to the appended target.
#[verifier::spinoff_prover]
pub proof fn lemma_seq_lookup_push<C>(
    s: Seq<((usize, C), C)>,
    index: usize,
    code: C,
    target: C,
    index2: usize,
    code2: C,
)
    requires
        seq_lookup(s, index, code) is None,
    ensures
        seq_lookup(s.push(((index, code), target)), index2, code2) == (if index2 == index && code2
            == code {
            Some(target)
        } else {
            seq_lookup(s, index2, code2)
        }),
    decreases s.len(),
{
    let pushed = s.push(((index, code), target));
    if s.len() == 0 {
        assert(pushed[0] == ((index, code), target));
        assert(pushed.drop_first() =~= Seq::<((usize, C), C)>::empty());
        if index2 == index && code2 == code {
            assert(seq_lookup(pushed, index2, code2) == Some(target));
        } else {
            assert(seq_lookup(pushed.drop_first(), index2, code2) == None::<C>);
            assert(seq_lookup(pushed, index2, code2) == None::<C>);
            assert(seq_lookup(s, index2, code2) == None::<C>);
        }
    } else {
        assert(pushed[0] == s[0]);
        assert(pushed.drop_first() =~= s.drop_first().push(((index, code), target)));
        lemma_seq_lookup_push(s.drop_first(), index, code, target, index2, code2);
        if s[0].0.0 == index2 && s[0].0.1 == code2 {
            assert(seq_lookup(pushed, index2, code2) == Some(s[0].1));
            assert(seq_lookup(s, index2, code2) == Some(s[0].1));
        } else {
            assert(seq_lookup(pushed, index2, code2) == seq_lookup(
                pushed.drop_first(),
                index2,
                code2,
            ));
            assert(seq_lookup(s, index2, code2) == seq_lookup(s.drop_first(), index2, code2));
        }
    }
}

/// The translation table for button events: a finite map from
/// `(device index, source button)` to the destination button, stored as a
/// sequence of entries with pairwise-distinct keys.
#[derive(Debug, Clone, PartialEq)]
pub struct ButtonMap {
    entries: Vec<((usize, Button), Button)>,
}

impl ButtonMap {
    /// The entries of the table, in insertion order.
    pub closed spec fn entries_view(self) -> Seq<((usize, Button), Button)> {
        self.entries@
    }

    /// Well-formed: no two entries share a `(device index, source code)` key.
    pub open spec fn wf(self) -> bool {
        entries_unique(self.entries_view())
    }

    /// The destination a `(device index, source button)` pair translates to,
    /// if the pair is described by the table.
    pub open spec fn spec_lookup(self, index: usize, code: Button) -> Option<Button> {
        seq_lookup(self.entries_view(), index, code)
    }

    /// An empty table, describing no translation at all.
    pub fn new() -> (r: ButtonMap)
        ensures
            r.entries_view() =~= Seq::<((usize, Button), Button)>::empty(),
            r.wf(),
    {
        ButtonMap { entries: Vec::new() }
    }

    /// The number of entries in the table.
    pub fn len(&self) -> (r: usize)
        ensures
            r == self.entries_view().len(),
    {
        self.entries.len()
    }

    /// The entry at a position, in insertion order.
    pub fn entry_at(&self, i: usize) -> (r: ((usize, Button), Button))
        requires
            i < self.entries_view().len(),
        ensures
            r == self.entries_view()[i as int],
    {
        self.entries[i]
    }

    /// Look a `(device index, source button)` pair up. The table is pure
    /// data: the result is fully determined by the table's entries, so
    /// repeated queries return the same destination.
    pub fn get(&self, index: usize, code: Button) -> (r: Option<Button>)
        ensures
            r == self.spec_lookup(index, code),
    {
        let n = self.entries.len();
        let mut i: usize = 0;
        proof {
            assert(self.entries_view().skip(0) =~= self.entries_view());
        }
        while i < n
            invariant
                n == self.entries_view().len(),
                i <= n,
                seq_lookup(self.entries_view(), index, code) == seq_lookup(
                    self.entries_view().skip(i as int),
                    index,
                    code,
                ),
            decreases n - i,
        {
            let entry = self.entries[i];
            proof {
                assert(self.entries_view().skip(i as int)[0] == self.entries_view()[i as int]);
                assert(self.entries_view().skip(i as int).drop_first() =~= self.entries_view().skip(
                    i as int + 1,
                ));
            }
            if entry.0.0 == index && entry.0.1 == code {
                return Some(entry.1);
            }
            i = i + 1;
        }
        proof {
            assert(self.entries_view().skip(n as int) =~= Seq::<((usize, Button), Button)>::empty());
        }
        None
    }

    /// Add a translation for a pair the table does not describe yet. Every
    /// other pair keeps its destination.
    pub fn insert(&mut self, index: usize, code: Button, target: Button)
        requires
            old(self).wf(),
            old(self).spec_lookup(index, code) is None,
        ensures
            final(self).wf(),
            final(self).entries_view() =~= old(self).entries_view().push(((index, code), target)),
            forall|index2: usize, code2: Button|
                final(self).spec_lookup(index2, code2) == (if index2 == index && code2 == code {
                    Some(target)
                } else {
                    old(self).spec_lookup(index2, code2)
                }),
    {
        proof {
            lemma_seq_lookup_none_iff_absent(self.entries_view(), index, code);
            assert forall|index2: usize, code2: Button|
                seq_lookup(self.entries_view().push(((index, code), target)), index2, code2) == (
                if index2 == index && code2 == code {
                    Some(target)
                } else {
                    seq_lookup(self.entries_view(), index2, code2)
                }) by {
                lemma_seq_lookup_push(self.entries_view(), index, code, target, index2, code2);
            }
        }
        self.entries.push(((index, code), target));
    }
}

/// The translation table for axis events, shaped exactly as `ButtonMap`.
#[derive(Debug, Clone, PartialEq)]
pub struct AxisMap {
    entries: Vec<((usize, Axis), Axis)>,
}

impl AxisMap {
    /// The entries of the table, in insertion order.
    pub closed spec fn entries_view(self) -> Seq<((usize, Axis), Axis)> {
        self.entries@
    }

    /// Well-formed: no two entries share a `(device index, source code)` key.
    pub open spec fn wf(self) -> bool {
        entries_unique(self.entries_view())
    }

    /// The destination a `(device index, source axis)` pair translates to, if
    /// the pair is described by the table.
    pub open spec fn spec_lookup(self, index: usize, code: Axis) -> Option<Axis> {
        seq_lookup(self.entries_view(), index, code)
    }

    /// An empty table, describing no translation at all.
    pub fn new() -> (r: AxisMap)
        ensures
            r.entries_view() =~= Seq::<((usize, Axis), Axis)>::empty(),
            r.wf(),
    {
        AxisMap { entries: Vec::new() }
    }

    /// The number of entries in the table.
    pub fn len(&self) -> (r: usize)
        ensures
            r == self.entries_view().len(),
    {
        self.entries.len()
    }

    /// The entry at a position, in insertion order.
    pub fn entry_at(&self, i: usize) -> (r: ((usize, Axis), Axis))
        requires
            i < self.entries_view().len(),
        ensures
            r == self.entries_view()[i as int],
    {
        self.entries[i]
    }

    /// Look a `(device index, source axis)` pair up. The table is pure data:
    /// the result is fully determined by the table's entries, so repeated
    /// queries return the same destination.
    pub fn get(&self, index: usize, code: Axis) -> (r: Option<Axis>)
        ensures
            r == self.spec_lookup(index, code),
    {
        let n = self.entries.len();
        let mut i: usize = 0;
        proof {
            assert(self.entries_view().skip(0) =~= self.entries_view());
        }
        while i < n
            invariant
                n == self.entries_view().len(),
                i <= n,
                seq_lookup(self.entries_view(), index, code) == seq_lookup(
                    self.entries_view().skip(i as int),
                    index,
                    code,
                ),
            decreases n - i,
        {
            let entry = self.entries[i];
            proof {
                assert(self.entries_view().skip(i as int)[0] == self.entries_view()[i as int]);
                assert(self.entries_view().skip(i as int).drop_first() =~= self.entries_view().skip(
                    i as int + 1,
                ));
            }
            if entry.0.0 == index && entry.0.1 == code {
                return Some(entry.1);
            }
            i = i + 1;
        }
        proof {
            assert(self.entries_view().skip(n as int) =~= Seq::<((usize, Axis), Axis)>::empty());
        }
        None
    }

    /// Add a translation for a pair the table does not describe yet. Every
    /// other pair keeps its destination.
    pub fn insert(&mut self, index: usize, code: Axis, target: Axis)
        requires
            old(self).wf(),
            old(self).spec_lookup(index, code) is None,
        ensures
            final(self).wf(),
            final(self).entries_view() =~= old(self).entries_view().push(((index, code), target)),
            forall|index2: usize, code2: Axis|
                final(self).spec_lookup(index2, code2) == (if index2 == index && code2 == code {
                    Some(target)
                } else {
                    old(self).spec_lookup(index2, code2)
                }),
    {
        proof {
            lemma_seq_lookup_none_iff_absent(self.entries_view(), index, code);
            assert forall|index2: usize, code2: Axis|
                seq_lookup(self.entries_view().push(((index, code), target)), index2, code2) == (
                if index2 == index && code2 == code {
                    Some(target)
                } else {
                    seq_lookup(self.entries_view(), index2, code2)
                }) by {
                lemma_seq_lookup_push(self.entries_view(), index, code, target, index2, code2);
            }
        }
        self.entries.push(((index, code), target));
    }
}

/// The output topology of the virtual devices: either one combined virtual
/// device that takes every translated event, or one virtual device per input
/// device, index-aligned, each carrying its name.
#[derive(Debug, Clone, PartialEq)]
pub enum OutputType {
    Combined(String),
    Passthrough(Vec<String>),
}

impl OutputType {
    /// Whether all inputs are merged into a single virtual device.
    pub open spec fn spec_is_combined(self) -> bool {
        self is Combined
    }

    /// How many virtual devices this topology describes.
    pub open spec fn spec_count(self) -> int {
        match self {
            OutputType::Combined(_) => 1,
            OutputType::Passthrough(items) => items@.len() as int,
        }
    }

    /// Whether all inputs are merged into a single virtual device.
    pub fn is_combined(&self) -> (r: bool)
        ensures
            r == self.spec_is_combined(),
    {
        match self {
            OutputType::Combined(_) => true,
            OutputType::Passthrough(_) => false,
        }
    }

    /// How many virtual devices this topology describes.
    pub fn count(&self) -> (r: usize)
        ensures
            r == self.spec_count(),
    {
        match self {
            OutputType::Combined(_) => 1,
            OutputType::Passthrough(items) => items.len(),
        }
    }
}

/// The comma-separated pieces of a name list, reading from position `i` with
/// the current piece beginning at `start`: every comma ends a piece, and the
/// end of the string ends the last one, so the result never has fewer than
/// one piece and a trailing comma yields an empty last piece.
pub open spec fn spec_split_commas(s: Seq<char>, start: int, i: int) -> Seq<Seq<char>>
    decreases s.len() - i,
{
    if i < 0 || i >= s.len() {
        seq![s.subrange(start, s.len() as int)]
    } else if s[i] == ',' {
        seq![s.subrange(start, i)] + spec_split_commas(s, i + 1, i + 1)
    } else {
        spec_split_commas(s, start, i + 1)
    }
}

impl OutputType {
    /// Read an output topology from its command-line form: a name without a
    /// comma is one combined virtual device; a comma-separated list is one
    /// passthrough virtual device per piece.
    pub fn parse(value: String) -> (r: OutputType)
        ensures
            spec_split_commas(value@, 0, 0).len() == 1 ==> r == OutputType::Combined(value),
            spec_split_commas(value@, 0, 0).len() != 1 ==> r is Passthrough
                && r->Passthrough_0@.map_values(|s: String| s@) == spec_split_commas(value@, 0, 0),
    {
        let text = value.as_str();
        let n = text.unicode_len();
        let mut parts: Vec<String> = Vec::new();
        let mut start: usize = 0;
        let mut i: usize = 0;
        proof {
            assert(parts@.map_values(|s: String| s@) =~= Seq::<Seq<char>>::empty());
        }
        while i < n
            invariant
                text@ == value@,
                n == text@.len(),
                start <= i <= n,
                spec_split_commas(value@, 0, 0) == parts@.map_values(|s: String| s@)
                    + spec_split_commas(value@, start as int, i as int),
            decreases n - i,
        {
            if text.get_char(i) == ',' {
                let piece = text.substring_char(start, i).to_owned();
                proof {
                    assert(piece@ == value@.subrange(start as int, i as int));
                    assert(parts@.push(piece).map_values(|s: String| s@) =~= parts@.map_values(
                        |s: String| s@,
                    ).push(piece@));
                    assert(parts@.map_values(|s: String| s@) + (seq![piece@] + spec_split_commas(
                        value@,
                        i as int + 1,
                        i as int + 1,
                    )) =~= parts@.push(piece).map_values(|s: String| s@) + spec_split_commas(
                        value@,
                        i as int + 1,
                        i as int + 1,
                    ));
                }
                parts.push(piece);
                start = i + 1;
            }
            i = i + 1;
        }
        let piece = text.substring_char(start, n).to_owned();
        proof {
            assert(piece@ == value@.subrange(start as int, n as int));
            assert(spec_split_commas(value@, start as int, n as int) =~= seq![piece@]);
            assert(parts@.push(piece).map_values(|s: String| s@) =~= parts@.map_values(
                |s: String| s@,
            ).push(piece@));
            assert(parts@.map_values(|s: String| s@) + seq![piece@] =~= parts@.push(
                piece,
            ).map_values(|s: String| s@));
        }
        parts.push(piece);
        if parts.len() == 1 {
            OutputType::Combined(value)
        } else {
            OutputType::Passthrough(parts)
        }
    }
}

/// What descriptor generation starts from: the ordered list of input device
/// names (duplicates allowed, each entry binds one discovered device) and the
/// requested output topology.
#[derive(Debug, Clone, PartialEq)]
pub struct GenerationDescription {
    pub input: Vec<String>,
    pub output: OutputType,
}

/// Why descriptor generation failed.
#[derive(Debug, PartialEq, Eq, Structural, Clone, Copy)]
pub enum GenerationError {
    /// A passthrough topology must name exactly as many virtual devices as
    /// there are input devices.
    CountMismatch,
}

/// The full mapping configuration: the ordered input device names, the output
/// topology, and the two translation tables keyed by
/// `(device index, source code)`. Immutable once built; the sole source of
/// truth consulted on every event.
#[derive(Debug, Clone, PartialEq)]
pub struct VJoyDescriptor {
    pub input_devices: Vec<String>,
    pub output_device: OutputType,
    pub key_mappings: ButtonMap,
    pub axis_mappings: AxisMap,
}

impl VJoyDescriptor {
    /// Well-formed: both translation tables have pairwise-distinct keys.
    pub open spec fn wf(self) -> bool {
        self.key_mappings.wf() && self.axis_mappings.wf()
    }

    /// The generation request is invalid: a passthrough topology whose name
    /// count differs from the input device count.
    pub open spec fn spec_count_mismatch(generation: GenerationDescription) -> bool {
        !generation.output.spec_is_combined() && generation.output.spec_count()
            != generation.input@.len()
    }

    /// What a generated descriptor maps `(device index, source button)` to:
    /// the first device is identity-mapped; every further device is
    /// identity-mapped in passthrough mode and muted to `Stub` in combined
    /// mode; pairs outside the devices' declared capabilities are absent.
    pub open spec fn spec_generated_button_target(
        output: OutputType,
        devices: Seq<InputDeviceRef>,
        index: usize,
        code: Button,
    ) -> Option<Button> {
        if index < devices.len() && devices[index as int].keys@.contains(code) {
            if index == 0 || !output.spec_is_combined() {
                Some(code)
            } else {
                Some(Button::Stub)
            }
        } else {
            None
        }
    }

    /// What a generated descriptor maps `(device index, source axis)` to,
    /// shaped exactly as the button rule.
    pub open spec fn spec_generated_axis_target(
        output: OutputType,
        devices: Seq<InputDeviceRef>,
        index: usize,
        code: Axis,
    ) -> Option<Axis> {
        if index < devices.len() && devices[index as int].axes@.contains(code) {
            if index == 0 || !output.spec_is_combined() {
                Some(code)
            } else {
                Some(Axis::Stub)
            }
        } else {
            None
        }
    }

    /// Derive a default descriptor from the discovered capabilities of the
    /// resolved input devices, one device per requested name, in name-list
    /// order.
    ///
    /// A passthrough topology is rejected unless it names exactly one virtual
    /// device per input device; nothing else is rejected. In the generated
    /// tables the first device passes straight through (identity mapping over
    /// its declared capabilities); every further device is muted to `Stub` in
    /// combined mode and identity-mapped in passthrough mode.
    pub fn generate_descriptor(generation: GenerationDescription, devices: &Vec<InputDeviceRef>) -> (r:
        Result<VJoyDescriptor, GenerationError>)
        requires
            Self::spec_count_mismatch(generation) || (devices@.len() == generation.input@.len()
                && generation.input@.len() > 0 && (forall|i: int|
                0 <= i < devices@.len() ==> devices@[i].caps_unique())),
        ensures
            r is Err <==> Self::spec_count_mismatch(generation),
            r is Err ==> r == Err::<VJoyDescriptor, GenerationError>(GenerationError::CountMismatch),
            r is Ok && !generation.output.spec_is_combined() ==> r->Ok_0.output_device.spec_count()
                == r->Ok_0.input_devices@.len(),
            r is Ok ==> r->Ok_0.input_devices == generation.input,
            r is Ok ==> r->Ok_0.output_device == generation.output,
            r is Ok ==> r->Ok_0.wf(),
            r is Ok ==> forall|index: usize, code: Button|
                r->Ok_0.key_mappings.spec_lookup(index, code)
                    == Self::spec_generated_button_target(generation.output, devices@, index, code),
            r is Ok ==> forall|index: usize, code: Axis|
                r->Ok_0.axis_mappings.spec_lookup(index, code)
                    == Self::spec_generated_axis_target(generation.output, devices@, index, code),
    {
        let combined = generation.output.is_combined();
        if !combined && generation.output.count() != generation.input.len() {
            return Err(GenerationError::CountMismatch);
        }
        let n = devices.len();
        let mut key_mappings = ButtonMap::new();
        let mut axis_mappings = AxisMap::new();
        let mut di: usize = 0;
        while di < n
            invariant
                n == devices@.len(),
                di <= n,
                combined == generation.output.spec_is_combined(),
                forall|i: int| 0 <= i < devices@.len() ==> devices@[i].caps_unique(),
                key_mappings.wf(),
                axis_mappings.wf(),
                forall|index: usize, code: Button|
                    key_mappings.spec_lookup(index, code) == (if (index as int) < di as int {
                        Self::spec_generated_button_target(
                            generation.output,
                            devices@,
                            index,
                            code,
                        )
                    } else {
                        None
                    }),
                forall|index: usize, code: Axis|
                    axis_mappings.spec_lookup(index, code) == (if (index as int) < di as int {
                        Self::spec_generated_axis_target(generation.output, devices@, index, code)
                    } else {
                        None
                    }),
            decreases n - di,
        {
            let device = &devices[di];
            let n_keys = device.keys.len();
            let mut k: usize = 0;
            while k < n_keys
                invariant
                    n == devices@.len(),
                    di < n,
                    n_keys == devices@[di as int].keys@.len(),
                    *device == devices@[di as int],
                    k <= n_keys,
                    combined == generation.output.spec_is_combined(),
                    forall|i: int| 0 <= i < devices@.len() ==> devices@[i].caps_unique(),
                    key_mappings.wf(),
                    forall|index: usize, code: Button|
                        key_mappings.spec_lookup(index, code) == (if (index as int) < di as int {
                            Self::spec_generated_button_target(
                                generation.output,
                                devices@,
                                index,
                                code,
                            )
                        } else if index == di && seq_contains_prefix(
                            devices@[di as int].keys@,
                            k as int,
                            code,
                        ) {
                            Self::spec_generated_button_target(
                                generation.output,
                                devices@,
                                index,
                                code,
                            )
                        } else {
                            None
                        }),
                decreases n_keys - k,
            {
                let code = device.keys[k];
                let target = if di == 0 || !combined {
                    code
                } else {
                    Button::Stub
                };
                proof {
                    if seq_contains_prefix(devices@[di as int].keys@, k as int, code) {
                        let w = choose|w: int|
                            0 <= w < k as int && devices@[di as int].keys@[w] == code;
                        assert(devices@[di as int].keys@[w] == devices@[di as int].keys@[k as int]);
                        assert(false);
                    }
                }
                key_mappings.insert(di, code, target);
                proof {
                    assert forall|index: usize, code2: Button|
                        key_mappings.spec_lookup(index, code2) == (if (index as int) < di as int {
                            Self::spec_generated_button_target(
                                generation.output,
                                devices@,
                                index,
                                code2,
                            )
                        } else if index == di && seq_contains_prefix(
                            devices@[di as int].keys@,
                            k as int + 1,
                            code2,
                        ) {
                            Self::spec_generated_button_target(
                                generation.output,
                                devices@,
                                index,
                                code2,
                            )
                        } else {
                            None
                        }) by {
                        if index == di {
                            if code2 == code {
                                assert(devices@[di as int].keys@[k as int] == code2);
                                assert(seq_contains_prefix(
                                    devices@[di as int].keys@,
                                    k as int + 1,
                                    code2,
                                ));
                                assert(devices@[di as int].keys@.contains(code2));
                            } else if seq_contains_prefix(
                                devices@[di as int].keys@,
                                k as int + 1,
                                code2,
                            ) {
                                let w = choose|w: int|
                                    0 <= w < k as int + 1 && devices@[di as int].keys@[w] == code2;
                                assert(w != k as int);
                                assert(seq_contains_prefix(
                                    devices@[di as int].keys@,
                                    k as int,
                                    code2,
                                ));
                                assert(devices@[di as int].keys@.contains(code2));
                            } else {
                                assert(!seq_contains_prefix(
                                    devices@[di as int].keys@,
                                    k as int,
                                    code2,
                                ));
                            }
                        }
                    }
                }
                k = k + 1;
            }
            proof {
                assert forall|code: Button|
                    seq_contains_prefix(devices@[di as int].keys@, n_keys as int, code)
                        == devices@[di as int].keys@.contains(code) by {}
            }
            let n_axes = device.axes.len();
            let mut a: usize = 0;
            while a < n_axes
                invariant
                    n == devices@.len(),
                    di < n,
                    n_axes == devices@[di as int].axes@.len(),
                    *device == devices@[di as int],
                    a <= n_axes,
                    combined == generation.output.spec_is_combined(),
                    forall|i: int| 0 <= i < devices@.len() ==> devices@[i].caps_unique(),
                    axis_mappings.wf(),
                    forall|index: usize, code: Axis|
                        axis_mappings.spec_lookup(index, code) == (if (index as int) < di as int {
                            Self::spec_generated_axis_target(
                                generation.output,
                                devices@,
                                index,
                                code,
                            )
                        } else if index == di && seq_contains_prefix(
                            devices@[di as int].axes@,
                            a as int,
                            code,
                        ) {
                            Self::spec_generated_axis_target(
                                generation.output,
                                devices@,
                                index,
                                code,
                            )
                        } else {
                            None
                        }),
                decreases n_axes - a,
            {
                let code = device.axes[a];
                let target = if di == 0 || !combined {
                    code
                } else {
                    Axis::Stub
                };
                proof {
                    if seq_contains_prefix(devices@[di as int].axes@, a as int, code) {
                        let w = choose|w: int|
                            0 <= w < a as int && devices@[di as int].axes@[w] == code;
                        assert(devices@[di as int].axes@[w] == devices@[di as int].axes@[a as int]);
                        assert(false);
                    }
                }
                axis_mappings.insert(di, code, target);
                proof {
                    assert forall|index: usize, code2: Axis|
                        axis_mappings.spec_lookup(index, code2) == (if (index as int) < di as int {
                            Self::spec_generated_axis_target(
                                generation.output,
                                devices@,
                                index,
                                code2,
                            )
                        } else if index == di && seq_contains_prefix(
                            devices@[di as int].axes@,
                            a as int + 1,
                            code2,
                        ) {
                            Self::spec_generated_axis_target(
                                generation.output,
                                devices@,
                                index,
                                code2,
                            )
                        } else {
                            None
                        }) by {
                        if index == di {
                            if code2 == code {
                                assert(devices@[di as int].axes@[a as int] == code2);
                                assert(seq_contains_prefix(
                                    devices@[di as int].axes@,
                                    a as int + 1,
                                    code2,
                                ));
                                assert(devices@[di as int].axes@.contains(code2));
                            } else if seq_contains_prefix(
                                devices@[di as int].axes@,
                                a as int + 1,
                                code2,
                            ) {
                                let w = choose|w: int|
                                    0 <= w < a as int + 1 && devices@[di as int].axes@[w] == code2;
                                assert(w != a as int);
                                assert(seq_contains_prefix(
                                    devices@[di as int].axes@,
                                    a as int,
                                    code2,
                                ));
                                assert(devices@[di as int].axes@.contains(code2));
                            } else {
                                assert(!seq_contains_prefix(
                                    devices@[di as int].axes@,
                                    a as int,
                                    code2,
                                ));
                            }
                        }
                    }
                }
                a = a + 1;
            }
            proof {
                assert forall|code: Axis|
                    seq_contains_prefix(devices@[di as int].axes@, n_axes as int, code)
                        == devices@[di as int].axes@.contains(code) by {}
            }
            di = di + 1;
        }
        Ok(
            VJoyDescriptor {
                input_devices: generation.input,
                output_device: generation.output,
                key_mappings,
                axis_mappings,
            },
        )
    }
}

} // verus!
