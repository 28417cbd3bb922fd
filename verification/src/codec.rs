use vstd::prelude::*;

use vstd::utf8::decode_utf8;
use vstd::utf8::encode_utf8;
use vstd::utf8::encode_utf8_decode_utf8;
use vstd::utf8::encode_utf8_valid_utf8;
use vstd::utf8::valid_utf8;

use crate::descriptor::AxisMap;
use crate::descriptor::ButtonMap;
use crate::descriptor::entries_unique;
use crate::descriptor::lemma_seq_lookup_none_iff_absent;
use crate::descriptor::OutputType;
use crate::descriptor::VJoyDescriptor;
use crate::mappings::Axis;
use crate::mappings::Button;
use crate::mappings::lemma_axis_conversion_inverse;
use crate::mappings::lemma_button_conversion_inverse;

verus! {

// The descriptor's structural encoding: a flat stream of tokens that strings,
// counts and map entries are written to in a fixed order, and read back from.
// Encoding a descriptor and decoding the tokens yields a structurally
// identical descriptor; decoding rejects malformed streams.
//
// Layout: a string is its UTF-8 byte length followed by its bytes, one token
// each; a list is its element count followed by its elements; a capability
// code is a tag token (named, raw fallback, or stub) and a payload token; a
// map entry is its device index followed by its source and destination codes.
/// Relies on String::from_utf8: it accepts exactly the valid UTF-8 byte
/// sequences and turns them into the string those bytes spell.
#[verifier::external_body]
fn string_from_utf8(bytes: Vec<u8>) -> (r: Option<String>)
    ensures
        r is Some <==> valid_utf8(bytes@),
        r is Some ==> r->Some_0@ == decode_utf8(bytes@),
{
    String::from_utf8(bytes).ok()
}

/// Every token of a string's payload fits in a byte.
pub open spec fn tokens_are_bytes(tokens: Seq<u64>) -> bool {
    forall|i: int| 0 <= i < tokens.len() ==> tokens[i] <= 255
}

/// The token form of one string: its UTF-8 byte length, then its bytes.
pub open spec fn spec_encode_str(s: Seq<char>) -> Seq<u64> {
    seq![encode_utf8(s).len() as u64] + encode_utf8(s).map_values(|b: u8| b as u64)
}

/// Read one string from the front of a token stream: `None` on a short
/// stream, an oversized token, or bytes that are not valid UTF-8.
pub open spec fn spec_decode_str(data: Seq<u64>) -> Option<(Seq<char>, int)> {
    if data.len() < 1 {
        None
    } else {
        let n = data[0] as int;
        if data.len() < 1 + n {
            None
        } else {
            let tokens = data.subrange(1, 1 + n);
            if !tokens_are_bytes(tokens) {
                None
            } else {
                let bytes = tokens.map_values(|t: u64| t as u8);
                if valid_utf8(bytes) {
                    Some((decode_utf8(bytes), 1 + n))
                } else {
                    None
                }
            }
        }
    }
}

/// Reading the token form of a string back yields that string and consumes
/// exactly its tokens, whatever follows.
proof fn lemma_round_trip_str(s: Seq<char>, rest: Seq<u64>)
    requires
        encode_utf8(s).len() <= u64::MAX,
    ensures
        spec_decode_str(spec_encode_str(s) + rest) == Some(
            (s, spec_encode_str(s).len() as int),
        ),
{
    broadcast use encode_utf8_valid_utf8, encode_utf8_decode_utf8;

    let bytes = encode_utf8(s);
    let enc = spec_encode_str(s);
    let data = enc + rest;
    let n = data[0] as int;
    assert(n == bytes.len());
    let tokens = data.subrange(1, 1 + n);
    assert(tokens =~= bytes.map_values(|b: u8| b as u64));
    assert forall|i: int| 0 <= i < tokens.len() implies tokens[i] <= 255 by {
        assert(tokens[i] == bytes[i] as u64);
    }
    assert(tokens.map_values(|t: u64| t as u8) =~= bytes);
}

/// Append the token form of one string.
fn encode_str_into(out: &mut Vec<u64>, s: &String)
    ensures
        final(out)@ == old(out)@ + spec_encode_str(s@),
        encode_utf8(s@).len() <= u64::MAX,
{
    let ghost out0 = out@;
    let bytes = s.as_str().as_bytes_vec();
    proof {
        assert(bytes@ == encode_utf8(s@));
    }
    out.push(bytes.len() as u64);
    let n = bytes.len();
    let mut i: usize = 0;
    while i < n
        invariant
            n == bytes@.len(),
            bytes@ == encode_utf8(s@),
            i <= n,
            out@ == out0 + seq![n as u64] + bytes@.take(i as int).map_values(|b: u8| b as u64),
        decreases n - i,
    {
        out.push(bytes[i] as u64);
        proof {
            assert(bytes@.take(i as int + 1).map_values(|b: u8| b as u64) =~= bytes@.take(
                i as int,
            ).map_values(|b: u8| b as u64).push(bytes@[i as int] as u64));
        }
        i = i + 1;
    }
    proof {
        assert(bytes@.take(n as int) =~= bytes@);
        assert(out@ =~= out0 + spec_encode_str(s@));
    }
}

/// Read one string from position `pos` of the token stream; on success the
/// second component is the position just past it.
fn decode_str(data: &Vec<u64>, pos: usize) -> (r: Option<(String, usize)>)
    requires
        pos <= data@.len(),
    ensures
        ({
            let d = spec_decode_str(data@.skip(pos as int));
            match r {
                Some(v) => d is Some && v.0@ == d->Some_0.0 && v.1 == pos + d->Some_0.1 && pos < v.1
                    <= data@.len(),
                None => d is None,
            }
        }),
{
    let ghost tail = data@.skip(pos as int);
    if pos >= data.len() {
        return None;
    }
    let n64 = data[pos];
    let remaining = data.len() - pos - 1;
    proof {
        assert(tail[0] == data@[pos as int]);
    }
    if n64 > remaining as u64 {
        return None;
    }
    let n = n64 as usize;
    let ghost tokens = tail.subrange(1, 1 + n as int);
    proof {
        assert forall|j: int| 0 <= j < n as int implies tokens[j] == data@[pos as int + 1 + j] by {
            assert(tokens[j] == tail[1 + j]);
        }
    }
    let mut bytes: Vec<u8> = Vec::new();
    let mut i: usize = 0;
    while i < n
        invariant
            data@.len() <= usize::MAX,
            pos < data@.len(),
            pos + 1 + n <= data@.len(),
            tail == data@.skip(pos as int),
            tail[0] == n as u64,
            tokens == tail.subrange(1, 1 + n as int),
            tokens.len() == n,
            forall|j: int| 0 <= j < n as int ==> #[trigger] tokens[j] == data@[pos as int + 1 + j],
            bytes@.len() == i,
            i <= n,
            forall|j: int| 0 <= j < i as int ==> #[trigger] tokens[j] <= 255,
            forall|j: int| 0 <= j < i as int ==> #[trigger] bytes@[j] == tokens[j] as u8,
        decreases n - i,
    {
        let t = data[pos + 1 + i];
        if t > 255 {
            proof {
                assert(tokens[i as int] == t);
                assert(!tokens_are_bytes(tokens));
                assert(tail.len() >= 1 + n as int);
                assert(spec_decode_str(tail) is None);
            }
            return None;
        }
        bytes.push(t as u8);
        i = i + 1;
    }
    proof {
        assert(tokens_are_bytes(tokens));
        assert(bytes@ =~= tokens.map_values(|t: u64| t as u8));
    }
    match string_from_utf8(bytes) {
        Some(s) => Some((s, pos + 1 + n)),
        None => None,
    }
}

/// A string short enough that its byte length fits in one token.
pub open spec fn spec_str_bounded(s: Seq<char>) -> bool {
    encode_utf8(s).len() <= u64::MAX
}

/// The token forms of a list's strings, in order, without the leading count.
pub open spec fn spec_encode_str_items(vs: Seq<Seq<char>>) -> Seq<u64>
    decreases vs.len(),
{
    if vs.len() == 0 {
        Seq::empty()
    } else {
        spec_encode_str(vs[0]) + spec_encode_str_items(vs.drop_first())
    }
}

/// The token form of a list of strings: its count, then its strings.
pub open spec fn spec_encode_str_list(vs: Seq<Seq<char>>) -> Seq<u64> {
    seq![vs.len() as u64] + spec_encode_str_items(vs)
}

/// Read `n` strings from the front of a token stream.
pub open spec fn spec_decode_str_items(data: Seq<u64>, n: int) -> Option<(Seq<Seq<char>>, int)>
    decreases n,
{
    if n <= 0 {
        Some((Seq::empty(), 0))
    } else {
        match spec_decode_str(data) {
            None => None,
            Some((s, used)) => match spec_decode_str_items(data.skip(used), n - 1) {
                None => None,
                Some((rest, used2)) => Some((seq![s] + rest, used + used2)),
            },
        }
    }
}

/// Read a counted list of strings from the front of a token stream.
pub open spec fn spec_decode_str_list(data: Seq<u64>) -> Option<(Seq<Seq<char>>, int)> {
    if data.len() < 1 {
        None
    } else {
        match spec_decode_str_items(data.skip(1), data[0] as int) {
            None => None,
            Some((vs, used)) => Some((vs, 1 + used)),
        }
    }
}

proof fn lemma_str_items_snoc(vs: Seq<Seq<char>>, v: Seq<char>)
    ensures
        spec_encode_str_items(vs.push(v)) == spec_encode_str_items(vs) + spec_encode_str(v),
    decreases vs.len(),
{
    if vs.len() == 0 {
        assert(vs.push(v)[0] == v);
        assert(vs.push(v).drop_first() =~= Seq::<Seq<char>>::empty());
        assert(spec_encode_str_items(vs.push(v).drop_first()) == Seq::<u64>::empty());
        assert(spec_encode_str_items(vs.push(v)) == spec_encode_str(v) + Seq::<u64>::empty());
        assert(spec_encode_str(v) + Seq::<u64>::empty() =~= Seq::<u64>::empty()
            + spec_encode_str(v));
    } else {
        assert(vs.push(v)[0] == vs[0]);
        assert(vs.push(v).drop_first() =~= vs.drop_first().push(v));
        lemma_str_items_snoc(vs.drop_first(), v);
        assert(spec_encode_str_items(vs.push(v)) == spec_encode_str(vs[0]) + (
        spec_encode_str_items(vs.drop_first()) + spec_encode_str(v)));
        assert(spec_encode_str(vs[0]) + (spec_encode_str_items(vs.drop_first())
            + spec_encode_str(v)) =~= (spec_encode_str(vs[0]) + spec_encode_str_items(
            vs.drop_first(),
        )) + spec_encode_str(v));
    }
}

/// Reading `n` strings succeeds only where the stream holds at least `n`
/// tokens, one per string at the very least.
proof fn lemma_str_items_bounds(data: Seq<u64>, n: int)
    requires
        spec_decode_str_items(data, n) is Some,
    ensures
        ({
            let d = spec_decode_str_items(data, n)->Some_0;
            &&& d.0.len() == (if n <= 0 {
                0int
            } else {
                n
            })
            &&& (if n <= 0 {
                0int
            } else {
                n
            }) <= d.1 <= data.len()
        }),
    decreases n,
{
    if n > 0 {
        let (s, used) = spec_decode_str(data)->Some_0;
        lemma_str_items_bounds(data.skip(used), n - 1);
    }
}

proof fn lemma_round_trip_str_items(vs: Seq<Seq<char>>, rest: Seq<u64>)
    requires
        forall|i: int| 0 <= i < vs.len() ==> spec_str_bounded(#[trigger] vs[i]),
    ensures
        spec_decode_str_items(spec_encode_str_items(vs) + rest, vs.len() as int) == Some(
            (vs, spec_encode_str_items(vs).len() as int),
        ),
    decreases vs.len(),
{
    if vs.len() == 0 {
        assert(spec_encode_str_items(vs) + rest =~= rest);
        assert(spec_decode_str_items(rest, 0) == Some((Seq::<Seq<char>>::empty(), 0int)));
        assert(Seq::<Seq<char>>::empty() =~= vs);
    } else {
        let enc0 = spec_encode_str(vs[0]);
        let items_rest = spec_encode_str_items(vs.drop_first());
        let data = spec_encode_str_items(vs) + rest;
        assert(data =~= enc0 + (items_rest + rest));
        lemma_round_trip_str(vs[0], items_rest + rest);
        assert(data.skip(enc0.len() as int) =~= items_rest + rest);
        assert(forall|i: int|
            0 <= i < vs.drop_first().len() ==> spec_str_bounded(#[trigger] vs.drop_first()[i]));
        lemma_round_trip_str_items(vs.drop_first(), rest);
        assert(seq![vs[0]] + vs.drop_first() =~= vs);
    }
}

proof fn lemma_round_trip_str_list(vs: Seq<Seq<char>>, rest: Seq<u64>)
    requires
        vs.len() <= u64::MAX,
        forall|i: int| 0 <= i < vs.len() ==> spec_str_bounded(#[trigger] vs[i]),
    ensures
        spec_decode_str_list(spec_encode_str_list(vs) + rest) == Some(
            (vs, spec_encode_str_list(vs).len() as int),
        ),
{
    let data = spec_encode_str_list(vs) + rest;
    assert(data[0] == vs.len() as u64);
    assert(data.skip(1) =~= spec_encode_str_items(vs) + rest);
    lemma_round_trip_str_items(vs, rest);
}

/// Append the token form of a list of strings.
fn encode_str_vec_into(out: &mut Vec<u64>, vs: &Vec<String>)
    ensures
        final(out)@ == old(out)@ + spec_encode_str_list(vs@.map_values(|s: String| s@)),
        vs@.len() <= u64::MAX,
        forall|i: int| 0 <= i < vs@.len() ==> spec_str_bounded(#[trigger] vs@[i]@),
{
    let ghost out0 = out@;
    let ghost views = vs@.map_values(|s: String| s@);
    let n = vs.len();
    out.push(n as u64);
    let mut i: usize = 0;
    while i < n
        invariant
            n == vs@.len(),
            views == vs@.map_values(|s: String| s@),
            i <= n,
            out@ == out0 + seq![n as u64] + spec_encode_str_items(views.take(i as int)),
            forall|j: int| 0 <= j < i as int ==> spec_str_bounded(#[trigger] views[j]),
        decreases n - i,
    {
        encode_str_into(out, &vs[i]);
        proof {
            assert(views.take(i as int + 1) =~= views.take(i as int).push(views[i as int]));
            assert(views[i as int] == vs@[i as int]@);
            lemma_str_items_snoc(views.take(i as int), views[i as int]);
        }
        i = i + 1;
    }
    proof {
        assert(views.take(n as int) =~= views);
        assert(out@ =~= out0 + spec_encode_str_list(views));
        assert forall|j: int| 0 <= j < n as int implies spec_str_bounded(vs@[j]@) by {
            assert(views[j] == vs@[j]@);
        }
    }
}

/// Read a counted list of strings from position `pos` of the token stream.
fn decode_str_vec(data: &Vec<u64>, pos: usize) -> (r: Option<(Vec<String>, usize)>)
    requires
        pos <= data@.len(),
    ensures
        ({
            let d = spec_decode_str_list(data@.skip(pos as int));
            match r {
                Some(v) => d is Some && v.0@.map_values(|s: String| s@) == d->Some_0.0 && v.1 == pos
                    + d->Some_0.1 && pos < v.1 <= data@.len(),
                None => d is None,
            }
        }),
{
    let ghost tail = data@.skip(pos as int);
    if pos >= data.len() {
        return None;
    }
    let count64 = data[pos];
    let remaining = data.len() - pos - 1;
    proof {
        assert(tail[0] == data@[pos as int]);
        assert(tail.skip(1) =~= data@.skip(pos as int + 1));
    }
    if count64 > remaining as u64 {
        proof {
            if spec_decode_str_items(tail.skip(1), count64 as int) is Some {
                lemma_str_items_bounds(tail.skip(1), count64 as int);
            }
        }
        return None;
    }
    let count = count64 as usize;
    let mut items: Vec<String> = Vec::new();
    let mut cur: usize = pos + 1;
    let mut i: usize = 0;
    while i < count
        invariant
            data@.len() <= usize::MAX,
            pos < data@.len(),
            pos + 1 <= cur <= data@.len(),
            i <= count,
            count <= data@.len(),
            tail == data@.skip(pos as int),
            tail[0] == count as u64,
            tail.skip(1) == data@.skip(pos as int + 1),
            items@.len() == i,
            spec_decode_str_items(data@.skip(pos as int + 1), count as int) == (match
                spec_decode_str_items(data@.skip(cur as int), count as int - i as int) {
                Some(p) => Some(
                    (
                        items@.map_values(|s: String| s@) + p.0,
                        (cur - pos - 1) as int + p.1,
                    ),
                ),
                None => None::<(Seq<Seq<char>>, int)>,
            }),
        decreases count - i,
    {
        let ghost items0 = items@;
        match decode_str(data, cur) {
            Some(sp) => {
                let ghost used = spec_decode_str(data@.skip(cur as int))->Some_0.1;
                proof {
                    assert(data@.skip(cur as int).skip(used) =~= data@.skip(cur as int + used));
                }
                let s = sp.0;
                let newpos = sp.1;
                proof {
                    assert(items0.push(s).map_values(|s2: String| s2@) =~= items0.map_values(
                        |s2: String| s2@,
                    ).push(s@));
                    assert forall|p0: Seq<Seq<char>>|
                        items0.map_values(|s2: String| s2@) + (seq![s@] + p0) =~= items0.push(
                            s,
                        ).map_values(|s2: String| s2@) + p0 by {}
                }
                items.push(s);
                cur = newpos;
            },
            None => {
                return None;
            },
        }
        i = i + 1;
    }
    proof {
        assert(spec_decode_str_items(data@.skip(cur as int), 0) == Some(
            (Seq::<Seq<char>>::empty(), 0int),
        ));
        assert(items@.map_values(|s: String| s@) + Seq::<Seq<char>>::empty() =~= items@.map_values(
            |s: String| s@,
        ));
    }
    Some((items, cur))
}

/// The token form of one button: a tag and a payload.
pub open spec fn spec_encode_button(b: Button) -> Seq<u64> {
    match b {
        Button::Stub => seq![2u64, 0u64],
        Button::Unknown(c) => seq![1u64, c as u64],
        _ => seq![0u64, b.spec_to_raw()->Ok_0 as u64],
    }
}

/// The button a tag and payload token stand for, if any.
pub open spec fn spec_button_from_pair(tag: u64, payload: u64) -> Option<Button> {
    if tag == 0 && payload <= 65535 {
        Some(Button::spec_from_raw(payload as u16))
    } else if tag == 1 && payload <= 65535 {
        Some(Button::Unknown(payload as u16))
    } else if tag == 2 {
        Some(Button::Stub)
    } else {
        None
    }
}

/// The token form of one axis: a tag and a payload.
pub open spec fn spec_encode_axis(a: Axis) -> Seq<u64> {
    match a {
        Axis::Stub => seq![2u64, 0u64],
        _ => seq![0u64, a.spec_to_raw()->Ok_0 as u64],
    }
}

/// The axis a tag and payload token stand for, if any: the axis table has no
/// raw fallback, so an unrecognized payload decodes to nothing.
pub open spec fn spec_axis_from_pair(tag: u64, payload: u64) -> Option<Axis> {
    if tag == 0 && payload <= 65535 {
        Axis::spec_from_raw(payload as u16)
    } else if tag == 2 {
        Some(Axis::Stub)
    } else {
        None
    }
}

/// The token form of one button map entry: device index, source, destination.
pub open spec fn spec_encode_key_entry(e: ((usize, Button), Button)) -> Seq<u64> {
    seq![e.0.0 as u64] + spec_encode_button(e.0.1) + spec_encode_button(e.1)
}

/// Read one button map entry from the front of a token stream.
pub open spec fn spec_decode_key_entry(data: Seq<u64>) -> Option<(((usize, Button), Button), int)> {
    if data.len() < 5 {
        None
    } else if data[0] > usize::MAX as u64 {
        None
    } else {
        match (spec_button_from_pair(data[1], data[2]), spec_button_from_pair(data[3], data[4])) {
            (Some(src), Some(dst)) => Some(((((data[0] as usize), src), dst), 5)),
            _ => None,
        }
    }
}

/// The token form of one axis map entry: device index, source, destination.
pub open spec fn spec_encode_axis_entry(e: ((usize, Axis), Axis)) -> Seq<u64> {
    seq![e.0.0 as u64] + spec_encode_axis(e.0.1) + spec_encode_axis(e.1)
}

/// Read one axis map entry from the front of a token stream.
pub open spec fn spec_decode_axis_entry(data: Seq<u64>) -> Option<(((usize, Axis), Axis), int)> {
    if data.len() < 5 {
        None
    } else if data[0] > usize::MAX as u64 {
        None
    } else {
        match (spec_axis_from_pair(data[1], data[2]), spec_axis_from_pair(data[3], data[4])) {
            (Some(src), Some(dst)) => Some(((((data[0] as usize), src), dst), 5)),
            _ => None,
        }
    }
}

/// The token forms of a button map's entries, in order, without the count.
pub open spec fn spec_encode_key_items(es: Seq<((usize, Button), Button)>) -> Seq<u64>
    decreases es.len(),
{
    if es.len() == 0 {
        Seq::empty()
    } else {
        spec_encode_key_entry(es[0]) + spec_encode_key_items(es.drop_first())
    }
}

/// The token form of a button map: its entry count, then its entries.
pub open spec fn spec_encode_key_list(es: Seq<((usize, Button), Button)>) -> Seq<u64> {
    seq![es.len() as u64] + spec_encode_key_items(es)
}

/// Read `n` button map entries from the front of a token stream.
pub open spec fn spec_decode_key_items(data: Seq<u64>, n: int) -> Option<
    (Seq<((usize, Button), Button)>, int),
>
    decreases n,
{
    if n <= 0 {
        Some((Seq::empty(), 0))
    } else {
        match spec_decode_key_entry(data) {
            None => None,
            Some((e, used)) => match spec_decode_key_items(data.skip(used), n - 1) {
                None => None,
                Some((rest, used2)) => Some((seq![e] + rest, used + used2)),
            },
        }
    }
}

/// Read a counted button map from the front of a token stream.
pub open spec fn spec_decode_key_list(data: Seq<u64>) -> Option<
    (Seq<((usize, Button), Button)>, int),
> {
    if data.len() < 1 {
        None
    } else {
        match spec_decode_key_items(data.skip(1), data[0] as int) {
            None => None,
            Some((es, used)) => Some((es, 1 + used)),
        }
    }
}

/// The token forms of an axis map's entries, in order, without the count.
pub open spec fn spec_encode_axis_items(es: Seq<((usize, Axis), Axis)>) -> Seq<u64>
    decreases es.len(),
{
    if es.len() == 0 {
        Seq::empty()
    } else {
        spec_encode_axis_entry(es[0]) + spec_encode_axis_items(es.drop_first())
    }
}

/// The token form of an axis map: its entry count, then its entries.
pub open spec fn spec_encode_axis_list(es: Seq<((usize, Axis), Axis)>) -> Seq<u64> {
    seq![es.len() as u64] + spec_encode_axis_items(es)
}

/// Read `n` axis map entries from the front of a token stream.
pub open spec fn spec_decode_axis_items(data: Seq<u64>, n: int) -> Option<
    (Seq<((usize, Axis), Axis)>, int),
>
    decreases n,
{
    if n <= 0 {
        Some((Seq::empty(), 0))
    } else {
        match spec_decode_axis_entry(data) {
            None => None,
            Some((e, used)) => match spec_decode_axis_items(data.skip(used), n - 1) {
                None => None,
                Some((rest, used2)) => Some((seq![e] + rest, used + used2)),
            },
        }
    }
}

/// Read a counted axis map from the front of a token stream.
pub open spec fn spec_decode_axis_list(data: Seq<u64>) -> Option<
    (Seq<((usize, Axis), Axis)>, int),
> {
    if data.len() < 1 {
        None
    } else {
        match spec_decode_axis_items(data.skip(1), data[0] as int) {
            None => None,
            Some((es, used)) => Some((es, 1 + used)),
        }
    }
}

proof fn lemma_key_items_snoc(es: Seq<((usize, Button), Button)>, e: ((usize, Button), Button))
    ensures
        spec_encode_key_items(es.push(e)) == spec_encode_key_items(es) + spec_encode_key_entry(e),
    decreases es.len(),
{
    if es.len() == 0 {
        assert(es.push(e)[0] == e);
        assert(es.push(e).drop_first() =~= Seq::<((usize, Button), Button)>::empty());
        assert(spec_encode_key_items(es.push(e).drop_first()) == Seq::<u64>::empty());
        assert(spec_encode_key_items(es.push(e)) == spec_encode_key_entry(e) + Seq::<u64>::empty());
        assert(spec_encode_key_entry(e) + Seq::<u64>::empty() =~= Seq::<u64>::empty()
            + spec_encode_key_entry(e));
    } else {
        assert(es.push(e)[0] == es[0]);
        assert(es.push(e).drop_first() =~= es.drop_first().push(e));
        lemma_key_items_snoc(es.drop_first(), e);
        assert(spec_encode_key_items(es.push(e)) == spec_encode_key_entry(es[0]) + (
        spec_encode_key_items(es.drop_first()) + spec_encode_key_entry(e)));
        assert(spec_encode_key_entry(es[0]) + (spec_encode_key_items(es.drop_first())
            + spec_encode_key_entry(e)) =~= (spec_encode_key_entry(es[0])
            + spec_encode_key_items(es.drop_first())) + spec_encode_key_entry(e));
    }
}

proof fn lemma_axis_items_snoc(es: Seq<((usize, Axis), Axis)>, e: ((usize, Axis), Axis))
    ensures
        spec_encode_axis_items(es.push(e)) == spec_encode_axis_items(es) + spec_encode_axis_entry(
            e,
        ),
    decreases es.len(),
{
    if es.len() == 0 {
        assert(es.push(e)[0] == e);
        assert(es.push(e).drop_first() =~= Seq::<((usize, Axis), Axis)>::empty());
        assert(spec_encode_axis_items(es.push(e).drop_first()) == Seq::<u64>::empty());
        assert(spec_encode_axis_items(es.push(e)) == spec_encode_axis_entry(e)
            + Seq::<u64>::empty());
        assert(spec_encode_axis_entry(e) + Seq::<u64>::empty() =~= Seq::<u64>::empty()
            + spec_encode_axis_entry(e));
    } else {
        assert(es.push(e)[0] == es[0]);
        assert(es.push(e).drop_first() =~= es.drop_first().push(e));
        lemma_axis_items_snoc(es.drop_first(), e);
        assert(spec_encode_axis_items(es.push(e)) == spec_encode_axis_entry(es[0]) + (
        spec_encode_axis_items(es.drop_first()) + spec_encode_axis_entry(e)));
        assert(spec_encode_axis_entry(es[0]) + (spec_encode_axis_items(es.drop_first())
            + spec_encode_axis_entry(e)) =~= (spec_encode_axis_entry(es[0])
            + spec_encode_axis_items(es.drop_first())) + spec_encode_axis_entry(e));
    }
}

proof fn lemma_key_items_bounds(data: Seq<u64>, n: int)
    requires
        spec_decode_key_items(data, n) is Some,
    ensures
        ({
            let d = spec_decode_key_items(data, n)->Some_0;
            &&& d.0.len() == (if n <= 0 {
                0int
            } else {
                n
            })
            &&& (if n <= 0 {
                0int
            } else {
                n
            }) <= d.1 <= data.len()
        }),
    decreases n,
{
    if n > 0 {
        let (e, used) = spec_decode_key_entry(data)->Some_0;
        lemma_key_items_bounds(data.skip(used), n - 1);
    }
}

proof fn lemma_axis_items_bounds(data: Seq<u64>, n: int)
    requires
        spec_decode_axis_items(data, n) is Some,
    ensures
        ({
            let d = spec_decode_axis_items(data, n)->Some_0;
            &&& d.0.len() == (if n <= 0 {
                0int
            } else {
                n
            })
            &&& (if n <= 0 {
                0int
            } else {
                n
            }) <= d.1 <= data.len()
        }),
    decreases n,
{
    if n > 0 {
        let (e, used) = spec_decode_axis_entry(data)->Some_0;
        lemma_axis_items_bounds(data.skip(used), n - 1);
    }
}

proof fn lemma_round_trip_key_entry(e: ((usize, Button), Button), rest: Seq<u64>)
    ensures
        spec_decode_key_entry(spec_encode_key_entry(e) + rest) == Some((e, 5int)),
{
    lemma_button_conversion_inverse(e.0.1);
    lemma_button_conversion_inverse(e.1);
    let data = spec_encode_key_entry(e) + rest;
    assert(data[0] == e.0.0 as u64);
    assert(data[1] == spec_encode_button(e.0.1)[0]);
    assert(data[2] == spec_encode_button(e.0.1)[1]);
    assert(data[3] == spec_encode_button(e.1)[0]);
    assert(data[4] == spec_encode_button(e.1)[1]);
    assert(spec_button_from_pair(spec_encode_button(e.0.1)[0], spec_encode_button(e.0.1)[1])
        == Some(e.0.1));
    assert(spec_button_from_pair(spec_encode_button(e.1)[0], spec_encode_button(e.1)[1]) == Some(
        e.1,
    ));
}

proof fn lemma_round_trip_axis_entry(e: ((usize, Axis), Axis), rest: Seq<u64>)
    ensures
        spec_decode_axis_entry(spec_encode_axis_entry(e) + rest) == Some((e, 5int)),
{
    lemma_axis_conversion_inverse(e.0.1);
    lemma_axis_conversion_inverse(e.1);
    let data = spec_encode_axis_entry(e) + rest;
    assert(data[0] == e.0.0 as u64);
    assert(data[1] == spec_encode_axis(e.0.1)[0]);
    assert(data[2] == spec_encode_axis(e.0.1)[1]);
    assert(data[3] == spec_encode_axis(e.1)[0]);
    assert(data[4] == spec_encode_axis(e.1)[1]);
    assert(spec_axis_from_pair(spec_encode_axis(e.0.1)[0], spec_encode_axis(e.0.1)[1]) == Some(
        e.0.1,
    ));
    assert(spec_axis_from_pair(spec_encode_axis(e.1)[0], spec_encode_axis(e.1)[1]) == Some(e.1));
}

proof fn lemma_round_trip_key_items(es: Seq<((usize, Button), Button)>, rest: Seq<u64>)
    ensures
        spec_decode_key_items(spec_encode_key_items(es) + rest, es.len() as int) == Some(
            (es, spec_encode_key_items(es).len() as int),
        ),
    decreases es.len(),
{
    if es.len() == 0 {
        assert(spec_encode_key_items(es) + rest =~= rest);
        assert(Seq::<((usize, Button), Button)>::empty() =~= es);
    } else {
        let enc0 = spec_encode_key_entry(es[0]);
        let items_rest = spec_encode_key_items(es.drop_first());
        let data = spec_encode_key_items(es) + rest;
        assert(data =~= enc0 + (items_rest + rest));
        lemma_round_trip_key_entry(es[0], items_rest + rest);
        assert(enc0.len() == 5);
        assert(data.skip(5) =~= items_rest + rest);
        lemma_round_trip_key_items(es.drop_first(), rest);
        assert(seq![es[0]] + es.drop_first() =~= es);
    }
}

proof fn lemma_round_trip_axis_items(es: Seq<((usize, Axis), Axis)>, rest: Seq<u64>)
    ensures
        spec_decode_axis_items(spec_encode_axis_items(es) + rest, es.len() as int) == Some(
            (es, spec_encode_axis_items(es).len() as int),
        ),
    decreases es.len(),
{
    if es.len() == 0 {
        assert(spec_encode_axis_items(es) + rest =~= rest);
        assert(Seq::<((usize, Axis), Axis)>::empty() =~= es);
    } else {
        let enc0 = spec_encode_axis_entry(es[0]);
        let items_rest = spec_encode_axis_items(es.drop_first());
        let data = spec_encode_axis_items(es) + rest;
        assert(data =~= enc0 + (items_rest + rest));
        lemma_round_trip_axis_entry(es[0], items_rest + rest);
        assert(enc0.len() == 5);
        assert(data.skip(5) =~= items_rest + rest);
        lemma_round_trip_axis_items(es.drop_first(), rest);
        assert(seq![es[0]] + es.drop_first() =~= es);
    }
}

proof fn lemma_round_trip_key_list(es: Seq<((usize, Button), Button)>, rest: Seq<u64>)
    requires
        es.len() <= u64::MAX,
    ensures
        spec_decode_key_list(spec_encode_key_list(es) + rest) == Some(
            (es, spec_encode_key_list(es).len() as int),
        ),
{
    let data = spec_encode_key_list(es) + rest;
    assert(data[0] == es.len() as u64);
    assert(data.skip(1) =~= spec_encode_key_items(es) + rest);
    lemma_round_trip_key_items(es, rest);
}

proof fn lemma_round_trip_axis_list(es: Seq<((usize, Axis), Axis)>, rest: Seq<u64>)
    requires
        es.len() <= u64::MAX,
    ensures
        spec_decode_axis_list(spec_encode_axis_list(es) + rest) == Some(
            (es, spec_encode_axis_list(es).len() as int),
        ),
{
    let data = spec_encode_axis_list(es) + rest;
    assert(data[0] == es.len() as u64);
    assert(data.skip(1) =~= spec_encode_axis_items(es) + rest);
    lemma_round_trip_axis_items(es, rest);
}

/// The structural content of an output topology: the name of the combined
/// virtual device, or the names of the passthrough virtual devices.
pub enum OutputModel {
    Combined(Seq<char>),
    Passthrough(Seq<Seq<char>>),
}

/// The structural content of an output topology value.
pub open spec fn spec_output_model(o: OutputType) -> OutputModel {
    match o {
        OutputType::Combined(name) => OutputModel::Combined(name@),
        OutputType::Passthrough(names) => OutputModel::Passthrough(
            names@.map_values(|s: String| s@),
        ),
    }
}

/// The structural content of a descriptor: everything its encoding carries
/// and its decoding restores.
pub struct DescriptorModel {
    pub inputs: Seq<Seq<char>>,
    pub output: OutputModel,
    pub key_entries: Seq<((usize, Button), Button)>,
    pub axis_entries: Seq<((usize, Axis), Axis)>,
}

impl VJoyDescriptor {
    /// The structural content of this descriptor.
    pub open spec fn model(self) -> DescriptorModel {
        DescriptorModel {
            inputs: self.input_devices@.map_values(|s: String| s@),
            output: spec_output_model(self.output_device),
            key_entries: self.key_mappings.entries_view(),
            axis_entries: self.axis_mappings.entries_view(),
        }
    }
}

/// Every count and string length of the descriptor fits in one token. Every
/// descriptor an executable program can hold satisfies this; it bounds the
/// unbounded mathematical model.
pub open spec fn spec_model_bounded(m: DescriptorModel) -> bool {
    &&& m.inputs.len() <= u64::MAX
    &&& (forall|i: int| 0 <= i < m.inputs.len() ==> spec_str_bounded(#[trigger] m.inputs[i]))
    &&& (match m.output {
        OutputModel::Combined(name) => spec_str_bounded(name),
        OutputModel::Passthrough(names) => names.len() <= u64::MAX && (forall|i: int|
            0 <= i < names.len() ==> spec_str_bounded(#[trigger] names[i])),
    })
    &&& m.key_entries.len() <= u64::MAX
    &&& m.axis_entries.len() <= u64::MAX
}

/// The token form of an output topology: a tag, then its name or names.
pub open spec fn spec_encode_output(o: OutputModel) -> Seq<u64> {
    match o {
        OutputModel::Combined(name) => seq![0u64] + spec_encode_str(name),
        OutputModel::Passthrough(names) => seq![1u64] + spec_encode_str_list(names),
    }
}

/// Read an output topology from the front of a token stream.
pub open spec fn spec_decode_output(data: Seq<u64>) -> Option<(OutputModel, int)> {
    if data.len() < 1 {
        None
    } else if data[0] == 0 {
        match spec_decode_str(data.skip(1)) {
            Some((s, u)) => Some((OutputModel::Combined(s), 1 + u)),
            None => None,
        }
    } else if data[0] == 1 {
        match spec_decode_str_list(data.skip(1)) {
            Some((vs, u)) => Some((OutputModel::Passthrough(vs), 1 + u)),
            None => None,
        }
    } else {
        None
    }
}

proof fn lemma_round_trip_output(o: OutputModel, rest: Seq<u64>)
    requires
        match o {
            OutputModel::Combined(name) => spec_str_bounded(name),
            OutputModel::Passthrough(names) => names.len() <= u64::MAX && (forall|i: int|
                0 <= i < names.len() ==> spec_str_bounded(#[trigger] names[i])),
        },
    ensures
        spec_decode_output(spec_encode_output(o) + rest) == Some(
            (o, spec_encode_output(o).len() as int),
        ),
{
    let data = spec_encode_output(o) + rest;
    match o {
        OutputModel::Combined(name) => {
            assert(data[0] == 0);
            assert(data.skip(1) =~= spec_encode_str(name) + rest);
            lemma_round_trip_str(name, rest);
        },
        OutputModel::Passthrough(names) => {
            assert(data[0] == 1);
            assert(data.skip(1) =~= spec_encode_str_list(names) + rest);
            lemma_round_trip_str_list(names, rest);
        },
    }
}

/// The token form of a whole descriptor: input names, output topology, button
/// map, axis map.
pub open spec fn spec_encode_descriptor(m: DescriptorModel) -> Seq<u64> {
    spec_encode_str_list(m.inputs) + spec_encode_output(m.output) + spec_encode_key_list(
        m.key_entries,
    ) + spec_encode_axis_list(m.axis_entries)
}

/// Read a whole descriptor from a token stream: its four parts in order,
/// consuming the stream exactly, with pairwise-distinct keys in both maps.
pub open spec fn spec_decode_descriptor(data: Seq<u64>) -> Option<DescriptorModel> {
    match spec_decode_str_list(data) {
        None => None,
        Some((inputs, u1)) => match spec_decode_output(data.skip(u1)) {
            None => None,
            Some((output, u2)) => match spec_decode_key_list(data.skip(u1 + u2)) {
                None => None,
                Some((keys, u3)) => match spec_decode_axis_list(data.skip(u1 + u2 + u3)) {
                    None => None,
                    Some((axes, u4)) => {
                        if u1 + u2 + u3 + u4 == data.len() && entries_unique(keys)
                            && entries_unique(axes) {
                            Some(
                                DescriptorModel {
                                    inputs,
                                    output,
                                    key_entries: keys,
                                    axis_entries: axes,
                                },
                            )
                        } else {
                            None
                        }
                    },
                },
            },
        },
    }
}

/// Encoding a well-formed descriptor and decoding the tokens yields exactly
/// its structural content: the same input names in the same order, the same
/// output topology, and the same map entries.
pub proof fn lemma_descriptor_round_trip(d: VJoyDescriptor)
    requires
        d.wf(),
        spec_model_bounded(d.model()),
    ensures
        spec_decode_descriptor(spec_encode_descriptor(d.model())) == Some(d.model()),
{
    let m = d.model();
    let e1 = spec_encode_str_list(m.inputs);
    let e2 = spec_encode_output(m.output);
    let e3 = spec_encode_key_list(m.key_entries);
    let e4 = spec_encode_axis_list(m.axis_entries);
    let data = spec_encode_descriptor(m);
    assert(data =~= e1 + (e2 + e3 + e4));
    lemma_round_trip_str_list(m.inputs, e2 + e3 + e4);
    assert(data.skip(e1.len() as int) =~= e2 + (e3 + e4));
    lemma_round_trip_output(m.output, e3 + e4);
    assert(data.skip(e1.len() as int + e2.len() as int) =~= e3 + e4);
    lemma_round_trip_key_list(m.key_entries, e4);
    assert(data.skip(e1.len() as int + e2.len() as int + e3.len() as int) =~= e4
        + Seq::<u64>::empty());
    lemma_round_trip_axis_list(m.axis_entries, Seq::empty());
}

/// The tag and payload tokens of one button.
fn button_pair(b: Button) -> (r: (u64, u64))
    ensures
        spec_encode_button(b).len() == 2,
        r.0 == spec_encode_button(b)[0],
        r.1 == spec_encode_button(b)[1],
{
    match b {
        Button::Stub => (2, 0),
        Button::Unknown(c) => (1, c as u64),
        other => {
            let raw = match other.to_raw() {
                Ok(c) => c,
                Err(_) => 0,
            };
            (0, raw as u64)
        },
    }
}

/// The button a tag and payload token stand for, if any.
fn button_from_pair(tag: u64, payload: u64) -> (r: Option<Button>)
    ensures
        r == spec_button_from_pair(tag, payload),
{
    if tag == 0 && payload <= 65535 {
        Some(Button::from_raw(payload as u16))
    } else if tag == 1 && payload <= 65535 {
        Some(Button::Unknown(payload as u16))
    } else if tag == 2 {
        Some(Button::Stub)
    } else {
        None
    }
}

/// The tag and payload tokens of one axis.
fn axis_pair(a: Axis) -> (r: (u64, u64))
    ensures
        spec_encode_axis(a).len() == 2,
        r.0 == spec_encode_axis(a)[0],
        r.1 == spec_encode_axis(a)[1],
{
    match a {
        Axis::Stub => (2, 0),
        other => {
            let raw = match other.to_raw() {
                Ok(c) => c,
                Err(_) => 0,
            };
            (0, raw as u64)
        },
    }
}

/// The axis a tag and payload token stand for, if any.
fn axis_from_pair(tag: u64, payload: u64) -> (r: Option<Axis>)
    ensures
        r == spec_axis_from_pair(tag, payload),
{
    if tag == 0 && payload <= 65535 {
        Axis::from_raw(payload as u16)
    } else if tag == 2 {
        Some(Axis::Stub)
    } else {
        None
    }
}

/// Append the token form of the button map.
fn encode_key_map_into(out: &mut Vec<u64>, map: &ButtonMap)
    ensures
        final(out)@ == old(out)@ + spec_encode_key_list(map.entries_view()),
        map.entries_view().len() <= u64::MAX,
{
    let ghost out0 = out@;
    let n = map.len();
    out.push(n as u64);
    let mut i: usize = 0;
    while i < n
        invariant
            n == map.entries_view().len(),
            i <= n,
            out@ == out0 + seq![n as u64] + spec_encode_key_items(
                map.entries_view().take(i as int),
            ),
        decreases n - i,
    {
        let ghost prev = out@;
        let entry = map.entry_at(i);
        out.push(entry.0.0 as u64);
        let sp = button_pair(entry.0.1);
        out.push(sp.0);
        out.push(sp.1);
        let dp = button_pair(entry.1);
        out.push(dp.0);
        out.push(dp.1);
        proof {
            assert(map.entries_view().take(i as int + 1) =~= map.entries_view().take(
                i as int,
            ).push(map.entries_view()[i as int]));
            lemma_key_items_snoc(map.entries_view().take(i as int), map.entries_view()[i as int]);
            assert(out@ =~= prev + spec_encode_key_entry(entry));
        }
        i = i + 1;
    }
    proof {
        assert(map.entries_view().take(n as int) =~= map.entries_view());
        assert(out@ =~= out0 + spec_encode_key_list(map.entries_view()));
    }
}

/// Append the token form of the axis map.
fn encode_axis_map_into(out: &mut Vec<u64>, map: &AxisMap)
    ensures
        final(out)@ == old(out)@ + spec_encode_axis_list(map.entries_view()),
        map.entries_view().len() <= u64::MAX,
{
    let ghost out0 = out@;
    let n = map.len();
    out.push(n as u64);
    let mut i: usize = 0;
    while i < n
        invariant
            n == map.entries_view().len(),
            i <= n,
            out@ == out0 + seq![n as u64] + spec_encode_axis_items(
                map.entries_view().take(i as int),
            ),
        decreases n - i,
    {
        let ghost prev = out@;
        let entry = map.entry_at(i);
        out.push(entry.0.0 as u64);
        let sp = axis_pair(entry.0.1);
        out.push(sp.0);
        out.push(sp.1);
        let dp = axis_pair(entry.1);
        out.push(dp.0);
        out.push(dp.1);
        proof {
            assert(map.entries_view().take(i as int + 1) =~= map.entries_view().take(
                i as int,
            ).push(map.entries_view()[i as int]));
            lemma_axis_items_snoc(map.entries_view().take(i as int), map.entries_view()[i as int]);
            assert(out@ =~= prev + spec_encode_axis_entry(entry));
        }
        i = i + 1;
    }
    proof {
        assert(map.entries_view().take(n as int) =~= map.entries_view());
        assert(out@ =~= out0 + spec_encode_axis_list(map.entries_view()));
    }
}

/// Write a descriptor to its token form.
pub fn encode_descriptor(d: &VJoyDescriptor) -> (out: Vec<u64>)
    ensures
        out@ == spec_encode_descriptor(d.model()),
        spec_model_bounded(d.model()),
{
    let mut out: Vec<u64> = Vec::new();
    encode_str_vec_into(&mut out, &d.input_devices);
    proof {
        assert(out@ =~= Seq::<u64>::empty() + spec_encode_str_list(d.model().inputs));
    }
    let ghost after_inputs = out@;
    match &d.output_device {
        OutputType::Combined(name) => {
            out.push(0);
            encode_str_into(&mut out, name);
            proof {
                assert(out@ =~= after_inputs + spec_encode_output(d.model().output));
            }
        },
        OutputType::Passthrough(names) => {
            out.push(1);
            encode_str_vec_into(&mut out, names);
            proof {
                assert(out@ =~= after_inputs + spec_encode_output(d.model().output));
            }
        },
    }
    encode_key_map_into(&mut out, &d.key_mappings);
    encode_axis_map_into(&mut out, &d.axis_mappings);
    proof {
        assert(out@ =~= spec_encode_descriptor(d.model()));
    }
    out
}

/// Read an output topology from position `pos` of the token stream.
fn decode_output(data: &Vec<u64>, pos: usize) -> (r: Option<(OutputType, usize)>)
    requires
        pos <= data@.len(),
    ensures
        ({
            let d = spec_decode_output(data@.skip(pos as int));
            match r {
                Some(v) => d is Some && spec_output_model(v.0) == d->Some_0.0 && v.1 == pos
                    + d->Some_0.1 && pos < v.1 <= data@.len(),
                None => d is None,
            }
        }),
{
    if pos >= data.len() {
        return None;
    }
    let tag = data[pos];
    proof {
        assert(data@.skip(pos as int)[0] == data@[pos as int]);
        assert(data@.skip(pos as int).skip(1) =~= data@.skip(pos as int + 1));
    }
    if tag == 0 {
        match decode_str(data, pos + 1) {
            Some(sp) => Some((OutputType::Combined(sp.0), sp.1)),
            None => None,
        }
    } else if tag == 1 {
        match decode_str_vec(data, pos + 1) {
            Some(vp) => Some((OutputType::Passthrough(vp.0), vp.1)),
            None => None,
        }
    } else {
        None
    }
}

/// Read a counted button map from position `pos` of the token stream,
/// rejecting a stream whose entries repeat a key.
fn decode_key_map(data: &Vec<u64>, pos: usize) -> (r: Option<(ButtonMap, usize)>)
    requires
        pos <= data@.len(),
    ensures
        ({
            let d = spec_decode_key_list(data@.skip(pos as int));
            match r {
                Some(v) => d is Some && v.0.entries_view() == d->Some_0.0 && v.0.wf() && v.1 == pos
                    + d->Some_0.1 && pos < v.1 <= data@.len(),
                None => d is None || !entries_unique(d->Some_0.0),
            }
        }),
{
    let ghost tail = data@.skip(pos as int);
    if pos >= data.len() {
        return None;
    }
    let count64 = data[pos];
    let remaining = data.len() - pos - 1;
    proof {
        assert(tail[0] == data@[pos as int]);
        assert(tail.skip(1) =~= data@.skip(pos as int + 1));
    }
    if count64 > remaining as u64 {
        proof {
            if spec_decode_key_items(tail.skip(1), count64 as int) is Some {
                lemma_key_items_bounds(tail.skip(1), count64 as int);
            }
        }
        return None;
    }
    let count = count64 as usize;
    let mut map = ButtonMap::new();
    let mut cur: usize = pos + 1;
    let mut i: usize = 0;
    while i < count
        invariant
            data@.len() <= usize::MAX,
            pos < data@.len(),
            pos + 1 <= cur <= data@.len(),
            i <= count,
            count <= data@.len(),
            tail == data@.skip(pos as int),
            tail[0] == count as u64,
            tail.skip(1) == data@.skip(pos as int + 1),
            map.wf(),
            spec_decode_key_items(data@.skip(pos as int + 1), count as int) == (match
                spec_decode_key_items(data@.skip(cur as int), count as int - i as int) {
                Some(p) => Some((map.entries_view() + p.0, (cur - pos - 1) as int + p.1)),
                None => None::<(Seq<((usize, Button), Button)>, int)>,
            }),
        decreases count - i,
    {
        let ghost etail = data@.skip(cur as int);
        if data.len() - cur < 5 {
            return None;
        }
        proof {
            assert(etail[0] == data@[cur as int]);
            assert(etail[1] == data@[cur as int + 1]);
            assert(etail[2] == data@[cur as int + 2]);
            assert(etail[3] == data@[cur as int + 3]);
            assert(etail[4] == data@[cur as int + 4]);
        }
        let t0 = data[cur];
        if t0 > usize::MAX as u64 {
            return None;
        }
        let index = t0 as usize;
        let src = match button_from_pair(data[cur + 1], data[cur + 2]) {
            Some(b) => b,
            None => {
                return None;
            },
        };
        let dst = match button_from_pair(data[cur + 3], data[cur + 4]) {
            Some(b) => b,
            None => {
                return None;
            },
        };
        let ghost entry = ((index, src), dst);
        let ghost entries0 = map.entries_view();
        proof {
            assert(spec_decode_key_entry(etail) == Some((entry, 5int)));
        }
        match map.get(index, src) {
            Some(_) => {
                proof {
                    lemma_seq_lookup_none_iff_absent(map.entries_view(), index, src);
                    let w = choose|w: int|
                        0 <= w < map.entries_view().len() && map.entries_view()[w].0.0 == index
                            && map.entries_view()[w].0.1 == src;
                    let full = spec_decode_key_items(data@.skip(pos as int + 1), count as int);
                    if full is Some {
                        let p = spec_decode_key_items(
                            data@.skip(cur as int),
                            count as int - i as int,
                        );
                        assert(p is Some);
                        let rest = spec_decode_key_items(
                            etail.skip(5),
                            count as int - i as int - 1,
                        );
                        assert(rest is Some);
                        assert(p->Some_0.0 == seq![entry] + rest->Some_0.0);
                        let val = full->Some_0.0;
                        assert(val == map.entries_view() + p->Some_0.0);
                        let mlen = map.entries_view().len() as int;
                        assert(val[w] == map.entries_view()[w]);
                        assert(val[mlen] == p->Some_0.0[0]);
                        assert(p->Some_0.0[0] == entry);
                        assert(val[w].0 == val[mlen].0);
                        assert(!entries_unique(val));
                    }
                }
                return None;
            },
            None => {
                map.insert(index, src, dst);
            },
        }
        proof {
            assert(etail.skip(5) =~= data@.skip(cur as int + 5));
            let rest = spec_decode_key_items(etail.skip(5), count as int - i as int - 1);
            if rest is Some {
                assert(entries0 + (seq![entry] + rest->Some_0.0) =~= map.entries_view()
                    + rest->Some_0.0);
            }
        }
        cur = cur + 5;
        i = i + 1;
    }
    proof {
        assert(spec_decode_key_items(data@.skip(cur as int), 0) == Some(
            (Seq::<((usize, Button), Button)>::empty(), 0int),
        ));
        assert(map.entries_view() + Seq::<((usize, Button), Button)>::empty()
            =~= map.entries_view());
    }
    Some((map, cur))
}

/// Read a counted axis map from position `pos` of the token stream, rejecting
/// a stream whose entries repeat a key.
fn decode_axis_map(data: &Vec<u64>, pos: usize) -> (r: Option<(AxisMap, usize)>)
    requires
        pos <= data@.len(),
    ensures
        ({
            let d = spec_decode_axis_list(data@.skip(pos as int));
            match r {
                Some(v) => d is Some && v.0.entries_view() == d->Some_0.0 && v.0.wf() && v.1 == pos
                    + d->Some_0.1 && pos < v.1 <= data@.len(),
                None => d is None || !entries_unique(d->Some_0.0),
            }
        }),
{
    let ghost tail = data@.skip(pos as int);
    if pos >= data.len() {
        return None;
    }
    let count64 = data[pos];
    let remaining = data.len() - pos - 1;
    proof {
        assert(tail[0] == data@[pos as int]);
        assert(tail.skip(1) =~= data@.skip(pos as int + 1));
    }
    if count64 > remaining as u64 {
        proof {
            if spec_decode_axis_items(tail.skip(1), count64 as int) is Some {
                lemma_axis_items_bounds(tail.skip(1), count64 as int);
            }
        }
        return None;
    }
    let count = count64 as usize;
    let mut map = AxisMap::new();
    let mut cur: usize = pos + 1;
    let mut i: usize = 0;
    while i < count
        invariant
            data@.len() <= usize::MAX,
            pos < data@.len(),
            pos + 1 <= cur <= data@.len(),
            i <= count,
            count <= data@.len(),
            tail == data@.skip(pos as int),
            tail[0] == count as u64,
            tail.skip(1) == data@.skip(pos as int + 1),
            map.wf(),
            spec_decode_axis_items(data@.skip(pos as int + 1), count as int) == (match
                spec_decode_axis_items(data@.skip(cur as int), count as int - i as int) {
                Some(p) => Some((map.entries_view() + p.0, (cur - pos - 1) as int + p.1)),
                None => None::<(Seq<((usize, Axis), Axis)>, int)>,
            }),
        decreases count - i,
    {
        let ghost etail = data@.skip(cur as int);
        if data.len() - cur < 5 {
            return None;
        }
        proof {
            assert(etail[0] == data@[cur as int]);
            assert(etail[1] == data@[cur as int + 1]);
            assert(etail[2] == data@[cur as int + 2]);
            assert(etail[3] == data@[cur as int + 3]);
            assert(etail[4] == data@[cur as int + 4]);
        }
        let t0 = data[cur];
        if t0 > usize::MAX as u64 {
            return None;
        }
        let index = t0 as usize;
        let src = match axis_from_pair(data[cur + 1], data[cur + 2]) {
            Some(a) => a,
            None => {
                return None;
            },
        };
        let dst = match axis_from_pair(data[cur + 3], data[cur + 4]) {
            Some(a) => a,
            None => {
                return None;
            },
        };
        let ghost entry = ((index, src), dst);
        let ghost entries0 = map.entries_view();
        proof {
            assert(spec_decode_axis_entry(etail) == Some((entry, 5int)));
        }
        match map.get(index, src) {
            Some(_) => {
                proof {
                    lemma_seq_lookup_none_iff_absent(map.entries_view(), index, src);
                    let w = choose|w: int|
                        0 <= w < map.entries_view().len() && map.entries_view()[w].0.0 == index
                            && map.entries_view()[w].0.1 == src;
                    let full = spec_decode_axis_items(data@.skip(pos as int + 1), count as int);
                    if full is Some {
                        let p = spec_decode_axis_items(
                            data@.skip(cur as int),
                            count as int - i as int,
                        );
                        assert(p is Some);
                        let rest = spec_decode_axis_items(
                            etail.skip(5),
                            count as int - i as int - 1,
                        );
                        assert(rest is Some);
                        assert(p->Some_0.0 == seq![entry] + rest->Some_0.0);
                        let val = full->Some_0.0;
                        assert(val == map.entries_view() + p->Some_0.0);
                        let mlen = map.entries_view().len() as int;
                        assert(val[w] == map.entries_view()[w]);
                        assert(val[mlen] == p->Some_0.0[0]);
                        assert(p->Some_0.0[0] == entry);
                        assert(val[w].0 == val[mlen].0);
                        assert(!entries_unique(val));
                    }
                }
                return None;
            },
            None => {
                map.insert(index, src, dst);
            },
        }
        proof {
            assert(etail.skip(5) =~= data@.skip(cur as int + 5));
            let rest = spec_decode_axis_items(etail.skip(5), count as int - i as int - 1);
            if rest is Some {
                assert(entries0 + (seq![entry] + rest->Some_0.0) =~= map.entries_view()
                    + rest->Some_0.0);
            }
        }
        cur = cur + 5;
        i = i + 1;
    }
    proof {
        assert(spec_decode_axis_items(data@.skip(cur as int), 0) == Some(
            (Seq::<((usize, Axis), Axis)>::empty(), 0int),
        ));
        assert(map.entries_view() + Seq::<((usize, Axis), Axis)>::empty() =~= map.entries_view());
    }
    Some((map, cur))
}

/// Read a descriptor back from its token form: its four parts in order,
/// consuming the stream exactly. Malformed streams, trailing tokens and
/// repeated map keys are rejected.
pub fn decode_descriptor(data: &Vec<u64>) -> (r: Option<VJoyDescriptor>)
    ensures
        r is Some <==> spec_decode_descriptor(data@) is Some,
        r is Some ==> r->Some_0.model() == spec_decode_descriptor(data@)->Some_0,
        r is Some ==> r->Some_0.wf(),
{
    proof {
        assert(data@.skip(0) =~= data@);
    }
    let ip = match decode_str_vec(data, 0) {
        Some(v) => v,
        None => {
            return None;
        },
    };
    let op = match decode_output(data, ip.1) {
        Some(v) => v,
        None => {
            return None;
        },
    };
    let kp = match decode_key_map(data, op.1) {
        Some(v) => v,
        None => {
            return None;
        },
    };
    let ap = match decode_axis_map(data, kp.1) {
        Some(v) => v,
        None => {
            return None;
        },
    };
    if ap.1 != data.len() {
        return None;
    }
    Some(
        VJoyDescriptor {
            input_devices: ip.0,
            output_device: op.0,
            key_mappings: kp.0,
            axis_mappings: ap.0,
        },
    )
}

} // verus!
