//! Maps: a struct of two pointers, the first to the array of the keys and
//! the second to the array of the values; the two arrays are as long as each
//! other, and a key and its value stand at the same index.

use crate::array::{
    array_bytes, array_claim_and_decode_header, array_compute_size, array_encodable, array_header,
    array_serialized_size, decode_elements, elements_canonical, elements_handles, elements_size,
    lemma_array_encode, lemma_array_region, lemma_elements_size, spec_claim_array,
    spec_decode_elements, spec_encode_array,
};
use crate::bits::{align_default, align_up, lemma_align_up, Bits, MAP_SIZE};
use crate::cursor::{lemma_put_skip, Cursor};
use crate::decoding::{
    known_version, spec_decode_pointer, stated_size, stated_word, Decoder, DecoderView,
    ValidationError,
};
use crate::encoding::{
    fresh_region, spec_pointer, Context, DataHeader, DataHeaderValue, Encoder, EncoderView,
    EncodingState,
};
use crate::laws::{
    decoder_wf, encoder_wf, lemma_claim_region, lemma_fresh_region, lemma_pointer_read,
    lemma_same_below_chain, lemma_same_below_earlier, lemma_same_header, lemma_take_chain,
    same_below, value_read_back, value_reads_back, MojomLaws,
};
use crate::mojom::{
    claim_context, decode_frame, decode_kept, decode_step, encode_ready, encode_step,
    lemma_decode_behind_pointer, Decoded, MojomEncodable, MojomPointer, MojomType, MojomValue,
};
use crate::numeric::MojomNumeric;
use crate::system::UntypedHandle;
use std::collections::HashMap;
use std::hash::Hash;
use vstd::prelude::*;
use vstd::std_specs::hash::obeys_key_model;
use vstd::std_specs::iter::IteratorSpec;

verus! {

/// The versions of the struct that a map is: version 0, of 24 bytes.
pub open spec fn map_versions() -> Seq<(u32, u32)> {
    seq![(0u32, 24u32)]
}

/// Whether keys and values can be written as a map: they are as many as each
/// other, and both can be written as arrays.
pub open spec fn entries_encodable<K: MojomEncodable, V: MojomEncodable>(
    keys: Seq<K>,
    vals: Seq<V>,
) -> bool {
    &&& keys.len() == vals.len()
    &&& array_encodable(keys)
    &&& array_encodable(vals)
}

/// The bytes that a map of these keys and values takes in the message: its
/// own region, then the array of the keys with what the keys have in regions
/// of their own, then the same of the values.
pub open spec fn entries_size<K: MojomEncodable, V: MojomEncodable>(
    keys: Seq<K>,
    vals: Seq<V>,
) -> nat {
    24 + array_compute_size(keys) + array_compute_size(vals)
}

/// The handles that the keys and the values own, in the order in which they
/// are written: those of the keys first.
pub open spec fn entries_handles<K: MojomEncodable, V: MojomEncodable>(
    keys: Seq<K>,
    vals: Seq<V>,
) -> Seq<UntypedHandle> {
    elements_handles(keys, keys.len()) + elements_handles(vals, vals.len())
}

/// The encoder and the region of a map after its keys and values were
/// written: the array of the keys by pointer, then the array of the values by
/// pointer.
pub open spec fn spec_encode_entries<K: MojomEncodable, V: MojomEncodable>(
    keys: Seq<K>,
    vals: Seq<V>,
    encoder: EncoderView,
    state: Cursor,
) -> (EncoderView, Cursor) {
    let with_keys = spec_encode_array(keys, encoder, state);
    spec_encode_array(vals, with_keys.0, with_keys.1)
}

/// Fills the region of a map: writes the keys as an array by pointer, then
/// the values. Both arrays state the same number of elements.
pub fn encode_entries<K: MojomEncodable, V: MojomEncodable>(
    keys: Vec<K>,
    vals: Vec<V>,
    encoder: &mut Encoder,
    state: &mut EncodingState,
    context: Context,
)
    requires
        entries_encodable(keys@, vals@),
        old(encoder).wf(),
        old(state).wf(),
        old(state)@.pos == 64,
        old(state)@.data.len() == 24,
        old(state)@.base + old(state)@.data.len() <= old(encoder)@.end,
        old(encoder)@.end + array_compute_size(keys@) + array_compute_size(vals@) <= old(
            encoder,
        )@.buffer.len(),
        old(encoder)@.handles.len() + entries_handles(keys@, vals@).len() <= u32::MAX,
    ensures
        final(encoder).wf(),
        final(state).wf(),
        final(state)@.base == old(state)@.base,
        final(state)@.data.len() == old(state)@.data.len(),
        final(encoder)@.buffer.len() == old(encoder)@.buffer.len(),
        final(encoder)@.end == old(encoder)@.end + array_compute_size(keys@) + array_compute_size(
            vals@,
        ),
        final(encoder)@.handles.len() == old(encoder)@.handles.len() + entries_handles(
            keys@,
            vals@,
        ).len(),
        elements_canonical(keys@) && elements_canonical(vals@) ==> (
            final(encoder)@,
            final(state)@,
        ) == spec_encode_entries(keys@, vals@, old(encoder)@, old(state)@),
        elements_canonical(keys@) && elements_canonical(vals@) ==> final(encoder)@.handles == old(
            encoder,
        )@.handles + entries_handles(keys@, vals@),
{
    proof {
        crate::bits::lemma_align_up_fixed(64, 64);
        crate::bits::lemma_align_up_fixed(128, 64);
    }
    keys.encode(encoder, state, context);
    vals.encode(encoder, state, context);
}

/// The keys and the values of the map that the region of `context` holds.
/// The struct header must be that of a map; both pointers must lead
/// somewhere; the keys are read before the region of the values is claimed;
/// and the two arrays must count the same number of elements.
pub open spec fn spec_decode_entries<K: MojomEncodable, V: MojomEncodable>(
    decoder: DecoderView,
    context: Context,
) -> Decoded<(Seq<K::V>, Seq<V::V>)> {
    let state = decoder.state(context);
    let first = Cursor { pos: 64, ..state };
    let second = first.skip(8, 8);
    let behind = decoder.with_state(context.id as int, second.skip(8, 8));
    if !known_version(map_versions(), stated_word(state.data), stated_size(state.data)) {
        Decoded::Invalid(ValidationError::UnexpectedStructHeader)
    } else {
        match (
            spec_decode_pointer(first, decoder.buffer.len()),
            spec_decode_pointer(second, decoder.buffer.len()),
        ) {
            (Err(e), _) => Decoded::Invalid(e),
            (Ok(_), Err(e)) => Decoded::Invalid(e),
            (Ok(None), Ok(_)) => Decoded::Invalid(ValidationError::UnexpectedNullPointer),
            (Ok(Some(_)), Ok(None)) => Decoded::Invalid(ValidationError::UnexpectedNullPointer),
            (Ok(Some(keys_at)), Ok(Some(vals_at))) => match spec_claim_array::<K>(
                behind,
                keys_at as nat,
            ) {
                Decoded::Invalid(e) => Decoded::Invalid(e),
                Decoded::Undefined => Decoded::Undefined,
                Decoded::Value(at_keys, keys_count) => match spec_decode_elements::<K>(
                    at_keys,
                    claim_context(behind, keys_at as nat),
                    keys_count,
                ) {
                    Decoded::Invalid(e) => Decoded::Invalid(e),
                    Decoded::Undefined => Decoded::Undefined,
                    Decoded::Value(behind_keys, keys) => match spec_claim_array::<V>(
                        behind_keys,
                        vals_at as nat,
                    ) {
                        Decoded::Invalid(e) => Decoded::Invalid(e),
                        Decoded::Undefined => Decoded::Undefined,
                        Decoded::Value(at_vals, vals_count) => if keys_count != vals_count {
                            Decoded::Invalid(ValidationError::DifferentSizedArraysInMap)
                        } else {
                            match spec_decode_elements::<V>(
                                at_vals,
                                claim_context(behind_keys, vals_at as nat),
                                vals_count,
                            ) {
                                Decoded::Invalid(e) => Decoded::Invalid(e),
                                Decoded::Undefined => Decoded::Undefined,
                                Decoded::Value(behind_vals, vals) => Decoded::Value(
                                    behind_vals,
                                    (keys, vals),
                                ),
                            }
                        },
                    },
                },
            },
        }
    }
}

/// Reads the keys and the values of the map of the region of `context`,
/// which was claimed and not read yet.
#[verifier::rlimit(40)]
pub fn decode_entries<K: MojomEncodable, V: MojomEncodable>(
    decoder: &mut Decoder,
    context: Context,
) -> (entries: Result<(Vec<K>, Vec<V>), ValidationError>)
    requires
        old(decoder).wf(),
        old(decoder)@.has(context),
        old(decoder)@.state(context).pos == 0,
        !(spec_decode_entries::<K, V>(old(decoder)@, context) is Undefined),
    ensures
        final(decoder).wf(),
        decode_kept(old(decoder)@, final(decoder)@),
        match entries {
            Ok((keys, vals)) => {
                &&& spec_decode_entries::<K, V>(old(decoder)@, context) == Decoded::Value(
                    final(decoder)@,
                    (keys.deep_view(), vals.deep_view()),
                )
                &&& decode_frame(old(decoder)@, final(decoder)@, context)
                &&& keys@.len() == vals@.len()
            },
            Err(e) => spec_decode_entries::<K, V>(old(decoder)@, context) == Decoded::<
                (Seq<K::V>, Seq<V::V>),
            >::Invalid(e),
        },
{
    let versions: [(u32, u32); 1] = [(0, 24)];
    assert(versions@ =~= map_versions());
    let limit = decoder.buffer.len();
    let (keys_offset, vals_offset) = {
        let state = decoder.get_mut(&context);
        match state.decode_struct_header(versions.as_slice()) {
            Ok(_) => (),
            Err(err) => {
                return Err(err);
            },
        };
        proof {
            0u64.lemma_wire_bytes();
            lemma_put_skip(state@, 8, 0u64.spec_wire_bytes());
            lemma_put_skip(state@.skip(8, 8), 8, 0u64.spec_wire_bytes());
        }
        let keys_offset = match state.decode_pointer() {
            Ok(ptr) => ptr,
            Err(err) => {
                return Err(err);
            },
        };
        let vals_offset = match state.decode_pointer() {
            Ok(ptr) => ptr,
            Err(err) => {
                return Err(err);
            },
        };
        match (keys_offset, vals_offset) {
            (Some(keys_at), Some(vals_at)) => (keys_at as usize, vals_at as usize),
            _ => {
                return Err(ValidationError::UnexpectedNullPointer);
            },
        }
    };
    let ghost behind = decoder@;
    let (keys_context, keys_elems) = match array_claim_and_decode_header::<K>(decoder, keys_offset) {
        Ok((context, elems)) => (context, elems),
        Err(err) => {
            return Err(err);
        },
    };
    let ghost at_keys = decoder@;
    let keys = match decode_elements::<K>(decoder, keys_context, keys_elems as u32) {
        Ok(keys) => keys,
        Err(err) => {
            return Err(err);
        },
    };
    let ghost behind_keys = decoder@;
    let (vals_context, vals_elems) = match array_claim_and_decode_header::<V>(decoder, vals_offset) {
        Ok((context, elems)) => (context, elems),
        Err(err) => {
            return Err(err);
        },
    };
    if keys_elems != vals_elems {
        return Err(ValidationError::DifferentSizedArraysInMap);
    }
    let ghost at_vals = decoder@;
    let vals = match decode_elements::<V>(decoder, vals_context, vals_elems as u32) {
        Ok(vals) => vals,
        Err(err) => {
            return Err(err);
        },
    };
    proof {
        assert forall|i: int|
            0 <= i < old(decoder)@.states.len() && i != context.id implies #[trigger] decoder@.states[i]
            == old(decoder)@.states[i] by {
            assert(at_vals.states[i] == behind_keys.states[i]);
            assert(behind_keys.states[i] == at_keys.states[i]);
            assert(at_keys.states[i] == behind.states[i]);
        }
        assert(decoder@.states[context.id as int] == at_vals.states[context.id as int]);
        assert(at_vals.states[context.id as int] == behind_keys.states[context.id as int]);
        assert(behind_keys.states[context.id as int] == at_keys.states[context.id as int]);
        assert(at_keys.states[context.id as int] == behind.states[context.id as int]);
    }
    Ok((keys, vals))
}

/// The sum of `f` over the elements of `s`.
pub open spec fn seq_sum<T>(s: Seq<T>, f: spec_fn(T) -> nat) -> nat {
    s.fold_left(0nat, |sum: nat, x: T| sum + f(x))
}

/// A sum does not depend on the order of its terms.
pub proof fn lemma_sum_permutation<T>(a: Seq<T>, b: Seq<T>, f: spec_fn(T) -> nat)
    requires
        a.to_multiset() == b.to_multiset(),
    ensures
        seq_sum(a, f) == seq_sum(b, f),
{
    let plus = |sum: nat, x: T| sum + f(x);
    assert(vstd::seq_lib::commutative_foldl(plus)) by {
        assert forall|x: T, y: T, v: nat| #[trigger] plus(plus(v, x), y) == plus(plus(v, y), x) by {
            assert(plus(plus(v, x), y) == v + f(x) + f(y));
            assert(plus(plus(v, y), x) == v + f(y) + f(x));
        }
    }
    vstd::seq_lib::lemma_fold_left_permutation(a, b, plus, 0nat);
}

/// Two sequences without duplicates that hold the same elements hold them
/// as often as each other.
pub proof fn lemma_same_elements<T>(a: Seq<T>, b: Seq<T>)
    requires
        a.no_duplicates(),
        b.no_duplicates(),
        forall|x: T| a.contains(x) <==> b.contains(x),
    ensures
        a.to_multiset() == b.to_multiset(),
{
    broadcast use vstd::seq_lib::group_to_multiset_ensures;

    a.lemma_multiset_has_no_duplicates();
    b.lemma_multiset_has_no_duplicates();
    assert forall|x: T| a.to_multiset().count(x) == b.to_multiset().count(x) by {
        if a.contains(x) {
            assert(a.to_multiset().contains(x));
            assert(b.to_multiset().contains(x));
        } else {
            assert(!b.contains(x));
            assert(a.to_multiset().count(x) == 0);
            assert(b.to_multiset().count(x) == 0);
        }
    }
    assert(a.to_multiset() =~= b.to_multiset());
}

/// The sum of `f` over the first `n` elements is the sum over the first
/// `n - 1` and `f` of the last of them.
pub proof fn lemma_sum_step<T>(s: Seq<T>, f: spec_fn(T) -> nat, n: nat)
    requires
        0 < n <= s.len(),
    ensures
        seq_sum(s.take(n as int), f) == seq_sum(s.take(n - 1), f) + f(s[n - 1]),
{
    assert(s.take(n as int).drop_last() =~= s.take(n - 1));
    assert(s.take(n as int).last() == s[n - 1]);
}

/// What the elements take in regions of their own is the sum of what each
/// takes.
pub proof fn lemma_elements_size_is_sum<T: MojomEncodable>(elems: Seq<T>, n: nat)
    requires
        n <= elems.len(),
    ensures
        elements_size(elems, n) == seq_sum(
            elems.take(n as int),
            |x: T| x.spec_compute_size(false),
        ),
    decreases n,
{
    if n > 0 {
        lemma_elements_size_is_sum(elems, (n - 1) as nat);
        lemma_sum_step(elems, |x: T| x.spec_compute_size(false), n);
    }
}

/// The number of the handles of the elements is the sum of the numbers of
/// the handles of each.
pub proof fn lemma_elements_handles_is_sum<T: MojomEncodable>(elems: Seq<T>, n: nat)
    requires
        n <= elems.len(),
    ensures
        elements_handles(elems, n).len() == seq_sum(
            elems.take(n as int),
            |x: T| x.spec_handles().len(),
        ),
    decreases n,
{
    if n > 0 {
        lemma_elements_handles_is_sum(elems, (n - 1) as nat);
        lemma_sum_step(elems, |x: T| x.spec_handles().len(), n);
    }
}

/// A sum over values is the sum over their keys of what the key leads to.
pub proof fn lemma_sum_through<K, V>(
    keys: Seq<K>,
    vals: Seq<V>,
    f: spec_fn(V) -> nat,
    g: spec_fn(K) -> nat,
    n: nat,
)
    requires
        n <= keys.len(),
        keys.len() == vals.len(),
        forall|i: int| 0 <= i < keys.len() ==> f(vals[i]) == g(#[trigger] keys[i]),
    ensures
        seq_sum(vals.take(n as int), f) == seq_sum(keys.take(n as int), g),
    decreases n,
{
    if n > 0 {
        lemma_sum_through(keys, vals, f, g, (n - 1) as nat);
        lemma_sum_step(keys, g, n);
        lemma_sum_step(vals, f, n);
    }
}

/// Whether `keys` and `vals` are the entries of `map`, each once, in some
/// order.
pub open spec fn enumerates<K, V>(map: Map<K, V>, keys: Seq<K>, vals: Seq<V>) -> bool {
    &&& keys.len() == vals.len()
    &&& keys.no_duplicates()
    &&& forall|k: K| map.contains_key(k) <==> keys.contains(k)
    &&& forall|i: int| 0 <= i < keys.len() ==> map[#[trigger] keys[i]] == vals[i]
}

/// The keys of `map`, each once, in an order that is chosen once and for
/// all.
pub open spec fn map_keys<K, V>(map: Map<K, V>) -> Seq<K> {
    choose|keys: Seq<K>| keys.no_duplicates() && (forall|k: K| map.contains_key(k) <==> keys.contains(k))
}

/// The values of `map`, in the order of `map_keys`.
pub open spec fn map_vals<K, V>(map: Map<K, V>) -> Seq<V> {
    map_keys(map).map_values(|k: K| map[k])
}

/// Whatever the order in which the entries of a map are listed, they are as
/// many, take as many bytes and own as many handles.
#[verifier::rlimit(40)]
pub proof fn lemma_enumeration<K: MojomEncodable, V: MojomEncodable>(
    map: Map<K, V>,
    keys: Seq<K>,
    vals: Seq<V>,
)
    requires
        enumerates(map, keys, vals),
    ensures
        enumerates(map, map_keys(map), map_vals(map)),
        map_keys(map).len() == keys.len(),
        entries_size(keys, vals) == entries_size(map_keys(map), map_vals(map)),
        entries_handles(keys, vals).len() == entries_handles(map_keys(map), map_vals(map)).len(),
{
    let chosen = map_keys(map);
    let values = map_vals(map);
    assert(chosen.no_duplicates() && (forall|k: K| map.contains_key(k) <==> chosen.contains(k)));
    assert forall|i: int| 0 <= i < chosen.len() implies map[#[trigger] chosen[i]] == values[i] by {}
    lemma_same_elements(keys, chosen);
    broadcast use vstd::seq_lib::group_to_multiset_ensures;

    assert(keys.len() == chosen.len()) by {
        assert(keys.to_multiset().len() == keys.len());
        assert(chosen.to_multiset().len() == chosen.len());
    }
    let n = keys.len();
    assert(keys.take(n as int) =~= keys);
    assert(vals.take(n as int) =~= vals);
    assert(chosen.take(n as int) =~= chosen);
    assert(values.take(n as int) =~= values);
    // the keys
    let key_size = |x: K| x.spec_compute_size(false);
    let key_handles = |x: K| x.spec_handles().len();
    lemma_elements_size_is_sum(keys, n);
    lemma_elements_size_is_sum(chosen, n);
    lemma_sum_permutation(keys, chosen, key_size);
    lemma_elements_handles_is_sum(keys, n);
    lemma_elements_handles_is_sum(chosen, n);
    lemma_sum_permutation(keys, chosen, key_handles);
    // the values, through their keys
    let val_size = |x: V| x.spec_compute_size(false);
    let val_handles = |x: V| x.spec_handles().len();
    let size_at = |k: K| map[k].spec_compute_size(false);
    let handles_at = |k: K| map[k].spec_handles().len();
    lemma_elements_size_is_sum(vals, n);
    lemma_elements_size_is_sum(values, n);
    lemma_sum_through(keys, vals, val_size, size_at, n);
    lemma_sum_through(chosen, values, val_size, size_at, n);
    lemma_sum_permutation(keys, chosen, size_at);
    lemma_elements_handles_is_sum(vals, n);
    lemma_elements_handles_is_sum(values, n);
    lemma_sum_through(keys, vals, val_handles, handles_at, n);
    lemma_sum_through(chosen, values, val_handles, handles_at, n);
    lemma_sum_permutation(keys, chosen, handles_at);
}

/// Whether a map can be written: its keys obey the model of hashing and
/// equality that makes a map of them, its entries are as many as an array
/// header can count and fit an array each, and every key and every value can
/// be written.
pub open spec fn map_encodable<K: MojomEncodable, V: MojomEncodable>(map: Map<K, V>) -> bool {
    &&& obeys_key_model::<K>()
    &&& map.dom().finite()
    &&& map.len() <= u32::MAX
    &&& array_bytes::<K>(map.len()) <= u32::MAX
    &&& array_bytes::<V>(map.len()) <= u32::MAX
    &&& forall|k: K| #[trigger]
        map.contains_key(k) ==> k.spec_encodable(false) && map[k].spec_encodable(false)
}

/// The entries of a map that can be written can be written in whatever
/// order they are listed.
pub proof fn lemma_enumeration_encodable<K: MojomEncodable, V: MojomEncodable>(
    map: Map<K, V>,
    keys: Seq<K>,
    vals: Seq<V>,
)
    requires
        map_encodable(map),
        enumerates(map, keys, vals),
    ensures
        keys.len() == map.len(),
        entries_encodable(keys, vals),
{
    keys.unique_seq_to_set();
    assert(keys.to_set() =~= map.dom());
    assert forall|i: int| 0 <= i < keys.len() implies (#[trigger] keys[i]).spec_encodable(false) by {
        assert(keys.contains(keys[i]));
    }
    assert forall|i: int| 0 <= i < vals.len() implies (#[trigger] vals[i]).spec_encodable(false) by {
        assert(keys.contains(keys[i]));
        assert(map[keys[i]] == vals[i]);
    }
}

/// Moves the entries out of a map, each once, in an order that is left
/// open. This is `Vec::from_iter` of std on a `HashMap`, which collects what
/// the consuming iterator of the map yields: each key-value pair of the map,
/// in arbitrary order.
#[verifier::external_body]
fn map_into_entries<K: Eq + Hash, V>(map: HashMap<K, V>) -> (entries: Vec<(K, V)>)
    ensures
        obeys_key_model::<K>() ==> enumerates(
            map@,
            entries@.map_values(|e: (K, V)| e.0),
            entries@.map_values(|e: (K, V)| e.1),
        ),
{
    Vec::from_iter(map)
}

/// Parts the entries of a map into the keys and the values, in their order.
pub fn split_entries<K, V>(entries: Vec<(K, V)>) -> (parts: (Vec<K>, Vec<V>))
    ensures
        parts.0@ == entries@.map_values(|e: (K, V)| e.0),
        parts.1@ == entries@.map_values(|e: (K, V)| e.1),
{
    let ghost all = entries@;
    let mut keys: Vec<K> = Vec::new();
    let mut vals: Vec<V> = Vec::new();
    for entry in it: entries.into_iter()
        invariant
            it.seq() == all,
            keys@ == all.take(it.index() as int).map_values(|e: (K, V)| e.0),
            vals@ == all.take(it.index() as int).map_values(|e: (K, V)| e.1),
    {
        let (key, value) = entry;
        keys.push(key);
        vals.push(value);
        assert(keys@ =~= all.take(it.index() + 1).map_values(|e: (K, V)| e.0));
        assert(vals@ =~= all.take(it.index() + 1).map_values(|e: (K, V)| e.1));
    }
    assert(all.take(all.len() as int) =~= all);
    (keys, vals)
}

/// The map that holds each of the first `n` keys with the value at its
/// index; of two equal keys the later one decides.
pub open spec fn spec_map_from<K, V>(keys: Seq<K>, vals: Seq<V>, n: nat) -> Map<K, V>
    decreases n,
{
    if n == 0 {
        Map::empty()
    } else {
        spec_map_from(keys, vals, (n - 1) as nat).insert(keys[n - 1], vals[n - 1])
    }
}

/// Makes a map of keys and values that stand at the same index; of two equal
/// keys the later one decides.
pub fn map_from_entries<K: Eq + Hash, V>(keys: Vec<K>, vals: Vec<V>) -> (map: HashMap<K, V>)
    requires
        keys@.len() == vals@.len(),
    ensures
        obeys_key_model::<K>() ==> map@ == spec_map_from(keys@, vals@, keys@.len()),
{
    broadcast use vstd::std_specs::hash::group_hash_axioms;

    let ghost all_keys = keys@;
    let ghost all_vals = vals@;
    let ghost n = all_keys.len();
    // The values are taken from the end of a vector: turn them round first.
    let mut vals = vals;
    let mut rest: Vec<V> = Vec::new();
    while vals.len() > 0
        invariant
            vals@.len() + rest@.len() == n,
            n == all_vals.len(),
            vals@ == all_vals.take(vals@.len() as int),
            forall|j: int| 0 <= j < rest@.len() ==> rest@[j] == all_vals[n - 1 - j],
        decreases vals@.len(),
    {
        let value = vals.pop().unwrap();
        rest.push(value);
        assert(vals@ =~= all_vals.take(vals@.len() as int));
    }
    let mut map: HashMap<K, V> = HashMap::with_capacity(keys.len());
    for key in it: keys.into_iter()
        invariant
            it.seq() == all_keys,
            n == all_keys.len(),
            n == all_vals.len(),
            rest@.len() == n - it.index(),
            forall|j: int| 0 <= j < rest@.len() ==> rest@[j] == all_vals[n - 1 - j],
            obeys_key_model::<K>() ==> map@ == spec_map_from(all_keys, all_vals, it.index() as nat),
    {
        let value = rest.pop().unwrap();
        assert(value == all_vals[it.index() as int]);
        map.insert(key, value);
    }
    map
}

/// Whether maps with keys of type `K` can be read: the keys obey the model
/// of hashing and equality that makes a map of them, and different keys are
/// different values.
pub open spec fn keys_sound<K: DeepView>() -> bool {
    &&& obeys_key_model::<K>()
    &&& vstd::relations::injective(|k: K| k.deep_view())
}

/// The map of the values that the entries of `map` stand for.
pub open spec fn deep_map<K: DeepView, V: DeepView>(map: Map<K, V>) -> Map<K::V, V::V> {
    Map::new(
        |dk: K::V| exists|k: K| #[trigger] map.contains_key(k) && dk == k.deep_view(),
        |dk: K::V|
            {
                let k = choose|k: K| map.contains_key(k) && #[trigger] k.deep_view() == dk;
                map[k].deep_view()
            },
    )
}

/// The map of the values that keys and values stand for is made of those
/// values as the map itself is made of the keys and values.
#[verifier::rlimit(40)]
pub proof fn lemma_deep_map_from<K: DeepView, V: DeepView>(keys: Seq<K>, vals: Seq<V>, n: nat)
    requires
        vstd::relations::injective(|k: K| k.deep_view()),
        n <= keys.len(),
        keys.len() == vals.len(),
    ensures
        deep_map(spec_map_from(keys, vals, n)) == spec_map_from(
            keys.map_values(|k: K| k.deep_view()),
            vals.map_values(|v: V| v.deep_view()),
            n,
        ),
    decreases n,
{
    let deep_keys = keys.map_values(|k: K| k.deep_view());
    let deep_vals = vals.map_values(|v: V| v.deep_view());
    let view = |k: K| k.deep_view();
    if n == 0 {
        assert(deep_map(spec_map_from(keys, vals, 0)) =~= Map::<K::V, V::V>::empty());
    } else {
        lemma_deep_map_from(keys, vals, (n - 1) as nat);
        let before = spec_map_from(keys, vals, (n - 1) as nat);
        let key = keys[n - 1];
        let val = vals[n - 1];
        let after = before.insert(key, val);
        let left = deep_map(after);
        let right = deep_map(before).insert(key.deep_view(), val.deep_view());
        assert forall|dk: K::V| left.contains_key(dk) <==> right.contains_key(dk) by {
            if left.contains_key(dk) {
                let k = choose|k: K| #[trigger] after.contains_key(k) && dk == k.deep_view();
                if k != key {
                    assert(before.contains_key(k));
                }
            }
            if right.contains_key(dk) {
                if dk == key.deep_view() {
                    assert(after.contains_key(key));
                } else {
                    let k = choose|k: K| #[trigger] before.contains_key(k) && dk == k.deep_view();
                    assert(after.contains_key(k));
                }
            }
        }
        assert forall|dk: K::V| left.contains_key(dk) implies left[dk] == right[dk] by {
            let k = choose|k: K| after.contains_key(k) && #[trigger] k.deep_view() == dk;
            let witness = choose|k: K| #[trigger] after.contains_key(k) && dk == k.deep_view();
            assert(after.contains_key(witness) && witness.deep_view() == dk);
            if dk == key.deep_view() {
                assert(view(k) == view(key));
                assert(k == key);
            } else {
                assert(before.contains_key(k));
                let j = choose|j: K| before.contains_key(j) && #[trigger] j.deep_view() == dk;
                assert(view(j) == view(k));
                assert(j == k);
            }
        }
        assert(left =~= right);
    }
}

/// The values that a map stands for, by the keys and values it was made of.
pub proof fn lemma_map_deep_view<K: DeepView, V: DeepView>(
    map: HashMap<K, V>,
    keys: Vec<K>,
    vals: Vec<V>,
)
    requires
        vstd::relations::injective(|k: K| k.deep_view()),
        keys@.len() == vals@.len(),
        map@ == spec_map_from(keys@, vals@, keys@.len()),
    ensures
        map.deep_view() == spec_map_from(keys.deep_view(), vals.deep_view(), keys@.len()),
{
    lemma_deep_view_is_deep_map(map);
    lemma_deep_map_from(keys@, vals@, keys@.len());
    assert(keys.deep_view() =~= keys@.map_values(|k: K| k.deep_view()));
    assert(vals.deep_view() =~= vals@.map_values(|v: V| v.deep_view()));
}

/// The map that the region of `context` holds: the map of its keys and
/// values, where of two equal keys the later one decides. Nothing is said
/// where the keys are not sound.
pub open spec fn spec_decode_map_value<K: MojomEncodable, V: MojomEncodable>(
    decoder: DecoderView,
    context: Context,
) -> Decoded<Map<K::V, V::V>> {
    if !keys_sound::<K>() {
        Decoded::Undefined
    } else {
        match spec_decode_entries::<K, V>(decoder, context) {
            Decoded::Value(after, (keys, vals)) => Decoded::Value(
                after,
                spec_map_from(keys, vals, keys.len()),
            ),
            Decoded::Invalid(e) => Decoded::Invalid(e),
            Decoded::Undefined => Decoded::Undefined,
        }
    }
}

/// The map that the pointer under the cursor of the region of `context`
/// leads to. A null pointer and one that leads to no region that can be
/// claimed are refused.
pub open spec fn spec_decode_map<K: MojomEncodable, V: MojomEncodable>(
    decoder: DecoderView,
    context: Context,
) -> Decoded<Map<K::V, V::V>> {
    let moved = decoder.with_state(context.id as int, decoder.state(context).skip(8, 8));
    match spec_decode_pointer(decoder.state(context), decoder.buffer.len()) {
        Err(e) => Decoded::Invalid(e),
        Ok(None) => Decoded::Invalid(ValidationError::UnexpectedNullPointer),
        Ok(Some(pointer)) => if moved.claim_refused(pointer as nat) {
            Decoded::Invalid(ValidationError::IllegalPointer)
        } else {
            spec_decode_map_value::<K, V>(
                moved.claimed(pointer as nat),
                claim_context(moved, pointer as nat),
            )
        },
    }
}

/// Reads the map of the region of `context`, which was claimed and not read
/// yet: the struct header of a map, the keys, the values, and of them the
/// map.
pub fn decode_map_value<K: MojomEncodable + Eq + Hash, V: MojomEncodable>(
    decoder: &mut Decoder,
    context: Context,
) -> (value: Result<HashMap<K, V>, ValidationError>)
    requires
        old(decoder).wf(),
        old(decoder)@.has(context),
        old(decoder)@.state(context).pos == 0,
        !(spec_decode_map_value::<K, V>(old(decoder)@, context) is Undefined),
    ensures
        final(decoder).wf(),
        decode_kept(old(decoder)@, final(decoder)@),
        match value {
            Ok(v) => {
                &&& spec_decode_map_value::<K, V>(old(decoder)@, context) == Decoded::Value(
                    final(decoder)@,
                    v.deep_view(),
                )
                &&& decode_frame(old(decoder)@, final(decoder)@, context)
            },
            Err(e) => spec_decode_map_value::<K, V>(old(decoder)@, context) == Decoded::<
                Map<K::V, V::V>,
            >::Invalid(e),
        },
{
    let (keys, vals) = match decode_entries::<K, V>(decoder, context) {
        Ok(entries) => entries,
        Err(err) => {
            return Err(err);
        },
    };
    let ghost keys_read = keys;
    let ghost vals_read = vals;
    let map = map_from_entries(keys, vals);
    proof {
        lemma_map_deep_view(map, keys_read, vals_read);
    }
    Ok(map)
}

/// Reads a map by pointer: the pointer under the cursor of the region of
/// `context`, then the region that it leads to.
pub fn decode_map<K: MojomEncodable + Eq + Hash, V: MojomEncodable>(
    decoder: &mut Decoder,
    context: Context,
) -> (value: Result<HashMap<K, V>, ValidationError>)
    requires
        old(decoder).wf(),
        old(decoder)@.has(context),
        old(decoder)@.state(context).fits(64, 64),
        !(spec_decode_map::<K, V>(old(decoder)@, context) is Undefined),
    ensures
        final(decoder).wf(),
        decode_kept(old(decoder)@, final(decoder)@),
        match value {
            Ok(v) => {
                &&& spec_decode_map::<K, V>(old(decoder)@, context) == Decoded::Value(
                    final(decoder)@,
                    v.deep_view(),
                )
                &&& decode_step(old(decoder)@, final(decoder)@, context, 64, 64)
            },
            Err(e) => spec_decode_map::<K, V>(old(decoder)@, context) == Decoded::<
                Map<K::V, V::V>,
            >::Invalid(e),
        },
{
    let len = decoder.buffer.len();
    let state = decoder.get_mut(&context);
    let target = state.decode_pointer();
    match target {
        Err(err) => Err(err),
        Ok(None) => Err(ValidationError::UnexpectedNullPointer),
        Ok(Some(pointer)) => {
            if pointer > usize::MAX as u64 {
                return Err(ValidationError::IllegalPointer);
            }
            match decoder.claim(pointer as usize) {
                Ok(new_context) => {
                    let value = decode_map_value::<K, V>(decoder, new_context);
                    proof {
                        if value.is_ok() {
                            lemma_decode_behind_pointer(
                                old(decoder)@,
                                context,
                                pointer as nat,
                                new_context,
                                decoder@,
                            );
                        }
                    }
                    value
                },
                Err(err) => Err(err),
            }
        },
    }
}

/// The header of the region of a map.
pub open spec fn map_header() -> DataHeader {
    DataHeader { size: 24, data: DataHeaderValue::Version(0) }
}

/// The encoder and the region after a map with the given keys and values was
/// written by pointer: the struct of the map in a region of its own, and the
/// pointer to it under the cursor.
pub open spec fn spec_encode_map<K: MojomEncodable, V: MojomEncodable>(
    keys: Seq<K>,
    vals: Seq<V>,
    encoder: EncoderView,
    state: Cursor,
) -> (EncoderView, Cursor) {
    let filled = spec_encode_entries(
        keys,
        vals,
        encoder.reserve(24),
        fresh_region(map_header(), encoder.end),
    );
    (
        filled.0.store(filled.1),
        state.put(8, spec_pointer(state, encoder.end as u64).spec_wire_bytes()),
    )
}

/// The bytes that a map takes in the message.
#[verifier::rlimit(40)]
pub fn map_size<K: MojomEncodable + Eq + Hash, V: MojomEncodable>(
    map: &HashMap<K, V>,
    context: Context,
) -> (size: usize)
    requires
        map_encodable(map@),
        entries_size(map_keys(map@), map_vals(map@)) <= usize::MAX,
    ensures
        size == entries_size(map_keys(map@), map_vals(map@)),
{
    broadcast use vstd::std_specs::hash::group_hash_axioms;

    let n = map.len();
    let iter = map.iter();
    let ghost pairs = iter.remaining();
    let ghost keys = pairs.map_values(|p: (&K, &V)| *p.0);
    let ghost vals = pairs.map_values(|p: (&K, &V)| *p.1);
    proof {
        assert forall|i: int, j: int| 0 <= i < keys.len() && 0 <= j < keys.len() && i != j implies keys[i]
            != keys[j] by {
            if keys[i] == keys[j] {
                assert(map@[*pairs[i].0] == *pairs[i].1);
                assert(map@[*pairs[j].0] == *pairs[j].1);
                assert(pairs[i] == pairs[j]);
            }
        }
        assert forall|k: K| map@.contains_key(k) <==> keys.contains(k) by {
            if map@.contains_key(k) {
                assert(pairs.contains((&k, &map@[k])));
                let i = choose|i: int| 0 <= i < pairs.len() && pairs[i] == (&k, &map@[k]);
                assert(keys[i] == k);
            }
            if keys.contains(k) {
                let i = choose|i: int| 0 <= i < keys.len() && keys[i] == k;
                assert(map@.contains_key(*pairs[i].0));
            }
        }
        assert forall|i: int| 0 <= i < keys.len() implies map@[#[trigger] keys[i]] == vals[i] by {
            assert(map@[*pairs[i].0] == *pairs[i].1);
        }
        lemma_enumeration(map@, keys, vals);
        lemma_enumeration_encodable(map@, keys, vals);
        lemma_align_up(array_bytes::<K>(n as nat), 8);
        lemma_align_up(array_bytes::<V>(n as nat), 8);
    }
    let keys_bytes = align_default(array_serialized_size::<K>(n, &context));
    let vals_bytes = align_default(array_serialized_size::<V>(n, &context));
    let mut keys_size: usize = 0;
    let mut vals_size: usize = 0;
    for pair in it: iter
        invariant
            it.seq() == pairs,
            keys == pairs.map_values(|p: (&K, &V)| *p.0),
            vals == pairs.map_values(|p: (&K, &V)| *p.1),
            entries_encodable(keys, vals),
            entries_size(keys, vals) <= usize::MAX,
            keys.len() == n,
            keys_bytes == align_up(array_bytes::<K>(n as nat), 8),
            vals_bytes == align_up(array_bytes::<V>(n as nat), 8),
            keys_size == elements_size(keys, it.index() as nat),
            vals_size == elements_size(vals, it.index() as nat),
    {
        proof {
            lemma_elements_size(keys, (it.index() + 1) as nat, n as nat);
            lemma_elements_size(vals, (it.index() + 1) as nat, n as nat);
            assert(*pair.0 == keys[it.index() as int]);
            assert(*pair.1 == vals[it.index() as int]);
        }
        keys_size = keys_size + pair.0.compute_size(Context::default());
        vals_size = vals_size + pair.1.compute_size(Context::default());
    }
    MAP_SIZE + keys_bytes + keys_size + vals_bytes + vals_size
}

/// Fills the region of a map: writes its keys as an array by pointer, then
/// its values, in the order in which the map gives up its entries. That
/// order is left open; what is written is the map in one of its orders.
pub fn encode_map_value<K: MojomEncodable + Eq + Hash, V: MojomEncodable>(
    map: HashMap<K, V>,
    encoder: &mut Encoder,
    state: &mut EncodingState,
    context: Context,
)
    requires
        map_encodable(map@),
        old(encoder).wf(),
        old(state).wf(),
        old(state)@.pos == 64,
        old(state)@.data.len() == 24,
        old(state)@.base + old(state)@.data.len() <= old(encoder)@.end,
        old(encoder)@.end + entries_size(map_keys(map@), map_vals(map@)) - 24 <= old(
            encoder,
        )@.buffer.len(),
        old(encoder)@.handles.len() + entries_handles(map_keys(map@), map_vals(map@)).len()
            <= u32::MAX,
    ensures
        final(encoder).wf(),
        final(state).wf(),
        final(state)@.base == old(state)@.base,
        final(state)@.data.len() == old(state)@.data.len(),
        final(encoder)@.buffer.len() == old(encoder)@.buffer.len(),
        final(encoder)@.end == old(encoder)@.end + entries_size(map_keys(map@), map_vals(map@))
            - 24,
        final(encoder)@.handles.len() == old(encoder)@.handles.len() + entries_handles(
            map_keys(map@),
            map_vals(map@),
        ).len(),
        exists|keys: Seq<K>, vals: Seq<V>|
            {
                &&& #[trigger] enumerates(map@, keys, vals)
                &&& elements_canonical(keys) && elements_canonical(vals) ==> (
                    final(encoder)@,
                    final(state)@,
                ) == spec_encode_entries(keys, vals, old(encoder)@, old(state)@)
            },
{
    let ghost entries_of = map@;
    let entries = map_into_entries(map);
    let (keys, vals) = split_entries(entries);
    proof {
        lemma_enumeration(entries_of, keys@, vals@);
        lemma_enumeration_encodable(entries_of, keys@, vals@);
    }
    let ghost keys_written = keys@;
    let ghost vals_written = vals@;
    encode_entries(keys, vals, encoder, state, context);
    assert(enumerates(entries_of, keys_written, vals_written));
}

/// Writes a map by pointer: hands out the region of its struct, fills it,
/// and writes the pointer to it under the cursor of `state`.
#[verifier::rlimit(40)]
pub fn encode_map<K: MojomEncodable + Eq + Hash, V: MojomEncodable>(
    map: HashMap<K, V>,
    encoder: &mut Encoder,
    state: &mut EncodingState,
    context: Context,
)
    requires
        map_encodable(map@),
        old(encoder).wf(),
        old(state).wf(),
        encode_ready(
            old(encoder)@,
            old(state)@,
            64,
            64,
            entries_size(map_keys(map@), map_vals(map@)),
            entries_handles(map_keys(map@), map_vals(map@)).len(),
        ),
    ensures
        final(encoder).wf(),
        final(state).wf(),
        encode_step(
            old(encoder)@,
            old(state)@,
            final(encoder)@,
            final(state)@,
            64,
            64,
            entries_size(map_keys(map@), map_vals(map@)),
            entries_handles(map_keys(map@), map_vals(map@)).len(),
        ),
        exists|keys: Seq<K>, vals: Seq<V>|
            {
                &&& #[trigger] enumerates(map@, keys, vals)
                &&& elements_canonical(keys) && elements_canonical(vals) ==> (
                    final(encoder)@,
                    final(state)@,
                ) == spec_encode_map(keys, vals, old(encoder)@, old(state)@)
            },
{
    proof {
        crate::bits::lemma_align_up_fixed(24, 8);
    }
    let data_header = DataHeader::new(MAP_SIZE, DataHeaderValue::Version(0));
    let (offset, mut new_state, new_context) = encoder.add(&data_header);
    proof {
        (spec_pointer(state@, offset)).lemma_wire_bytes();
        lemma_put_skip(state@, 8, spec_pointer(state@, offset).spec_wire_bytes());
    }
    state.encode_pointer(offset);
    let ghost reserved = encoder@;
    let ghost fresh = new_state@;
    let ghost entries_of = map@;
    encode_map_value(map, encoder, &mut new_state, new_context);
    let ghost filled = (encoder@, new_state@);
    encoder.commit(new_state);
    proof {
        let (keys, vals) = choose|keys: Seq<K>, vals: Seq<V>|
            {
                &&& #[trigger] enumerates(entries_of, keys, vals)
                &&& elements_canonical(keys) && elements_canonical(vals) ==> filled
                    == spec_encode_entries(keys, vals, reserved, fresh)
            };
        assert(enumerates(entries_of, keys, vals));
        assert(elements_canonical(keys) && elements_canonical(vals) ==> (encoder@, state@)
            == spec_encode_map(keys, vals, old(encoder)@, old(state)@));
    }
}

impl<K: MojomEncodable + Eq + Hash, V: MojomEncodable> MojomValue for HashMap<K, V> {
    open spec fn spec_mojom_type() -> MojomType {
        MojomType::Pointer
    }

    open spec fn spec_align_bits() -> nat {
        64
    }

    open spec fn spec_embed_size(is_union: bool) -> nat {
        64
    }

    open spec fn spec_compute_size(&self, is_union: bool) -> nat {
        entries_size(map_keys(self@), map_vals(self@))
    }

    open spec fn spec_handles(&self) -> Seq<UntypedHandle> {
        entries_handles(map_keys(self@), map_vals(self@))
    }

    open spec fn spec_encodable(&self, is_union: bool) -> bool {
        map_encodable(self@)
    }

    /// The order in which the entries of a map are written is left open.
    open spec fn spec_canonical(&self) -> bool {
        false
    }
}

impl<K: MojomEncodable + Eq + Hash, V: MojomEncodable> MojomEncodable for HashMap<K, V> {
    open spec fn spec_encode(&self, encoder: EncoderView, state: Cursor, is_union: bool) -> (
        EncoderView,
        Cursor,
    ) {
        spec_encode_map(map_keys(self@), map_vals(self@), encoder, state)
    }

    open spec fn spec_decode(decoder: DecoderView, context: Context) -> Decoded<Map<K::V, V::V>> {
        spec_decode_map::<K, V>(decoder, context)
    }

    fn mojom_type() -> (category: MojomType) {
        MojomType::Pointer
    }

    fn mojom_alignment() -> (alignment: usize) {
        8
    }

    fn embed_size(context: &Context) -> (bits: Bits) {
        Bits(64)
    }

    fn compute_size(&self, context: Context) -> (size: usize) {
        map_size(self, context)
    }

    fn encode(self, encoder: &mut Encoder, state: &mut EncodingState, context: Context)
        ensures
            exists|keys: Seq<K>, vals: Seq<V>|
                {
                    &&& #[trigger] enumerates(self@, keys, vals)
                    &&& elements_canonical(keys) && elements_canonical(vals) ==> (
                        final(encoder)@,
                        final(state)@,
                    ) == spec_encode_map(keys, vals, old(encoder)@, old(state)@)
                },
    {
        encode_map(self, encoder, state, context)
    }

    fn decode(decoder: &mut Decoder, context: Context) -> (value: Result<Self, ValidationError>) {
        decode_map::<K, V>(decoder, context)
    }
}

impl<K: MojomEncodable + Eq + Hash, V: MojomEncodable> MojomPointer for HashMap<K, V> {
    open spec fn spec_header_data(&self) -> DataHeaderValue {
        DataHeaderValue::Version(0)
    }

    open spec fn spec_serialized_size(&self) -> nat {
        24
    }

    open spec fn spec_encode_value(&self, encoder: EncoderView, state: Cursor) -> (
        EncoderView,
        Cursor,
    ) {
        spec_encode_entries(map_keys(self@), map_vals(self@), encoder, state)
    }

    open spec fn spec_decode_value(decoder: DecoderView, context: Context) -> Decoded<
        Map<K::V, V::V>,
    > {
        spec_decode_map_value::<K, V>(decoder, context)
    }

    fn header_data(&self) -> (data: DataHeaderValue) {
        DataHeaderValue::Version(0)
    }

    fn serialized_size(&self, context: &Context) -> (size: usize) {
        proof {
            crate::bits::lemma_align_up_fixed(24, 8);
        }
        MAP_SIZE
    }

    fn encode_value(self, encoder: &mut Encoder, state: &mut EncodingState, context: Context)
        ensures
            exists|keys: Seq<K>, vals: Seq<V>|
                {
                    &&& #[trigger] enumerates(self@, keys, vals)
                    &&& elements_canonical(keys) && elements_canonical(vals) ==> (
                        final(encoder)@,
                        final(state)@,
                    ) == spec_encode_entries(keys, vals, old(encoder)@, old(state)@)
                },
    {
        proof {
            crate::bits::lemma_align_up_fixed(24, 8);
        }
        encode_map_value(self, encoder, state, context)
    }

    fn decode_value(decoder: &mut Decoder, context: Context) -> (value: Result<
        Self,
        ValidationError,
    >) {
        decode_map_value::<K, V>(decoder, context)
    }
}

/// As many elements are read as are asked for.
pub proof fn lemma_decode_elements_len<T: MojomEncodable>(
    decoder: DecoderView,
    context: Context,
    n: nat,
)
    requires
        spec_decode_elements::<T>(decoder, context, n) is Value,
    ensures
        spec_decode_elements::<T>(decoder, context, n)->Value_1.len() == n,
    decreases n,
{
    if n > 0 {
        lemma_decode_elements_len::<T>(decoder, context, (n - 1) as nat);
    }
}

/// The arrays of a map are parallel. A map that is read has as many keys as
/// values, and a map that is written states the same number of elements in
/// the header of its keys and in that of its values.
pub proof fn law_map_arrays_parallel<K: MojomEncodable, V: MojomEncodable>(
    decoder: DecoderView,
    context: Context,
    keys: Seq<K>,
    vals: Seq<V>,
)
    ensures
        spec_decode_entries::<K, V>(decoder, context) is Value ==> spec_decode_entries::<K, V>(
            decoder,
            context,
        )->Value_1.0.len() == spec_decode_entries::<K, V>(decoder, context)->Value_1.1.len(),
        entries_encodable(keys, vals) ==> crate::array::array_header(keys).data
            == crate::array::array_header(vals).data,
{
    if spec_decode_entries::<K, V>(decoder, context) is Value {
        let state = decoder.state(context);
        let first = Cursor { pos: 64, ..state };
        let second = first.skip(8, 8);
        let behind = decoder.with_state(context.id as int, second.skip(8, 8));
        let keys_at = spec_decode_pointer(first, decoder.buffer.len()).unwrap().unwrap();
        let vals_at = spec_decode_pointer(second, decoder.buffer.len()).unwrap().unwrap();
        let at_keys = spec_claim_array::<K>(behind, keys_at as nat)->Value_0;
        let count = spec_claim_array::<K>(behind, keys_at as nat)->Value_1;
        let keys_context = claim_context(behind, keys_at as nat);
        lemma_decode_elements_len::<K>(at_keys, keys_context, count);
        let behind_keys = spec_decode_elements::<K>(at_keys, keys_context, count)->Value_0;
        let at_vals = spec_claim_array::<V>(behind_keys, vals_at as nat)->Value_0;
        lemma_decode_elements_len::<V>(at_vals, claim_context(behind_keys, vals_at as nat), count);
    }
}

/// The map that is made of the entries of a map in whatever order is the map
/// itself.
pub proof fn lemma_map_from_enumeration<K, V>(map: Map<K, V>, keys: Seq<K>, vals: Seq<V>)
    requires
        enumerates(map, keys, vals),
    ensures
        spec_map_from(keys, vals, keys.len()) == map,
{
    lemma_map_from_prefix(keys, vals, keys.len());
    let made = spec_map_from(keys, vals, keys.len());
    assert forall|k: K| made.contains_key(k) <==> map.contains_key(k) by {
        if map.contains_key(k) {
            assert(keys.contains(k));
            let i = choose|i: int| 0 <= i < keys.len() && keys[i] == k;
            assert(made.contains_key(keys[i]));
        }
        if made.contains_key(k) {
            let i = choose|i: int| 0 <= i < keys.len() && keys[i] == k;
            assert(keys.contains(k));
        }
    }
    assert forall|k: K| made.contains_key(k) implies made[k] == map[k] by {
        let i = choose|i: int| 0 <= i < keys.len() && keys[i] == k;
        assert(made[keys[i]] == vals[i]);
        assert(map[keys[i]] == vals[i]);
    }
    assert(made =~= map);
}

/// What the map of the first `n` of keys without duplicates holds: each of
/// those keys, with the value at its index.
pub proof fn lemma_map_from_prefix<K, V>(keys: Seq<K>, vals: Seq<V>, n: nat)
    requires
        keys.no_duplicates(),
        keys.len() == vals.len(),
        n <= keys.len(),
    ensures
        forall|k: K| #[trigger]
            spec_map_from(keys, vals, n).contains_key(k) <==> exists|i: int|
                0 <= i < n && keys[i] == k,
        forall|i: int| 0 <= i < n ==> spec_map_from(keys, vals, n)[#[trigger] keys[i]] == vals[i],
    decreases n,
{
    if n > 0 {
        let m = (n - 1) as nat;
        lemma_map_from_prefix(keys, vals, m);
        let before = spec_map_from(keys, vals, m);
        let made = spec_map_from(keys, vals, n);
        assert forall|k: K| #[trigger] made.contains_key(k) <==> exists|i: int|
            0 <= i < n && keys[i] == k by {
            if made.contains_key(k) {
                if k == keys[m as int] {
                } else {
                    assert(before.contains_key(k));
                    let i = choose|i: int| 0 <= i < m && keys[i] == k;
                    assert(0 <= i < n && keys[i] == k);
                }
            }
            if exists|i: int| 0 <= i < n && keys[i] == k {
                let i = choose|i: int| 0 <= i < n && keys[i] == k;
                if i < m {
                    assert(before.contains_key(k));
                }
            }
        }
        assert forall|i: int| 0 <= i < n implies made[#[trigger] keys[i]] == vals[i] by {
            if i < m {
                assert(keys[i] != keys[m as int]);
                assert(before[keys[i]] == vals[i]);
            }
        }
    }
}

/// The values that a map stands for are those of `deep_map`.
pub proof fn lemma_deep_view_is_deep_map<K: DeepView, V: DeepView>(map: HashMap<K, V>)
    ensures
        map.deep_view() == deep_map(map@),
{
    reveal(vstd::std_specs::hash::hash_map_deep_view_impl);
    assert(map.deep_view() =~= deep_map(map@));
}

/// What filling the region of a map with its keys and values does.
#[verifier::rlimit(40)]
pub proof fn lemma_entries_encode<K: MojomLaws, V: MojomLaws>(
    keys: Seq<K>,
    vals: Seq<V>,
    encoder: EncoderView,
    state: Cursor,
)
    requires
        entries_encodable(keys, vals),
        elements_canonical(keys),
        elements_canonical(vals),
        encoder_wf(encoder),
        state.wf(),
        state.pos == 64,
        state.data.len() == 24,
        state.base + state.data.len() <= encoder.end,
        encoder.end + array_compute_size(keys) + array_compute_size(vals) <= encoder.buffer.len(),
        encoder.handles.len() + entries_handles(keys, vals).len() <= u32::MAX,
    ensures
        encoder_wf(spec_encode_entries(keys, vals, encoder, state).0),
        spec_encode_entries(keys, vals, encoder, state).1.wf(),
        spec_encode_entries(keys, vals, encoder, state).1.base == state.base,
        spec_encode_entries(keys, vals, encoder, state).1.data.len() == state.data.len(),
        spec_encode_entries(keys, vals, encoder, state).1.pos == 192,
        spec_encode_entries(keys, vals, encoder, state).0.buffer.len() == encoder.buffer.len(),
        spec_encode_entries(keys, vals, encoder, state).0.end == encoder.end + array_compute_size(
            keys,
        ) + array_compute_size(vals),
        spec_encode_entries(keys, vals, encoder, state).0.handles == encoder.handles
            + entries_handles(keys, vals),
        same_below(spec_encode_entries(keys, vals, encoder, state).1.data, state.data, 64),
        spec_encode_entries(keys, vals, encoder, state).0.buffer.take(encoder.end as int)
            == encoder.buffer.take(encoder.end as int),
{
    crate::bits::lemma_align_up_fixed(64, 64);
    crate::bits::lemma_align_up_fixed(128, 64);
    lemma_array_encode(keys, encoder, state);
    let with_keys = spec_encode_array(keys, encoder, state);
    lemma_array_encode(vals, with_keys.0, with_keys.1);
    let written = spec_encode_entries(keys, vals, encoder, state);
    lemma_same_below_earlier(written.1.data, with_keys.1.data, with_keys.1.pos, 64);
    lemma_same_below_chain(written.1.data, with_keys.1.data, state.data, 64);
    lemma_take_chain(
        written.0.buffer,
        with_keys.0.buffer,
        encoder.buffer,
        encoder.end,
        with_keys.0.end,
    );
    assert(written.0.handles =~= encoder.handles + entries_handles(keys, vals));
}

/// The region of a map that was written holds the keys and the values, in
/// the order in which they were written.
#[verifier::rlimit(40)]
pub proof fn lemma_entries_round_trip<K: MojomLaws, V: MojomLaws>(
    keys: Seq<K>,
    vals: Seq<V>,
    encoder: EncoderView,
    base: nat,
    decoder: DecoderView,
    context: Context,
)
    requires
        entries_encodable(keys, vals),
        elements_canonical(keys),
        elements_canonical(vals),
        encoder_wf(encoder),
        base % 8 == 0,
        base + 24 <= encoder.end,
        encoder.end + array_compute_size(keys) + array_compute_size(vals) <= encoder.buffer.len(),
        encoder.handles.len() + entries_handles(keys, vals).len() <= u32::MAX,
        value_reads_back(
            encoder,
            spec_encode_entries(keys, vals, encoder, fresh_region(map_header(), base)),
            decoder,
            context,
        ),
    ensures
        spec_decode_entries::<K, V>(decoder, context) is Value,
        spec_decode_entries::<K, V>(decoder, context)->Value_1 == (
            Seq::new(keys.len(), |i: int| keys[i].deep_view()),
            Seq::new(vals.len(), |i: int| vals[i].deep_view()),
        ),
        value_read_back(
            encoder,
            spec_encode_entries(keys, vals, encoder, fresh_region(map_header(), base)),
            decoder,
            context,
            spec_decode_entries::<K, V>(decoder, context)->Value_0,
        ),
{
    let n = keys.len();
    let fresh = fresh_region(map_header(), base);
    lemma_fresh_region(map_header(), base);
    crate::bits::lemma_align_up_fixed(64, 64);
    crate::bits::lemma_align_up_fixed(128, 64);
    // what was written
    lemma_array_encode(keys, encoder, fresh);
    let with_keys = spec_encode_array(keys, encoder, fresh);
    lemma_array_encode(vals, with_keys.0, with_keys.1);
    let written = spec_encode_entries(keys, vals, encoder, fresh);
    lemma_entries_encode(keys, vals, encoder, fresh);
    // the struct of the map and its two pointers
    let state = decoder.state(context);
    let behind = lemma_entries_pointers(keys, vals, encoder, base, decoder, context);
    // the keys
    assert(behind.buffer.subrange(encoder.end as int, with_keys.0.end as int)
        =~= with_keys.0.buffer.subrange(encoder.end as int, with_keys.0.end as int)) by {
        assert forall|i: int| encoder.end <= i < with_keys.0.end implies behind.buffer[i]
            == with_keys.0.buffer[i] by {
            assert(decoder.buffer.subrange(encoder.end as int, written.0.end as int)[i
                - encoder.end] == written.0.buffer.subrange(
                encoder.end as int,
                written.0.end as int,
            )[i - encoder.end]);
            assert(written.0.buffer.take(with_keys.0.end as int)[i] == with_keys.0.buffer.take(
                with_keys.0.end as int,
            )[i]);
        }
    }
    assert forall|i: int|
        encoder.handles.len() <= i < encoder.handles.len() + elements_handles(
            keys,
            n,
        ).len() implies #[trigger] behind.handles[i] == Some(
        (encoder.handles + elements_handles(keys, n))[i],
    ) by {
        assert(decoder.handles[i] == Some(written.0.handles[i]));
        assert(written.0.handles[i] == with_keys.0.handles[i]);
    }
    lemma_array_region(keys, encoder, behind);
    let keys_context = claim_context(behind, encoder.end);
    let at_keys = spec_claim_array::<K>(behind, encoder.end)->Value_0;
    let behind_keys = spec_decode_elements::<K>(at_keys, keys_context, n)->Value_0;
    // the values
    assert(behind_keys.buffer.subrange(with_keys.0.end as int, written.0.end as int)
        =~= written.0.buffer.subrange(with_keys.0.end as int, written.0.end as int)) by {
        assert forall|i: int| with_keys.0.end <= i < written.0.end implies behind_keys.buffer[i]
            == written.0.buffer[i] by {
            assert(decoder.buffer.subrange(encoder.end as int, written.0.end as int)[i
                - encoder.end] == written.0.buffer.subrange(
                encoder.end as int,
                written.0.end as int,
            )[i - encoder.end]);
        }
    }
    assert forall|i: int|
        with_keys.0.handles.len() <= i < with_keys.0.handles.len() + elements_handles(
            vals,
            n,
        ).len() implies #[trigger] behind_keys.handles[i] == Some(
        (with_keys.0.handles + elements_handles(vals, n))[i],
    ) by {
        assert(decoder.handles[i] == Some(written.0.handles[i]));
        assert(behind.handles[i] == decoder.handles[i]);
    }
    lemma_array_region(vals, with_keys.0, behind_keys);
    let vals_context = claim_context(behind_keys, with_keys.0.end);
    let at_vals = spec_claim_array::<V>(behind_keys, with_keys.0.end)->Value_0;
    let behind_vals = spec_decode_elements::<V>(at_vals, vals_context, n)->Value_0;
    // what is left of the decoder
    assert forall|i: int|
        0 <= i < decoder.states.len() && i != context.id implies #[trigger] behind_vals.states[i]
        == decoder.states[i] by {
        assert(behind_keys.states[i] == behind.states[i]);
    }
    assert(behind_vals.states[context.id as int] == behind_keys.states[context.id as int]);
    assert(behind_keys.states[context.id as int] == behind.states[context.id as int]);
    assert forall|i: int| 0 <= i < decoder.handles.len() implies #[trigger] behind_vals.handles[i]
        == if encoder.handles.len() <= i < written.0.handles.len() {
        None
    } else {
        decoder.handles[i]
    } by {
        assert(behind_keys.handles[i] == if encoder.handles.len() <= i
            < with_keys.0.handles.len() {
            None
        } else {
            behind.handles[i]
        });
    }
}

/// The struct of a map that was written is accepted, and its two pointers
/// are read as the places of the array of the keys and of the array of the
/// values. Returns the decoder behind the two pointers.
#[verifier::rlimit(40)]
pub proof fn lemma_entries_pointers<K: MojomLaws, V: MojomLaws>(
    keys: Seq<K>,
    vals: Seq<V>,
    encoder: EncoderView,
    base: nat,
    decoder: DecoderView,
    context: Context,
) -> (behind: DecoderView)
    requires
        entries_encodable(keys, vals),
        elements_canonical(keys),
        elements_canonical(vals),
        encoder_wf(encoder),
        base % 8 == 0,
        base + 24 <= encoder.end,
        encoder.end + array_compute_size(keys) + array_compute_size(vals) <= encoder.buffer.len(),
        encoder.handles.len() + entries_handles(keys, vals).len() <= u32::MAX,
        value_reads_back(
            encoder,
            spec_encode_entries(keys, vals, encoder, fresh_region(map_header(), base)),
            decoder,
            context,
        ),
    ensures
        known_version(
            map_versions(),
            stated_word(decoder.state(context).data),
            stated_size(decoder.state(context).data),
        ),
        spec_decode_pointer(
            Cursor { pos: 64, ..decoder.state(context) },
            decoder.buffer.len(),
        ) == Ok::<Option<u64>, ValidationError>(Some(encoder.end as u64)),
        spec_decode_pointer(
            (Cursor { pos: 64, ..decoder.state(context) }).skip(8, 8),
            decoder.buffer.len(),
        ) == Ok::<Option<u64>, ValidationError>(
            Some((encoder.end + array_compute_size(keys)) as u64),
        ),
        behind == decoder.with_state(
            context.id as int,
            (Cursor { pos: 64, ..decoder.state(context) }).skip(8, 8).skip(8, 8),
        ),
        decoder_wf(behind),
{
    let fresh = fresh_region(map_header(), base);
    lemma_fresh_region(map_header(), base);
    crate::bits::lemma_align_up_fixed(64, 64);
    crate::bits::lemma_align_up_fixed(128, 64);
    lemma_array_encode(keys, encoder, fresh);
    let with_keys = spec_encode_array(keys, encoder, fresh);
    lemma_array_encode(vals, with_keys.0, with_keys.1);
    let written = spec_encode_entries(keys, vals, encoder, fresh);
    lemma_entries_encode(keys, vals, encoder, fresh);
    let state = decoder.state(context);
    lemma_same_header(written.1.data, fresh.data);
    assert(map_versions()[0] == (0u32, 24u32));
    let first = Cursor { pos: 64, ..state };
    let second = first.skip(8, 8);
    let limit = decoder.buffer.len();
    lemma_same_below_earlier(written.1.data, with_keys.1.data, with_keys.1.pos, with_keys.1.pos);
    lemma_pointer_read(fresh, encoder.end, first, limit);
    lemma_pointer_read(with_keys.1, with_keys.0.end, second, limit);
    decoder.with_state(context.id as int, second.skip(8, 8))
}

/// Round trip, of maps. A map that was written as a message is read back as
/// it was, whatever the order in which its entries were written.
#[verifier::rlimit(40)]
pub proof fn law_map_round_trip<K: MojomLaws, V: MojomLaws>(
    map: Map<K, V>,
    keys: Seq<K>,
    vals: Seq<V>,
    buffer: Seq<u8>,
)
    requires
        keys_sound::<K>(),
        enumerates(map, keys, vals),
        entries_encodable(keys, vals),
        elements_canonical(keys),
        elements_canonical(vals),
        entries_size(keys, vals) <= buffer.len() <= usize::MAX,
        entries_handles(keys, vals).len() <= u32::MAX,
    ensures
        spec_map_message(keys, vals, buffer).end == entries_size(keys, vals),
        spec_map_message(keys, vals, buffer).handles == entries_handles(keys, vals),
        spec_decode_map_value::<K, V>(
            crate::mojom::spec_decoder(
                spec_map_message(keys, vals, buffer).buffer,
                spec_map_message(keys, vals, buffer).handles,
            ).claimed(0),
            Context { id: 0, offset: 0, is_union: false },
        ) is Value,
        spec_decode_map_value::<K, V>(
            crate::mojom::spec_decoder(
                spec_map_message(keys, vals, buffer).buffer,
                spec_map_message(keys, vals, buffer).handles,
            ).claimed(0),
            Context { id: 0, offset: 0, is_union: false },
        )->Value_1 == deep_map(map),
        !crate::mojom::spec_decoder(
            spec_map_message(keys, vals, buffer).buffer,
            spec_map_message(keys, vals, buffer).handles,
        ).claim_refused(0),
{
    let start = EncoderView { buffer, end: 0, handles: Seq::empty(), regions: 0 };
    let reserved = start.reserve(24);
    let fresh = fresh_region(map_header(), 0);
    crate::bits::lemma_align_up_fixed(24, 8);
    lemma_fresh_region(map_header(), 0);
    crate::cursor::lemma_splice(buffer, 0, crate::cursor::zeros(24));
    lemma_entries_encode(keys, vals, reserved, fresh);
    let filled = spec_encode_entries(keys, vals, reserved, fresh);
    let message = spec_map_message(keys, vals, buffer);
    crate::cursor::lemma_splice(filled.0.buffer, 0, filled.1.data);
    assert(message.handles =~= entries_handles(keys, vals));
    let decoder = crate::mojom::spec_decoder(message.buffer, message.handles);
    assert(decoder.buffer.subrange(0, filled.0.end as int) =~= filled.0.store(
        filled.1,
    ).buffer.subrange(0, filled.0.end as int));
    lemma_claim_region(start, map_header(), filled, decoder);
    let claimed = decoder.claimed(0);
    let root = Context { id: 0, offset: 0, is_union: false };
    assert(root == claim_context(decoder, 0));
    lemma_entries_round_trip(keys, vals, reserved, 0, claimed, root);
    lemma_map_from_enumeration(map, keys, vals);
    lemma_deep_map_from(keys, vals, keys.len());
    assert(keys.map_values(|k: K| k.deep_view()) =~= Seq::new(
        keys.len(),
        |i: int| keys[i].deep_view(),
    ));
    assert(vals.map_values(|v: V| v.deep_view()) =~= Seq::new(
        vals.len(),
        |i: int| vals[i].deep_view(),
    ));
}

/// The encoder that holds the message of a map whose entries are written in
/// the given order.
pub open spec fn spec_map_message<K: MojomEncodable, V: MojomEncodable>(
    keys: Seq<K>,
    vals: Seq<V>,
    buffer: Seq<u8>,
) -> EncoderView {
    let start = EncoderView { buffer, end: 0, handles: Seq::empty(), regions: 0 };
    let filled = spec_encode_entries(keys, vals, start.reserve(24), fresh_region(map_header(), 0));
    filled.0.store(filled.1)
}

} // verus!
