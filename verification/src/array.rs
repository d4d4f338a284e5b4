//! Arrays: a region that holds a header and the elements one behind the
//! other, each as it is embedded. Vectors, arrays of a fixed length and boxed
//! slices all lie in a message this way.

use crate::bits::{align_default, align_up, lemma_align_up, Bits};
use crate::cursor::Cursor;
use crate::data::ArrayHeader;
use crate::decoding::{
    spec_decode_pointer, stated_size, stated_word, Decoder, DecoderView, ValidationError,
};
use crate::encoding::{
    fresh_region, spec_pointer, Context, DataHeader, DataHeaderValue, Encoder, EncoderView,
    EncodingState,
};
use crate::laws::{
    decoder_wf, encoder_wf, lemma_as_pointer_encode, lemma_as_pointer_present,
    lemma_as_pointer_round_trip, lemma_claim_region, lemma_fresh_region, lemma_same_below_chain,
    lemma_same_below_earlier, lemma_same_header, read_back, reads_back, region_read_back,
    same_below, value_read_back, value_reads_back, MojomLaws, MojomPointerLaws, MojomPresent,
};
use crate::mojom::{
    claim_context, decode_as_pointer, decode_frame, decode_kept, encode_as_pointer, encode_ready,
    encode_step, layout_of, spec_decode_as_pointer, spec_encode_as_pointer, Decoded, MojomEncodable,
    MojomPointer, MojomType, MojomValue,
};
use crate::numeric::MojomNumeric;
use crate::system::UntypedHandle;
use vstd::prelude::*;

verus! {

/// The size in bytes of the region of an array of `len` elements of type `T`.
pub open spec fn array_bytes<T: MojomEncodable>(len: nat) -> nat {
    ArrayHeader::spec_size_for(len, T::spec_embed_size(false))
}

/// The bytes that the first `n` elements take in regions of their own.
pub open spec fn elements_size<T: MojomEncodable>(elems: Seq<T>, n: nat) -> nat
    decreases n,
{
    if n == 0 {
        0
    } else {
        elements_size(elems, (n - 1) as nat) + elems[n - 1].spec_compute_size(false)
    }
}

/// The handles that the first `n` elements own, in their order.
pub open spec fn elements_handles<T: MojomEncodable>(elems: Seq<T>, n: nat) -> Seq<UntypedHandle>
    decreases n,
{
    if n == 0 {
        Seq::empty()
    } else {
        elements_handles(elems, (n - 1) as nat) + elems[n - 1].spec_handles()
    }
}

/// Whether every element is written in one way only.
pub open spec fn elements_canonical<T: MojomEncodable>(elems: Seq<T>) -> bool {
    forall|i: int| 0 <= i < elems.len() ==> (#[trigger] elems[i]).spec_canonical()
}

/// Whether the elements can be written as an array: their number and the
/// size of their region fit the header, and each of them can be written.
pub open spec fn array_encodable<T: MojomEncodable>(elems: Seq<T>) -> bool {
    &&& elems.len() <= u32::MAX
    &&& array_bytes::<T>(elems.len()) <= u32::MAX
    &&& forall|i: int| 0 <= i < elems.len() ==> (#[trigger] elems[i]).spec_encodable(false)
}

/// The bytes that an array takes in the message: its region, rounded up to
/// 8, and what its elements take in regions of their own.
pub open spec fn array_compute_size<T: MojomEncodable>(elems: Seq<T>) -> nat {
    align_up(array_bytes::<T>(elems.len()), 8) + elements_size(elems, elems.len())
}

/// The header of the region of the array.
pub open spec fn array_header<T: MojomEncodable>(elems: Seq<T>) -> DataHeader {
    DataHeader {
        size: array_bytes::<T>(elems.len()) as usize,
        data: DataHeaderValue::Elements(elems.len() as u32),
    }
}

/// The encoder and the region after the first `n` elements were written, one
/// behind the other.
pub open spec fn spec_encode_elements<T: MojomEncodable>(
    elems: Seq<T>,
    n: nat,
    encoder: EncoderView,
    state: Cursor,
) -> (EncoderView, Cursor)
    decreases n,
{
    if n == 0 {
        (encoder, state)
    } else {
        let before = spec_encode_elements(elems, (n - 1) as nat, encoder, state);
        elems[n - 1].spec_encode(before.0, before.1, false)
    }
}

/// The encoder and the region after the array was written by pointer: the
/// elements in a region of their own behind its header, and the pointer to it
/// under the cursor.
pub open spec fn spec_encode_array<T: MojomEncodable>(
    elems: Seq<T>,
    encoder: EncoderView,
    state: Cursor,
) -> (EncoderView, Cursor) {
    let filled = spec_encode_elements(
        elems,
        elems.len(),
        encoder.reserve(array_bytes::<T>(elems.len())),
        fresh_region(array_header(elems), encoder.end),
    );
    (
        filled.0.store(filled.1),
        state.put(8, spec_pointer(state, encoder.end as u64).spec_wire_bytes()),
    )
}

/// The sizes of the first elements are part of the sizes of more of them.
pub proof fn lemma_elements_size<T: MojomEncodable>(elems: Seq<T>, i: nat, n: nat)
    requires
        i <= n,
    ensures
        elements_size(elems, i) <= elements_size(elems, n),
    decreases n,
{
    if i < n {
        lemma_elements_size(elems, i, (n - 1) as nat);
    }
}

/// The handles of the first elements are part of the handles of more of
/// them.
pub proof fn lemma_elements_handles<T: MojomEncodable>(elems: Seq<T>, i: nat, n: nat)
    requires
        i <= n,
    ensures
        elements_handles(elems, i).len() <= elements_handles(elems, n).len(),
    decreases n,
{
    if i < n {
        lemma_elements_handles(elems, i, (n - 1) as nat);
    }
}

/// The elements of an array lie one behind the other without a gap, and in
/// the region of the array: element `i` of `n` starts `i` times the bits of
/// an element behind the header, which is where it is aligned.
pub proof fn lemma_element_position(
    category: MojomType,
    align_bits: nat,
    bits: nat,
    i: nat,
    n: nat,
)
    requires
        layout_of(category, false, align_bits, bits),
        i < n,
    ensures
        align_up(64 + i * bits, align_bits) == 64 + i * bits,
        64 + i * bits + bits == 64 + (i + 1) * bits,
        64 + (i + 1) * bits <= 8 * ArrayHeader::spec_size_for(n, bits),
{
    let k = bits / align_bits;
    let m = 64nat / align_bits;
    assert(bits == k * align_bits && 64 == m * align_bits) by {
        if align_bits == 1 {
        } else if align_bits == 8 {
        } else if align_bits == 16 {
        } else if align_bits == 32 {
        } else {
            assert(align_bits == 64);
        }
    }
    assert(64 + i * bits == (m + i * k) * align_bits) by (nonlinear_arith)
        requires
            bits == k * align_bits,
            64 == m * align_bits,
    ;
    assert(0 <= m + i * k) by (nonlinear_arith)
        requires
            0 <= m,
            0 <= i,
            0 <= k,
    ;
    vstd::arithmetic::div_mod::lemma_mod_multiples_basic((m + i * k) as int, align_bits as int);
    assert(64 + i * bits + bits == 64 + (i + 1) * bits) by (nonlinear_arith);
    assert((i + 1) * bits <= n * bits) by (nonlinear_arith)
        requires
            i + 1 <= n,
            0 <= bits,
    ;
}

/// The size in bytes of the region of an array of `len` elements of type `T`.
pub fn array_serialized_size<T: MojomEncodable>(len: usize, context: &Context) -> (size: usize)
    requires
        array_bytes::<T>(len as nat) <= usize::MAX,
    ensures
        size == array_bytes::<T>(len as nat),
        8 <= size,
{
    let bits = T::embed_size(&Context::default()).0;
    assert((len as nat) * (bits as nat) <= 0x1_0000_0000_0000_0000 * 128) by (nonlinear_arith)
        requires
            len <= 0xFFFF_FFFF_FFFF_FFFF,
            bits <= 128,
    ;
    let total: u128 = (len as u128) * (bits as u128);
    (8 + (total + 7) / 8) as usize
}

/// Fills the region of an array: writes the elements one behind the other.
#[verifier::rlimit(40)]
pub fn encode_array_value<T: MojomEncodable>(
    elems: Vec<T>,
    encoder: &mut Encoder,
    state: &mut EncodingState,
    context: Context,
)
    requires
        array_encodable(elems@),
        !context.is_union,
        old(encoder).wf(),
        old(state).wf(),
        old(state)@.pos == 64,
        old(state)@.data.len() == array_bytes::<T>(elems@.len()),
        old(state)@.base + old(state)@.data.len() <= old(encoder)@.end,
        old(encoder)@.end + elements_size(elems@, elems@.len()) <= old(encoder)@.buffer.len(),
        old(encoder)@.handles.len() + elements_handles(elems@, elems@.len()).len() <= u32::MAX,
    ensures
        final(encoder).wf(),
        final(state).wf(),
        final(state)@.base == old(state)@.base,
        final(state)@.data.len() == old(state)@.data.len(),
        final(encoder)@.buffer.len() == old(encoder)@.buffer.len(),
        final(encoder)@.end == old(encoder)@.end + elements_size(elems@, elems@.len()),
        final(encoder)@.handles.len() == old(encoder)@.handles.len() + elements_handles(
            elems@,
            elems@.len(),
        ).len(),
        elements_canonical(elems@) ==> (final(encoder)@, final(state)@) == spec_encode_elements(
            elems@,
            elems@.len(),
            old(encoder)@,
            old(state)@,
        ),
        elements_canonical(elems@) ==> final(encoder)@.handles == old(encoder)@.handles
            + elements_handles(elems@, elems@.len()),
{
    let ghost all = elems@;
    let ghost n = all.len();
    let bits = T::embed_size(&context);
    for elem in it: elems.into_iter()
        invariant
            it.seq() == all,
            n == all.len(),
            array_encodable(all),
            !context.is_union,
            bits.0 == T::spec_embed_size(false),
            layout_of(T::spec_mojom_type(), false, T::spec_align_bits(), bits.0 as nat),
            encoder.wf(),
            state.wf(),
            state@.pos == 64 + it.index() * bits.0,
            state@.base == old(state)@.base,
            state@.data.len() == old(state)@.data.len(),
            old(state)@.data.len() == array_bytes::<T>(n),
            old(state)@.base + old(state)@.data.len() <= old(encoder)@.end,
            old(encoder)@.end + elements_size(all, n) <= old(encoder)@.buffer.len(),
            old(encoder)@.handles.len() + elements_handles(all, n).len() <= u32::MAX,
            encoder@.buffer.len() == old(encoder)@.buffer.len(),
            encoder@.end == old(encoder)@.end + elements_size(all, it.index() as nat),
            encoder@.handles.len() == old(encoder)@.handles.len() + elements_handles(
                all,
                it.index() as nat,
            ).len(),
            elements_canonical(all) ==> (encoder@, state@) == spec_encode_elements(
                all,
                it.index() as nat,
                old(encoder)@,
                old(state)@,
            ),
            elements_canonical(all) ==> encoder@.handles == old(encoder)@.handles
                + elements_handles(all, it.index() as nat),
    {
        proof {
            let i = it.index() as nat;
            lemma_element_position(
                T::spec_mojom_type(),
                T::spec_align_bits(),
                bits.0 as nat,
                i,
                n,
            );
            lemma_elements_size(all, i + 1, n);
            lemma_elements_handles(all, i + 1, n);
            assert(elem == all[i as int]);
        }
        elem.encode(encoder, state, context);
    }
}

/// The first `n` elements that are read one behind the other under the
/// cursor of the region of `context`, and the decoder behind them. The first
/// element that is refused, or of which nothing is said, decides.
pub open spec fn spec_decode_elements<T: MojomEncodable>(
    decoder: DecoderView,
    context: Context,
    n: nat,
) -> Decoded<Seq<T::V>>
    decreases n,
{
    if n == 0 {
        Decoded::Value(decoder, Seq::empty())
    } else {
        match spec_decode_elements::<T>(decoder, context, (n - 1) as nat) {
            Decoded::Value(before, values) => match T::spec_decode(before, context) {
                Decoded::Value(after, v) => Decoded::Value(after, values.push(v)),
                Decoded::Invalid(e) => Decoded::Invalid(e),
                Decoded::Undefined => Decoded::Undefined,
            },
            Decoded::Invalid(e) => Decoded::Invalid(e),
            Decoded::Undefined => Decoded::Undefined,
        }
    }
}

/// The array that the region of `context` holds. Its header is accepted
/// where the size it states is that of the header and of the elements it
/// counts, and where it counts `arity` elements, if an arity is given.
pub open spec fn spec_decode_array_value<T: MojomEncodable>(
    decoder: DecoderView,
    context: Context,
    arity: Option<nat>,
) -> Decoded<Seq<T::V>> {
    let state = decoder.state(context);
    let count = stated_word(state.data) as nat;
    if stated_size(state.data) != array_bytes::<T>(count) {
        Decoded::Invalid(ValidationError::UnexpectedArrayHeader)
    } else if arity.is_some() && arity.unwrap() != count {
        Decoded::Invalid(ValidationError::UnexpectedArrayHeader)
    } else {
        spec_decode_elements::<T>(
            decoder.with_state(context.id as int, Cursor { pos: 64, ..state }),
            context,
            count,
        )
    }
}

/// Once an element is refused, or nothing is said of it, the same holds of
/// every longer run of elements.
pub proof fn lemma_decode_elements_stuck<T: MojomEncodable>(
    decoder: DecoderView,
    context: Context,
    i: nat,
    n: nat,
)
    requires
        i <= n,
        !(spec_decode_elements::<T>(decoder, context, i) is Value),
    ensures
        spec_decode_elements::<T>(decoder, context, n) == spec_decode_elements::<T>(
            decoder,
            context,
            i,
        ),
    decreases n,
{
    if i < n {
        lemma_decode_elements_stuck::<T>(decoder, context, i, (n - 1) as nat);
    }
}

/// Reads the array of the region of `context`, which was claimed and not
/// read yet: its header, then as many elements as the header counts. Where
/// `arity` is given, the header must count as many.
pub fn decode_array_value<T: MojomEncodable>(
    decoder: &mut Decoder,
    context: Context,
    arity: Option<usize>,
) -> (value: Result<Vec<T>, ValidationError>)
    requires
        old(decoder).wf(),
        old(decoder)@.has(context),
        old(decoder)@.state(context).pos == 0,
        !context.is_union,
        !(spec_decode_array_value::<T>(
            old(decoder)@,
            context,
            match arity {
                Some(n) => Some(n as nat),
                None => None,
            },
        ) is Undefined),
    ensures
        final(decoder).wf(),
        decode_kept(old(decoder)@, final(decoder)@),
        match value {
            Ok(v) => {
                &&& spec_decode_array_value::<T>(
                    old(decoder)@,
                    context,
                    match arity {
                        Some(n) => Some(n as nat),
                        None => None,
                    },
                ) == Decoded::Value(final(decoder)@, v.deep_view())
                &&& decode_frame(old(decoder)@, final(decoder)@, context)
                &&& arity.is_some() ==> v@.len() == arity.unwrap()
            },
            Err(e) => spec_decode_array_value::<T>(
                old(decoder)@,
                context,
                match arity {
                    Some(n) => Some(n as nat),
                    None => None,
                },
            ) == Decoded::<Seq<T::V>>::Invalid(e),
        },
{
    let bits = T::embed_size(&context);
    let state = decoder.get_mut(&context);
    let count = match state.decode_array_header::<T>() {
        Ok(header) => header.data(),
        Err(err) => {
            return Err(err);
        },
    };
    match arity {
        Some(n) => {
            if count as usize != n {
                return Err(ValidationError::UnexpectedArrayHeader);
            }
        },
        None => {},
    }
    assert(decoder@ == old(decoder)@.with_state(
        context.id as int,
        Cursor { pos: 64, ..old(decoder)@.state(context) },
    ));
    decode_elements::<T>(decoder, context, count)
}

/// Reads `count` elements one behind the other under the cursor of the
/// region of `context`, which stands behind the header of an array of as
/// many elements.
#[verifier::rlimit(40)]
pub fn decode_elements<T: MojomEncodable>(decoder: &mut Decoder, context: Context, count: u32) -> (value:
    Result<Vec<T>, ValidationError>)
    requires
        old(decoder).wf(),
        old(decoder)@.has(context),
        !context.is_union,
        old(decoder)@.state(context).pos == 64,
        old(decoder)@.state(context).data.len() == array_bytes::<T>(count as nat),
        !(spec_decode_elements::<T>(old(decoder)@, context, count as nat) is Undefined),
    ensures
        final(decoder).wf(),
        decode_kept(old(decoder)@, final(decoder)@),
        match value {
            Ok(v) => {
                &&& spec_decode_elements::<T>(old(decoder)@, context, count as nat)
                    == Decoded::Value(final(decoder)@, v.deep_view())
                &&& decode_frame(old(decoder)@, final(decoder)@, context)
                &&& v@.len() == count
            },
            Err(e) => spec_decode_elements::<T>(old(decoder)@, context, count as nat)
                == Decoded::<Seq<T::V>>::Invalid(e),
        },
{
    let bits = T::embed_size(&context);
    let ghost start = decoder@;
    let ghost n = count as nat;
    let mut value: Vec<T> = Vec::new();
    assert(value.deep_view() =~= Seq::<T::V>::empty());
    let mut i: u32 = 0;
    while i < count
        invariant
            i <= count,
            n == count,
            !context.is_union,
            bits.0 == T::spec_embed_size(false),
            layout_of(T::spec_mojom_type(), false, T::spec_align_bits(), bits.0 as nat),
            decoder.wf(),
            start == old(decoder)@,
            start.has(context),
            start.state(context).pos == 64,
            start.state(context).data.len() == array_bytes::<T>(n),
            !(spec_decode_elements::<T>(start, context, n) is Undefined),
            spec_decode_elements::<T>(start, context, i as nat) == Decoded::Value(
                decoder@,
                value.deep_view(),
            ),
            value@.len() == i,
            decode_frame(start, decoder@, context),
            decode_kept(start, decoder@),
            decoder@.state(context).pos == 64 + i * bits.0,
        decreases count - i,
    {
        proof {
            lemma_element_position(
                T::spec_mojom_type(),
                T::spec_align_bits(),
                bits.0 as nat,
                i as nat,
                n,
            );
            if spec_decode_elements::<T>(start, context, (i + 1) as nat) is Undefined {
                lemma_decode_elements_stuck::<T>(start, context, (i + 1) as nat, n);
            }
        }
        let ghost before = decoder@;
        match T::decode(decoder, context) {
            Ok(elem) => {
                let ghost prior = value.deep_view();
                value.push(elem);
                assert(value.deep_view() =~= prior.push(elem.deep_view()));
                proof {
                    assert forall|j: int|
                        0 <= j < start.states.len() && j != context.id implies #[trigger] decoder@.states[j]
                        == start.states[j] by {
                        assert(before.states[j] == start.states[j]);
                    }
                }
            },
            Err(err) => {
                proof {
                    lemma_decode_elements_stuck::<T>(start, context, (i + 1) as nat, n);
                }
                return Err(err);
            },
        }
        i = i + 1;
    }
    Ok(value)
}

/// The decoder after it claimed the region of an array of elements of type
/// `T` at `offset` and read its header, and the number of elements that the
/// header counts.
pub open spec fn spec_claim_array<T: MojomEncodable>(decoder: DecoderView, offset: nat) -> Decoded<
    nat,
> {
    let claimed = decoder.claimed(offset);
    let region = claimed.state(claim_context(decoder, offset));
    if decoder.claim_refused(offset) {
        Decoded::Invalid(ValidationError::IllegalPointer)
    } else if stated_size(region.data) != array_bytes::<T>(stated_word(region.data) as nat) {
        Decoded::Invalid(ValidationError::UnexpectedArrayHeader)
    } else {
        Decoded::Value(
            claimed.with_state(decoder.states.len() as int, Cursor { pos: 64, ..region }),
            stated_word(region.data) as nat,
        )
    }
}

/// Claims the region of an array of elements of type `T` at `offset`, reads
/// its header, and returns the context of the region and the number of
/// elements that the header counts.
pub fn array_claim_and_decode_header<T: MojomEncodable>(decoder: &mut Decoder, offset: usize) -> (array:
    Result<(Context, usize), ValidationError>)
    requires
        old(decoder).wf(),
    ensures
        final(decoder).wf(),
        decode_kept(old(decoder)@, final(decoder)@),
        match array {
            Ok((context, count)) => {
                &&& spec_claim_array::<T>(old(decoder)@, offset as nat) == Decoded::Value(
                    final(decoder)@,
                    count as nat,
                )
                &&& context == claim_context(old(decoder)@, offset as nat)
                &&& context.id == old(decoder)@.states.len()
                &&& count <= u32::MAX
                &&& final(decoder)@.state(context).pos == 64
                &&& final(decoder)@.state(context).data.len() == array_bytes::<T>(count as nat)
            },
            Err(e) => spec_claim_array::<T>(old(decoder)@, offset as nat) == Decoded::<
                nat,
            >::Invalid(e),
        },
{
    let context = match decoder.claim(offset) {
        Ok(new_context) => new_context,
        Err(err) => {
            return Err(err);
        },
    };
    let bits = T::embed_size(&context);
    let elems = {
        let state = decoder.get_mut(&context);
        match state.decode_array_header::<T>() {
            Ok(header) => header.data(),
            Err(err) => {
                return Err(err);
            },
        }
    };
    Ok((context, elems as usize))
}

/// Moves the elements of an array into a vector, in their order. This is
/// `Vec::from` of std for an array, which allocates the vector and moves the
/// items of the array into it.
#[verifier::external_body]
fn array_into_vec<T, const N: usize>(array: [T; N]) -> (elems: Vec<T>)
    ensures
        elems@ == array@,
{
    Vec::from(array)
}

/// Moves the elements of a vector into an array of `N` elements, in their
/// order, if the vector holds as many. This is `TryFrom<Vec<T>>` of std for
/// an array, which gives the whole of the vector as an array where the sizes
/// match, and gives the vector back where they do not.
#[verifier::external_body]
fn vec_into_array<T, const N: usize>(elems: Vec<T>) -> (array: Option<[T; N]>)
    ensures
        array.is_some() <==> elems@.len() == N,
        array.is_some() ==> array.unwrap()@ == elems@,
{
    match <[T; N]>::try_from(elems) {
        Ok(array) => Some(array),
        Err(_) => None,
    }
}

/// Moves the elements of a vector into a boxed slice, in their order. This
/// is `Vec::into_boxed_slice` of std.
#[verifier::external_body]
fn vec_into_boxed_slice<T>(elems: Vec<T>) -> (slice: Box<[T]>)
    ensures
        slice@ == elems@,
{
    elems.into_boxed_slice()
}

/// The bytes that the elements of a slice take in the message as an array.
pub fn slice_size<T: MojomEncodable>(elems: &[T], context: Context) -> (size: usize)
    requires
        array_encodable(elems@),
        array_compute_size(elems@) <= usize::MAX,
    ensures
        size == array_compute_size(elems@),
{
    let n = elems.len();
    proof {
        lemma_align_up(array_bytes::<T>(n as nat), 8);
    }
    let mut size = align_default(array_serialized_size::<T>(n, &context));
    let mut i: usize = 0;
    while i < n
        invariant
            n == elems@.len(),
            i <= n,
            array_encodable(elems@),
            array_compute_size(elems@) <= usize::MAX,
            size == align_up(array_bytes::<T>(n as nat), 8) + elements_size(elems@, i as nat),
        decreases n - i,
    {
        proof {
            lemma_elements_size(elems@, (i + 1) as nat, n as nat);
        }
        size = size + elems[i].compute_size(Context::default());
        i = i + 1;
    }
    size
}

impl<T: MojomEncodable> MojomValue for Vec<T> {
    open spec fn spec_mojom_type() -> MojomType {
        MojomType::Pointer
    }

    open spec fn spec_align_bits() -> nat {
        64
    }

    open spec fn spec_embed_size(is_union: bool) -> nat {
        64
    }

    open spec fn spec_compute_size(&self, is_union: bool) -> nat {
        array_compute_size(self@)
    }

    open spec fn spec_handles(&self) -> Seq<UntypedHandle> {
        elements_handles(self@, self@.len())
    }

    open spec fn spec_encodable(&self, is_union: bool) -> bool {
        array_encodable(self@)
    }

    open spec fn spec_canonical(&self) -> bool {
        elements_canonical(self@)
    }
}

impl<T: MojomEncodable> MojomEncodable for Vec<T> {
    open spec fn spec_encode(&self, encoder: EncoderView, state: Cursor, is_union: bool) -> (
        EncoderView,
        Cursor,
    ) {
        spec_encode_as_pointer(self, encoder, state)
    }

    open spec fn spec_decode(decoder: DecoderView, context: Context) -> Decoded<Seq<T::V>> {
        spec_decode_as_pointer::<Self>(decoder, context)
    }

    fn mojom_type() -> (category: MojomType) {
        MojomType::Pointer
    }

    fn mojom_alignment() -> (alignment: usize) {
        8
    }

    fn embed_size(context: &Context) -> (bits: Bits) {
        Bits(64)
    }

    fn compute_size(&self, context: Context) -> (size: usize) {
        slice_size(self.as_slice(), context)
    }

    fn encode(self, encoder: &mut Encoder, state: &mut EncodingState, context: Context) {
        let ghost value = self;
        encode_as_pointer(self, encoder, state, context);
        assert(value.spec_canonical() ==> (encoder@, state@) == spec_encode_as_pointer(
            &value,
            old(encoder)@,
            old(state)@,
        ));
        assert(spec_encode_as_pointer(&value, old(encoder)@, old(state)@) == value.spec_encode(
            old(encoder)@,
            old(state)@,
            context.is_union,
        ));
    }

    fn decode(decoder: &mut Decoder, context: Context) -> (value: Result<Self, ValidationError>) {
        decode_as_pointer(decoder, context)
    }
}

impl<T: MojomEncodable> MojomPointer for Vec<T> {
    open spec fn spec_header_data(&self) -> DataHeaderValue {
        DataHeaderValue::Elements(self@.len() as u32)
    }

    open spec fn spec_serialized_size(&self) -> nat {
        array_bytes::<T>(self@.len())
    }

    open spec fn spec_encode_value(&self, encoder: EncoderView, state: Cursor) -> (
        EncoderView,
        Cursor,
    ) {
        spec_encode_elements(self@, self@.len(), encoder, state)
    }

    open spec fn spec_decode_value(decoder: DecoderView, context: Context) -> Decoded<Seq<T::V>> {
        spec_decode_array_value::<T>(decoder, context, None)
    }

    fn header_data(&self) -> (data: DataHeaderValue) {
        DataHeaderValue::Elements(#[verifier::truncate] (self.len() as u32))
    }

    fn serialized_size(&self, context: &Context) -> (size: usize) {
        proof {
            lemma_align_up(array_bytes::<T>(self@.len()), 8);
        }
        array_serialized_size::<T>(self.len(), context)
    }

    fn encode_value(self, encoder: &mut Encoder, state: &mut EncodingState, context: Context) {
        encode_array_value(self, encoder, state, context)
    }

    fn decode_value(decoder: &mut Decoder, context: Context) -> (value: Result<
        Self,
        ValidationError,
    >) {
        match decode_array_value::<T>(decoder, context, None) {
            Ok(elems) => Ok(elems),
            Err(err) => Err(err),
        }
    }
}

impl<T: MojomEncodable, const N: usize> MojomValue for [T; N] {
    open spec fn spec_mojom_type() -> MojomType {
        MojomType::Pointer
    }

    open spec fn spec_align_bits() -> nat {
        64
    }

    open spec fn spec_embed_size(is_union: bool) -> nat {
        64
    }

    open spec fn spec_compute_size(&self, is_union: bool) -> nat {
        array_compute_size(self@)
    }

    open spec fn spec_handles(&self) -> Seq<UntypedHandle> {
        elements_handles(self@, self@.len())
    }

    open spec fn spec_encodable(&self, is_union: bool) -> bool {
        array_encodable(self@)
    }

    open spec fn spec_canonical(&self) -> bool {
        elements_canonical(self@)
    }
}

impl<T: MojomEncodable, const N: usize> MojomEncodable for [T; N] {
    open spec fn spec_encode(&self, encoder: EncoderView, state: Cursor, is_union: bool) -> (
        EncoderView,
        Cursor,
    ) {
        spec_encode_as_pointer(self, encoder, state)
    }

    open spec fn spec_decode(decoder: DecoderView, context: Context) -> Decoded<Seq<T::V>> {
        spec_decode_as_pointer::<Self>(decoder, context)
    }

    fn mojom_type() -> (category: MojomType) {
        MojomType::Pointer
    }

    fn mojom_alignment() -> (alignment: usize) {
        8
    }

    fn embed_size(context: &Context) -> (bits: Bits) {
        Bits(64)
    }

    fn compute_size(&self, context: Context) -> (size: usize) {
        slice_size(self.as_slice(), context)
    }

    fn encode(self, encoder: &mut Encoder, state: &mut EncodingState, context: Context) {
        let ghost value = self;
        encode_as_pointer(self, encoder, state, context);
        assert(value.spec_canonical() ==> (encoder@, state@) == spec_encode_as_pointer(
            &value,
            old(encoder)@,
            old(state)@,
        ));
        assert(spec_encode_as_pointer(&value, old(encoder)@, old(state)@) == value.spec_encode(
            old(encoder)@,
            old(state)@,
            context.is_union,
        ));
    }

    fn decode(decoder: &mut Decoder, context: Context) -> (value: Result<Self, ValidationError>) {
        decode_as_pointer(decoder, context)
    }
}

impl<T: MojomEncodable, const N: usize> MojomPointer for [T; N] {
    open spec fn spec_header_data(&self) -> DataHeaderValue {
        DataHeaderValue::Elements(self@.len() as u32)
    }

    open spec fn spec_serialized_size(&self) -> nat {
        array_bytes::<T>(self@.len())
    }

    open spec fn spec_encode_value(&self, encoder: EncoderView, state: Cursor) -> (
        EncoderView,
        Cursor,
    ) {
        spec_encode_elements(self@, self@.len(), encoder, state)
    }

    open spec fn spec_decode_value(decoder: DecoderView, context: Context) -> Decoded<Seq<T::V>> {
        spec_decode_array_value::<T>(decoder, context, Some(N as nat))
    }

    fn header_data(&self) -> (data: DataHeaderValue) {
        DataHeaderValue::Elements(#[verifier::truncate] (self.len() as u32))
    }

    fn serialized_size(&self, context: &Context) -> (size: usize) {
        proof {
            lemma_align_up(array_bytes::<T>(self@.len()), 8);
        }
        array_serialized_size::<T>(self.len(), context)
    }

    fn encode_value(self, encoder: &mut Encoder, state: &mut EncodingState, context: Context) {
        encode_array_value(array_into_vec(self), encoder, state, context)
    }

    fn decode_value(decoder: &mut Decoder, context: Context) -> (value: Result<
        Self,
        ValidationError,
    >) {
        match decode_array_value::<T>(decoder, context, Some(N)) {
            Ok(elems) => {
                match vec_into_array::<T, N>(elems) {
                    Some(array) => {
                        assert(array.deep_view() =~= elems.deep_view());
                        Ok(array)
                    },
                    None => Err(ValidationError::UnexpectedArrayHeader),
                }
            },
            Err(err) => Err(err),
        }
    }
}

impl<T: MojomEncodable> MojomValue for Box<[T]> {
    open spec fn spec_mojom_type() -> MojomType {
        MojomType::Pointer
    }

    open spec fn spec_align_bits() -> nat {
        64
    }

    open spec fn spec_embed_size(is_union: bool) -> nat {
        64
    }

    open spec fn spec_compute_size(&self, is_union: bool) -> nat {
        array_compute_size(self@)
    }

    open spec fn spec_handles(&self) -> Seq<UntypedHandle> {
        elements_handles(self@, self@.len())
    }

    open spec fn spec_encodable(&self, is_union: bool) -> bool {
        array_encodable(self@)
    }

    open spec fn spec_canonical(&self) -> bool {
        elements_canonical(self@)
    }
}

impl<T: MojomEncodable> MojomEncodable for Box<[T]> {
    open spec fn spec_encode(&self, encoder: EncoderView, state: Cursor, is_union: bool) -> (
        EncoderView,
        Cursor,
    ) {
        spec_encode_as_pointer(self, encoder, state)
    }

    open spec fn spec_decode(decoder: DecoderView, context: Context) -> Decoded<Seq<T::V>> {
        spec_decode_as_pointer::<Self>(decoder, context)
    }

    fn mojom_type() -> (category: MojomType) {
        MojomType::Pointer
    }

    fn mojom_alignment() -> (alignment: usize) {
        8
    }

    fn embed_size(context: &Context) -> (bits: Bits) {
        Bits(64)
    }

    fn compute_size(&self, context: Context) -> (size: usize) {
        slice_size(self, context)
    }

    fn encode(self, encoder: &mut Encoder, state: &mut EncodingState, context: Context) {
        let ghost value = self;
        encode_as_pointer(self, encoder, state, context);
        assert(value.spec_canonical() ==> (encoder@, state@) == spec_encode_as_pointer(
            &value,
            old(encoder)@,
            old(state)@,
        ));
        assert(spec_encode_as_pointer(&value, old(encoder)@, old(state)@) == value.spec_encode(
            old(encoder)@,
            old(state)@,
            context.is_union,
        ));
    }

    fn decode(decoder: &mut Decoder, context: Context) -> (value: Result<Self, ValidationError>) {
        decode_as_pointer(decoder, context)
    }
}

impl<T: MojomEncodable> MojomPointer for Box<[T]> {
    open spec fn spec_header_data(&self) -> DataHeaderValue {
        DataHeaderValue::Elements(self@.len() as u32)
    }

    open spec fn spec_serialized_size(&self) -> nat {
        array_bytes::<T>(self@.len())
    }

    open spec fn spec_encode_value(&self, encoder: EncoderView, state: Cursor) -> (
        EncoderView,
        Cursor,
    ) {
        spec_encode_elements(self@, self@.len(), encoder, state)
    }

    open spec fn spec_decode_value(decoder: DecoderView, context: Context) -> Decoded<Seq<T::V>> {
        spec_decode_array_value::<T>(decoder, context, None)
    }

    fn header_data(&self) -> (data: DataHeaderValue) {
        DataHeaderValue::Elements(#[verifier::truncate] (self.len() as u32))
    }

    fn serialized_size(&self, context: &Context) -> (size: usize) {
        proof {
            lemma_align_up(array_bytes::<T>(self@.len()), 8);
        }
        array_serialized_size::<T>(self.len(), context)
    }

    fn encode_value(self, encoder: &mut Encoder, state: &mut EncodingState, context: Context) {
        encode_array_value(self.into_vec(), encoder, state, context)
    }

    fn decode_value(decoder: &mut Decoder, context: Context) -> (value: Result<
        Self,
        ValidationError,
    >) {
        match decode_array_value::<T>(decoder, context, None) {
            Ok(elems) => {
                let slice = vec_into_boxed_slice(elems);
                assert(slice.deep_view() =~= elems.deep_view());
                Ok(slice)
            },
            Err(err) => Err(err),
        }
    }
}

/// What the encoder and the region are after the first `n` elements were
/// written: the cursor stands behind `n` elements, as many bytes were handed
/// out as the elements take in regions of their own, their handles were
/// taken in their order, and what was written before is as it was.
pub open spec fn elements_written<T: MojomEncodable>(
    elems: Seq<T>,
    n: nat,
    encoder: EncoderView,
    state: Cursor,
    written: (EncoderView, Cursor),
) -> bool {
    &&& encoder_wf(written.0)
    &&& written.1.wf()
    &&& written.1.base == state.base
    &&& written.1.data.len() == state.data.len()
    &&& written.1.pos == 64 + n * T::spec_embed_size(false)
    &&& written.0.buffer.len() == encoder.buffer.len()
    &&& written.0.end == encoder.end + elements_size(elems, n)
    &&& written.0.handles == encoder.handles + elements_handles(elems, n)
    &&& same_below(written.1.data, state.data, 64)
    &&& written.0.buffer.take(encoder.end as int) == encoder.buffer.take(encoder.end as int)
}

/// Whether the elements can be written into the region under `state` with
/// `encoder`.
pub open spec fn elements_ready<T: MojomEncodable>(
    elems: Seq<T>,
    encoder: EncoderView,
    state: Cursor,
) -> bool {
    &&& array_encodable(elems)
    &&& elements_canonical(elems)
    &&& encoder_wf(encoder)
    &&& state.wf()
    &&& state.pos == 64
    &&& state.data.len() == array_bytes::<T>(elems.len())
    &&& state.base + state.data.len() <= encoder.end
    &&& encoder.end + elements_size(elems, elems.len()) <= encoder.buffer.len()
    &&& encoder.handles.len() + elements_handles(elems, elems.len()).len() <= u32::MAX
}

/// Element `n` of the elements can be written behind the first `n` of them.
pub proof fn lemma_element_ready<T: MojomLaws>(
    elems: Seq<T>,
    n: nat,
    encoder: EncoderView,
    state: Cursor,
)
    requires
        elements_ready(elems, encoder, state),
        n < elems.len(),
        elements_written(elems, n, encoder, state, spec_encode_elements(elems, n, encoder, state)),
    ensures
        encode_ready(
            spec_encode_elements(elems, n, encoder, state).0,
            spec_encode_elements(elems, n, encoder, state).1,
            T::spec_align_bits(),
            T::spec_embed_size(false),
            elems[n as int].spec_compute_size(false),
            elems[n as int].spec_handles().len(),
        ),
        spec_encode_elements(elems, n, encoder, state).1.after(
            T::spec_align_bits(),
            T::spec_embed_size(false),
        ) == 64 + (n + 1) * T::spec_embed_size(false),
{
    T::lemma_layout(false);
    lemma_element_position(
        T::spec_mojom_type(),
        T::spec_align_bits(),
        T::spec_embed_size(false),
        n,
        elems.len(),
    );
    lemma_elements_size(elems, n + 1, elems.len());
    lemma_elements_handles(elems, n + 1, elems.len());
}

/// What writing the first `n` elements does.
#[verifier::rlimit(40)]
pub proof fn lemma_elements_encode<T: MojomLaws>(
    elems: Seq<T>,
    n: nat,
    encoder: EncoderView,
    state: Cursor,
)
    requires
        elements_ready(elems, encoder, state),
        n <= elems.len(),
    ensures
        elements_written(elems, n, encoder, state, spec_encode_elements(elems, n, encoder, state)),
    decreases n,
{
    if n == 0 {
        assert(encoder.handles + elements_handles(elems, 0) =~= encoder.handles);
    } else {
        let m = (n - 1) as nat;
        lemma_elements_encode(elems, m, encoder, state);
        lemma_element_ready(elems, m, encoder, state);
        let before = spec_encode_elements(elems, m, encoder, state);
        let elem = elems[m as int];
        elem.lemma_encode(before.0, before.1, false);
        let written = spec_encode_elements(elems, n, encoder, state);
        lemma_same_below_earlier(written.1.data, before.1.data, before.1.pos, 64);
        lemma_same_below_chain(written.1.data, before.1.data, state.data, 64);
        assert(written.0.handles =~= encoder.handles + elements_handles(elems, n));
        crate::laws::lemma_take_chain(
            written.0.buffer,
            before.0.buffer,
            encoder.buffer,
            encoder.end,
            before.0.end,
        );
    }
}

/// The first `n` elements that were written are read back as they were.
#[verifier::rlimit(40)]
pub proof fn lemma_elements_round_trip<T: MojomLaws>(
    elems: Seq<T>,
    n: nat,
    encoder: EncoderView,
    state: Cursor,
    decoder: DecoderView,
    context: Context,
)
    requires
        elements_ready(elems, encoder, state),
        n <= elems.len(),
        !context.is_union,
        reads_back(
            encoder,
            state,
            spec_encode_elements(elems, n, encoder, state),
            decoder,
            context,
            1,
        ),
    ensures
        spec_decode_elements::<T>(decoder, context, n) is Value,
        spec_decode_elements::<T>(decoder, context, n)->Value_1 == Seq::new(
            n,
            |i: int| elems[i].deep_view(),
        ),
        read_back(
            encoder,
            spec_encode_elements(elems, n, encoder, state),
            decoder,
            context,
            spec_decode_elements::<T>(decoder, context, n)->Value_0,
        ),
    decreases n,
{
    lemma_elements_encode(elems, n, encoder, state);
    if n == 0 {
        assert(spec_decode_elements::<T>(decoder, context, 0)->Value_1 =~= Seq::new(
            0,
            |i: int| elems[i].deep_view(),
        ));
    } else {
        let m = (n - 1) as nat;
        lemma_elements_encode(elems, m, encoder, state);
        lemma_element_ready(elems, m, encoder, state);
        let before = spec_encode_elements(elems, m, encoder, state);
        let elem = elems[m as int];
        elem.lemma_encode(before.0, before.1, false);
        let written = spec_encode_elements(elems, n, encoder, state);
        let reader = decoder.state(context);
        // the decoder stands where the first elements were written
        assert(reads_back(encoder, state, before, decoder, context, 1)) by {
            lemma_same_below_earlier(reader.data, written.1.data, written.1.pos, before.1.pos);
            lemma_same_below_chain(reader.data, written.1.data, before.1.data, before.1.pos);
            assert(decoder.buffer.subrange(encoder.end as int, before.0.end as int)
                =~= before.0.buffer.subrange(encoder.end as int, before.0.end as int)) by {
                assert forall|i: int| encoder.end <= i < before.0.end implies decoder.buffer[i]
                    == before.0.buffer[i] by {
                    assert(decoder.buffer.subrange(encoder.end as int, written.0.end as int)[i
                        - encoder.end] == written.0.buffer.subrange(
                        encoder.end as int,
                        written.0.end as int,
                    )[i - encoder.end]);
                    assert(written.0.buffer.take(before.0.end as int)[i] == before.0.buffer.take(
                        before.0.end as int,
                    )[i]);
                }
            }
            assert forall|i: int|
                encoder.handles.len() <= i < before.0.handles.len() implies #[trigger] decoder.handles[i]
                == Some(before.0.handles[i]) by {
                assert(written.0.handles[i] == before.0.handles[i]);
            }
        }
        lemma_elements_round_trip(elems, m, encoder, state, decoder, context);
        let behind = spec_decode_elements::<T>(decoder, context, m)->Value_0;
        // and then where the next element was written
        assert(reads_back(before.0, before.1, written, behind, context, T::spec_align_bits()))
            by {
            assert(behind.buffer.subrange(before.0.end as int, written.0.end as int)
                =~= written.0.buffer.subrange(before.0.end as int, written.0.end as int)) by {
                assert forall|i: int| before.0.end <= i < written.0.end implies behind.buffer[i]
                    == written.0.buffer[i] by {
                    assert(decoder.buffer.subrange(encoder.end as int, written.0.end as int)[i
                        - encoder.end] == written.0.buffer.subrange(
                        encoder.end as int,
                        written.0.end as int,
                    )[i - encoder.end]);
                }
            }
        }
        elem.lemma_round_trip(before.0, before.1, behind, context);
        let after = T::spec_decode(behind, context)->Value_0;
        assert(spec_decode_elements::<T>(decoder, context, n)->Value_1 =~= Seq::new(
            n,
            |i: int| elems[i].deep_view(),
        ));
        assert forall|i: int|
            0 <= i < decoder.states.len() && i != context.id implies #[trigger] after.states[i]
            == decoder.states[i] by {
            assert(behind.states[i] == decoder.states[i]);
        }
        assert forall|i: int| 0 <= i < decoder.handles.len() implies #[trigger] after.handles[i]
            == if encoder.handles.len() <= i < written.0.handles.len() {
            None
        } else {
            decoder.handles[i]
        } by {
            assert(behind.handles[i] == if encoder.handles.len() <= i < before.0.handles.len() {
                None
            } else {
                decoder.handles[i]
            });
        }
    }
}

/// What filling the region of an array does.
pub proof fn lemma_array_value_encode<T: MojomLaws>(
    elems: Seq<T>,
    encoder: EncoderView,
    state: Cursor,
)
    requires
        array_encodable(elems),
        elements_canonical(elems),
        encoder_wf(encoder),
        state.wf(),
        state.pos == 64,
        state.data.len() == array_bytes::<T>(elems.len()),
        state.base + state.data.len() <= encoder.end,
        encoder.end + array_compute_size(elems) - align_up(array_bytes::<T>(elems.len()), 8)
            <= encoder.buffer.len(),
        encoder.handles.len() + elements_handles(elems, elems.len()).len() <= u32::MAX,
    ensures
        elements_written(
            elems,
            elems.len(),
            encoder,
            state,
            spec_encode_elements(elems, elems.len(), encoder, state),
        ),
{
    lemma_elements_encode(elems, elems.len(), encoder, state);
}

/// The region of an array that was written holds the array.
#[verifier::rlimit(40)]
pub proof fn lemma_array_value_round_trip<T: MojomLaws>(
    elems: Seq<T>,
    encoder: EncoderView,
    base: nat,
    decoder: DecoderView,
    context: Context,
    arity: Option<nat>,
)
    requires
        array_encodable(elems),
        elements_canonical(elems),
        arity.is_some() ==> arity.unwrap() == elems.len(),
        encoder_wf(encoder),
        base % 8 == 0,
        base + array_bytes::<T>(elems.len()) <= encoder.end,
        encoder.end + array_compute_size(elems) - align_up(array_bytes::<T>(elems.len()), 8)
            <= encoder.buffer.len(),
        encoder.handles.len() + elements_handles(elems, elems.len()).len() <= u32::MAX,
        value_reads_back(
            encoder,
            spec_encode_elements(
                elems,
                elems.len(),
                encoder,
                fresh_region(array_header(elems), base),
            ),
            decoder,
            context,
        ),
    ensures
        spec_decode_array_value::<T>(decoder, context, arity) is Value,
        spec_decode_array_value::<T>(decoder, context, arity)->Value_1 == Seq::new(
            elems.len(),
            |i: int| elems[i].deep_view(),
        ),
        value_read_back(
            encoder,
            spec_encode_elements(
                elems,
                elems.len(),
                encoder,
                fresh_region(array_header(elems), base),
            ),
            decoder,
            context,
            spec_decode_array_value::<T>(decoder, context, arity)->Value_0,
        ),
{
    let header = array_header(elems);
    let fresh = fresh_region(header, base);
    lemma_fresh_region(header, base);
    lemma_elements_encode(elems, elems.len(), encoder, fresh);
    let written = spec_encode_elements(elems, elems.len(), encoder, fresh);
    lemma_same_header(written.1.data, fresh.data);
    let state = decoder.state(context);
    let behind = decoder.with_state(context.id as int, Cursor { pos: 64, ..state });
    assert(reads_back(encoder, fresh, written, behind, context, 1)) by {
        assert(behind.state(context).data == written.1.data);
    }
    lemma_elements_round_trip(elems, elems.len(), encoder, fresh, behind, context);
    let after = spec_decode_elements::<T>(behind, context, elems.len())->Value_0;
    assert forall|i: int|
        0 <= i < decoder.states.len() && i != context.id implies #[trigger] after.states[i]
        == decoder.states[i] by {
        assert(behind.states[i] == decoder.states[i]);
    }
}

impl<T: MojomLaws> MojomPointerLaws for Vec<T> {
    proof fn lemma_size(&self) {
        lemma_align_up(array_bytes::<T>(self@.len()), 8);
    }

    proof fn lemma_value_encode(&self, encoder: EncoderView, state: Cursor) {
        lemma_array_value_encode(self@, encoder, state);
    }

    proof fn lemma_value_round_trip(
        &self,
        encoder: EncoderView,
        base: nat,
        decoder: DecoderView,
        context: Context,
    ) {
        lemma_array_value_round_trip(self@, encoder, base, decoder, context, None);
        assert(self.deep_view() =~= Seq::new(self@.len(), |i: int| self@[i].deep_view()));
    }
}

impl<T: MojomLaws> MojomLaws for Vec<T> {
    proof fn lemma_layout(is_union: bool) {
    }

    proof fn lemma_encode(&self, encoder: EncoderView, state: Cursor, is_union: bool) {
        lemma_as_pointer_encode(self, encoder, state);
    }

    proof fn lemma_round_trip(
        &self,
        encoder: EncoderView,
        state: Cursor,
        decoder: DecoderView,
        context: Context,
    ) {
        lemma_as_pointer_round_trip(self, encoder, state, decoder, context);
    }
}

impl<T: MojomLaws, const N: usize> MojomPointerLaws for [T; N] {
    proof fn lemma_size(&self) {
        lemma_align_up(array_bytes::<T>(self@.len()), 8);
    }

    proof fn lemma_value_encode(&self, encoder: EncoderView, state: Cursor) {
        lemma_array_value_encode(self@, encoder, state);
    }

    proof fn lemma_value_round_trip(
        &self,
        encoder: EncoderView,
        base: nat,
        decoder: DecoderView,
        context: Context,
    ) {
        lemma_array_value_round_trip(self@, encoder, base, decoder, context, Some(N as nat));
        assert(self.deep_view() =~= Seq::new(self@.len(), |i: int| self@[i].deep_view()));
    }
}

impl<T: MojomLaws, const N: usize> MojomLaws for [T; N] {
    proof fn lemma_layout(is_union: bool) {
    }

    proof fn lemma_encode(&self, encoder: EncoderView, state: Cursor, is_union: bool) {
        lemma_as_pointer_encode(self, encoder, state);
    }

    proof fn lemma_round_trip(
        &self,
        encoder: EncoderView,
        state: Cursor,
        decoder: DecoderView,
        context: Context,
    ) {
        lemma_as_pointer_round_trip(self, encoder, state, decoder, context);
    }
}

impl<T: MojomLaws> MojomPointerLaws for Box<[T]> {
    proof fn lemma_size(&self) {
        lemma_align_up(array_bytes::<T>(self@.len()), 8);
    }

    proof fn lemma_value_encode(&self, encoder: EncoderView, state: Cursor) {
        lemma_array_value_encode(self@, encoder, state);
    }

    proof fn lemma_value_round_trip(
        &self,
        encoder: EncoderView,
        base: nat,
        decoder: DecoderView,
        context: Context,
    ) {
        lemma_array_value_round_trip(self@, encoder, base, decoder, context, None);
        assert(self.deep_view() =~= Seq::new(self@.len(), |i: int| self@[i].deep_view()));
    }
}

impl<T: MojomLaws> MojomLaws for Box<[T]> {
    proof fn lemma_layout(is_union: bool) {
    }

    proof fn lemma_encode(&self, encoder: EncoderView, state: Cursor, is_union: bool) {
        lemma_as_pointer_encode(self, encoder, state);
    }

    proof fn lemma_round_trip(
        &self,
        encoder: EncoderView,
        state: Cursor,
        decoder: DecoderView,
        context: Context,
    ) {
        lemma_as_pointer_round_trip(self, encoder, state, decoder, context);
    }
}

impl<T: MojomLaws> MojomPresent for Vec<T> {
    proof fn lemma_present(&self, encoder: EncoderView, state: Cursor, is_union: bool) {
        lemma_as_pointer_present(self, encoder, state);
    }

    proof fn lemma_not_simple() {
    }

    proof fn lemma_null_refused(decoder: DecoderView, context: Context) {
    }
}

impl<T: MojomLaws, const N: usize> MojomPresent for [T; N] {
    proof fn lemma_present(&self, encoder: EncoderView, state: Cursor, is_union: bool) {
        lemma_as_pointer_present(self, encoder, state);
    }

    proof fn lemma_not_simple() {
    }

    proof fn lemma_null_refused(decoder: DecoderView, context: Context) {
    }
}

impl<T: MojomLaws> MojomPresent for Box<[T]> {
    proof fn lemma_present(&self, encoder: EncoderView, state: Cursor, is_union: bool) {
        lemma_as_pointer_present(self, encoder, state);
    }

    proof fn lemma_not_simple() {
    }

    proof fn lemma_null_refused(decoder: DecoderView, context: Context) {
    }
}

/// Reading elements of a type that is read from every message is defined
/// for every message.
pub proof fn lemma_elements_defined<T: crate::laws::MojomTotal>(
    decoder: DecoderView,
    context: Context,
    n: nat,
)
    ensures
        !(spec_decode_elements::<T>(decoder, context, n) is Undefined),
    decreases n,
{
    if n > 0 {
        lemma_elements_defined::<T>(decoder, context, (n - 1) as nat);
        match spec_decode_elements::<T>(decoder, context, (n - 1) as nat) {
            Decoded::Value(before, _) => {
                T::lemma_defined(before, context);
            },
            _ => {},
        }
    }
}

/// Reading an array of elements of a type that is read from every message
/// is defined for every message.
pub proof fn lemma_array_defined<T: crate::laws::MojomTotal>(
    decoder: DecoderView,
    context: Context,
    arity: Option<nat>,
)
    ensures
        !(spec_decode_array_value::<T>(decoder, context, arity) is Undefined),
{
    let state = decoder.state(context);
    lemma_elements_defined::<T>(
        decoder.with_state(context.id as int, Cursor { pos: 64, ..state }),
        context,
        stated_word(state.data) as nat,
    );
}

impl<T: crate::laws::MojomTotal> crate::laws::MojomTotal for Vec<T> {
    proof fn lemma_defined(decoder: DecoderView, context: Context) {
        let moved = decoder.with_state(context.id as int, decoder.state(context).skip(8, 8));
        match spec_decode_pointer(decoder.state(context), decoder.buffer.len()) {
            Ok(Some(pointer)) => {
                lemma_array_defined::<T>(
                    moved.claimed(pointer as nat),
                    claim_context(moved, pointer as nat),
                    None,
                );
            },
            _ => {},
        }
    }
}

impl<T: crate::laws::MojomTotal> crate::laws::MojomValueTotal for Vec<T> {
    proof fn lemma_value_defined(decoder: DecoderView, context: Context) {
        lemma_array_defined::<T>(decoder, context, None);
    }
}

impl<T: crate::laws::MojomTotal, const N: usize> crate::laws::MojomTotal for [T; N] {
    proof fn lemma_defined(decoder: DecoderView, context: Context) {
        let moved = decoder.with_state(context.id as int, decoder.state(context).skip(8, 8));
        match spec_decode_pointer(decoder.state(context), decoder.buffer.len()) {
            Ok(Some(pointer)) => {
                lemma_array_defined::<T>(
                    moved.claimed(pointer as nat),
                    claim_context(moved, pointer as nat),
                    Some(N as nat),
                );
            },
            _ => {},
        }
    }
}

impl<T: crate::laws::MojomTotal, const N: usize> crate::laws::MojomValueTotal for [T; N] {
    proof fn lemma_value_defined(decoder: DecoderView, context: Context) {
        lemma_array_defined::<T>(decoder, context, Some(N as nat));
    }
}

impl<T: crate::laws::MojomTotal> crate::laws::MojomTotal for Box<[T]> {
    proof fn lemma_defined(decoder: DecoderView, context: Context) {
        let moved = decoder.with_state(context.id as int, decoder.state(context).skip(8, 8));
        match spec_decode_pointer(decoder.state(context), decoder.buffer.len()) {
            Ok(Some(pointer)) => {
                lemma_array_defined::<T>(
                    moved.claimed(pointer as nat),
                    claim_context(moved, pointer as nat),
                    None,
                );
            },
            _ => {},
        }
    }
}

impl<T: crate::laws::MojomTotal> crate::laws::MojomValueTotal for Box<[T]> {
    proof fn lemma_value_defined(decoder: DecoderView, context: Context) {
        lemma_array_defined::<T>(decoder, context, None);
    }
}

/// What writing an array by pointer does: the cursor moves behind the
/// pointer, the region of the array and what its elements take in regions of
/// their own are handed out, the handles of the elements are taken, and what
/// was written before is as it was.
#[verifier::rlimit(40)]
pub proof fn lemma_array_encode<T: MojomLaws>(elems: Seq<T>, encoder: EncoderView, state: Cursor)
    requires
        array_encodable(elems),
        elements_canonical(elems),
        encoder_wf(encoder),
        state.wf(),
        encode_ready(
            encoder,
            state,
            64,
            64,
            array_compute_size(elems),
            elements_handles(elems, elems.len()).len(),
        ),
    ensures
        elements_written(
            elems,
            elems.len(),
            encoder.reserve(array_bytes::<T>(elems.len())),
            fresh_region(array_header(elems), encoder.end),
            spec_encode_elements(
                elems,
                elems.len(),
                encoder.reserve(array_bytes::<T>(elems.len())),
                fresh_region(array_header(elems), encoder.end),
            ),
        ),
        encoder_wf(spec_encode_array(elems, encoder, state).0),
        spec_encode_array(elems, encoder, state).1.wf(),
        encode_step(
            encoder,
            state,
            spec_encode_array(elems, encoder, state).0,
            spec_encode_array(elems, encoder, state).1,
            64,
            64,
            array_compute_size(elems),
            elements_handles(elems, elems.len()).len(),
        ),
        spec_encode_array(elems, encoder, state).0.handles == encoder.handles + elements_handles(
            elems,
            elems.len(),
        ),
        same_below(spec_encode_array(elems, encoder, state).1.data, state.data, state.pos),
        spec_encode_array(elems, encoder, state).0.buffer.take(encoder.end as int)
            == encoder.buffer.take(encoder.end as int),
{
    let size = array_bytes::<T>(elems.len());
    let header = array_header(elems);
    let reserved = encoder.reserve(size);
    let fresh = fresh_region(header, encoder.end);
    lemma_align_up(size, 8);
    lemma_fresh_region(header, encoder.end);
    crate::cursor::lemma_splice(
        encoder.buffer,
        encoder.end as int,
        crate::cursor::zeros(align_up(size, 8)),
    );
    assert(reserved.end % 8 == 0) by {
        assert(align_up(size, 8) % 8 == 0);
    }
    lemma_elements_encode(elems, elems.len(), reserved, fresh);
    let filled = spec_encode_elements(elems, elems.len(), reserved, fresh);
    let written = spec_encode_array(elems, encoder, state);
    crate::cursor::lemma_splice(filled.0.buffer, encoder.end as int, filled.1.data);
    let pointer = spec_pointer(state, encoder.end as u64);
    pointer.lemma_wire_bytes();
    crate::laws::lemma_put(state, 8, pointer.spec_wire_bytes());
    assert(written.0.buffer.take(encoder.end as int) =~= encoder.buffer.take(encoder.end as int))
        by {
        assert forall|i: int| 0 <= i < encoder.end implies written.0.buffer[i]
            == encoder.buffer[i] by {
            assert(filled.0.buffer.take(reserved.end as int)[i] == reserved.buffer.take(
                reserved.end as int,
            )[i]);
        }
    }
}

/// The region of an array that was written by pointer can be claimed where
/// it was handed out, its header is accepted, and its elements are read back
/// as they were.
#[verifier::rlimit(40)]
pub proof fn lemma_array_region<T: MojomLaws>(
    elems: Seq<T>,
    encoder: EncoderView,
    decoder: DecoderView,
)
    requires
        array_encodable(elems),
        elements_canonical(elems),
        encoder_wf(encoder),
        decoder_wf(decoder),
        encoder.end + array_compute_size(elems) <= encoder.buffer.len(),
        encoder.handles.len() + elements_handles(elems, elems.len()).len() <= u32::MAX,
        decoder.buffer.len() == encoder.buffer.len(),
        decoder.buffer.subrange(
            encoder.end as int,
            (encoder.end + array_compute_size(elems)) as int,
        ) == array_filled(elems, encoder).0.store(array_filled(elems, encoder).1).buffer.subrange(
            encoder.end as int,
            (encoder.end + array_compute_size(elems)) as int,
        ),
        decoder.top <= encoder.end,
        decoder.handles.len() >= encoder.handles.len() + elements_handles(elems, elems.len()).len(),
        forall|i: int|
            encoder.handles.len() <= i < encoder.handles.len() + elements_handles(
                elems,
                elems.len(),
            ).len() ==> #[trigger] decoder.handles[i] == Some(
                (encoder.handles + elements_handles(elems, elems.len()))[i],
            ),
    ensures
        spec_claim_array::<T>(decoder, encoder.end) is Value,
        spec_claim_array::<T>(decoder, encoder.end)->Value_1 == elems.len(),
        spec_decode_elements::<T>(
            spec_claim_array::<T>(decoder, encoder.end)->Value_0,
            claim_context(decoder, encoder.end),
            elems.len(),
        ) is Value,
        spec_decode_elements::<T>(
            spec_claim_array::<T>(decoder, encoder.end)->Value_0,
            claim_context(decoder, encoder.end),
            elems.len(),
        )->Value_1 == Seq::new(elems.len(), |i: int| elems[i].deep_view()),
        region_read_back(
            encoder,
            array_filled(elems, encoder).0,
            decoder,
            spec_decode_elements::<T>(
                spec_claim_array::<T>(decoder, encoder.end)->Value_0,
                claim_context(decoder, encoder.end),
                elems.len(),
            )->Value_0,
        ),
{
    let n = elems.len();
    let size = array_bytes::<T>(n);
    let header = array_header(elems);
    let reserved = encoder.reserve(size);
    let fresh = fresh_region(header, encoder.end);
    lemma_align_up(size, 8);
    lemma_fresh_region(header, encoder.end);
    crate::cursor::lemma_splice(
        encoder.buffer,
        encoder.end as int,
        crate::cursor::zeros(align_up(size, 8)),
    );
    assert(reserved.end % 8 == 0) by {
        assert(align_up(size, 8) % 8 == 0);
    }
    lemma_elements_encode(elems, n, reserved, fresh);
    let filled = array_filled(elems, encoder);
    lemma_claim_region(encoder, header, filled, decoder);
    let inner = claim_context(decoder, encoder.end);
    let claimed = decoder.claimed(encoder.end);
    assert forall|i: int|
        reserved.handles.len() <= i < filled.0.handles.len() implies #[trigger] claimed.handles[i]
        == Some(filled.0.handles[i]) by {
        assert(decoder.handles[i] == Some((encoder.handles + elements_handles(elems, n))[i]));
    }
    lemma_array_value_round_trip(elems, reserved, encoder.end, claimed, inner, None);
    let after = spec_decode_array_value::<T>(claimed, inner, None)->Value_0;
    assert forall|i: int| 0 <= i < decoder.states.len() implies #[trigger] after.states[i]
        == decoder.states[i] by {
        assert(claimed.states[i] == decoder.states[i]);
    }
}

/// The encoder and the region of an array after the region was handed out
/// and filled with the elements.
pub open spec fn array_filled<T: MojomEncodable>(elems: Seq<T>, encoder: EncoderView) -> (
    EncoderView,
    Cursor,
) {
    spec_encode_elements(
        elems,
        elems.len(),
        encoder.reserve(array_bytes::<T>(elems.len())),
        fresh_region(array_header(elems), encoder.end),
    )
}

} // verus!
