//! What holds of writing and reading together: a value that was written is
//! read back as it was, from where it was written, and the handles that it
//! took into the message are the ones that are claimed.

use crate::bits::{align_up, lemma_align_up, lemma_align_up_fixed};
use crate::cursor::{
    get_bit, lemma_at, lemma_put_skip, lemma_set_get_bit, lemma_splice, zeros, Cursor,
};
use crate::decoding::{
    spec_decode_pointer, spec_unclaimed, stated_size, stated_word, DecoderView, ValidationError,
};
use crate::encoding::{DataHeaderValue, fresh_region, spec_pointer, Context, DataHeader, EncoderView};
use crate::mojom::{
    claim_context, encode_ready, encode_step, layout_of, spec_decode_as_pointer,
    spec_decode_union_inline, spec_decode_union_nested, spec_decoder, spec_deserialize,
    spec_encode_as_pointer, spec_message, Decoded, MojomEncodable, MojomPointer, MojomType,
    MojomUnion,
};
use crate::nullable::null_ahead;
use crate::numeric::MojomNumeric;
use crate::system::UntypedHandle;
use vstd::prelude::*;

verus! {

/// Whether two regions of the same length hold the same bits below bit
/// `pos`.
pub open spec fn same_below(a: Seq<u8>, b: Seq<u8>, pos: nat) -> bool {
    &&& a.len() == b.len()
    &&& forall|i: int| 0 <= i < pos / 8 ==> #[trigger] a[i] == b[i]
    &&& forall|k: u8|
        k < pos % 8 ==> #[trigger] get_bit(a[(pos / 8) as int], k) == get_bit(
            b[(pos / 8) as int],
            k,
        )
}

/// Regions that hold the same bits below a position hold the same bits
/// below every earlier one.
pub proof fn lemma_same_below_earlier(a: Seq<u8>, b: Seq<u8>, pos: nat, earlier: nat)
    requires
        same_below(a, b, pos),
        earlier <= pos,
    ensures
        same_below(a, b, earlier),
{
    assert forall|k: u8| k < earlier % 8 implies #[trigger] get_bit(a[(earlier / 8) as int], k)
        == get_bit(b[(earlier / 8) as int], k) by {
        if earlier / 8 < pos / 8 {
            assert(a[(earlier / 8) as int] == b[(earlier / 8) as int]);
        }
    }
}

/// Holding the same bits below a position carries over from one pair of
/// regions to the next.
pub proof fn lemma_same_below_chain(a: Seq<u8>, b: Seq<u8>, c: Seq<u8>, pos: nat)
    requires
        same_below(a, b, pos),
        same_below(b, c, pos),
    ensures
        same_below(a, c, pos),
{
    assert forall|i: int| 0 <= i < pos / 8 implies #[trigger] a[i] == c[i] by {
        assert(a[i] == b[i]);
        assert(b[i] == c[i]);
    }
    assert forall|k: u8| k < pos % 8 implies #[trigger] get_bit(a[(pos / 8) as int], k) == get_bit(
        c[(pos / 8) as int],
        k,
    ) by {
        assert(get_bit(a[(pos / 8) as int], k) == get_bit(b[(pos / 8) as int], k));
        assert(get_bit(b[(pos / 8) as int], k) == get_bit(c[(pos / 8) as int], k));
    }
}

/// What two buffers share up to a place, and one of them shares with a third
/// up to an earlier place, the first shares with the third up to the earlier
/// place.
pub proof fn lemma_take_chain(a: Seq<u8>, b: Seq<u8>, c: Seq<u8>, earlier: nat, later: nat)
    requires
        earlier <= later,
        later <= a.len(),
        later <= b.len(),
        earlier <= c.len(),
        a.take(later as int) == b.take(later as int),
        b.take(earlier as int) == c.take(earlier as int),
    ensures
        a.take(earlier as int) == c.take(earlier as int),
{
    assert forall|i: int| 0 <= i < earlier implies a[i] == c[i] by {
        assert(a[i] == a.take(later as int)[i]);
        assert(b[i] == b.take(later as int)[i]);
        assert(b[i] == b.take(earlier as int)[i]);
        assert(c[i] == c.take(earlier as int)[i]);
    }
    assert(a.take(earlier as int) =~= c.take(earlier as int));
}

/// Regions that hold the same bits below the end of a run of bytes hold the
/// same bytes there.
pub proof fn lemma_same_bytes(a: Seq<u8>, b: Seq<u8>, at: nat, n: nat)
    requires
        same_below(a, b, 8 * (at + n)),
        at + n <= a.len(),
    ensures
        a.subrange(at as int, (at + n) as int) == b.subrange(at as int, (at + n) as int),
{
    assert forall|i: int| at <= i < at + n implies a[i] == b[i] by {
        assert(i < (8 * (at + n)) / 8);
    }
    assert(a.subrange(at as int, (at + n) as int) =~= b.subrange(at as int, (at + n) as int));
}

/// Writing bytes leaves what lies before them, and they can be read where
/// they were written, from the cursor as it stood or from where it is
/// aligned.
#[verifier::rlimit(40)]
pub proof fn lemma_put(state: Cursor, width: nat, bytes: Seq<u8>)
    requires
        state.wf(),
        width > 0,
        state.fits(8 * width, 8 * bytes.len()),
    ensures
        state.put(width, bytes).wf(),
        state.put(width, bytes).base == state.base,
        state.put(width, bytes).data.len() == state.data.len(),
        state.put(width, bytes).pos == state.after(8 * width, 8 * bytes.len()),
        state.put(width, bytes).pos == 8 * (state.at(width) + bytes.len()),
        same_below(state.put(width, bytes).data, state.data, state.pos),
        state.put(width, bytes).data.subrange(
            state.at(width) as int,
            (state.at(width) + bytes.len()) as int,
        ) == bytes,
        state.aligned(8 * width).at(width) == state.at(width),
{
    lemma_put_skip(state, width, bytes);
    lemma_at(state, width);
    lemma_splice(state.data, state.at(width) as int, bytes);
    lemma_align_up(state.pos, 8 * width);
    lemma_align_up_fixed(align_up(state.pos, 8 * width), 8 * width);
    let after = state.put(width, bytes);
    assert forall|i: int| 0 <= i < state.pos / 8 implies #[trigger] after.data[i]
        == state.data[i] by {}
    assert forall|k: u8| k < state.pos % 8 implies #[trigger] get_bit(
        after.data[(state.pos / 8) as int],
        k,
    ) == get_bit(state.data[(state.pos / 8) as int], k) by {
        assert(state.pos / 8 < state.at(width));
    }
}

/// The well-formedness of the model of an encoder: what was handed out lies
/// in the buffer and ends at a multiple of 8.
pub open spec fn encoder_wf(encoder: EncoderView) -> bool {
    &&& encoder.end <= encoder.buffer.len() <= usize::MAX
    &&& encoder.end % 8 == 0
}

/// The well-formedness of the model of a decoder: what was claimed lies in
/// the message, and every region that was claimed holds at least its header.
pub open spec fn decoder_wf(decoder: DecoderView) -> bool {
    &&& decoder.top <= decoder.buffer.len() <= usize::MAX
    &&& 8 * decoder.states.len() <= decoder.top
}

/// Whether a decoder stands where a value was written: its cursor stands
/// where the cursor of the writer stood, before or behind the padding of the
/// value; its message holds what the value has in regions of its own, and
/// none of that is claimed; its region holds what was written up to the end
/// of the value; and its handle vector holds the handles that the value took
/// into the message.
pub open spec fn reads_back(
    encoder: EncoderView,
    state: Cursor,
    written: (EncoderView, Cursor),
    decoder: DecoderView,
    context: Context,
    align_bits: nat,
) -> bool {
    &&& decoder_wf(decoder)
    &&& decoder.has(context)
    &&& decoder.state(context).base == state.base
    &&& decoder.state(context).pos == state.pos || decoder.state(context).pos == align_up(
        state.pos,
        align_bits,
    )
    &&& same_below(decoder.state(context).data, written.1.data, written.1.pos)
    &&& decoder.buffer.len() == written.0.buffer.len()
    &&& decoder.buffer.subrange(encoder.end as int, written.0.end as int)
        == written.0.buffer.subrange(encoder.end as int, written.0.end as int)
    &&& decoder.top <= encoder.end
    &&& decoder.handles.len() >= written.0.handles.len()
    &&& forall|i: int|
        encoder.handles.len() <= i < written.0.handles.len() ==> #[trigger] decoder.handles[i]
            == Some(written.0.handles[i])
}

/// Whether `after` is the decoder behind a value that was written: the
/// cursor stands where the cursor of the writer stood, nothing was claimed
/// beyond what the value has in regions of its own, the handles that the
/// value took into the message are claimed and no others, and the other
/// regions are as they were.
pub open spec fn read_back(
    encoder: EncoderView,
    written: (EncoderView, Cursor),
    decoder: DecoderView,
    context: Context,
    after: DecoderView,
) -> bool {
    &&& decoder_wf(after)
    &&& after.buffer == decoder.buffer
    &&& after.state(context) == (Cursor { pos: written.1.pos, ..decoder.state(context) })
    &&& decoder.top <= after.top <= written.0.end
    &&& after.states.len() >= decoder.states.len()
    &&& forall|i: int|
        0 <= i < decoder.states.len() && i != context.id ==> #[trigger] after.states[i]
            == decoder.states[i]
    &&& after.handles.len() == decoder.handles.len()
    &&& forall|i: int|
        0 <= i < decoder.handles.len() ==> #[trigger] after.handles[i] == if encoder.handles.len()
            <= i < written.0.handles.len() {
            None
        } else {
            decoder.handles[i]
        }
}

/// A type of which the laws of the wire format are proved: what writing a
/// value does to the encoder and the region, and that the value is read back
/// from where it was written.
pub trait MojomLaws: MojomEncodable {
    /// The layout of the type is one of its category.
    proof fn lemma_layout(is_union: bool)
        ensures
            layout_of(
                Self::spec_mojom_type(),
                is_union,
                Self::spec_align_bits(),
                Self::spec_embed_size(is_union),
            ),
    ;

    /// Writing a value moves the cursor behind what is embedded and hands
    /// out as many bytes as `compute_size` counts; it takes the handles of
    /// the value into the message, in their order; and it leaves what was
    /// written before: the bits below the cursor, the bytes that were handed
    /// out, and the handles that were taken.
    proof fn lemma_encode(&self, encoder: EncoderView, state: Cursor, is_union: bool)
        requires
            self.spec_encodable(is_union),
            self.spec_canonical(),
            encoder_wf(encoder),
            state.wf(),
            encode_ready(
                encoder,
                state,
                Self::spec_align_bits(),
                Self::spec_embed_size(is_union),
                self.spec_compute_size(is_union),
                self.spec_handles().len(),
            ),
        ensures
            encoder_wf(self.spec_encode(encoder, state, is_union).0),
            self.spec_encode(encoder, state, is_union).1.wf(),
            encode_step(
                encoder,
                state,
                self.spec_encode(encoder, state, is_union).0,
                self.spec_encode(encoder, state, is_union).1,
                Self::spec_align_bits(),
                Self::spec_embed_size(is_union),
                self.spec_compute_size(is_union),
                self.spec_handles().len(),
            ),
            self.spec_encode(encoder, state, is_union).0.handles == encoder.handles
                + self.spec_handles(),
            same_below(self.spec_encode(encoder, state, is_union).1.data, state.data, state.pos),
            self.spec_encode(encoder, state, is_union).0.buffer.take(encoder.end as int)
                == encoder.buffer.take(encoder.end as int),
    ;

    /// A value that was written is read back as it was: a decoder that
    /// stands where the value was written reads the value, and stands behind
    /// it afterwards.
    proof fn lemma_round_trip(
        &self,
        encoder: EncoderView,
        state: Cursor,
        decoder: DecoderView,
        context: Context,
    )
        requires
            self.spec_encodable(context.is_union),
            self.spec_canonical(),
            encoder_wf(encoder),
            state.wf(),
            encode_ready(
                encoder,
                state,
                Self::spec_align_bits(),
                Self::spec_embed_size(context.is_union),
                self.spec_compute_size(context.is_union),
                self.spec_handles().len(),
            ),
            reads_back(
                encoder,
                state,
                self.spec_encode(encoder, state, context.is_union),
                decoder,
                context,
                Self::spec_align_bits(),
            ),
        ensures
            Self::spec_decode(decoder, context) is Value,
            Self::spec_decode(decoder, context)->Value_1 == self.deep_view(),
            read_back(
                encoder,
                self.spec_encode(encoder, state, context.is_union),
                decoder,
                context,
                Self::spec_decode(decoder, context)->Value_0,
            ),
    ;
}

impl<T: MojomNumeric> MojomLaws for T {
    proof fn lemma_layout(is_union: bool) {
        let zero = T::spec_from_wire_bytes(Seq::empty());
        zero.lemma_wire_bytes();
    }

    proof fn lemma_encode(&self, encoder: EncoderView, state: Cursor, is_union: bool) {
        self.lemma_wire_bytes();
        lemma_put(state, T::spec_width(), self.spec_wire_bytes());
    }

    proof fn lemma_round_trip(
        &self,
        encoder: EncoderView,
        state: Cursor,
        decoder: DecoderView,
        context: Context,
    ) {
        self.lemma_wire_bytes();
        let width = T::spec_width();
        let bytes = self.spec_wire_bytes();
        let reader = decoder.state(context);
        lemma_put(state, width, bytes);
        lemma_at(reader, width);
        assert(reader.at(width) == state.at(width));
        lemma_same_bytes(reader.data, state.put(width, bytes).data, state.at(width), width);
        let after = Self::spec_decode(decoder, context)->Value_0;
        assert(after.handles =~= decoder.handles);
    }
}

impl MojomLaws for bool {
    proof fn lemma_layout(is_union: bool) {
    }

    proof fn lemma_encode(&self, encoder: EncoderView, state: Cursor, is_union: bool) {
        lemma_put_bit(state, *self);
    }

    proof fn lemma_round_trip(
        &self,
        encoder: EncoderView,
        state: Cursor,
        decoder: DecoderView,
        context: Context,
    ) {
        lemma_put_bit(state, *self);
        let reader = decoder.state(context);
        let written = state.put_bit(*self);
        let k = (state.pos % 8) as u8;
        assert(get_bit(reader.data[(state.pos / 8) as int], k) == get_bit(
            written.data[(state.pos / 8) as int],
            k,
        )) by {
            if written.pos % 8 == 0 {
                assert(state.pos / 8 < written.pos / 8);
                assert(reader.data[(state.pos / 8) as int] == written.data[(state.pos / 8) as int]);
            } else {
                assert(written.pos / 8 == state.pos / 8);
                assert(k < written.pos % 8);
            }
        }
        let after = Self::spec_decode(decoder, context)->Value_0;
        assert(after.handles =~= decoder.handles);
    }
}

/// Writing a bit leaves the bits before it, and the bit is read where it was
/// written.
pub proof fn lemma_put_bit(state: Cursor, bit: bool)
    requires
        state.wf(),
        state.fits(1, 1),
    ensures
        state.put_bit(bit).wf(),
        state.put_bit(bit).base == state.base,
        state.put_bit(bit).data.len() == state.data.len(),
        state.put_bit(bit).pos == state.after(1, 1),
        same_below(state.put_bit(bit).data, state.data, state.pos),
        get_bit(state.put_bit(bit).data[(state.pos / 8) as int], (state.pos % 8) as u8) == bit,
{
    let after = state.put_bit(bit);
    let at = (state.pos / 8) as int;
    let k = (state.pos % 8) as u8;
    assert forall|j: u8| j < state.pos % 8 implies #[trigger] get_bit(after.data[at], j) == get_bit(
        state.data[at],
        j,
    ) by {
        lemma_set_get_bit(state.data[at], k, bit, j);
    }
    lemma_set_get_bit(state.data[at], k, bit, 0);
}

/// Whether a decoder stands at the start of the region of a value that was
/// written: the region holds what was written, the message holds what the
/// value has in further regions, none of which is claimed, and the handle
/// vector holds the handles that the value took into the message.
pub open spec fn value_reads_back(
    encoder: EncoderView,
    written: (EncoderView, Cursor),
    decoder: DecoderView,
    context: Context,
) -> bool {
    &&& decoder_wf(decoder)
    &&& decoder.has(context)
    &&& !context.is_union
    &&& decoder.state(context) == (Cursor { pos: 0, ..written.1 })
    &&& decoder.buffer.len() == written.0.buffer.len()
    &&& decoder.buffer.subrange(encoder.end as int, written.0.end as int)
        == written.0.buffer.subrange(encoder.end as int, written.0.end as int)
    &&& decoder.top <= encoder.end
    &&& decoder.handles.len() >= written.0.handles.len()
    &&& forall|i: int|
        encoder.handles.len() <= i < written.0.handles.len() ==> #[trigger] decoder.handles[i]
            == Some(written.0.handles[i])
}

/// Whether `after` is the decoder behind the region of a value that was
/// written: nothing was claimed beyond what the value has in further
/// regions, the handles that the value took into the message are claimed and
/// no others, and the other regions are as they were.
pub open spec fn value_read_back(
    encoder: EncoderView,
    written: (EncoderView, Cursor),
    decoder: DecoderView,
    context: Context,
    after: DecoderView,
) -> bool {
    &&& decoder_wf(after)
    &&& after.buffer == decoder.buffer
    &&& after.state(context).data == decoder.state(context).data
    &&& after.state(context).base == decoder.state(context).base
    &&& decoder.top <= after.top <= written.0.end
    &&& after.states.len() >= decoder.states.len()
    &&& forall|i: int|
        0 <= i < decoder.states.len() && i != context.id ==> #[trigger] after.states[i]
            == decoder.states[i]
    &&& after.handles.len() == decoder.handles.len()
    &&& forall|i: int|
        0 <= i < decoder.handles.len() ==> #[trigger] after.handles[i] == if encoder.handles.len()
            <= i < written.0.handles.len() {
            None
        } else {
            decoder.handles[i]
        }
}

/// The header of the region of a value.
pub open spec fn value_header<T: MojomPointer>(value: &T) -> DataHeader {
    DataHeader { size: value.spec_serialized_size() as usize, data: value.spec_header_data() }
}

/// A type of values in regions of their own of which the laws of the wire
/// format are proved.
pub trait MojomPointerLaws: MojomPointer {
    /// The region of a value holds its header, fits the header, and is part
    /// of what `compute_size` counts.
    proof fn lemma_size(&self)
        requires
            self.spec_encodable(false),
        ensures
            8 <= self.spec_serialized_size() <= u32::MAX,
            align_up(self.spec_serialized_size(), 8) <= self.spec_compute_size(false),
    ;

    /// Filling the region of a value leaves its header; it hands out what
    /// the value has in further regions and takes the handles of the value
    /// into the message, and leaves what was handed out and taken before.
    proof fn lemma_value_encode(&self, encoder: EncoderView, state: Cursor)
        requires
            self.spec_encodable(false),
            self.spec_canonical(),
            encoder_wf(encoder),
            state.wf(),
            state.pos == 64,
            state.data.len() == self.spec_serialized_size(),
            state.base + state.data.len() <= encoder.end,
            encoder.end + self.spec_compute_size(false) - align_up(self.spec_serialized_size(), 8)
                <= encoder.buffer.len(),
            encoder.handles.len() + self.spec_handles().len() <= u32::MAX,
        ensures
            encoder_wf(self.spec_encode_value(encoder, state).0),
            self.spec_encode_value(encoder, state).1.wf(),
            self.spec_encode_value(encoder, state).1.base == state.base,
            self.spec_encode_value(encoder, state).1.data.len() == state.data.len(),
            self.spec_encode_value(encoder, state).0.buffer.len() == encoder.buffer.len(),
            self.spec_encode_value(encoder, state).0.end == encoder.end + self.spec_compute_size(
                false,
            ) - align_up(self.spec_serialized_size(), 8),
            self.spec_encode_value(encoder, state).0.handles == encoder.handles
                + self.spec_handles(),
            same_below(self.spec_encode_value(encoder, state).1.data, state.data, 64),
            self.spec_encode_value(encoder, state).0.buffer.take(encoder.end as int)
                == encoder.buffer.take(encoder.end as int),
    ;

    /// The region of a value that was written holds the value: a decoder
    /// that stands at the start of the region reads the value.
    proof fn lemma_value_round_trip(
        &self,
        encoder: EncoderView,
        base: nat,
        decoder: DecoderView,
        context: Context,
    )
        requires
            self.spec_encodable(false),
            self.spec_canonical(),
            encoder_wf(encoder),
            base % 8 == 0,
            base + self.spec_serialized_size() <= encoder.end,
            encoder.end + self.spec_compute_size(false) - align_up(self.spec_serialized_size(), 8)
                <= encoder.buffer.len(),
            encoder.handles.len() + self.spec_handles().len() <= u32::MAX,
            value_reads_back(
                encoder,
                self.spec_encode_value(encoder, fresh_region(value_header(self), base)),
                decoder,
                context,
            ),
        ensures
            Self::spec_decode_value(decoder, context) is Value,
            Self::spec_decode_value(decoder, context)->Value_1 == self.deep_view(),
            value_read_back(
                encoder,
                self.spec_encode_value(encoder, fresh_region(value_header(self), base)),
                decoder,
                context,
                Self::spec_decode_value(decoder, context)->Value_0,
            ),
    ;
}

/// The region that an encoder hands out for a header holds the header and
/// is as long as the header states.
pub proof fn lemma_fresh_region(header: DataHeader, base: nat)
    requires
        8 <= header.size <= u32::MAX,
        base % 8 == 0,
    ensures
        fresh_region(header, base).wf(),
        fresh_region(header, base).data.len() == header.size,
        fresh_region(header, base).data.subrange(0, 8) == header.spec_bytes(),
        stated_size(fresh_region(header, base).data) == header.size,
        stated_word(fresh_region(header, base).data) == header.data.spec_value(),
{
    let size = header.size as u32;
    let word = header.data.spec_value();
    size.lemma_wire_bytes();
    word.lemma_wire_bytes();
    let data = fresh_region(header, base).data;
    assert(data.subrange(0, 8) =~= header.spec_bytes());
    assert(data.subrange(0, 4) =~= size.spec_wire_bytes());
    assert(data.subrange(4, 8) =~= word.spec_wire_bytes());
}

/// A region that holds the same bits as another one below the end of its
/// header states the same size and the same word.
pub proof fn lemma_same_header(a: Seq<u8>, b: Seq<u8>)
    requires
        same_below(a, b, 64),
        a.len() >= 8,
    ensures
        stated_size(a) == stated_size(b),
        stated_word(a) == stated_word(b),
        a.subrange(0, 8) == b.subrange(0, 8),
{
    lemma_same_bytes(a, b, 0, 8);
    assert(a.subrange(0, 4) =~= a.subrange(0, 8).subrange(0, 4));
    assert(b.subrange(0, 4) =~= b.subrange(0, 8).subrange(0, 4));
    assert(a.subrange(4, 8) =~= a.subrange(0, 8).subrange(4, 8));
    assert(b.subrange(4, 8) =~= b.subrange(0, 8).subrange(4, 8));
}

/// Writing a value by pointer moves the cursor behind the pointer and hands
/// out as many bytes as `compute_size` counts; it takes the handles of the
/// value into the message, and leaves what was written before.
#[verifier::rlimit(40)]
pub proof fn lemma_as_pointer_encode<T: MojomPointerLaws>(
    value: &T,
    encoder: EncoderView,
    state: Cursor,
)
    requires
        value.spec_encodable(false),
        value.spec_canonical(),
        encoder_wf(encoder),
        state.wf(),
        encode_ready(
            encoder,
            state,
            64,
            64,
            value.spec_compute_size(false),
            value.spec_handles().len(),
        ),
    ensures
        encoder_wf(spec_encode_as_pointer(value, encoder, state).0),
        spec_encode_as_pointer(value, encoder, state).1.wf(),
        encode_step(
            encoder,
            state,
            spec_encode_as_pointer(value, encoder, state).0,
            spec_encode_as_pointer(value, encoder, state).1,
            64,
            64,
            value.spec_compute_size(false),
            value.spec_handles().len(),
        ),
        spec_encode_as_pointer(value, encoder, state).0.handles == encoder.handles
            + value.spec_handles(),
        same_below(spec_encode_as_pointer(value, encoder, state).1.data, state.data, state.pos),
        spec_encode_as_pointer(value, encoder, state).0.buffer.take(encoder.end as int)
            == encoder.buffer.take(encoder.end as int),
{
    value.lemma_size();
    let size = value.spec_serialized_size();
    let header = value_header(value);
    let reserved = encoder.reserve(size);
    let fresh = fresh_region(header, encoder.end);
    lemma_align_up(size, 8);
    lemma_fresh_region(header, encoder.end);
    lemma_splice(encoder.buffer, encoder.end as int, zeros(align_up(size, 8)));
    assert(reserved.end % 8 == 0) by {
        assert(align_up(size, 8) % 8 == 0);
    }
    value.lemma_value_encode(reserved, fresh);
    let filled = value.spec_encode_value(reserved, fresh);
    let written = spec_encode_as_pointer(value, encoder, state);
    lemma_splice(filled.0.buffer, encoder.end as int, filled.1.data);
    let pointer = spec_pointer(state, encoder.end as u64);
    pointer.lemma_wire_bytes();
    lemma_put(state, 8, pointer.spec_wire_bytes());
    assert(written.0.buffer.take(encoder.end as int) =~= encoder.buffer.take(encoder.end as int))
        by {
        assert forall|i: int| 0 <= i < encoder.end implies written.0.buffer[i]
            == encoder.buffer[i] by {
            assert(filled.0.buffer.take(reserved.end as int)[i] == reserved.buffer.take(
                reserved.end as int,
            )[i]);
        }
    }
}

/// A value that was written by pointer is read back as it was.
#[verifier::rlimit(40)]
pub proof fn lemma_as_pointer_round_trip<T: MojomPointerLaws>(
    value: &T,
    encoder: EncoderView,
    state: Cursor,
    decoder: DecoderView,
    context: Context,
)
    requires
        value.spec_encodable(false),
        value.spec_canonical(),
        encoder_wf(encoder),
        state.wf(),
        encode_ready(
            encoder,
            state,
            64,
            64,
            value.spec_compute_size(false),
            value.spec_handles().len(),
        ),
        reads_back(
            encoder,
            state,
            spec_encode_as_pointer(value, encoder, state),
            decoder,
            context,
            64,
        ),
    ensures
        spec_decode_as_pointer::<T>(decoder, context) is Value,
        spec_decode_as_pointer::<T>(decoder, context)->Value_1 == value.deep_view(),
        read_back(
            encoder,
            spec_encode_as_pointer(value, encoder, state),
            decoder,
            context,
            spec_decode_as_pointer::<T>(decoder, context)->Value_0,
        ),
{
    value.lemma_size();
    lemma_as_pointer_encode(value, encoder, state);
    let size = value.spec_serialized_size();
    let header = value_header(value);
    let reserved = encoder.reserve(size);
    let fresh = fresh_region(header, encoder.end);
    lemma_align_up(size, 8);
    lemma_fresh_region(header, encoder.end);
    lemma_splice(encoder.buffer, encoder.end as int, zeros(align_up(size, 8)));
    assert(reserved.end % 8 == 0) by {
        assert(align_up(size, 8) % 8 == 0);
    }
    value.lemma_value_encode(reserved, fresh);
    let filled = value.spec_encode_value(reserved, fresh);
    let written = spec_encode_as_pointer(value, encoder, state);
    lemma_splice(filled.0.buffer, encoder.end as int, filled.1.data);
    // the pointer
    let pointer = spec_pointer(state, encoder.end as u64);
    pointer.lemma_wire_bytes();
    lemma_put(state, 8, pointer.spec_wire_bytes());
    let reader = decoder.state(context);
    lemma_at(reader, 8);
    lemma_at(state, 8);
    assert(reader.at(8) == state.at(8));
    lemma_same_bytes(reader.data, written.1.data, state.at(8), 8);
    assert(reader.peek(8, 8) == pointer.spec_wire_bytes());
    assert(u64::spec_from_wire_bytes(reader.peek(8, 8)) == pointer);
    assert(pointer == encoder.end - state.location(8));
    assert(spec_decode_pointer(reader, decoder.buffer.len()) == Ok::<
        Option<u64>,
        ValidationError,
    >(Some(encoder.end as u64)));
    // the region
    let place = encoder.end;
    let moved = decoder.with_state(context.id as int, reader.skip(8, 8));
    let region = decoder.buffer.subrange(place as int, (place + size) as int);
    assert(region =~= filled.1.data) by {
        assert forall|i: int| 0 <= i < size implies region[i] == filled.1.data[i] by {
            assert(decoder.buffer.subrange(encoder.end as int, written.0.end as int)[i]
                == written.0.buffer.subrange(encoder.end as int, written.0.end as int)[i]);
        }
    }
    lemma_same_header(filled.1.data, fresh.data);
    assert(decoder.buffer.subrange(place as int, (place + 8) as int) =~= region.subrange(0, 8));
    assert(moved.size_at(place) == size) by {
        assert(decoder.buffer.subrange(place as int, (place + 8) as int).subrange(0, 4)
            =~= filled.1.data.subrange(0, 4));
    }
    assert(!moved.claim_refused(place));
    let claimed = moved.claimed(place);
    let inner = claim_context(moved, place);
    assert(claimed.state(inner) == (Cursor { pos: 0, ..filled.1 }));
    assert(claimed.buffer.subrange(reserved.end as int, filled.0.end as int)
        =~= filled.0.buffer.subrange(reserved.end as int, filled.0.end as int)) by {
        assert forall|i: int| reserved.end <= i < filled.0.end implies claimed.buffer[i]
            == filled.0.buffer[i] by {
            assert(decoder.buffer.subrange(encoder.end as int, written.0.end as int)[i
                - encoder.end] == written.0.buffer.subrange(
                encoder.end as int,
                written.0.end as int,
            )[i - encoder.end]);
        }
    }
    value.lemma_value_round_trip(reserved, place, claimed, inner);
    let after = T::spec_decode_value(claimed, inner)->Value_0;
    assert(after.states[context.id as int] == claimed.states[context.id as int]);
    assert forall|i: int|
        0 <= i < decoder.states.len() && i != context.id implies #[trigger] after.states[i]
        == decoder.states[i] by {
        assert(claimed.states[i] == moved.states[i]);
    }
}

/// Round trip. A value that was written as a message is read back from the
/// message as it was. The message is as long as `compute_size` counts; its
/// handles are the handles of the value, in their order; and when the value
/// has been read, every handle of the message has been claimed.
#[verifier::rlimit(40)]
pub proof fn law_round_trip<T: MojomPointerLaws>(value: &T, buffer: Seq<u8>)
    requires
        value.spec_encodable(false),
        value.spec_canonical(),
        value.spec_compute_size(false) <= buffer.len() <= usize::MAX,
        value.spec_handles().len() <= u32::MAX,
    ensures
        spec_message(value, buffer).end == value.spec_compute_size(false),
        spec_message(value, buffer).buffer.len() == buffer.len(),
        spec_message(value, buffer).handles == value.spec_handles(),
        spec_deserialize::<T>(
            spec_message(value, buffer).buffer,
            spec_message(value, buffer).handles,
        ) is Value,
        spec_deserialize::<T>(
            spec_message(value, buffer).buffer,
            spec_message(value, buffer).handles,
        )->Value_1 == value.deep_view(),
        forall|i: int|
            0 <= i < value.spec_handles().len() ==> (#[trigger] spec_deserialize::<T>(
                spec_message(value, buffer).buffer,
                spec_message(value, buffer).handles,
            )->Value_0.handles[i]).is_none(),
        spec_unclaimed(
            spec_deserialize::<T>(
                spec_message(value, buffer).buffer,
                spec_message(value, buffer).handles,
            )->Value_0.handles,
        ) == Seq::<UntypedHandle>::empty(),
{
    value.lemma_size();
    let size = value.spec_serialized_size();
    let header = value_header(value);
    let start = EncoderView { buffer, end: 0, handles: Seq::empty(), regions: 0 };
    let reserved = start.reserve(size);
    let fresh = fresh_region(header, 0);
    lemma_align_up(size, 8);
    lemma_fresh_region(header, 0);
    lemma_splice(buffer, 0, zeros(align_up(size, 8)));
    assert(reserved.end % 8 == 0) by {
        assert(align_up(size, 8) % 8 == 0);
    }
    value.lemma_value_encode(reserved, fresh);
    let filled = value.spec_encode_value(reserved, fresh);
    let message = spec_message(value, buffer);
    lemma_splice(filled.0.buffer, 0, filled.1.data);
    assert(message.handles =~= value.spec_handles());
    let decoder = spec_decoder(message.buffer, message.handles);
    let region = decoder.buffer.subrange(0, size as int);
    assert(region =~= filled.1.data);
    lemma_same_header(filled.1.data, fresh.data);
    assert(decoder.buffer.subrange(0, 8) =~= region.subrange(0, 8));
    assert(decoder.size_at(0) == size) by {
        assert(decoder.buffer.subrange(0, 8).subrange(0, 4) =~= filled.1.data.subrange(0, 4));
    }
    assert(!decoder.claim_refused(0));
    let claimed = decoder.claimed(0);
    let root = Context { id: 0, offset: 0, is_union: false };
    assert(claimed.state(root) == (Cursor { pos: 0, ..filled.1 }));
    assert(claimed.buffer.subrange(reserved.end as int, filled.0.end as int)
        =~= filled.0.buffer.subrange(reserved.end as int, filled.0.end as int));
    value.lemma_value_round_trip(reserved, 0, claimed, root);
    lemma_all_claimed(T::spec_decode_value(claimed, root)->Value_0.handles);
}

/// Where every handle was claimed, none is left.
pub proof fn lemma_all_claimed(handles: Seq<Option<UntypedHandle>>)
    requires
        forall|i: int| 0 <= i < handles.len() ==> (#[trigger] handles[i]).is_none(),
    ensures
        spec_unclaimed(handles) == Seq::<UntypedHandle>::empty(),
    decreases handles.len(),
{
    let there = |h: Option<UntypedHandle>| h.is_some();
    if handles.len() == 0 {
        assert(handles.filter(there) =~= Seq::empty()) by {
            handles.lemma_filter_len(there);
        }
    } else {
        lemma_all_claimed(handles.drop_last());
        assert(handles =~= handles.drop_last().push(handles.last()));
        handles.drop_last().lemma_filter_push(handles.last(), there);
    }
    assert(spec_unclaimed(handles) =~= Seq::<UntypedHandle>::empty());
}

/// A type whose values never lie in a message as the null value of their
/// category does: a value that is there is told from one that is absent.
pub trait MojomPresent: MojomLaws {
    /// What was written of a value is not the null value of its category.
    proof fn lemma_present(&self, encoder: EncoderView, state: Cursor, is_union: bool)
        requires
            self.spec_encodable(is_union),
            self.spec_canonical(),
            encoder_wf(encoder),
            state.wf(),
            encode_ready(
                encoder,
                state,
                Self::spec_align_bits(),
                Self::spec_embed_size(is_union),
                self.spec_compute_size(is_union),
                self.spec_handles().len(),
            ),
        ensures
            Self::spec_mojom_type() != MojomType::Simple,
            !null_ahead(
                Self::spec_mojom_type(),
                is_union,
                Cursor { data: self.spec_encode(encoder, state, is_union).1.data, ..state },
            ),
    ;

    /// A type whose values can be absent is not simple.
    proof fn lemma_not_simple()
        ensures
            Self::spec_mojom_type() != MojomType::Simple,
    ;

    /// Null propagation. Where a value must be, the null value of its
    /// category is refused.
    proof fn lemma_null_refused(decoder: DecoderView, context: Context)
        requires
            null_ahead(Self::spec_mojom_type(), context.is_union, decoder.state(context)),
        ensures
            Self::spec_decode(decoder, context) == Decoded::<Self::V>::Invalid(
                ValidationError::UnexpectedNullPointer,
            ),
    ;
}

/// Regions are aligned. The region that an encoder hands out starts at a
/// multiple of 8, and so does the next one; and a region that a decoder
/// claims starts at a multiple of 8.
pub proof fn law_regions_are_aligned(
    encoder: EncoderView,
    size: nat,
    decoder: DecoderView,
    offset: nat,
)
    requires
        encoder_wf(encoder),
    ensures
        fresh_region(
            DataHeader { size: size as usize, data: DataHeaderValue::Version(0) },
            encoder.end,
        ).base % 8 == 0,
        encoder.reserve(size).end % 8 == 0,
        !decoder.claim_refused(offset) ==> offset % 8 == 0,
{
    lemma_align_up(size, 8);
    assert(align_up(size, 8) % 8 == 0);
}

/// Pointers lead forward. The pointer that is written for a region behind
/// the place of the pointer is the distance between the two, which is not
/// negative, and is read back as the place of the region.
pub proof fn law_pointers_lead_forward(state: Cursor, target: u64, limit: nat)
    requires
        state.wf(),
        state.fits(64, 64),
        state.location(8) < target < limit,
    ensures
        spec_pointer(state, target) == target - state.location(8),
        spec_pointer(state, target) > 0,
        spec_decode_pointer(
            Cursor { data: state.put(8, spec_pointer(state, target).spec_wire_bytes()).data, ..state },
            limit,
        ) == Ok::<Option<u64>, ValidationError>(Some(target)),
{
    let pointer = spec_pointer(state, target);
    pointer.lemma_wire_bytes();
    lemma_put(state, 8, pointer.spec_wire_bytes());
    lemma_at(state, 8);
}

/// The pointer to a value that was written is not null: it leads forward, to
/// a region behind the one that holds the pointer.
pub proof fn lemma_as_pointer_present<T: MojomPointerLaws>(
    value: &T,
    encoder: EncoderView,
    state: Cursor,
)
    requires
        value.spec_encodable(false),
        value.spec_canonical(),
        encoder_wf(encoder),
        state.wf(),
        encode_ready(
            encoder,
            state,
            64,
            64,
            value.spec_compute_size(false),
            value.spec_handles().len(),
        ),
    ensures
        spec_pointer(state, encoder.end as u64) == encoder.end - state.location(8),
        spec_pointer(state, encoder.end as u64) > 0,
        u64::spec_from_wire_bytes(
            (Cursor { data: spec_encode_as_pointer(value, encoder, state).1.data, ..state }).peek(
                8,
                8,
            ),
        ) != 0,
{
    let pointer = spec_pointer(state, encoder.end as u64);
    pointer.lemma_wire_bytes();
    lemma_put(state, 8, pointer.spec_wire_bytes());
    lemma_at(state, 8);
}

/// Null propagation, of values in regions of their own: where a pointer to
/// a value must be, the null pointer is refused.
pub proof fn law_null_pointer_refused<T: MojomPointer>(decoder: DecoderView, context: Context)
    requires
        null_ahead(MojomType::Pointer, context.is_union, decoder.state(context)),
    ensures
        spec_decode_as_pointer::<T>(decoder, context) == Decoded::<T::V>::Invalid(
            ValidationError::UnexpectedNullPointer,
        ),
{
}

/// Null propagation, of unions: where a union must be, the null union is
/// refused, be it a cell of zeros in place or a null pointer in a union.
pub proof fn law_null_union_refused<T: MojomUnion>(decoder: DecoderView, context: Context)
    requires
        null_ahead(MojomType::Union, context.is_union, decoder.state(context)),
    ensures
        !context.is_union ==> spec_decode_union_inline::<T>(decoder, context) == Decoded::<
            T::V,
        >::Invalid(ValidationError::UnexpectedNullPointer),
        context.is_union ==> spec_decode_union_nested::<T>(decoder, context) == Decoded::<
            T::V,
        >::Invalid(ValidationError::UnexpectedNullPointer),
{
}

/// Null propagation, of interfaces: where an interface must be, the null
/// interface is refused.
pub proof fn law_null_interface_refused(decoder: DecoderView, context: Context)
    requires
        null_ahead(MojomType::Interface, context.is_union, decoder.state(context)),
    ensures
        crate::interface::spec_decode_interface(decoder, context) == Decoded::<
            (crate::system::MessageEndpoint, u32),
        >::Invalid(ValidationError::UnexpectedNullPointer),
{
}

/// A type whose values are read from whatever a message holds: the message
/// is refused or a value is read, and nothing is left unsaid.
pub trait MojomTotal: MojomEncodable {
    /// Reading a value is defined for every message.
    proof fn lemma_defined(decoder: DecoderView, context: Context)
        ensures
            !(Self::spec_decode(decoder, context) is Undefined),
    ;
}

/// A type of values in regions of their own that are read from whatever a
/// message holds.
pub trait MojomValueTotal: MojomPointer {
    /// Reading the value of a region is defined for every message.
    proof fn lemma_value_defined(decoder: DecoderView, context: Context)
        ensures
            !(Self::spec_decode_value(decoder, context) is Undefined),
    ;
}

/// Reading is total. A value of a type that holds no text is read from every
/// message: either the message is refused, or a value is read.
pub proof fn law_reading_is_total<T: MojomValueTotal>(buffer: Seq<u8>, handles: Seq<UntypedHandle>)
    ensures
        !(spec_deserialize::<T>(buffer, handles) is Undefined),
{
    T::lemma_value_defined(
        spec_decoder(buffer, handles).claimed(0),
        Context { id: 0, offset: 0, is_union: false },
    );
}

impl<T: MojomNumeric> MojomTotal for T {
    proof fn lemma_defined(decoder: DecoderView, context: Context) {
    }
}

impl MojomTotal for bool {
    proof fn lemma_defined(decoder: DecoderView, context: Context) {
    }
}

/// A pointer that was written is read as the place it was written for, from
/// the cursor as it stood or from where it is aligned, whatever was written
/// behind the pointer since.
pub proof fn lemma_pointer_read(state: Cursor, target: nat, reader: Cursor, limit: nat)
    requires
        state.wf(),
        state.fits(64, 64),
        state.location(8) < target < limit <= usize::MAX,
        reader.base == state.base,
        reader.pos == state.pos || reader.pos == align_up(state.pos, 64),
        same_below(
            reader.data,
            state.put(8, spec_pointer(state, target as u64).spec_wire_bytes()).data,
            state.put(8, spec_pointer(state, target as u64).spec_wire_bytes()).pos,
        ),
    ensures
        spec_decode_pointer(reader, limit) == Ok::<Option<u64>, ValidationError>(
            Some(target as u64),
        ),
        reader.skip(8, 8).pos == state.put(
            8,
            spec_pointer(state, target as u64).spec_wire_bytes(),
        ).pos,
        reader.skip(8, 8).pos == state.after(64, 64),
{
    let pointer = spec_pointer(state, target as u64);
    pointer.lemma_wire_bytes();
    lemma_put(state, 8, pointer.spec_wire_bytes());
    lemma_at(reader, 8);
    lemma_at(state, 8);
    assert(reader.at(8) == state.at(8));
    lemma_same_bytes(
        reader.data,
        state.put(8, pointer.spec_wire_bytes()).data,
        state.at(8),
        8,
    );
    assert(reader.peek(8, 8) == pointer.spec_wire_bytes());
}

/// The region that was handed out for a header and filled can be claimed
/// where it was handed out, and holds what it was filled with.
#[verifier::rlimit(40)]
pub proof fn lemma_claim_region(
    encoder: EncoderView,
    header: DataHeader,
    filled: (EncoderView, Cursor),
    decoder: DecoderView,
)
    requires
        encoder_wf(encoder),
        decoder_wf(decoder),
        8 <= header.size <= u32::MAX,
        filled.1.base == encoder.end,
        filled.1.data.len() == header.size,
        same_below(filled.1.data, fresh_region(header, encoder.end).data, 64),
        filled.0.buffer.len() == encoder.buffer.len(),
        encoder.end + align_up(header.size as nat, 8) <= filled.0.end <= filled.0.buffer.len(),
        decoder.buffer.len() == filled.0.buffer.len(),
        decoder.buffer.subrange(encoder.end as int, filled.0.end as int) == filled.0.store(
            filled.1,
        ).buffer.subrange(encoder.end as int, filled.0.end as int),
        decoder.top <= encoder.end,
    ensures
        !decoder.claim_refused(encoder.end),
        claim_context(decoder, encoder.end).id == decoder.states.len(),
        decoder_wf(decoder.claimed(encoder.end)),
        decoder.claimed(encoder.end).has(claim_context(decoder, encoder.end)),
        decoder.claimed(encoder.end).state(claim_context(decoder, encoder.end)) == (Cursor {
            pos: 0,
            ..filled.1
        }),
        decoder.claimed(encoder.end).top == encoder.end + header.size,
        stated_size(filled.1.data) == header.size,
        stated_word(filled.1.data) == header.data.spec_value(),
        decoder.claimed(encoder.end).buffer.subrange(
            (encoder.end + align_up(header.size as nat, 8)) as int,
            filled.0.end as int,
        ) == filled.0.buffer.subrange(
            (encoder.end + align_up(header.size as nat, 8)) as int,
            filled.0.end as int,
        ),
{
    let place = encoder.end;
    let size = header.size as nat;
    lemma_align_up(size, 8);
    lemma_fresh_region(header, place);
    lemma_same_header(filled.1.data, fresh_region(header, place).data);
    lemma_splice(filled.0.buffer, place as int, filled.1.data);
    let stored = filled.0.store(filled.1);
    let region = decoder.buffer.subrange(place as int, (place + size) as int);
    assert(region =~= filled.1.data) by {
        assert forall|i: int| 0 <= i < size implies region[i] == filled.1.data[i] by {
            assert(decoder.buffer.subrange(place as int, filled.0.end as int)[i]
                == stored.buffer.subrange(place as int, filled.0.end as int)[i]);
        }
    }
    assert(decoder.buffer.subrange(place as int, (place + 8) as int) =~= region.subrange(0, 8));
    assert(decoder.size_at(place) == size) by {
        assert(decoder.buffer.subrange(place as int, (place + 8) as int).subrange(0, 4)
            =~= filled.1.data.subrange(0, 4));
    }
    let reserved_end = place + align_up(size, 8);
    assert(decoder.buffer.subrange(reserved_end as int, filled.0.end as int)
        =~= filled.0.buffer.subrange(reserved_end as int, filled.0.end as int)) by {
        assert forall|i: int| reserved_end <= i < filled.0.end implies decoder.buffer[i]
            == filled.0.buffer[i] by {
            assert(decoder.buffer.subrange(place as int, filled.0.end as int)[i - place]
                == stored.buffer.subrange(place as int, filled.0.end as int)[i - place]);
        }
    }
}

/// Whether `after` is the decoder behind a region that was claimed and read
/// where a value was written: nothing was claimed beyond what the value has
/// in regions of its own, the handles that the value took into the message
/// are claimed and no others, and the regions that were claimed before are
/// as they were.
pub open spec fn region_read_back(
    encoder: EncoderView,
    written: EncoderView,
    decoder: DecoderView,
    after: DecoderView,
) -> bool {
    &&& decoder_wf(after)
    &&& after.buffer == decoder.buffer
    &&& decoder.top <= after.top <= written.end
    &&& after.states.len() >= decoder.states.len()
    &&& forall|i: int|
        0 <= i < decoder.states.len() ==> #[trigger] after.states[i] == decoder.states[i]
    &&& after.handles.len() == decoder.handles.len()
    &&& forall|i: int|
        0 <= i < decoder.handles.len() ==> #[trigger] after.handles[i] == if encoder.handles.len()
            <= i < written.handles.len() {
            None
        } else {
            decoder.handles[i]
        }
}

} // verus!
