//! What holds of writing and reading unions together: a union that was
//! written, in place or by pointer, is read back as it was.

use crate::bits::{align_up, lemma_align_up, lemma_align_up_fixed};
use crate::cursor::{lemma_at, zeros, Cursor};
use crate::decoding::DecoderView;
use crate::encoding::{fresh_region, spec_pointer, Context, EncoderView};
use crate::laws::{
    encoder_wf, lemma_claim_region, lemma_fresh_region, lemma_pointer_read, lemma_put,
    lemma_same_below_chain, lemma_same_below_earlier, lemma_same_bytes, read_back, reads_back,
    same_below,
};
use crate::mojom::{
    claim_context, encode_ready, encode_step, lemma_cell_end, spec_decode_union,
    spec_decode_union_inline, spec_decode_union_nested, spec_encode_union, spec_encode_union_inline,
    spec_encode_union_nested, spec_union_compute_size, spec_union_embed_size, union_header,
    MojomUnion, MojomValue,
};
use crate::numeric::{lemma_le_bytes_of_zero, MojomNumeric};
use vstd::prelude::*;

verus! {

/// The size and the tag that a union cell starts with.
pub open spec fn cell_header(tag: u32) -> Seq<u8> {
    16u32.spec_wire_bytes() + tag.spec_wire_bytes()
}

/// Whether `cell` is the cursor behind the size and the tag of a union cell
/// with the tag `tag`.
pub open spec fn behind_cell_header(cell: Cursor, tag: u32) -> bool {
    &&& cell.wf()
    &&& cell.pos % 64 == 0
    &&& cell.pos >= 64
    &&& cell.data.subrange((cell.pos / 8 - 8) as int, (cell.pos / 8) as int) == cell_header(tag)
}

/// A union type of which the laws of the wire format are proved.
pub trait MojomUnionLaws: MojomUnion {
    /// Writing the member of a union moves the cursor by up to 8 bytes and
    /// hands out what the member takes in regions of its own; it takes the
    /// handles of the union into the message, and leaves what was written
    /// before.
    proof fn lemma_value_encode(&self, encoder: EncoderView, cell: Cursor, is_union: bool)
        requires
            self.spec_encodable(is_union),
            self.spec_canonical(),
            encoder_wf(encoder),
            cell.wf(),
            cell.pos % 64 == 0,
            encode_ready(
                encoder,
                cell,
                64,
                64,
                self.spec_compute_size(false),
                self.spec_handles().len(),
            ),
        ensures
            encoder_wf(self.spec_encode_value(encoder, cell, is_union).0),
            self.spec_encode_value(encoder, cell, is_union).1.wf(),
            self.spec_encode_value(encoder, cell, is_union).1.base == cell.base,
            self.spec_encode_value(encoder, cell, is_union).1.data.len() == cell.data.len(),
            cell.pos < self.spec_encode_value(encoder, cell, is_union).1.pos <= cell.pos + 64,
            self.spec_encode_value(encoder, cell, is_union).0.buffer.len() == encoder.buffer.len(),
            self.spec_encode_value(encoder, cell, is_union).0.end == encoder.end
                + self.spec_compute_size(false),
            self.spec_encode_value(encoder, cell, is_union).0.handles == encoder.handles
                + self.spec_handles(),
            same_below(self.spec_encode_value(encoder, cell, is_union).1.data, cell.data, cell.pos),
            self.spec_encode_value(encoder, cell, is_union).0.buffer.take(encoder.end as int)
                == encoder.buffer.take(encoder.end as int),
    ;

    /// The cell of a union that was written holds the union: a decoder that
    /// stands at the start of the cell reads the union, and stands behind the
    /// member afterwards.
    proof fn lemma_value_round_trip(
        &self,
        encoder: EncoderView,
        cell: Cursor,
        decoder: DecoderView,
        context: Context,
    )
        requires
            self.spec_encodable(context.is_union),
            self.spec_canonical(),
            encoder_wf(encoder),
            behind_cell_header(cell, self.spec_tag()),
            encode_ready(
                encoder,
                cell,
                64,
                64,
                self.spec_compute_size(false),
                self.spec_handles().len(),
            ),
            reads_back(
                encoder,
                Cursor { pos: (cell.pos - 64) as nat, ..cell },
                self.spec_encode_value(encoder, cell, context.is_union),
                decoder,
                context,
                64,
            ),
        ensures
            Self::spec_decode_value(decoder, context) is Value,
            Self::spec_decode_value(decoder, context)->Value_1 == self.deep_view(),
            read_back(
                encoder,
                self.spec_encode_value(encoder, cell, context.is_union),
                decoder,
                context,
                Self::spec_decode_value(decoder, context)->Value_0,
            ),
    ;
}

/// The cursor behind the size and the tag of a cell that is written in
/// place.
pub proof fn lemma_cell_in_place(state: Cursor, tag: u32)
    requires
        state.wf(),
        state.fits(64, 128),
    ensures
        behind_cell_header(state.put(8, cell_header(tag)), tag),
        state.put(8, cell_header(tag)).pos == align_up(state.pos, 64) + 64,
        state.put(8, cell_header(tag)).base == state.base,
        state.put(8, cell_header(tag)).data.len() == state.data.len(),
        state.put(8, cell_header(tag)).fits(64, 64),
        same_below(state.put(8, cell_header(tag)).data, state.data, state.pos),
        cell_header(tag).len() == 8,
{
    16u32.lemma_wire_bytes();
    tag.lemma_wire_bytes();
    lemma_put(state, 8, cell_header(tag));
    lemma_at(state, 8);
    lemma_align_up(state.pos, 64);
    let cell = state.put(8, cell_header(tag));
    lemma_align_up_fixed(cell.pos, 64);
    assert(cell.pos / 8 == state.at(8) + 8);
}

/// What writing a union in place does.
#[verifier::rlimit(40)]
pub proof fn lemma_union_inline_encode<T: MojomUnionLaws>(
    value: &T,
    encoder: EncoderView,
    state: Cursor,
    is_union: bool,
)
    requires
        value.spec_encodable(is_union),
        value.spec_canonical(),
        encoder_wf(encoder),
        state.wf(),
        encode_ready(
            encoder,
            state,
            64,
            128,
            value.spec_compute_size(false),
            value.spec_handles().len(),
        ),
    ensures
        encoder_wf(spec_encode_union_inline(value, encoder, state, is_union).0),
        spec_encode_union_inline(value, encoder, state, is_union).1.wf(),
        encode_step(
            encoder,
            state,
            spec_encode_union_inline(value, encoder, state, is_union).0,
            spec_encode_union_inline(value, encoder, state, is_union).1,
            64,
            128,
            value.spec_compute_size(false),
            value.spec_handles().len(),
        ),
        spec_encode_union_inline(value, encoder, state, is_union).0.handles == encoder.handles
            + value.spec_handles(),
        same_below(
            spec_encode_union_inline(value, encoder, state, is_union).1.data,
            state.data,
            state.pos,
        ),
        spec_encode_union_inline(value, encoder, state, is_union).0.buffer.take(encoder.end as int)
            == encoder.buffer.take(encoder.end as int),
{
    let tag = value.spec_tag();
    lemma_cell_in_place(state, tag);
    let cell = state.put(8, cell_header(tag));
    value.lemma_value_encode(encoder, cell, is_union);
    let written = value.spec_encode_value(encoder, cell, is_union);
    lemma_cell_end(written.1.pos, (cell.pos - 64) as nat);
    lemma_align_up(state.pos, 64);
    lemma_same_below_earlier(written.1.data, cell.data, cell.pos, state.pos);
    lemma_same_below_chain(written.1.data, cell.data, state.data, state.pos);
}

/// A union that was written in place is read back as it was.
#[verifier::rlimit(40)]
pub proof fn lemma_union_inline_round_trip<T: MojomUnionLaws>(
    value: &T,
    encoder: EncoderView,
    state: Cursor,
    decoder: DecoderView,
    context: Context,
)
    requires
        value.spec_encodable(context.is_union),
        value.spec_canonical(),
        encoder_wf(encoder),
        state.wf(),
        encode_ready(
            encoder,
            state,
            64,
            128,
            value.spec_compute_size(false),
            value.spec_handles().len(),
        ),
        reads_back(
            encoder,
            state,
            spec_encode_union_inline(value, encoder, state, context.is_union),
            decoder,
            context,
            64,
        ),
    ensures
        spec_decode_union_inline::<T>(decoder, context) is Value,
        spec_decode_union_inline::<T>(decoder, context)->Value_1 == value.deep_view(),
        read_back(
            encoder,
            spec_encode_union_inline(value, encoder, state, context.is_union),
            decoder,
            context,
            spec_decode_union_inline::<T>(decoder, context)->Value_0,
        ),
{
    let tag = value.spec_tag();
    let is_union = context.is_union;
    lemma_cell_in_place(state, tag);
    lemma_union_inline_encode(value, encoder, state, is_union);
    let cell = state.put(8, cell_header(tag));
    value.lemma_value_encode(encoder, cell, is_union);
    let written = value.spec_encode_value(encoder, cell, is_union);
    let result = spec_encode_union_inline(value, encoder, state, is_union);
    let start = align_up(state.pos, 64);
    lemma_align_up(state.pos, 64);
    lemma_align_up_fixed(start, 64);
    lemma_cell_end(written.1.pos, start);
    let reader = decoder.state(context);
    // the cell is no cell of zeros: it states its size
    lemma_at(reader, 8);
    lemma_at(state, 8);
    assert(reader.at(8) == state.at(8));
    lemma_same_below_earlier(reader.data, result.1.data, result.1.pos, cell.pos);
    lemma_same_below_chain(reader.data, written.1.data, cell.data, cell.pos);
    lemma_same_bytes(reader.data, cell.data, state.at(8), 8);
    assert(reader.peek(8, 16) != zeros(16)) by {
        16u32.lemma_wire_bytes();
        tag.lemma_wire_bytes();
        0u32.lemma_wire_bytes();
        lemma_le_bytes_of_zero(4);
        if reader.peek(8, 16) == zeros(16) {
            assert(reader.peek(8, 16).subrange(0, 4) =~= zeros(4));
            assert(reader.peek(8, 16).subrange(0, 4) =~= cell_header(tag).subrange(0, 4));
            assert(cell_header(tag).subrange(0, 4) =~= 16u32.spec_wire_bytes());
            assert(0u32.spec_wire_bytes() == zeros(4));
        }
    }
    // the member
    let aligned = decoder.with_state(context.id as int, reader.aligned(64));
    lemma_same_below_earlier(reader.data, result.1.data, result.1.pos, written.1.pos);
    assert(reads_back(
        encoder,
        Cursor { pos: (cell.pos - 64) as nat, ..cell },
        written,
        aligned,
        context,
        64,
    )) by {
        assert forall|i: int|
            encoder.handles.len() <= i < written.0.handles.len() implies #[trigger] aligned.handles[i]
            == Some(written.0.handles[i]) by {
            assert(decoder.handles[i] == Some(result.0.handles[i]));
        }
    }
    value.lemma_value_round_trip(encoder, cell, aligned, context);
    let read = T::spec_decode_value(aligned, context)->Value_0;
    let after = read.with_state(context.id as int, read.state(context).aligned(64));
    assert forall|i: int|
        0 <= i < decoder.states.len() && i != context.id implies #[trigger] after.states[i]
        == decoder.states[i] by {
        assert(read.states[i] == aligned.states[i]);
    }
    assert(after.handles =~= read.handles);
}

/// What writing a union by pointer does.
#[verifier::rlimit(40)]
pub proof fn lemma_union_nested_encode<T: MojomUnionLaws>(
    value: &T,
    encoder: EncoderView,
    state: Cursor,
)
    requires
        value.spec_encodable(true),
        value.spec_canonical(),
        encoder_wf(encoder),
        state.wf(),
        encode_ready(
            encoder,
            state,
            64,
            64,
            16 + value.spec_compute_size(false),
            value.spec_handles().len(),
        ),
    ensures
        encoder_wf(spec_encode_union_nested(value, encoder, state).0),
        spec_encode_union_nested(value, encoder, state).1.wf(),
        encode_step(
            encoder,
            state,
            spec_encode_union_nested(value, encoder, state).0,
            spec_encode_union_nested(value, encoder, state).1,
            64,
            64,
            16 + value.spec_compute_size(false),
            value.spec_handles().len(),
        ),
        spec_encode_union_nested(value, encoder, state).0.handles == encoder.handles
            + value.spec_handles(),
        same_below(spec_encode_union_nested(value, encoder, state).1.data, state.data, state.pos),
        spec_encode_union_nested(value, encoder, state).0.buffer.take(encoder.end as int)
            == encoder.buffer.take(encoder.end as int),
        behind_cell_header(fresh_region(union_header(value.spec_tag()), encoder.end), value.spec_tag()),
{
    let tag = value.spec_tag();
    let header = union_header(tag);
    let reserved = encoder.reserve(16);
    let fresh = fresh_region(header, encoder.end);
    lemma_align_up_fixed(16, 8);
    lemma_align_up_fixed(64, 64);
    lemma_fresh_region(header, encoder.end);
    crate::cursor::lemma_splice(encoder.buffer, encoder.end as int, zeros(16));
    value.lemma_value_encode(reserved, fresh, true);
    let filled = value.spec_encode_value(reserved, fresh, true);
    let written = spec_encode_union_nested(value, encoder, state);
    crate::cursor::lemma_splice(filled.0.buffer, encoder.end as int, filled.1.data);
    let pointer = spec_pointer(state, encoder.end as u64);
    pointer.lemma_wire_bytes();
    lemma_put(state, 8, pointer.spec_wire_bytes());
    assert(written.0.buffer.take(encoder.end as int) =~= encoder.buffer.take(encoder.end as int))
        by {
        assert forall|i: int| 0 <= i < encoder.end implies written.0.buffer[i]
            == encoder.buffer[i] by {
            assert(filled.0.buffer.take(reserved.end as int)[i] == reserved.buffer.take(
                reserved.end as int,
            )[i]);
        }
    }
}

/// A union that was written by pointer is read back as it was.
#[verifier::rlimit(40)]
pub proof fn lemma_union_nested_round_trip<T: MojomUnionLaws>(
    value: &T,
    encoder: EncoderView,
    state: Cursor,
    decoder: DecoderView,
    context: Context,
)
    requires
        value.spec_encodable(true),
        value.spec_canonical(),
        encoder_wf(encoder),
        state.wf(),
        encode_ready(
            encoder,
            state,
            64,
            64,
            16 + value.spec_compute_size(false),
            value.spec_handles().len(),
        ),
        reads_back(
            encoder,
            state,
            spec_encode_union_nested(value, encoder, state),
            decoder,
            context,
            64,
        ),
    ensures
        spec_decode_union_nested::<T>(decoder, context) is Value,
        spec_decode_union_nested::<T>(decoder, context)->Value_1 == value.deep_view(),
        read_back(
            encoder,
            spec_encode_union_nested(value, encoder, state),
            decoder,
            context,
            spec_decode_union_nested::<T>(decoder, context)->Value_0,
        ),
{
    let tag = value.spec_tag();
    let header = union_header(tag);
    lemma_union_nested_encode(value, encoder, state);
    let reserved = encoder.reserve(16);
    let fresh = fresh_region(header, encoder.end);
    lemma_align_up_fixed(16, 8);
    lemma_align_up_fixed(64, 64);
    lemma_fresh_region(header, encoder.end);
    crate::cursor::lemma_splice(encoder.buffer, encoder.end as int, zeros(16));
    value.lemma_value_encode(reserved, fresh, true);
    let filled = value.spec_encode_value(reserved, fresh, true);
    let written = spec_encode_union_nested(value, encoder, state);
    crate::cursor::lemma_splice(filled.0.buffer, encoder.end as int, filled.1.data);
    // the pointer
    let reader = decoder.state(context);
    lemma_pointer_read(state, encoder.end, reader, decoder.buffer.len());
    let moved = decoder.with_state(context.id as int, reader.skip(8, 8));
    // the cell
    lemma_claim_region(encoder, header, filled, moved);
    let claimed = moved.claimed(encoder.end);
    let inner = Context { is_union: true, ..claim_context(moved, encoder.end) };
    assert(reads_back(reserved, Cursor { pos: 0, ..fresh }, filled, claimed, inner, 64)) by {
        crate::laws::lemma_same_below_earlier(
            filled.1.data,
            filled.1.data,
            8 * filled.1.data.len(),
            filled.1.pos,
        );
        assert forall|i: int|
            reserved.handles.len() <= i < filled.0.handles.len() implies #[trigger] claimed.handles[i]
            == Some(filled.0.handles[i]) by {
            assert(decoder.handles[i] == Some(written.0.handles[i]));
        }
    }
    value.lemma_value_round_trip(reserved, fresh, claimed, inner);
    let after = T::spec_decode_value(claimed, inner)->Value_0;
    assert(after.states[context.id as int] == claimed.states[context.id as int]);
    assert forall|i: int|
        0 <= i < decoder.states.len() && i != context.id implies #[trigger] after.states[i]
        == decoder.states[i] by {
        assert(claimed.states[i] == moved.states[i]);
    }
}

/// Round trip, of unions. A union that was written as its context asks, in
/// place or by pointer, is read back as it was.
pub proof fn law_union_round_trip<T: MojomUnionLaws>(
    value: &T,
    encoder: EncoderView,
    state: Cursor,
    decoder: DecoderView,
    context: Context,
)
    requires
        value.spec_encodable(context.is_union),
        value.spec_canonical(),
        encoder_wf(encoder),
        state.wf(),
        encode_ready(
            encoder,
            state,
            64,
            spec_union_embed_size(context.is_union),
            spec_union_compute_size(value, context.is_union),
            value.spec_handles().len(),
        ),
        reads_back(
            encoder,
            state,
            spec_encode_union(value, encoder, state, context.is_union),
            decoder,
            context,
            64,
        ),
    ensures
        spec_decode_union::<T>(decoder, context) is Value,
        spec_decode_union::<T>(decoder, context)->Value_1 == value.deep_view(),
        read_back(
            encoder,
            spec_encode_union(value, encoder, state, context.is_union),
            decoder,
            context,
            spec_decode_union::<T>(decoder, context)->Value_0,
        ),
{
    if context.is_union {
        lemma_union_nested_round_trip(value, encoder, state, decoder, context);
    } else {
        lemma_union_inline_round_trip(value, encoder, state, decoder, context);
    }
}

} // verus!
