//! Interfaces: message pipes that carry the messages of one interface, and
//! what the bindings do on either side of such a pipe. Reading from the pipe
//! and writing to it is the business of the runtime; what is written and
//! what is made of what was read is decided here.

use crate::cursor::{lemma_put_skip, Cursor};
use crate::data::{HandleRef, InterfaceData};
use crate::decoding::{Decoder, DecoderView, ValidationError};
use crate::encoding::{Context, Encoder, EncoderView, EncodingState};
use crate::message::{message_header_bytes, spec_message_header, MessageHeader};
use crate::mojom::{
    decode_kept, decode_step, encode_ready, encode_step, spec_message, Decoded, MojomEncodable,
    MojomPointer, MojomStruct, MojomValue,
};
use crate::numeric::MojomNumeric;
use crate::system::{CastHandle, MessageEndpoint, MojoResult, UntypedHandle};
use vstd::prelude::*;
use vstd::slice::slice_subrange;

verus! {

/// A message pipe that carries the messages of one interface, in one of the
/// versions of the interface.
pub trait MojomInterface: MojomValue {
    /// The version of the interface that the other end speaks.
    spec fn spec_version(&self) -> u32;

    /// The message pipe of the interface.
    spec fn spec_pipe(&self) -> MessageEndpoint;

    /// The name of the service that the interface belongs to.
    fn service_name() -> &'static str;

    /// The version of the interface that the other end speaks.
    fn version(&self) -> (version: u32)
        ensures
            version == self.spec_version(),
    ;

    /// The message pipe of the interface.
    fn pipe(&self) -> (pipe: &MessageEndpoint)
        ensures
            *pipe == self.spec_pipe(),
    ;

    /// Gives up the interface for its message pipe.
    fn unwrap(self) -> (pipe: MessageEndpoint)
        ensures
            pipe == self.spec_pipe(),
    ;
}

/// The encoder and the region after an interface was written: the handle of
/// its pipe at the end of the handle vector, and the index of the handle and
/// the version under the cursor.
pub open spec fn spec_encode_interface(
    pipe: MessageEndpoint,
    version: u32,
    encoder: EncoderView,
    state: Cursor,
) -> (EncoderView, Cursor) {
    (
        encoder.with_handle(pipe.spec_untyped()),
        state.put(4, (encoder.handles.len() as u32).spec_wire_bytes() + version.spec_wire_bytes()),
    )
}

/// The message pipe and the version of the interface that stands under the
/// cursor of the region of `context`. The null interface is refused, and so
/// is a handle that cannot be claimed as a message pipe.
pub open spec fn spec_decode_interface(decoder: DecoderView, context: Context) -> Decoded<
    (MessageEndpoint, u32),
> {
    let index = u32::spec_from_wire_bytes(decoder.state(context).peek(4, 4));
    let version = u32::spec_from_wire_bytes(decoder.state(context).skip(4, 4).peek(4, 4));
    let moved = decoder.with_state(context.id as int, decoder.state(context).skip(4, 8));
    if index == u32::MAX {
        Decoded::Invalid(ValidationError::UnexpectedNullPointer)
    } else if moved.handle_refused::<MessageEndpoint>(index as nat) {
        Decoded::Invalid(ValidationError::IllegalHandle)
    } else {
        Decoded::Value(
            moved.without_handle(index as nat),
            (
                MessageEndpoint::spec_from_untyped(moved.handles[index as int].unwrap()),
                version,
            ),
        )
    }
}

/// Writes an interface: gives the handle of its pipe to the encoder, and
/// writes the index of the handle and the version under the cursor of
/// `state`.
pub fn encode_interface<T: MojomInterface>(
    val: T,
    encoder: &mut Encoder,
    state: &mut EncodingState,
)
    requires
        old(encoder).wf(),
        old(state).wf(),
        encode_ready(old(encoder)@, old(state)@, 32, 64, 0, 1),
    ensures
        final(encoder).wf(),
        final(state).wf(),
        encode_step(old(encoder)@, old(state)@, final(encoder)@, final(state)@, 32, 64, 0, 1),
        (final(encoder)@, final(state)@) == spec_encode_interface(
            val.spec_pipe(),
            val.spec_version(),
            old(encoder)@,
            old(state)@,
        ),
        final(encoder)@.handles == old(encoder)@.handles + seq![val.spec_pipe().spec_untyped()],
{
    let version = val.version();
    let pos = encoder.add_handle(val.unwrap().as_untyped());
    let data = InterfaceData { handle: HandleRef { index: pos }, version };
    proof {
        pos.lemma_wire_bytes();
        version.lemma_wire_bytes();
        lemma_put_skip(state@, 4, pos.spec_wire_bytes() + version.spec_wire_bytes());
        assert(encoder@.handles =~= old(encoder)@.handles + seq![val.spec_pipe().spec_untyped()]);
    }
    state.encode_interface_data(data);
}

/// Reads an interface: the index of a handle and a version under the cursor
/// of the region of `context`, then the handle, as a message pipe.
#[verifier::rlimit(40)]
pub fn decode_interface(decoder: &mut Decoder, context: Context) -> (interface: Result<
    (MessageEndpoint, u32),
    ValidationError,
>)
    requires
        old(decoder).wf(),
        old(decoder)@.has(context),
        old(decoder)@.state(context).fits(32, 64),
    ensures
        final(decoder).wf(),
        decode_kept(old(decoder)@, final(decoder)@),
        match interface {
            Ok(i) => {
                &&& spec_decode_interface(old(decoder)@, context) == Decoded::Value(
                    final(decoder)@,
                    i,
                )
                &&& decode_step(old(decoder)@, final(decoder)@, context, 32, 64)
            },
            Err(e) => spec_decode_interface(old(decoder)@, context) == Decoded::<
                (MessageEndpoint, u32),
            >::Invalid(e),
        },
{
    proof {
        let zero = 0u32.spec_wire_bytes();
        0u32.lemma_wire_bytes();
        lemma_put_skip(decoder@.state(context), 4, zero + zero);
    }
    let state = decoder.get_mut(&context);
    let data = state.decode_interface_data();
    if data.is_null() {
        return Err(ValidationError::UnexpectedNullPointer);
    }
    match decoder.claim_handle::<MessageEndpoint>(data.handle.index) {
        Ok(pipe) => Ok((pipe, data.version)),
        Err(err) => Err(err),
    }
}

/// A struct that is the payload of a message of some interface.
pub trait MojomMessage: MojomStruct {
    /// The least version of the interface that knows the message.
    spec fn spec_min_version() -> u32;

    /// The header of the message, but for the request id.
    spec fn spec_header() -> MessageHeader;

    /// The least version of the interface that knows the message.
    fn min_version() -> (version: u32)
        ensures
            version == Self::spec_min_version(),
    ;

    /// The header of the message, but for the request id. It is one that the
    /// bindings can write.
    fn create_header() -> (header: MessageHeader)
        ensures
            header == Self::spec_header(),
            header.spec_writable(),
    ;
}

/// The header of a request: the header of its message with the request id,
/// where the version of the header has one.
pub open spec fn spec_request_header(header: MessageHeader, req_id: u64) -> MessageHeader {
    if header.version > 0 {
        MessageHeader { request_id: req_id, ..header }
    } else {
        header
    }
}

/// Why a message was not sent.
#[derive(Debug, PartialEq, Eq)]
pub enum MojomSendError {
    /// The message pipe did not take the message.
    FailedWrite(MojoResult),
    /// The other end speaks the first version, and the message needs the
    /// second.
    OldVersion(u32, u32),
}

/// Why no message was received.
#[derive(Debug, PartialEq, Eq)]
pub enum MojomRecvError {
    /// The message pipe gave no message.
    FailedRead(MojoResult),
    /// The message was refused.
    FailedValidation(ValidationError),
}

/// What the outcome of writing a message to the pipe means for the sender.
pub fn write_outcome(result: MojoResult) -> (outcome: Result<(), MojomSendError>)
    ensures
        result.0 == 0 ==> outcome == Ok::<(), MojomSendError>(()),
        result.0 != 0 ==> outcome == Err::<(), MojomSendError>(MojomSendError::FailedWrite(result)),
{
    if result.is_okay() {
        Ok(())
    } else {
        Err(MojomSendError::FailedWrite(result))
    }
}

/// An interface over which messages of type `R` can be sent.
pub trait MojomInterfaceSend<R: MojomMessage>: MojomInterface {
    /// Makes the message for a request: the header of `R` with the request
    /// id `req_id`, as a message of its own, and behind it the payload, as a
    /// message of its own. The handles are those of the payload.
    fn create_request(&self, req_id: u64, payload: R) -> (message: (Vec<u8>, Vec<UntypedHandle>))
        requires
            payload.spec_encodable(false),
            message_header_bytes(R::spec_header().version) + payload.spec_compute_size(false)
                <= usize::MAX,
            payload.spec_handles().len() <= u32::MAX,
        ensures
            message.0@.len() == message_header_bytes(R::spec_header().version)
                + payload.spec_compute_size(false),
            message.1@.len() == payload.spec_handles().len(),
            payload.spec_canonical() ==> message.0@ == spec_message(
                &spec_request_header(R::spec_header(), req_id),
                crate::cursor::zeros(message_header_bytes(R::spec_header().version)),
            ).buffer + spec_message(
                &payload,
                crate::cursor::zeros(payload.spec_compute_size(false)),
            ).buffer,
            payload.spec_canonical() ==> message.1@ == payload.spec_handles(),
    {
        let mut header = R::create_header();
        if header.version > 0 {
            header.request_id = req_id;
        }
        let (mut buffer, mut handles) = header.auto_serialize();
        let (mut rest, mut payload_handles) = payload.auto_serialize();
        buffer.append(&mut rest);
        handles.append(&mut payload_handles);
        proof {
            assert(payload.spec_canonical() ==> handles@ =~= payload.spec_handles());
        }
        (buffer, handles)
    }

    /// Makes the message for a request, unless the other end speaks a version
    /// of the interface that does not know the message yet. The message is
    /// for the caller to write to the pipe.
    fn send_request(&self, req_id: u64, payload: R) -> (message: Result<
        (Vec<u8>, Vec<UntypedHandle>),
        MojomSendError,
    >)
        requires
            payload.spec_encodable(false),
            message_header_bytes(R::spec_header().version) + payload.spec_compute_size(false)
                <= usize::MAX,
            payload.spec_handles().len() <= u32::MAX,
        ensures
            self.spec_version() < R::spec_min_version() ==> message == Err::<
                (Vec<u8>, Vec<UntypedHandle>),
                MojomSendError,
            >(MojomSendError::OldVersion(self.spec_version(), R::spec_min_version())),
            self.spec_version() >= R::spec_min_version() ==> {
                &&& message.is_ok()
                &&& message.unwrap().0@.len() == message_header_bytes(R::spec_header().version)
                    + payload.spec_compute_size(false)
                &&& message.unwrap().1@.len() == payload.spec_handles().len()
                &&& payload.spec_canonical() ==> message.unwrap().0@ == spec_message(
                    &spec_request_header(R::spec_header(), req_id),
                    crate::cursor::zeros(message_header_bytes(R::spec_header().version)),
                ).buffer + spec_message(
                    &payload,
                    crate::cursor::zeros(payload.spec_compute_size(false)),
                ).buffer
                &&& payload.spec_canonical() ==> message.unwrap().1@ == payload.spec_handles()
            },
    {
        if self.version() < R::min_version() {
            return Err(MojomSendError::OldVersion(self.version(), R::min_version()));
        }
        Ok(self.create_request(req_id, payload))
    }
}

/// The payload of a message: what follows its header. The header is as long
/// as its version states.
pub open spec fn spec_payload(buffer: Seq<u8>) -> Seq<u8> {
    match spec_message_header(buffer) {
        Ok(header) => buffer.skip(message_header_bytes(header.version) as int),
        Err(_) => Seq::empty(),
    }
}

/// What a message holds: one of the messages of an interface.
pub trait MojomMessageOption: Sized + DeepView {
    /// The message that a payload holds, by the header it came with: nothing
    /// where nothing is said of the payload.
    spec fn spec_decode_payload(
        header: MessageHeader,
        buffer: Seq<u8>,
        handles: Seq<UntypedHandle>,
    ) -> Option<Result<Self::V, ValidationError>>;

    /// Reads the payload of a message, by the header it came with.
    fn decode_payload(header: MessageHeader, buffer: &[u8], handles: Vec<UntypedHandle>) -> (value:
        Result<Self, ValidationError>)
        requires
            Self::spec_decode_payload(header, buffer@, handles@).is_some(),
        ensures
            Self::spec_decode_payload(header, buffer@, handles@) == Some(
                match value {
                    Ok(v) => Ok::<Self::V, ValidationError>(v.deep_view()),
                    Err(e) => Err::<Self::V, ValidationError>(e),
                },
            ),
    ;

    /// Reads a message: the header, which is a message of its own without
    /// handles, then the payload, which is what follows the header, with the
    /// handles of the message. Returns the request id of the header with the
    /// payload.
    #[verifier::rlimit(40)]
    fn decode_message(buffer: Vec<u8>, handles: Vec<UntypedHandle>) -> (message: Result<
        (u64, Self),
        ValidationError,
    >)
        requires
            spec_message_header(buffer@).is_ok() ==> Self::spec_decode_payload(
                spec_message_header(buffer@).unwrap(),
                spec_payload(buffer@),
                handles@,
            ).is_some(),
        ensures
            match spec_message_header(buffer@) {
                Ok(header) => match Self::spec_decode_payload(
                    header,
                    spec_payload(buffer@),
                    handles@,
                ).unwrap() {
                    Ok(v) => message.is_ok() && message.unwrap().0 == header.request_id
                        && message.unwrap().1.deep_view() == v,
                    Err(e) => message == Err::<(u64, Self), ValidationError>(e),
                },
                Err(e) => message == Err::<(u64, Self), ValidationError>(e),
            },
    {
        let header = match MessageHeader::deserialize(buffer.as_slice(), Vec::new()) {
            Ok(header) => header,
            Err(err) => {
                return Err(err);
            },
        };
        proof {
            let start = crate::mojom::spec_decoder(buffer@, Seq::empty());
            let region = start.claimed(0).state(Context { id: 0, offset: 0, is_union: false });
            assert(region.data.subrange(0, 4) == buffer@.subrange(0, 8).subrange(0, 4));
        }
        let size = header.serialized_size(&Context::default());
        let payload_buffer = slice_subrange(buffer.as_slice(), size, buffer.len());
        assert(payload_buffer@ == buffer@.skip(size as int));
        let req_id = header.request_id;
        match Self::decode_payload(header, payload_buffer, handles) {
            Ok(ret) => Ok((req_id, ret)),
            Err(err) => Err(err),
        }
    }
}

/// An interface over which messages can be received.
pub trait MojomInterfaceRecv: MojomInterface {
    /// What a message of the interface holds.
    type Container: MojomMessageOption;

    /// Makes of what was read from the pipe what the receiver gets: the
    /// request id and the payload of the message, or the reason why there is
    /// none.
    fn recv_response(read: Result<(Vec<u8>, Vec<UntypedHandle>), MojoResult>) -> (response: Result<
        (u64, Self::Container),
        MojomRecvError,
    >)
        requires
            read.is_ok() && spec_message_header(read.unwrap().0@).is_ok() ==> <
                Self::Container as MojomMessageOption
            >::spec_decode_payload(
                spec_message_header(read.unwrap().0@).unwrap(),
                spec_payload(read.unwrap().0@),
                read.unwrap().1@,
            ).is_some(),
        ensures
            match read {
                Err(code) => response == Err::<(u64, Self::Container), MojomRecvError>(
                    MojomRecvError::FailedRead(code),
                ),
                Ok((buffer, handles)) => match spec_message_header(buffer@) {
                    Ok(header) => match <
                        Self::Container as MojomMessageOption
                    >::spec_decode_payload(header, spec_payload(buffer@), handles@).unwrap() {
                        Ok(v) => response.is_ok() && response.unwrap().0 == header.request_id
                            && response.unwrap().1.deep_view() == v,
                        Err(e) => response == Err::<(u64, Self::Container), MojomRecvError>(
                            MojomRecvError::FailedValidation(e),
                        ),
                    },
                    Err(e) => response == Err::<(u64, Self::Container), MojomRecvError>(
                        MojomRecvError::FailedValidation(e),
                    ),
                },
            },
    {
        match read {
            Ok((buffer, handles)) => match Self::Container::decode_message(buffer, handles) {
                Ok((req_id, val)) => Ok((req_id, val)),
                Err(err) => Err(MojomRecvError::FailedValidation(err)),
            },
            Err(err) => Err(MojomRecvError::FailedRead(err)),
        }
    }
}

/// Round trip, of the envelope. A message that was made of a header and a
/// payload is taken apart into the header and the payload: the header is
/// read from the start of the message, and the payload is what follows it.
pub proof fn law_envelope_round_trip(header: MessageHeader, payload: Seq<u8>)
    requires
        header.spec_writable(),
        message_header_bytes(header.version) + payload.len() <= usize::MAX,
    ensures
        spec_message_header(
            spec_message(
                &header,
                crate::cursor::zeros(message_header_bytes(header.version)),
            ).buffer + payload,
        ) == Ok::<MessageHeader, ValidationError>(header),
        spec_payload(
            spec_message(
                &header,
                crate::cursor::zeros(message_header_bytes(header.version)),
            ).buffer + payload,
        ) == payload,
{
    let size = message_header_bytes(header.version);
    let image = spec_message(&header, crate::cursor::zeros(size)).buffer;
    crate::laws::law_round_trip::<MessageHeader>(&header, crate::cursor::zeros(size));
    let whole = image + payload;
    let alone = crate::mojom::spec_decoder(image, Seq::empty());
    let decoder = crate::mojom::spec_decoder(whole, Seq::empty());
    let root = Context { id: 0, offset: 0, is_union: false };
    assert(whole.subrange(0, 8) =~= image.subrange(0, 8));
    assert(alone.size_at(0) == size) by {
        let region = alone.claimed(0).state(root);
        assert(region.data.subrange(0, 4) =~= image.subrange(0, 8).subrange(0, 4));
    }
    assert(decoder.size_at(0) == size);
    assert(whole.subrange(0, size as int) =~= image.subrange(0, size as int));
    assert(decoder.claimed(0).state(root) == alone.claimed(0).state(root));
    assert(whole.skip(size as int) =~= payload);
}

/// Round trip, of interfaces. An interface that was written is read back as
/// the message pipe and the version that it was, and its handle is claimed
/// then.
#[verifier::rlimit(40)]
pub proof fn law_interface_round_trip(
    pipe: MessageEndpoint,
    version: u32,
    encoder: EncoderView,
    state: Cursor,
    decoder: DecoderView,
    context: Context,
)
    requires
        crate::laws::encoder_wf(encoder),
        state.wf(),
        encode_ready(encoder, state, 32, 64, 0, 1),
        crate::laws::reads_back(
            encoder,
            state,
            spec_encode_interface(pipe, version, encoder, state),
            decoder,
            context,
            32,
        ),
    ensures
        spec_decode_interface(decoder, context) is Value,
        spec_decode_interface(decoder, context)->Value_1 == (pipe, version),
        crate::laws::read_back(
            encoder,
            spec_encode_interface(pipe, version, encoder, state),
            decoder,
            context,
            spec_decode_interface(decoder, context)->Value_0,
        ),
{
    let index = encoder.handles.len() as u32;
    index.lemma_wire_bytes();
    version.lemma_wire_bytes();
    let bytes = index.spec_wire_bytes() + version.spec_wire_bytes();
    crate::laws::lemma_put(state, 4, bytes);
    let written = spec_encode_interface(pipe, version, encoder, state);
    let reader = decoder.state(context);
    crate::cursor::lemma_at(reader, 4);
    crate::cursor::lemma_at(state, 4);
    assert(reader.at(4) == state.at(4));
    crate::laws::lemma_same_bytes(reader.data, written.1.data, state.at(4), 8);
    assert(reader.peek(4, 8) == bytes);
    assert(reader.peek(4, 4) =~= bytes.subrange(0, 4));
    assert(bytes.subrange(0, 4) =~= index.spec_wire_bytes());
    crate::bits::lemma_align_up_fixed(reader.skip(4, 4).pos, 32);
    assert(reader.skip(4, 4).at(4) == state.at(4) + 4);
    assert(reader.skip(4, 4).peek(4, 4) =~= bytes.subrange(4, 8));
    assert(bytes.subrange(4, 8) =~= version.spec_wire_bytes());
    assert(written.0.handles[index as int] == pipe.spec_untyped());
    assert(decoder.handles[index as int] == Some(written.0.handles[index as int]));
}

} // verus!
