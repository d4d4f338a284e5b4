//! Handles as the bindings see them: an owned token with a native identity
//! and a kind. Opening, waiting on and closing the object behind a handle is
//! the business of the runtime that owns it.

use vstd::prelude::*;

verus! {

/// What the runtime reports of an operation on a handle: a code, of which 0
/// stands for success.
#[derive(Clone, Copy, Debug, PartialEq, Eq, Structural)]
pub struct MojoResult(pub u32);

impl MojoResult {
    /// Whether the operation succeeded.
    pub fn is_okay(&self) -> (okay: bool)
        ensures
            okay == (self.0 == 0),
    {
        self.0 == 0
    }
}

/// The kind of object that a handle refers to.
#[derive(Clone, Copy, Debug, PartialEq, Eq, Structural)]
pub enum HandleKind {
    /// Nothing is known of the object.
    Untyped,
    /// One end of a message pipe.
    MessagePipe,
    /// A shared buffer.
    SharedBuffer,
    /// The reading end of a data pipe.
    DataPipeConsumer,
    /// The writing end of a data pipe.
    DataPipeProducer,
}

/// An owned handle of any kind. It is neither `Clone` nor `Copy`: whoever
/// holds the value owns the handle.
#[derive(Debug, PartialEq, Eq)]
pub struct UntypedHandle {
    pub native: u64,
    pub kind: HandleKind,
}

impl DeepView for UntypedHandle {
    type V = UntypedHandle;

    open spec fn deep_view(&self) -> UntypedHandle {
        *self
    }
}

/// Takes ownership of the handle with the given native identity, of which no
/// kind is known.
pub fn acquire(native: u64) -> (handle: UntypedHandle)
    ensures
        handle == (UntypedHandle { native, kind: HandleKind::Untyped }),
{
    UntypedHandle { native, kind: HandleKind::Untyped }
}

/// What every handle offers.
pub trait Handle: Sized {
    /// The native identity of the handle.
    spec fn spec_native(&self) -> u64;

    /// The native identity of the handle.
    fn get_native_handle(&self) -> (native: u64)
        ensures
            native == self.spec_native(),
    ;
}

/// Conversion between a handle type and the untyped handle.
pub trait CastHandle: Handle {
    /// The untyped handle that this handle is.
    spec fn spec_untyped(&self) -> UntypedHandle;

    /// Whether a handle of kind `kind` can be taken as a handle of this type.
    spec fn spec_accepts(kind: HandleKind) -> bool;

    /// The handle of this type that an untyped handle is taken as.
    spec fn spec_from_untyped(handle: UntypedHandle) -> Self;

    /// Whether a handle of kind `kind` can be taken as a handle of this type.
    fn accepts(kind: HandleKind) -> (yes: bool)
        ensures
            yes == Self::spec_accepts(kind),
    ;

    /// Takes an untyped handle as a handle of this type.
    fn from_untyped(handle: UntypedHandle) -> (typed: Self)
        requires
            Self::spec_accepts(handle.kind),
        ensures
            typed == Self::spec_from_untyped(handle),
            typed.spec_untyped() == handle,
    ;

    /// Gives the handle up as an untyped one, which keeps its identity and
    /// can be taken back as a handle of this type.
    fn as_untyped(self) -> (handle: UntypedHandle)
        ensures
            handle == self.spec_untyped(),
            handle.native == self.spec_native(),
            Self::spec_accepts(handle.kind),
    ;
}

impl UntypedHandle {
    /// Whether the handle refers to an object: the native identity 0 refers
    /// to none.
    pub fn is_valid(&self) -> (valid: bool)
        ensures
            valid == (self.native != 0),
    {
        self.native != 0
    }
}

impl Handle for UntypedHandle {
    open spec fn spec_native(&self) -> u64 {
        self.native
    }

    fn get_native_handle(&self) -> (native: u64) {
        self.native
    }
}

impl CastHandle for UntypedHandle {
    open spec fn spec_untyped(&self) -> UntypedHandle {
        *self
    }

    open spec fn spec_accepts(kind: HandleKind) -> bool {
        true
    }

    open spec fn spec_from_untyped(handle: UntypedHandle) -> UntypedHandle {
        handle
    }

    fn accepts(kind: HandleKind) -> (yes: bool) {
        true
    }

    fn from_untyped(handle: UntypedHandle) -> (typed: Self) {
        handle
    }

    fn as_untyped(self) -> (handle: UntypedHandle) {
        self
    }
}

/// One end of a message pipe.
#[derive(Debug, PartialEq, Eq)]
pub struct MessageEndpoint {
    pub native: u64,
}

impl DeepView for MessageEndpoint {
    type V = MessageEndpoint;

    open spec fn deep_view(&self) -> MessageEndpoint {
        *self
    }
}

impl Handle for MessageEndpoint {
    open spec fn spec_native(&self) -> u64 {
        self.native
    }

    fn get_native_handle(&self) -> (native: u64) {
        self.native
    }
}

impl CastHandle for MessageEndpoint {
    open spec fn spec_untyped(&self) -> UntypedHandle {
        UntypedHandle { native: self.native, kind: HandleKind::MessagePipe }
    }

    open spec fn spec_accepts(kind: HandleKind) -> bool {
        kind == HandleKind::MessagePipe
    }

    open spec fn spec_from_untyped(handle: UntypedHandle) -> MessageEndpoint {
        MessageEndpoint { native: handle.native }
    }

    fn accepts(kind: HandleKind) -> (yes: bool) {
        kind == HandleKind::MessagePipe
    }

    fn from_untyped(handle: UntypedHandle) -> (typed: Self) {
        MessageEndpoint { native: handle.native }
    }

    fn as_untyped(self) -> (handle: UntypedHandle) {
        UntypedHandle { native: self.native, kind: HandleKind::MessagePipe }
    }
}

/// A buffer shared between processes.
#[derive(Debug, PartialEq, Eq)]
pub struct SharedBuffer {
    pub native: u64,
}

impl DeepView for SharedBuffer {
    type V = SharedBuffer;

    open spec fn deep_view(&self) -> SharedBuffer {
        *self
    }
}

impl Handle for SharedBuffer {
    open spec fn spec_native(&self) -> u64 {
        self.native
    }

    fn get_native_handle(&self) -> (native: u64) {
        self.native
    }
}

impl CastHandle for SharedBuffer {
    open spec fn spec_untyped(&self) -> UntypedHandle {
        UntypedHandle { native: self.native, kind: HandleKind::SharedBuffer }
    }

    open spec fn spec_accepts(kind: HandleKind) -> bool {
        kind == HandleKind::SharedBuffer
    }

    open spec fn spec_from_untyped(handle: UntypedHandle) -> SharedBuffer {
        SharedBuffer { native: handle.native }
    }

    fn accepts(kind: HandleKind) -> (yes: bool) {
        kind == HandleKind::SharedBuffer
    }

    fn from_untyped(handle: UntypedHandle) -> (typed: Self) {
        SharedBuffer { native: handle.native }
    }

    fn as_untyped(self) -> (handle: UntypedHandle) {
        UntypedHandle { native: self.native, kind: HandleKind::SharedBuffer }
    }
}

/// The reading end of a data pipe.
#[derive(Debug, PartialEq, Eq)]
pub struct Consumer {
    pub native: u64,
}

impl DeepView for Consumer {
    type V = Consumer;

    open spec fn deep_view(&self) -> Consumer {
        *self
    }
}

impl Handle for Consumer {
    open spec fn spec_native(&self) -> u64 {
        self.native
    }

    fn get_native_handle(&self) -> (native: u64) {
        self.native
    }
}

impl CastHandle for Consumer {
    open spec fn spec_untyped(&self) -> UntypedHandle {
        UntypedHandle { native: self.native, kind: HandleKind::DataPipeConsumer }
    }

    open spec fn spec_accepts(kind: HandleKind) -> bool {
        kind == HandleKind::DataPipeConsumer
    }

    open spec fn spec_from_untyped(handle: UntypedHandle) -> Consumer {
        Consumer { native: handle.native }
    }

    fn accepts(kind: HandleKind) -> (yes: bool) {
        kind == HandleKind::DataPipeConsumer
    }

    fn from_untyped(handle: UntypedHandle) -> (typed: Self) {
        Consumer { native: handle.native }
    }

    fn as_untyped(self) -> (handle: UntypedHandle) {
        UntypedHandle { native: self.native, kind: HandleKind::DataPipeConsumer }
    }
}

/// The writing end of a data pipe.
#[derive(Debug, PartialEq, Eq)]
pub struct Producer {
    pub native: u64,
}

impl DeepView for Producer {
    type V = Producer;

    open spec fn deep_view(&self) -> Producer {
        *self
    }
}

impl Handle for Producer {
    open spec fn spec_native(&self) -> u64 {
        self.native
    }

    fn get_native_handle(&self) -> (native: u64) {
        self.native
    }
}

impl CastHandle for Producer {
    open spec fn spec_untyped(&self) -> UntypedHandle {
        UntypedHandle { native: self.native, kind: HandleKind::DataPipeProducer }
    }

    open spec fn spec_accepts(kind: HandleKind) -> bool {
        kind == HandleKind::DataPipeProducer
    }

    open spec fn spec_from_untyped(handle: UntypedHandle) -> Producer {
        Producer { native: handle.native }
    }

    fn accepts(kind: HandleKind) -> (yes: bool) {
        kind == HandleKind::DataPipeProducer
    }

    fn from_untyped(handle: UntypedHandle) -> (typed: Self) {
        Producer { native: handle.native }
    }

    fn as_untyped(self) -> (handle: UntypedHandle) {
        UntypedHandle { native: self.native, kind: HandleKind::DataPipeProducer }
    }
}

} // verus!
