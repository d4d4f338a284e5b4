//! The fixed-width integers of the wire format and their little-endian
//! bytes.

use vstd::prelude::*;

verus! {

/// 256 to the power of `n`: the number of values that `n` bytes can hold.
pub open spec fn pow256(n: nat) -> nat
    decreases n,
{
    if n == 0 {
        1
    } else {
        256 * pow256((n - 1) as nat)
    }
}

/// The `width` little-endian bytes of `value`: the least byte first.
#[verifier::opaque]
pub open spec fn le_bytes(value: nat, width: nat) -> Seq<u8>
    decreases width,
{
    if width == 0 {
        Seq::empty()
    } else {
        seq![(value % 256) as u8] + le_bytes(value / 256, (width - 1) as nat)
    }
}

/// The number that little-endian bytes stand for.
#[verifier::opaque]
pub open spec fn le_value(bytes: Seq<u8>) -> nat
    decreases bytes.len(),
{
    if bytes.len() == 0 {
        0
    } else {
        bytes[0] as nat + 256 * le_value(bytes.skip(1))
    }
}

/// What 1, 2, 4 and 8 bytes can hold.
pub proof fn lemma_pow256()
    ensures
        pow256(0) == 1,
        pow256(1) == 0x100,
        pow256(2) == 0x1_0000,
        pow256(4) == 0x1_0000_0000,
        pow256(7) == 0x100_0000_0000_0000,
        pow256(8) == 0x1_0000_0000_0000_0000,
{
    reveal_with_fuel(pow256, 9);
}

/// A number that `width` bytes can hold has `width` little-endian bytes,
/// which stand for it.
pub proof fn lemma_le_bytes(value: nat, width: nat)
    requires
        value < pow256(width),
    ensures
        le_bytes(value, width).len() == width,
        le_value(le_bytes(value, width)) == value,
    decreases width,
{
    reveal_with_fuel(le_bytes, 2);
    reveal_with_fuel(le_value, 2);
    if width > 0 {
        lemma_le_bytes(value / 256, (width - 1) as nat);
        let rest = le_bytes(value / 256, (width - 1) as nat);
        assert(le_bytes(value, width).skip(1) =~= rest);
    }
}

/// Bytes stand for a number that as many bytes can hold, and are its
/// little-endian bytes.
pub proof fn lemma_le_value(bytes: Seq<u8>)
    ensures
        le_value(bytes) < pow256(bytes.len()),
        le_bytes(le_value(bytes), bytes.len()) == bytes,
    decreases bytes.len(),
{
    reveal_with_fuel(le_bytes, 2);
    reveal_with_fuel(le_value, 2);
    if bytes.len() > 0 {
        lemma_le_value(bytes.skip(1));
        let value = le_value(bytes);
        let rest = le_value(bytes.skip(1));
        assert(value % 256 == bytes[0] && value / 256 == rest);
        assert(le_bytes(value, bytes.len()) =~= bytes);
    } else {
        assert(le_bytes(0, 0) =~= bytes);
    }
}

/// The little-endian bytes of 0 are zeros.
pub proof fn lemma_le_bytes_of_zero(width: nat)
    ensures
        le_bytes(0, width) == Seq::new(width, |i: int| 0u8),
    decreases width,
{
    reveal_with_fuel(le_bytes, 2);
    if width > 0 {
        lemma_le_bytes_of_zero((width - 1) as nat);
    }
    assert(le_bytes(0, width) =~= Seq::new(width, |i: int| 0u8));
}

/// The `width` little-endian bytes of `value`.
pub fn bytes_of(value: u64, width: usize) -> (bytes: Vec<u8>)
    requires
        width <= 8,
        value < pow256(width as nat),
    ensures
        bytes@ == le_bytes(value as nat, width as nat),
        bytes@.len() == width,
{
    let mut bytes: Vec<u8> = Vec::new();
    let mut rest = value;
    let mut i: usize = 0;
    proof {
        assert(bytes@ + le_bytes(rest as nat, width as nat) =~= le_bytes(
            value as nat,
            width as nat,
        ));
    }
    while i < width
        invariant
            i <= width,
            bytes@.len() == i,
            bytes@ + le_bytes(rest as nat, (width - i) as nat) == le_bytes(
                value as nat,
                width as nat,
            ),
        decreases width - i,
    {
        let ghost before = bytes@;
        bytes.push((rest % 256) as u8);
        assert(bytes@ + le_bytes((rest / 256) as nat, (width - i - 1) as nat) =~= before
            + le_bytes(rest as nat, (width - i) as nat)) by {
            reveal_with_fuel(le_bytes, 2);
        }
        rest = rest / 256;
        i = i + 1;
    }
    assert(bytes@ + le_bytes(rest as nat, 0) =~= bytes@) by {
        reveal_with_fuel(le_bytes, 1);
    }
    bytes
}

/// The number that up to 8 little-endian bytes stand for.
pub fn value_of(bytes: &[u8]) -> (value: u64)
    requires
        bytes@.len() <= 8,
    ensures
        value == le_value(bytes@),
        value < pow256(bytes@.len()),
{
    let n = bytes.len();
    let mut value: u64 = 0;
    let mut i: usize = n;
    proof {
        assert(bytes@.skip(n as int) =~= Seq::<u8>::empty());
        lemma_pow256();
        reveal_with_fuel(le_value, 1);
    }
    while i > 0
        invariant
            i <= n,
            n == bytes@.len(),
            n <= 8,
            value == le_value(bytes@.skip(i as int)),
            value < pow256((n - i) as nat),
        decreases i,
    {
        proof {
            lemma_pow_bound((n - i) as nat);
            assert(bytes@.skip(i - 1).skip(1) =~= bytes@.skip(i as int));
            reveal_with_fuel(le_value, 2);
        }
        i = i - 1;
        value = bytes[i] as u64 + 256 * value;
    }
    assert(bytes@.skip(0) =~= bytes@);
    value
}

/// Less than 8 bytes hold no more than 7 bytes can.
pub proof fn lemma_pow_bound(n: nat)
    requires
        n < 8,
    ensures
        pow256(n) <= 0x100_0000_0000_0000,
        pow256(n + 1) == 256 * pow256(n),
{
    reveal_with_fuel(pow256, 9);
}

/// An integer that is written in place, as `spec_width()` little-endian bytes
/// aligned to their own size.
pub trait MojomNumeric: Copy + Sized + DeepView {
    /// The number of bytes of the type: 1, 2, 4 or 8.
    spec fn spec_width() -> nat;

    /// The little-endian bytes of the value. A negative number is written as
    /// its two's complement.
    spec fn spec_wire_bytes(self) -> Seq<u8>;

    /// The value that `spec_width()` little-endian bytes stand for.
    spec fn spec_from_wire_bytes(bytes: Seq<u8>) -> Self;

    /// A value has as many bytes as its type is wide, and they stand for it.
    proof fn lemma_wire_bytes(self)
        ensures
            Self::spec_width() == 1 || Self::spec_width() == 2 || Self::spec_width() == 4
                || Self::spec_width() == 8,
            self.spec_wire_bytes().len() == Self::spec_width(),
            Self::spec_from_wire_bytes(self.spec_wire_bytes()) == self,
    ;

    /// The number of bytes of the type.
    fn width() -> (width: usize)
        ensures
            width == Self::spec_width(),
            width == 1 || width == 2 || width == 4 || width == 8,
    ;

    /// The little-endian bytes of the value.
    fn wire_bytes(self) -> (bytes: Vec<u8>)
        ensures
            bytes@ == self.spec_wire_bytes(),
            bytes@.len() == Self::spec_width(),
    ;

    /// The value that the bytes stand for.
    fn from_wire_bytes(bytes: &[u8]) -> (value: Self)
        requires
            bytes@.len() == Self::spec_width(),
        ensures
            value == Self::spec_from_wire_bytes(bytes@),
    ;
}

impl MojomNumeric for u8 {
    open spec fn spec_width() -> nat {
        1
    }

    open spec fn spec_wire_bytes(self) -> Seq<u8> {
        le_bytes(self as nat, 1)
    }

    open spec fn spec_from_wire_bytes(bytes: Seq<u8>) -> u8 {
        le_value(bytes) as u8
    }

    proof fn lemma_wire_bytes(self) {
        lemma_pow256();
        lemma_le_bytes(self as nat, 1);
    }

    fn width() -> (width: usize) {
        1
    }

    fn wire_bytes(self) -> (bytes: Vec<u8>) {
        proof {
            lemma_pow256();
        }
        bytes_of(self as u64, 1)
    }

    fn from_wire_bytes(bytes: &[u8]) -> (value: u8) {
        proof {
            lemma_pow256();
        }
        value_of(bytes) as u8
    }
}

impl MojomNumeric for i8 {
    open spec fn spec_width() -> nat {
        1
    }

    open spec fn spec_wire_bytes(self) -> Seq<u8> {
        le_bytes(
            if self >= 0 {
                self as nat
            } else {
                (self + 0x100) as nat
            },
            1,
        )
    }

    open spec fn spec_from_wire_bytes(bytes: Seq<u8>) -> i8 {
        if le_value(bytes) < 0x80 {
            le_value(bytes) as i8
        } else {
            (le_value(bytes) - 0x100) as i8
        }
    }

    proof fn lemma_wire_bytes(self) {
        lemma_pow256();
        if self >= 0 {
            lemma_le_bytes(self as nat, 1);
        } else {
            lemma_le_bytes((self + 0x100) as nat, 1);
        }
    }

    fn width() -> (width: usize) {
        1
    }

    fn wire_bytes(self) -> (bytes: Vec<u8>) {
        proof {
            lemma_pow256();
        }
        if self >= 0 {
            bytes_of(self as u64, 1)
        } else {
            bytes_of((self as i64 + 0x100) as u64, 1)
        }
    }

    fn from_wire_bytes(bytes: &[u8]) -> (value: i8) {
        proof {
            lemma_pow256();
        }
        let unsigned = value_of(bytes);
        if unsigned < 0x80 {
            unsigned as i8
        } else {
            (unsigned as i64 - 0x100) as i8
        }
    }
}

impl MojomNumeric for u16 {
    open spec fn spec_width() -> nat {
        2
    }

    open spec fn spec_wire_bytes(self) -> Seq<u8> {
        le_bytes(self as nat, 2)
    }

    open spec fn spec_from_wire_bytes(bytes: Seq<u8>) -> u16 {
        le_value(bytes) as u16
    }

    proof fn lemma_wire_bytes(self) {
        lemma_pow256();
        lemma_le_bytes(self as nat, 2);
    }

    fn width() -> (width: usize) {
        2
    }

    fn wire_bytes(self) -> (bytes: Vec<u8>) {
        proof {
            lemma_pow256();
        }
        bytes_of(self as u64, 2)
    }

    fn from_wire_bytes(bytes: &[u8]) -> (value: u16) {
        proof {
            lemma_pow256();
        }
        value_of(bytes) as u16
    }
}

impl MojomNumeric for i16 {
    open spec fn spec_width() -> nat {
        2
    }

    open spec fn spec_wire_bytes(self) -> Seq<u8> {
        le_bytes(
            if self >= 0 {
                self as nat
            } else {
                (self + 0x1_0000) as nat
            },
            2,
        )
    }

    open spec fn spec_from_wire_bytes(bytes: Seq<u8>) -> i16 {
        if le_value(bytes) < 0x8000 {
            le_value(bytes) as i16
        } else {
            (le_value(bytes) - 0x1_0000) as i16
        }
    }

    proof fn lemma_wire_bytes(self) {
        lemma_pow256();
        if self >= 0 {
            lemma_le_bytes(self as nat, 2);
        } else {
            lemma_le_bytes((self + 0x1_0000) as nat, 2);
        }
    }

    fn width() -> (width: usize) {
        2
    }

    fn wire_bytes(self) -> (bytes: Vec<u8>) {
        proof {
            lemma_pow256();
        }
        if self >= 0 {
            bytes_of(self as u64, 2)
        } else {
            bytes_of((self as i64 + 0x1_0000) as u64, 2)
        }
    }

    fn from_wire_bytes(bytes: &[u8]) -> (value: i16) {
        proof {
            lemma_pow256();
        }
        let unsigned = value_of(bytes);
        if unsigned < 0x8000 {
            unsigned as i16
        } else {
            (unsigned as i64 - 0x1_0000) as i16
        }
    }
}

impl MojomNumeric for u32 {
    open spec fn spec_width() -> nat {
        4
    }

    open spec fn spec_wire_bytes(self) -> Seq<u8> {
        le_bytes(self as nat, 4)
    }

    open spec fn spec_from_wire_bytes(bytes: Seq<u8>) -> u32 {
        le_value(bytes) as u32
    }

    proof fn lemma_wire_bytes(self) {
        lemma_pow256();
        lemma_le_bytes(self as nat, 4);
    }

    fn width() -> (width: usize) {
        4
    }

    fn wire_bytes(self) -> (bytes: Vec<u8>) {
        proof {
            lemma_pow256();
        }
        bytes_of(self as u64, 4)
    }

    fn from_wire_bytes(bytes: &[u8]) -> (value: u32) {
        proof {
            lemma_pow256();
        }
        value_of(bytes) as u32
    }
}

impl MojomNumeric for i32 {
    open spec fn spec_width() -> nat {
        4
    }

    open spec fn spec_wire_bytes(self) -> Seq<u8> {
        le_bytes(
            if self >= 0 {
                self as nat
            } else {
                (self + 0x1_0000_0000) as nat
            },
            4,
        )
    }

    open spec fn spec_from_wire_bytes(bytes: Seq<u8>) -> i32 {
        if le_value(bytes) < 0x8000_0000 {
            le_value(bytes) as i32
        } else {
            (le_value(bytes) - 0x1_0000_0000) as i32
        }
    }

    proof fn lemma_wire_bytes(self) {
        lemma_pow256();
        if self >= 0 {
            lemma_le_bytes(self as nat, 4);
        } else {
            lemma_le_bytes((self + 0x1_0000_0000) as nat, 4);
        }
    }

    fn width() -> (width: usize) {
        4
    }

    fn wire_bytes(self) -> (bytes: Vec<u8>) {
        proof {
            lemma_pow256();
        }
        if self >= 0 {
            bytes_of(self as u64, 4)
        } else {
            bytes_of((self as i64 + 0x1_0000_0000) as u64, 4)
        }
    }

    fn from_wire_bytes(bytes: &[u8]) -> (value: i32) {
        proof {
            lemma_pow256();
        }
        let unsigned = value_of(bytes);
        if unsigned < 0x8000_0000 {
            unsigned as i32
        } else {
            (unsigned as i64 - 0x1_0000_0000) as i32
        }
    }
}

impl MojomNumeric for u64 {
    open spec fn spec_width() -> nat {
        8
    }

    open spec fn spec_wire_bytes(self) -> Seq<u8> {
        le_bytes(self as nat, 8)
    }

    open spec fn spec_from_wire_bytes(bytes: Seq<u8>) -> u64 {
        le_value(bytes) as u64
    }

    proof fn lemma_wire_bytes(self) {
        lemma_pow256();
        lemma_le_bytes(self as nat, 8);
    }

    fn width() -> (width: usize) {
        8
    }

    fn wire_bytes(self) -> (bytes: Vec<u8>) {
        proof {
            lemma_pow256();
        }
        bytes_of(self as u64, 8)
    }

    fn from_wire_bytes(bytes: &[u8]) -> (value: u64) {
        proof {
            lemma_pow256();
        }
        value_of(bytes) as u64
    }
}

impl MojomNumeric for i64 {
    open spec fn spec_width() -> nat {
        8
    }

    open spec fn spec_wire_bytes(self) -> Seq<u8> {
        le_bytes(
            if self >= 0 {
                self as nat
            } else {
                (self + 0x1_0000_0000_0000_0000) as nat
            },
            8,
        )
    }

    open spec fn spec_from_wire_bytes(bytes: Seq<u8>) -> i64 {
        if le_value(bytes) < 0x8000_0000_0000_0000 {
            le_value(bytes) as i64
        } else {
            (le_value(bytes) - 0x1_0000_0000_0000_0000) as i64
        }
    }

    proof fn lemma_wire_bytes(self) {
        lemma_pow256();
        if self >= 0 {
            lemma_le_bytes(self as nat, 8);
        } else {
            lemma_le_bytes((self + 0x1_0000_0000_0000_0000) as nat, 8);
        }
    }

    fn width() -> (width: usize) {
        8
    }

    fn wire_bytes(self) -> (bytes: Vec<u8>) {
        proof {
            lemma_pow256();
        }
        if self >= 0 {
            bytes_of(self as u64, 8)
        } else {
            bytes_of((self as i128 + 0x1_0000_0000_0000_0000) as u64, 8)
        }
    }

    fn from_wire_bytes(bytes: &[u8]) -> (value: i64) {
        proof {
            lemma_pow256();
        }
        let unsigned = value_of(bytes);
        if unsigned < 0x8000_0000_0000_0000 {
            unsigned as i64
        } else {
            (unsigned as i128 - 0x1_0000_0000_0000_0000) as i64
        }
    }
}

} // verus!
