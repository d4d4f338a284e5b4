//! Bit counts, byte alignment, and the constants of the wire format.

use vstd::prelude::*;

verus! {

/// Every region of a message starts at a multiple of this many bytes.
pub const BYTE_ALIGNMENT: usize = 8;

/// The size in bytes of the header that opens every region.
pub const DATA_HEADER_SIZE: usize = 8;

/// The size in bytes of a union cell, its header included.
pub const UNION_SIZE: usize = 16;

/// The size in bytes of a map's own region.
pub const MAP_SIZE: usize = 24;

/// The size of a pointer in bits.
pub const POINTER_BIT_SIZE: usize = 64;

/// The bits a union takes where it is embedded as a pointer.
pub const UNION_NESTED_EMBED_SIZE: usize = 64;

/// The bits a union takes where it is embedded in place.
pub const UNION_INLINE_EMBED_SIZE: usize = 128;

/// The value of a null pointer.
pub const MOJOM_NULL_POINTER: u64 = 0;

/// The index that stands for a null handle.
pub const MOJOM_NULL_HANDLE: u32 = 0xFFFF_FFFF;

/// The least multiple of `alignment` that is not below `n`; `n` itself where
/// `alignment` is zero.
pub open spec fn align_up(n: nat, alignment: nat) -> nat {
    if alignment == 0 || n % alignment == 0 {
        n
    } else {
        (n - n % alignment + alignment) as nat
    }
}

/// `align_up` yields a multiple of the alignment, less than one alignment
/// above `n`.
pub proof fn lemma_align_up(n: nat, alignment: nat)
    requires
        alignment > 0,
    ensures
        align_up(n, alignment) % alignment == 0,
        n <= align_up(n, alignment) < n + alignment,
{
    let a = alignment as int;
    let r = (n % alignment) as int;
    let q = (n / alignment) as int;
    vstd::arithmetic::div_mod::lemma_fundamental_div_mod(n as int, a);
    if r != 0 {
        assert(n - r + a == (q + 1) * a) by (nonlinear_arith)
            requires
                n == a * q + r,
        ;
        vstd::arithmetic::div_mod::lemma_mod_multiples_basic(q + 1, a);
    }
}

/// No multiple of the alignment lies between `n` and `align_up(n, alignment)`.
pub proof fn lemma_align_up_least(n: nat, alignment: nat, m: nat)
    requires
        alignment > 0,
        m % alignment == 0,
        n <= m,
    ensures
        align_up(n, alignment) <= m,
{
    let a = alignment as int;
    let r = (n % alignment) as int;
    let q = (n / alignment) as int;
    vstd::arithmetic::div_mod::lemma_fundamental_div_mod(n as int, a);
    if r != 0 {
        let k = (m / alignment) as int;
        vstd::arithmetic::div_mod::lemma_fundamental_div_mod(m as int, a);
        assert(k > q) by (nonlinear_arith)
            requires
                m == a * k,
                n == a * q + r,
                n <= m,
                0 < r < a,
        ;
        assert(a * k >= a * q + a) by (nonlinear_arith)
            requires
                k >= q + 1,
                a > 0,
        ;
    }
}

/// An aligned number stays where it is.
pub proof fn lemma_align_up_fixed(n: nat, alignment: nat)
    requires
        alignment > 0,
        n % alignment == 0,
    ensures
        align_up(n, alignment) == n,
{
}

/// Rounding up to 8 is the mask formula: `align_up(n, 8)` is `(n + 7) & !7`.
pub proof fn law_align_default_is_mask(n: u64)
    requires
        n <= u64::MAX - 7,
    ensures
        ((n + 7) as u64) & !7u64 == align_up(n as nat, 8),
{
    let m = (n + 7) as u64;
    assert(m & !7u64 == m - (m % 8)) by (bit_vector);
}

/// Rounds `offset` up to the next multiple of `alignment`.
pub fn align_bytes(offset: usize, alignment: usize) -> (aligned: usize)
    requires
        alignment > 0,
        align_up(offset as nat, alignment as nat) <= usize::MAX,
    ensures
        aligned == align_up(offset as nat, alignment as nat),
{
    let rest = offset % alignment;
    assert(offset % alignment <= offset) by (nonlinear_arith)
        requires
            alignment > 0,
    ;
    if rest == 0 {
        offset
    } else {
        offset - rest + alignment
    }
}

/// Rounds a byte count up to the alignment of regions: `(bytes + 7) & !7`.
pub fn align_default(bytes: usize) -> (aligned: usize)
    requires
        align_up(bytes as nat, 8) <= usize::MAX,
    ensures
        aligned == align_up(bytes as nat, 8),
{
    align_bytes(bytes, BYTE_ALIGNMENT)
}

/// A count of bits.
#[derive(Clone, Copy, Debug, PartialEq, Eq, Structural)]
pub struct Bits(pub usize);

impl Bits {
    /// The number of whole bytes that hold this many bits.
    pub open spec fn spec_as_bytes(self) -> nat {
        ((self.0 + 7) / 8) as nat
    }

    /// The number of whole bytes that hold this many bits.
    pub fn as_bytes(self) -> (bytes: usize)
        ensures
            bytes == self.spec_as_bytes(),
    {
        if self.0 % 8 == 0 {
            self.0 / 8
        } else {
            self.0 / 8 + 1
        }
    }

    /// Splits the count into the bits past the last whole byte, and the whole
    /// bytes.
    pub fn as_bits_and_bytes(self) -> (parts: (Bits, usize))
        ensures
            parts.0.0 == self.0 % 8,
            parts.1 == self.0 / 8,
            parts.1 * 8 + parts.0.0 == self.0,
    {
        (Bits(self.0 % 8), self.0 / 8)
    }

    /// The sum of two counts, unless it does not fit.
    pub fn checked_add(self, other: Bits) -> (sum: Option<Bits>)
        ensures
            self.0 + other.0 <= usize::MAX ==> sum == Some(Bits((self.0 + other.0) as usize)),
            self.0 + other.0 > usize::MAX ==> sum.is_none(),
    {
        if other.0 <= usize::MAX - self.0 {
            Some(Bits(self.0 + other.0))
        } else {
            None
        }
    }

    /// `count` times this many bits, unless it does not fit.
    pub fn checked_mul(self, count: usize) -> (product: Option<Bits>)
        ensures
            self.0 * count <= usize::MAX ==> product == Some(Bits((self.0 * count) as usize)),
            self.0 * count > usize::MAX ==> product.is_none(),
    {
        if self.0 == 0 || count == 0 {
            assert(self.0 * count == 0) by (nonlinear_arith)
                requires
                    self.0 == 0 || count == 0,
            ;
            Some(Bits(0))
        } else if count <= usize::MAX / self.0 {
            assert(self.0 * count <= usize::MAX) by (nonlinear_arith)
                requires
                    count <= usize::MAX / self.0,
                    self.0 > 0,
            ;
            Some(Bits(self.0 * count))
        } else {
            assert(self.0 * count > usize::MAX) by (nonlinear_arith)
                requires
                    count > usize::MAX / self.0,
                    self.0 > 0,
            ;
            None
        }
    }
}

} // verus!
