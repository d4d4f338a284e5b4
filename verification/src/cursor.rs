//! The model of a region under a cursor: the bytes of the region, where it
//! lies in the message, and how many of its bits the cursor has passed.

use crate::bits::{align_up, lemma_align_up, lemma_align_up_least};
use vstd::prelude::*;

verus! {

/// `n` zero bytes.
pub open spec fn zeros(n: nat) -> Seq<u8> {
    Seq::new(n, |i: int| 0u8)
}

/// `data` with the bytes from `at` on replaced by `bytes`.
pub open spec fn splice(data: Seq<u8>, at: int, bytes: Seq<u8>) -> Seq<u8>
    recommends
        0 <= at,
        at + bytes.len() <= data.len(),
{
    data.subrange(0, at) + bytes + data.subrange(at + bytes.len(), data.len() as int)
}

/// `byte` with bit `k` set to `bit`.
pub open spec fn set_bit(byte: u8, k: u8, bit: bool) -> u8
    recommends
        k < 8,
{
    if bit {
        byte | (1u8 << k)
    } else {
        byte & !(1u8 << k)
    }
}

/// Bit `k` of `byte`.
pub open spec fn get_bit(byte: u8, k: u8) -> bool
    recommends
        k < 8,
{
    (byte >> k) & 1u8 == 1u8
}

/// A bit that was set reads back, and setting it leaves the other bits.
pub proof fn lemma_set_get_bit(byte: u8, k: u8, bit: bool, j: u8)
    requires
        k < 8,
        j < 8,
    ensures
        get_bit(set_bit(byte, k, bit), k) == bit,
        j != k ==> get_bit(set_bit(byte, k, bit), j) == get_bit(byte, j),
{
    assert(k < 8 ==> ((byte | (1u8 << k)) >> k) & 1u8 == 1u8) by (bit_vector);
    assert(k < 8 ==> ((byte & !(1u8 << k)) >> k) & 1u8 == 0u8) by (bit_vector);
    assert(k < 8 && j < 8 && j != k ==> ((byte | (1u8 << k)) >> j) & 1u8 == (byte >> j) & 1u8)
        by (bit_vector);
    assert(k < 8 && j < 8 && j != k ==> ((byte & !(1u8 << k)) >> j) & 1u8 == (byte >> j) & 1u8)
        by (bit_vector);
}

/// A region and a cursor in it.
#[verifier::ext_equal]
pub struct Cursor {
    /// The bytes of the region, its header included.
    pub data: Seq<u8>,
    /// The offset of the region in the message.
    pub base: nat,
    /// The position of the cursor, in bits from the start of the region.
    pub pos: nat,
}

impl Cursor {
    /// The cursor lies in its region, the region starts at a multiple of 8
    /// and holds at least its header.
    pub open spec fn wf(self) -> bool {
        &&& self.pos <= 8 * self.data.len()
        &&& self.base % 8 == 0
        &&& self.data.len() >= 8
    }

    /// Whether a field of `bits` bits, aligned to `align_bits` bits, has room
    /// between the cursor and the end of the region.
    pub open spec fn fits(self, align_bits: nat, bits: nat) -> bool {
        align_up(self.pos, align_bits) + bits <= 8 * self.data.len()
    }

    /// The position of the cursor after a field of `bits` bits, aligned to
    /// `align_bits` bits.
    pub open spec fn after(self, align_bits: nat, bits: nat) -> nat {
        align_up(self.pos, align_bits) + bits
    }

    /// The cursor moved up to the next multiple of `align_bits` bits.
    pub open spec fn aligned(self, align_bits: nat) -> Cursor {
        Cursor { pos: align_up(self.pos, align_bits), ..self }
    }

    /// The index in the region of the next byte that is aligned to `width`
    /// bytes.
    pub open spec fn at(self, width: nat) -> nat {
        align_up(self.pos, 8 * width) / 8
    }

    /// The offset in the message of the next byte that is aligned to `width`
    /// bytes.
    pub open spec fn location(self, width: nat) -> nat {
        self.base + self.at(width)
    }

    /// The region with `bytes` written at the next byte aligned to `width`
    /// bytes, and the cursor behind them.
    pub open spec fn put(self, width: nat, bytes: Seq<u8>) -> Cursor {
        Cursor {
            data: splice(self.data, self.at(width) as int, bytes),
            pos: 8 * (self.at(width) + bytes.len()),
            ..self
        }
    }

    /// The `n` bytes from the next byte aligned to `width` bytes.
    pub open spec fn peek(self, width: nat, n: nat) -> Seq<u8> {
        self.data.subrange(self.at(width) as int, (self.at(width) + n) as int)
    }

    /// The cursor moved behind the `n` bytes from the next byte aligned to
    /// `width` bytes.
    pub open spec fn skip(self, width: nat, n: nat) -> Cursor {
        Cursor { pos: 8 * (self.at(width) + n), ..self }
    }

    /// The region with the bit under the cursor set to `bit`, and the cursor
    /// behind it.
    pub open spec fn put_bit(self, bit: bool) -> Cursor {
        Cursor {
            data: self.data.update(
                (self.pos / 8) as int,
                set_bit(self.data[(self.pos / 8) as int], (self.pos % 8) as u8, bit),
            ),
            pos: self.pos + 1,
            ..self
        }
    }

    /// The bit under the cursor.
    pub open spec fn peek_bit(self) -> bool {
        get_bit(self.data[(self.pos / 8) as int], (self.pos % 8) as u8)
    }

    /// The cursor moved behind the bit under it.
    pub open spec fn skip_bit(self) -> Cursor {
        Cursor { pos: self.pos + 1, ..self }
    }
}

/// Aligning a position of `offset` bytes and `bit` bits to `width` bytes
/// moves it to a whole byte: past the byte that holds the bits, then up to
/// the next multiple of `width`.
pub proof fn lemma_align_bits(offset: nat, bit: nat, width: nat)
    requires
        bit < 8,
        width > 0,
    ensures
        align_up(8 * offset + bit, 8 * width) == 8 * align_up(
            if bit > 0 {
                offset + 1
            } else {
                offset
            },
            width,
        ),
{
    let pos = 8 * offset + bit;
    let whole: nat = if bit > 0 {
        offset + 1
    } else {
        offset
    };
    let a = align_up(whole, width);
    let m = align_up(pos, 8 * width);
    lemma_align_up(whole, width);
    lemma_align_up(pos, 8 * width);
    // 8 * a is a multiple of 8 * width that is not below pos
    let j = a / width;
    vstd::arithmetic::div_mod::lemma_fundamental_div_mod(a as int, width as int);
    assert(8 * a == j * (8 * width)) by (nonlinear_arith)
        requires
            a == width * j,
    ;
    vstd::arithmetic::div_mod::lemma_mod_multiples_basic(j as int, (8 * width) as int);
    lemma_align_up_least(pos, 8 * width, 8 * a);
    // m / 8 is a multiple of width that is not below whole
    let k = m / (8 * width);
    vstd::arithmetic::div_mod::lemma_fundamental_div_mod(m as int, (8 * width) as int);
    let w = k * width;
    assert(m == 8 * w) by (nonlinear_arith)
        requires
            m == (8 * width) * k,
            w == k * width,
    ;
    vstd::arithmetic::div_mod::lemma_mod_multiples_basic(k as int, width as int);
    lemma_align_up_least(whole, width, w);
}

/// What a splice holds.
pub proof fn lemma_splice(data: Seq<u8>, at: int, bytes: Seq<u8>)
    requires
        0 <= at,
        at + bytes.len() <= data.len(),
    ensures
        splice(data, at, bytes).len() == data.len(),
        forall|i: int|
            0 <= i < data.len() ==> #[trigger] splice(data, at, bytes)[i] == if at <= i < at
                + bytes.len() {
                bytes[i - at]
            } else {
                data[i]
            },
        splice(data, at, bytes).subrange(at, at + bytes.len()) == bytes,
{
    assert(splice(data, at, bytes).subrange(at, at + bytes.len()) =~= bytes);
}

/// The byte index that `at` gives is the aligned position, in bytes.
pub proof fn lemma_at(cursor: Cursor, width: nat)
    requires
        width > 0,
    ensures
        8 * cursor.at(width) == align_up(cursor.pos, 8 * width),
        cursor.pos <= 8 * cursor.at(width),
        cursor.at(width) % width == 0,
{
    let a = align_up(cursor.pos, 8 * width);
    lemma_align_up(cursor.pos, 8 * width);
    let k = a / (8 * width);
    vstd::arithmetic::div_mod::lemma_fundamental_div_mod(a as int, (8 * width) as int);
    assert(a == 8 * (width * k)) by (nonlinear_arith)
        requires
            a == (8 * width) * k,
    ;
    assert(width * k == k * width) by (nonlinear_arith);
    vstd::arithmetic::div_mod::lemma_mod_multiples_basic(k as int, width as int);
}

/// Where the cursor stands after a write or a read of whole bytes.
pub proof fn lemma_put_skip(cursor: Cursor, width: nat, bytes: Seq<u8>)
    requires
        width > 0,
        cursor.fits(8 * width, 8 * bytes.len()),
    ensures
        cursor.put(width, bytes).pos == cursor.after(8 * width, 8 * bytes.len()),
        cursor.skip(width, bytes.len()).pos == cursor.after(8 * width, 8 * bytes.len()),
        cursor.put(width, bytes).data.len() == cursor.data.len(),
        cursor.at(width) + bytes.len() <= cursor.data.len(),
{
    lemma_at(cursor, width);
    lemma_splice(cursor.data, cursor.at(width) as int, bytes);
}

} // verus!
