//! Variable-length integers: numbers below 2^62 written in one, two, four or
//! eight bytes.  The two most significant bits of the first byte say in how
//! many; the other bits of the first byte and all bits of the bytes after it
//! are the number, most significant byte first.

use vstd::prelude::*;
use crate::bytes::{
    be_bytes, be_value, lemma_be_bytes_head_bound, lemma_be_bytes_len, lemma_be_bytes_of_value,
    lemma_be_value_head_bound, lemma_be_value_of_bytes, lemma_radix_table, radix, read_be_onto,
    write_be,
};

verus! {

/// The largest number that a variable-length integer can hold: 2^62 - 1.
pub const MAX_VALUE: u64 = 0x3fff_ffff_ffff_ffff;

/// A variable-length integer, in the width in which it was written.
#[derive(Clone, Copy, Debug, PartialEq, Eq, Structural)]
pub enum VarInt {
    /// Written in one byte: below 2^6.
    U8(u8),
    /// Written in two bytes: below 2^14.
    U16(u16),
    /// Written in four bytes: below 2^30.
    U32(u32),
    /// Written in eight bytes: below 2^62.
    U64(u64),
}

/// Why bytes were not decoded.
#[derive(Clone, Copy, Debug, PartialEq, Eq, Structural)]
pub enum DecodeError {
    /// The buffer holds fewer bytes than its first byte announces, or none.
    TruncatedInput,
}

/// Why a number was not encoded.
#[derive(Clone, Copy, Debug, PartialEq, Eq, Structural)]
pub enum EncodeError {
    /// The number is above [`MAX_VALUE`].
    ValueTooLarge,
}

/// The number of bytes that length class `class` stands for.
pub open spec fn class_len(class: u8) -> nat {
    if class == 0 {
        1
    } else if class == 1 {
        2
    } else if class == 2 {
        4
    } else {
        8
    }
}

impl VarInt {
    /// The number held.
    pub open spec fn spec_value(self) -> nat {
        match self {
            VarInt::U8(v) => v as nat,
            VarInt::U16(v) => v as nat,
            VarInt::U32(v) => v as nat,
            VarInt::U64(v) => v as nat,
        }
    }

    /// The length class: what the two most significant bits of the first
    /// byte say.
    pub open spec fn spec_class(self) -> u8 {
        match self {
            VarInt::U8(_) => 0,
            VarInt::U16(_) => 1,
            VarInt::U32(_) => 2,
            VarInt::U64(_) => 3,
        }
    }

    /// The number of bytes that this integer is written in.
    pub open spec fn spec_len(self) -> nat {
        class_len(self.spec_class())
    }

    /// Whether the number leaves the two most significant bits of its width
    /// free, as every number that came from bytes does.
    pub open spec fn wf(self) -> bool {
        match self {
            VarInt::U8(v) => v < 0x40,
            VarInt::U16(v) => v < 0x4000,
            VarInt::U32(v) => v < 0x4000_0000,
            VarInt::U64(v) => v < 0x4000_0000_0000_0000,
        }
    }

    /// The integer of length class `class` that holds `value`.
    pub open spec fn of_class(class: u8, value: nat) -> VarInt {
        if class == 0 {
            VarInt::U8(value as u8)
        } else if class == 1 {
            VarInt::U16(value as u16)
        } else if class == 2 {
            VarInt::U32(value as u32)
        } else {
            VarInt::U64(value as u64)
        }
    }

    /// The integer that holds `value` in the least width that can.
    pub open spec fn minimal(value: u64) -> VarInt {
        if value < 0x40 {
            VarInt::U8(value as u8)
        } else if value < 0x4000 {
            VarInt::U16(value as u16)
        } else if value < 0x4000_0000 {
            VarInt::U32(value as u32)
        } else {
            VarInt::U64(value)
        }
    }

    /// The bytes that this integer is written as, in its own width: the
    /// number, most significant byte first, with the length class in the two
    /// most significant bits of the first byte.
    pub open spec fn spec_bytes(self) -> Seq<u8> {
        let plain = be_bytes(self.spec_value(), self.spec_len());
        plain.update(0, plain[0] | (self.spec_class() << 6))
    }

    /// The integer that `bytes` start with: as many bytes as the two most
    /// significant bits of the first say, read as one number without those
    /// two bits.
    pub open spec fn spec_decode(bytes: Seq<u8>) -> Result<VarInt, DecodeError> {
        if bytes.len() == 0 || bytes.len() < class_len(bytes[0] >> 6) {
            Err(DecodeError::TruncatedInput)
        } else {
            let n = class_len(bytes[0] >> 6) as int;
            Ok(
                VarInt::of_class(
                    bytes[0] >> 6,
                    be_value(seq![bytes[0] & 0x3f] + bytes.subrange(1, n)),
                ),
            )
        }
    }

    /// The bytes that `value` is written as, in the least width that can
    /// hold it.
    pub open spec fn spec_encode(value: u64) -> Result<Seq<u8>, EncodeError> {
        if value > MAX_VALUE {
            Err(EncodeError::ValueTooLarge)
        } else {
            Ok(VarInt::minimal(value).spec_bytes())
        }
    }

    /// Decodes the integer that `bytes` start with, and says how many bytes
    /// it took.  Bytes in a wider class than the number needs are decoded as
    /// well as the shortest.
    pub fn decode(bytes: &[u8]) -> (res: Result<(VarInt, usize), DecodeError>)
        ensures
            match res {
                Ok((v, n)) => VarInt::spec_decode(bytes@) == Ok::<VarInt, DecodeError>(v)
                    && n == v.spec_len() && n <= bytes@.len() && v.wf() && v.spec_bytes()
                    == bytes@.subrange(0, n as int),
                Err(e) => VarInt::spec_decode(bytes@) == Err::<VarInt, DecodeError>(e),
            },
    {
        proof {
            if VarInt::spec_decode(bytes@) is Ok {
                lemma_bytes_of_decode(bytes@);
            }
        }
        let total: usize = bytes.len();
        if total == 0 {
            return Err(DecodeError::TruncatedInput);
        }
        let first: u8 = bytes[0];
        let class: u8 = first >> 6;
        let length: usize = if class == 0 {
            1
        } else if class == 1 {
            2
        } else if class == 2 {
            4
        } else {
            8
        };
        if total < length {
            return Err(DecodeError::TruncatedInput);
        }
        let head: u8 = first & 0x3f;
        let value: u64 = read_be_onto(head, bytes, 1, length - 1);
        proof {
            assert(first & 0x3f < 0x40) by (bit_vector);
            lemma_be_value_head_bound(seq![head] + bytes@.subrange(1, length as int), 0x40);
            lemma_radix_table();
        }
        let v = if class == 0 {
            VarInt::U8(value as u8)
        } else if class == 1 {
            VarInt::U16(value as u16)
        } else if class == 2 {
            VarInt::U32(value as u32)
        } else {
            VarInt::U64(value)
        };
        Ok((v, length))
    }

    /// Encodes `value` in the least width that can hold it.  A number above
    /// [`MAX_VALUE`] has no encoding.
    pub fn encode(value: u64) -> (res: Result<Vec<u8>, EncodeError>)
        ensures
            match res {
                Ok(bytes) => VarInt::spec_encode(value) == Ok::<Seq<u8>, EncodeError>(bytes@)
                    && VarInt::spec_decode(bytes@) == Ok::<VarInt, DecodeError>(
                    VarInt::minimal(value),
                ) && bytes@.len() == VarInt::minimal(value).spec_len(),
                Err(e) => VarInt::spec_encode(value) == Err::<Seq<u8>, EncodeError>(e),
            },
            res is Ok <==> value <= MAX_VALUE,
    {
        proof {
            if value <= MAX_VALUE {
                lemma_round_trip(value);
            }
        }
        if value > MAX_VALUE {
            return Err(EncodeError::ValueTooLarge);
        }
        let class: u8 = if value < 0x40 {
            0
        } else if value < 0x4000 {
            1
        } else if value < 0x4000_0000 {
            2
        } else {
            3
        };
        let length: usize = if class == 0 {
            1
        } else if class == 1 {
            2
        } else if class == 2 {
            4
        } else {
            8
        };
        let mut bytes: Vec<u8> = write_be(value, length);
        proof {
            lemma_be_bytes_len(value as nat, length as nat);
        }
        let head: u8 = bytes[0] | (class << 6);
        bytes.set(0, head);
        Ok(bytes)
    }

    /// The number held.
    pub fn value(&self) -> (value: u64)
        ensures
            value == self.spec_value(),
    {
        match self {
            VarInt::U8(v) => *v as u64,
            VarInt::U16(v) => *v as u64,
            VarInt::U32(v) => *v as u64,
            VarInt::U64(v) => *v,
        }
    }

    /// The number of bytes that this integer is written in.
    pub fn len(&self) -> (n: usize)
        ensures
            n == self.spec_len(),
    {
        match self {
            VarInt::U8(_) => 1,
            VarInt::U16(_) => 2,
            VarInt::U32(_) => 4,
            VarInt::U64(_) => 8,
        }
    }
}

/// A well-formed integer fits its width less two bits.
proof fn lemma_wf_bound(v: VarInt)
    requires
        v.wf(),
    ensures
        v.spec_value() < 0x40 * radix((v.spec_len() - 1) as nat),
        v.spec_value() < radix(v.spec_len()),
{
    lemma_radix_table();
}

/// Decoding what an integer is written as gives that integer, in whatever
/// width it stands: the shortest encoding of a number and every longer one
/// decode to the number.
pub proof fn lemma_decode_of_bytes(v: VarInt)
    requires
        v.wf(),
    ensures
        v.spec_bytes().len() == v.spec_len(),
        VarInt::spec_decode(v.spec_bytes()) == Ok::<VarInt, DecodeError>(v),
{
    let n = v.spec_len();
    let class = v.spec_class();
    let plain = be_bytes(v.spec_value(), n);
    let bytes = v.spec_bytes();
    lemma_wf_bound(v);
    lemma_be_bytes_head_bound(v.spec_value(), n, 0x40);
    lemma_be_value_of_bytes(v.spec_value(), n);
    let low = plain[0];
    assert((low | (class << 6)) >> 6 == class && (low | (class << 6)) & 0x3f == low)
        by (bit_vector)
        requires
            low < 0x40,
            class <= 3,
    ;
    assert(seq![bytes[0] & 0x3f] + bytes.subrange(1, n as int) =~= plain);
}

/// What an integer is written as is what it was decoded from: decoding
/// loses nothing of the bytes it takes.
pub proof fn lemma_bytes_of_decode(bytes: Seq<u8>)
    requires
        VarInt::spec_decode(bytes) is Ok,
    ensures
        ({
            let v = VarInt::spec_decode(bytes)->Ok_0;
            &&& v.wf()
            &&& v.spec_len() <= bytes.len()
            &&& v.spec_bytes() == bytes.subrange(0, v.spec_len() as int)
        }),
{
    let first = bytes[0];
    let class = first >> 6;
    let n = class_len(class);
    let plain = seq![first & 0x3f] + bytes.subrange(1, n as int);
    let v = VarInt::spec_decode(bytes)->Ok_0;
    assert(first >> 6 <= 3 && first & 0x3f < 0x40 && (first & 0x3f) | ((first >> 6) << 6) == first)
        by (bit_vector);
    lemma_be_value_head_bound(plain, 0x40);
    lemma_radix_table();
    assert(v.spec_value() == be_value(plain));
    assert(v.spec_class() == class);
    lemma_be_bytes_of_value(plain);
    assert(v.spec_bytes() =~= bytes.subrange(0, n as int));
}

/// The least width is a width that holds the number, and no integer that
/// holds the same number is written in fewer bytes.
pub proof fn lemma_minimal(value: u64, other: VarInt)
    requires
        value <= MAX_VALUE,
    ensures
        VarInt::minimal(value).wf(),
        VarInt::minimal(value).spec_value() == value,
        other.wf() && other.spec_value() == value ==> VarInt::minimal(value).spec_len()
            <= other.spec_len(),
{
}

/// Round trip: every number up to [`MAX_VALUE`] has an encoding, and that
/// encoding decodes to the number, held in the least width that can hold it.
pub proof fn lemma_round_trip(value: u64)
    requires
        value <= MAX_VALUE,
    ensures
        VarInt::spec_encode(value) is Ok,
        VarInt::spec_encode(value)->Ok_0.len() == VarInt::minimal(value).spec_len(),
        VarInt::spec_decode(VarInt::spec_encode(value)->Ok_0) == Ok::<VarInt, DecodeError>(
            VarInt::minimal(value),
        ),
        VarInt::minimal(value).spec_value() == value,
{
    lemma_decode_of_bytes(VarInt::minimal(value));
}

/// A number above [`MAX_VALUE`] has no encoding, and every other has one.
pub proof fn lemma_encode_fails_when_too_large(value: u64)
    ensures
        VarInt::spec_encode(value) is Err <==> value > MAX_VALUE,
        VarInt::spec_encode(value) is Err ==> VarInt::spec_encode(value)
            == Err::<Seq<u8>, EncodeError>(EncodeError::ValueTooLarge),
{
}

} // verus!
