//! Flavours and the per-flavour ingredient bucket that a token carries.
//!
//! A bucket's amount travels on the wire as the four big-endian bytes of its
//! 32-bit encoding; the library keeps exactly those bits, so framing is
//! bit-exact, and leaves arithmetic on the encoded quantity to the caller.

use crate::bytes::u32_b0;
use crate::bytes::u32_b1;
use crate::bytes::u32_b2;
use crate::bytes::u32_b3;
use crate::bytes::u32_be_bytes;
use crate::bytes::u32_of_be_bytes;
use crate::bytes::lemma_u32_be_round_trip;
use crate::bytes::push_u32_be;
use crate::bytes::read_u32_be;
use crate::errors::ParseError;
use vstd::prelude::*;

verus! {

/// The five flavours on offer.
#[derive(Clone, Copy, Debug, Hash, PartialEq, Eq, Structural)]
pub enum IceCream {
    Chocolate,
    Vanilla,
    Strawberry,
    Lemon,
    DulceDeLeche,
}

/// The wire byte of a flavour: the flavours are numbered 0 to 4 in
/// declaration order.
pub open spec fn spec_flavour_byte(f: IceCream) -> u8 {
    match f {
        IceCream::Chocolate => 0,
        IceCream::Vanilla => 1,
        IceCream::Strawberry => 2,
        IceCream::Lemon => 3,
        IceCream::DulceDeLeche => 4,
    }
}

/// The flavour a wire byte names; meaningful only for bytes 0 to 4.
pub open spec fn spec_byte_flavour(b: u8) -> IceCream {
    if b == 0 {
        IceCream::Chocolate
    } else if b == 1 {
        IceCream::Vanilla
    } else if b == 2 {
        IceCream::Strawberry
    } else if b == 3 {
        IceCream::Lemon
    } else {
        IceCream::DulceDeLeche
    }
}

impl IceCream {
    /// The wire byte of this flavour.
    pub fn as_u8(self) -> (b: u8)
        ensures
            b == spec_flavour_byte(self),
    {
        match self {
            IceCream::Chocolate => 0,
            IceCream::Vanilla => 1,
            IceCream::Strawberry => 2,
            IceCream::Lemon => 3,
            IceCream::DulceDeLeche => 4,
        }
    }

    /// Decodes a wire byte: bytes 0 to 4 name a flavour, all others are
    /// rejected.
    pub fn try_from(value: u8) -> (r: Result<IceCream, ParseError>)
        ensures
            value <= 4 ==> r == Ok::<IceCream, ParseError>(spec_byte_flavour(value)),
            value > 4 ==> r == Err::<IceCream, ParseError>(ParseError::ConversionError),
    {
        match value {
            0 => Ok(IceCream::Chocolate),
            1 => Ok(IceCream::Vanilla),
            2 => Ok(IceCream::Strawberry),
            3 => Ok(IceCream::Lemon),
            4 => Ok(IceCream::DulceDeLeche),
            _ => Err(ParseError::ConversionError),
        }
    }
}

/// Encoding a flavour and decoding the byte gives the flavour back.
pub proof fn lemma_flavour_byte_round_trip(f: IceCream)
    ensures
        spec_byte_flavour(spec_flavour_byte(f)) == f,
        spec_flavour_byte(f) <= 4,
{
}

/// One flavour's ingredient store: the flavour, and the amount's 32-bit wire
/// encoding.
#[derive(Clone, Copy, Debug, PartialEq, Eq, Structural)]
pub struct Bucket {
    /// The flavour this bucket holds.
    pub ice_cream: IceCream,
    /// The amount, as the 32-bit encoding that travels on the wire.
    pub amount_bits: u32,
}

impl Bucket {
    /// The five wire bytes of a bucket: the flavour byte, then the amount,
    /// big-endian.
    pub open spec fn spec_bytes(self) -> Seq<u8> {
        seq![spec_flavour_byte(self.ice_cream)] + u32_be_bytes(self.amount_bits)
    }

    pub fn new(ice_cream: IceCream, amount_bits: u32) -> (b: Bucket)
        ensures
            b == (Bucket { ice_cream, amount_bits }),
    {
        Bucket { ice_cream, amount_bits }
    }

    /// Frames the bucket as its five wire bytes.
    pub fn as_bytes(self) -> (buf: Vec<u8>)
        ensures
            buf@ == self.spec_bytes(),
    {
        let mut buf: Vec<u8> = Vec::new();
        buf.push(self.ice_cream.as_u8());
        push_u32_be(&mut buf, self.amount_bits);
        proof {
            assert(buf@ =~= self.spec_bytes());
        }
        buf
    }

    /// Parses the five wire bytes of a bucket.  The flavour byte decides
    /// success: bytes 0 to 4 yield the bucket they encode, all others are
    /// rejected.
    pub fn from_bytes(buffer: &[u8]) -> (r: Result<Bucket, ParseError>)
        requires
            buffer@.len() >= 5,
        ensures
            buffer@[0] <= 4 ==> r == Ok::<Bucket, ParseError>(
                Bucket {
                    ice_cream: spec_byte_flavour(buffer@[0]),
                    amount_bits: u32_of_be_bytes(buffer@[1], buffer@[2], buffer@[3], buffer@[4]),
                },
            ),
            buffer@[0] > 4 ==> r == Err::<Bucket, ParseError>(ParseError::ConversionError),
    {
        let ice_cream = match IceCream::try_from(buffer[0]) {
            Ok(f) => f,
            Err(e) => {
                return Err(e);
            },
        };
        let amount_bits = read_u32_be(buffer, 1);
        Ok(Bucket { ice_cream, amount_bits })
    }
}

/// Framing a bucket and parsing the frame gives the bucket back.
pub proof fn lemma_bucket_round_trip(b: Bucket)
    ensures
        b.spec_bytes().len() == 5,
        b.spec_bytes()[0] <= 4,
        spec_byte_flavour(b.spec_bytes()[0]) == b.ice_cream,
        u32_of_be_bytes(b.spec_bytes()[1], b.spec_bytes()[2], b.spec_bytes()[3], b.spec_bytes()[4])
            == b.amount_bits,
{
    lemma_flavour_byte_round_trip(b.ice_cream);
    lemma_u32_be_round_trip(b.amount_bits);
    assert(b.spec_bytes()[1] == u32_b0(b.amount_bits));
    assert(b.spec_bytes()[2] == u32_b1(b.amount_bits));
    assert(b.spec_bytes()[3] == u32_b2(b.amount_bits));
    assert(b.spec_bytes()[4] == u32_b3(b.amount_bits));
}

} // verus!
