//! Reversible transform between a plain 16-bit magnitude encoding and its
//! reflected (Gray) code. Both directions are total over the full 16-bit
//! space and are mutual inverses.

use vstd::prelude::*;

verus! {

/// Gray transform: every bit of the result is the XOR of the matching
/// magnitude bit with its more significant neighbour; the most significant
/// bit is copied as it stands.
pub open spec fn gray_of(binary: u16) -> u16 {
    binary ^ (binary >> 1)
}

/// Inverse transform: every bit of the result is the XOR-accumulated parity
/// of the Gray bits at its own position and above.
pub open spec fn binary_of(gray: u16) -> u16 {
    gray ^ (gray >> 1) ^ (gray >> 2) ^ (gray >> 3) ^ (gray >> 4) ^ (gray >> 5) ^ (gray >> 6)
        ^ (gray >> 7) ^ (gray >> 8) ^ (gray >> 9) ^ (gray >> 10) ^ (gray >> 11) ^ (gray >> 12)
        ^ (gray >> 13) ^ (gray >> 14) ^ (gray >> 15)
}

/// A 16-bit pattern read as a reflected (Gray) code.
#[derive(Debug, PartialEq, Eq, Structural, Hash, Copy, Clone)]
pub struct GrayCode(pub u16);

/// A 16-bit pattern read as a plain magnitude.
#[derive(Debug, PartialEq, Eq, Structural, Hash, Copy, Clone)]
pub struct BinaryCode(pub u16);

impl vstd::std_specs::convert::FromSpecImpl<BinaryCode> for GrayCode {
    open spec fn obeys_from_spec() -> bool {
        true
    }

    open spec fn from_spec(code: BinaryCode) -> GrayCode {
        GrayCode(gray_of(code.0))
    }
}

impl From<BinaryCode> for GrayCode {
    fn from(code: BinaryCode) -> (r: GrayCode) {
        GrayCode(code.0 ^ (code.0 >> 1))
    }
}

impl vstd::std_specs::convert::FromSpecImpl<GrayCode> for BinaryCode {
    open spec fn obeys_from_spec() -> bool {
        true
    }

    open spec fn from_spec(code: GrayCode) -> BinaryCode {
        BinaryCode(binary_of(code.0))
    }
}

impl From<GrayCode> for BinaryCode {
    fn from(code: GrayCode) -> (r: BinaryCode) {
        let g = code.0;
        let fold8 = g ^ (g >> 8);
        let fold4 = fold8 ^ (fold8 >> 4);
        let fold2 = fold4 ^ (fold4 >> 2);
        let fold1 = fold2 ^ (fold2 >> 1);
        proof {
            assert(fold1 == g ^ (g >> 1) ^ (g >> 2) ^ (g >> 3) ^ (g >> 4) ^ (g >> 5) ^ (g >> 6)
                ^ (g >> 7) ^ (g >> 8) ^ (g >> 9) ^ (g >> 10) ^ (g >> 11) ^ (g >> 12) ^ (g >> 13)
                ^ (g >> 14) ^ (g >> 15)) by (bit_vector)
                requires
                    fold8 == g ^ (g >> 8),
                    fold4 == fold8 ^ (fold8 >> 4),
                    fold2 == fold4 ^ (fold4 >> 2),
                    fold1 == fold2 ^ (fold2 >> 1),
            ;
        }
        BinaryCode(fold1)
    }
}

/// Law: decoding an encoded magnitude gives the magnitude back, for every
/// 16-bit magnitude.
pub proof fn lemma_gray_then_binary_is_identity(binary: u16)
    ensures
        binary_of(gray_of(binary)) == binary,
{
    let g: u16 = gray_of(binary);
    assert(g ^ (g >> 1) ^ (g >> 2) ^ (g >> 3) ^ (g >> 4) ^ (g >> 5) ^ (g >> 6) ^ (g >> 7)
        ^ (g >> 8) ^ (g >> 9) ^ (g >> 10) ^ (g >> 11) ^ (g >> 12) ^ (g >> 13) ^ (g >> 14)
        ^ (g >> 15) == binary) by (bit_vector)
        requires
            g == binary ^ (binary >> 1),
    ;
}

/// Law: encoding a decoded Gray pattern gives the pattern back, for every
/// 16-bit Gray pattern; together with the lemma above the transform is a
/// bijection over the full 16-bit space.
pub proof fn lemma_binary_then_gray_is_identity(gray: u16)
    ensures
        gray_of(binary_of(gray)) == gray,
{
    let b: u16 = binary_of(gray);
    assert(b ^ (b >> 1) == gray) by (bit_vector)
        requires
            b == gray ^ (gray >> 1) ^ (gray >> 2) ^ (gray >> 3) ^ (gray >> 4) ^ (gray >> 5)
                ^ (gray >> 6) ^ (gray >> 7) ^ (gray >> 8) ^ (gray >> 9) ^ (gray >> 10)
                ^ (gray >> 11) ^ (gray >> 12) ^ (gray >> 13) ^ (gray >> 14) ^ (gray >> 15),
    ;
}

} // verus!
