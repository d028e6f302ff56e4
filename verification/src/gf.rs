//! Arithmetic in GF(256) with the QR-code reduction polynomial
//! x^8 + x^4 + x^3 + x^2 + 1 (0x11D), as used by the Reed-Solomon
//! error-correction codewords.

use vstd::prelude::*;

verus! {

/// Doubling in GF(256): multiply by x and reduce by 0x11D.
pub open spec fn spec_gf_double(a: u8) -> u8 {
    if a >= 0x80 {
        ((a << 1) as u8) ^ 0x1D
    } else {
        (a << 1) as u8
    }
}

/// Multiplication in GF(256), defined by shift-and-add over the bits of `b`.
pub open spec fn spec_gf_mul(a: u8, b: u8) -> u8
    decreases b,
{
    if b == 0 {
        0
    } else if b % 2 == 1 {
        a ^ spec_gf_mul(spec_gf_double(a), b / 2)
    } else {
        spec_gf_mul(spec_gf_double(a), b / 2)
    }
}

/// The power alpha^e of the generator element alpha = x (i.e. 2).
pub open spec fn spec_gf_pow2(e: nat) -> u8
    decreases e,
{
    if e == 0 {
        1
    } else {
        spec_gf_mul(2, spec_gf_pow2((e - 1) as nat))
    }
}

pub fn gf_double(a: u8) -> (r: u8)
    ensures
        r == spec_gf_double(a),
{
    if a >= 0x80 {
        (a << 1u8) ^ 0x1D
    } else {
        a << 1u8
    }
}

pub fn gf_mul(a: u8, b: u8) -> (r: u8)
    ensures
        r == spec_gf_mul(a, b),
    decreases b,
{
    if b == 0 {
        0
    } else {
        let d = gf_double(a);
        let rest = gf_mul(d, b / 2);
        if b % 2 == 1 {
            a ^ rest
        } else {
            rest
        }
    }
}

pub fn gf_pow2(e: u8) -> (r: u8)
    ensures
        r == spec_gf_pow2(e as nat),
    decreases e,
{
    if e == 0 {
        1
    } else {
        let rest = gf_pow2(e - 1);
        gf_mul(2, rest)
    }
}

} // verus!
