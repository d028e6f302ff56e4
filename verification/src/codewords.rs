//! Codeword construction for a version 1 QR symbol at error-correction
//! level M: byte-mode data codewords (mode indicator, character count,
//! payload, terminator, pad bytes) followed by the Reed-Solomon
//! error-correction codewords.

use vstd::prelude::*;
use crate::gf::{spec_gf_mul, spec_gf_pow2, gf_mul, gf_pow2};

verus! {

/// Data codewords in a version 1 symbol at level M.
pub const DATA_CODEWORDS: usize = 16;

/// Error-correction codewords in a version 1 symbol at level M.
pub const EC_CODEWORDS: usize = 10;

/// All codewords in a version 1 symbol.
pub const TOTAL_CODEWORDS: usize = 26;

/// Largest byte payload that fits: 4 bits of mode indicator, 8 bits of
/// character count and 4 bits of terminator leave 14 of the 16 data
/// codewords for the payload itself.
pub const MAX_PAYLOAD: usize = 14;

/// The k-th data codeword for payload `d`: the byte-mode bit stream
/// (mode 0100, 8-bit count, payload bytes, 0000 terminator) read out in
/// bytes, then alternating pad bytes 0xEC / 0x11.
pub open spec fn spec_data_cw_at(d: Seq<u8>, k: int) -> u8 {
    let n = d.len() as int;
    if k == 0 {
        0x40 | ((d.len() as u8) >> 4)
    } else if 1 <= k <= n {
        let prev: u8 = if k == 1 { d.len() as u8 } else { d[k - 2] };
        ((prev & 0xF) << 4) | (d[k - 1] >> 4)
    } else if k == n + 1 {
        let last: u8 = if n == 0 { d.len() as u8 } else { d[n - 1] };
        (last & 0xF) << 4
    } else {
        if (k - (n + 2)) % 2 == 0 { 0xEC } else { 0x11 }
    }
}

/// The 16 data codewords encoding payload `d`.
pub open spec fn spec_data_codewords(d: Seq<u8>) -> Seq<u8> {
    Seq::new(DATA_CODEWORDS as nat, |k: int| spec_data_cw_at(d, k))
}

/// Coefficient `j` of polynomial `g` (highest degree first), or zero
/// outside the range.
pub open spec fn spec_coeff(g: Seq<u8>, j: int) -> u8 {
    if 0 <= j < g.len() { g[j] } else { 0 }
}

/// `g` multiplied by the monic binomial (x + a) over GF(256).
pub open spec fn spec_poly_mul_xa(g: Seq<u8>, a: u8) -> Seq<u8> {
    Seq::new(g.len() + 1, |k: int| spec_coeff(g, k) ^ spec_gf_mul(spec_coeff(g, k - 1), a))
}

/// The Reed-Solomon generator polynomial of degree `m`: the product of
/// (x + alpha^i) for i below `m`, highest-degree coefficient first.
pub open spec fn spec_gen_poly(m: nat) -> Seq<u8>
    decreases m,
{
    if m == 0 {
        seq![1u8]
    } else {
        spec_poly_mul_xa(spec_gen_poly((m - 1) as nat), spec_gf_pow2((m - 1) as nat))
    }
}

/// One step of polynomial division: cancel the term at position `i` by
/// xoring in the generator scaled by the factor `msg[i]`.
pub open spec fn spec_rs_div_step(msg: Seq<u8>, gen: Seq<u8>, i: int) -> Seq<u8> {
    let factor = msg[i];
    Seq::new(
        msg.len(),
        |p: int| if i <= p < i + gen.len() { msg[p] ^ spec_gf_mul(spec_coeff(gen, p - i), factor) } else { msg[p] },
    )
}

/// The message after the first `i` division steps.
pub open spec fn spec_rs_upto(msg: Seq<u8>, gen: Seq<u8>, i: nat) -> Seq<u8>
    decreases i,
{
    if i == 0 {
        msg
    } else {
        spec_rs_div_step(spec_rs_upto(msg, gen, (i - 1) as nat), gen, i - 1)
    }
}

/// The 10 error-correction codewords for data codewords `cw`: the
/// remainder of cw(x) * x^10 modulo the degree-10 generator polynomial.
pub open spec fn spec_ec_codewords(cw: Seq<u8>) -> Seq<u8> {
    let padded = cw + Seq::new(EC_CODEWORDS as nat, |p: int| 0u8);
    spec_rs_upto(padded, spec_gen_poly(EC_CODEWORDS as nat), DATA_CODEWORDS as nat).subrange(
        DATA_CODEWORDS as int,
        TOTAL_CODEWORDS as int,
    )
}

/// The full codeword sequence of the symbol: data then error correction.
pub open spec fn spec_full_codewords(d: Seq<u8>) -> Seq<u8> {
    spec_data_codewords(d) + spec_ec_codewords(spec_data_codewords(d))
}

/// Division steps preserve the length of the message polynomial.
pub proof fn lemma_rs_upto_len(msg: Seq<u8>, gen: Seq<u8>, i: nat)
    requires
        i <= msg.len(),
    ensures
        spec_rs_upto(msg, gen, i).len() == msg.len(),
    decreases i,
{
    if i > 0 {
        lemma_rs_upto_len(msg, gen, (i - 1) as nat);
    }
}

/// The full codeword sequence always has the symbol's 26 codewords.
pub proof fn lemma_full_codewords_len(d: Seq<u8>)
    ensures
        spec_full_codewords(d).len() == TOTAL_CODEWORDS,
{
    let padded = spec_data_codewords(d) + Seq::new(EC_CODEWORDS as nat, |p: int| 0u8);
    lemma_rs_upto_len(padded, spec_gen_poly(EC_CODEWORDS as nat), DATA_CODEWORDS as nat);
}

/// Builds the 16 data codewords for the payload.
pub fn data_codewords(data: &[u8]) -> (r: Vec<u8>)
    requires
        data@.len() <= MAX_PAYLOAD,
    ensures
        r@ == spec_data_codewords(data@),
{
    let n = data.len();
    let mut cw: Vec<u8> = Vec::new();
    cw.push(0x40u8 | ((n as u8) >> 4));
    let mut i: usize = 0;
    while i < n
        invariant
            i <= n,
            n == data@.len() <= MAX_PAYLOAD,
            cw@.len() == i + 1,
            forall|k: int| 0 <= k < i + 1 ==> cw@[k] == spec_data_cw_at(data@, k),
        decreases n - i,
    {
        let prev: u8 = if i == 0 { n as u8 } else { data[i - 1] };
        cw.push(((prev & 0xF) << 4) | (data[i] >> 4));
        i += 1;
    }
    let last: u8 = if n == 0 { n as u8 } else { data[n - 1] };
    cw.push((last & 0xF) << 4);
    while cw.len() < DATA_CODEWORDS
        invariant
            n == data@.len() <= MAX_PAYLOAD,
            n + 2 <= cw@.len() <= DATA_CODEWORDS,
            forall|k: int| 0 <= k < cw@.len() ==> cw@[k] == spec_data_cw_at(data@, k),
        decreases DATA_CODEWORDS - cw@.len(),
    {
        let j = cw.len();
        if (j - n - 2) % 2 == 0 {
            cw.push(0xEC);
        } else {
            cw.push(0x11);
        }
    }
    proof {
        assert(cw@ =~= spec_data_codewords(data@));
    }
    cw
}

/// Builds the degree-10 Reed-Solomon generator polynomial.
pub fn gen_poly() -> (r: Vec<u8>)
    ensures
        r@ == spec_gen_poly(EC_CODEWORDS as nat),
        r@.len() == EC_CODEWORDS + 1,
{
    let mut g: Vec<u8> = Vec::new();
    g.push(1u8);
    let mut m: usize = 0;
    while m < EC_CODEWORDS
        invariant
            m <= EC_CODEWORDS,
            g@ == spec_gen_poly(m as nat),
            g@.len() == m + 1,
        decreases EC_CODEWORDS - m,
    {
        let a = gf_pow2(m as u8);
        let mut next: Vec<u8> = Vec::new();
        let mut k: usize = 0;
        while k < g.len() + 1
            invariant
                g@ == spec_gen_poly(m as nat),
                g@.len() == m + 1,
                m < EC_CODEWORDS,
                a == spec_gf_pow2(m as nat),
                k <= g@.len() + 1,
                next@.len() == k,
                forall|j: int| 0 <= j < k ==> next@[j] == spec_poly_mul_xa(g@, a)[j],
            decreases g@.len() + 1 - k,
        {
            let lo: u8 = if k < g.len() { g[k] } else { 0 };
            let hi: u8 = if k >= 1 && k - 1 < g.len() { g[k - 1] } else { 0 };
            next.push(lo ^ gf_mul(hi, a));
            k += 1;
        }
        proof {
            assert(next@ =~= spec_poly_mul_xa(g@, a));
        }
        g = next;
        m += 1;
    }
    g
}

/// Computes the 10 error-correction codewords for the 16 data codewords.
pub fn ec_codewords(cw: &Vec<u8>) -> (r: Vec<u8>)
    requires
        cw@.len() == DATA_CODEWORDS,
    ensures
        r@ == spec_ec_codewords(cw@),
        r@.len() == EC_CODEWORDS,
{
    let gen = gen_poly();
    let mut msg: Vec<u8> = Vec::new();
    let mut t: usize = 0;
    while t < DATA_CODEWORDS
        invariant
            cw@.len() == DATA_CODEWORDS,
            t <= DATA_CODEWORDS,
            msg@.len() == t,
            forall|p: int| 0 <= p < t ==> msg@[p] == cw@[p],
        decreases DATA_CODEWORDS - t,
    {
        msg.push(cw[t]);
        t += 1;
    }
    while t < TOTAL_CODEWORDS
        invariant
            cw@.len() == DATA_CODEWORDS,
            DATA_CODEWORDS <= t <= TOTAL_CODEWORDS,
            msg@.len() == t,
            forall|p: int| 0 <= p < DATA_CODEWORDS ==> msg@[p] == cw@[p],
            forall|p: int| DATA_CODEWORDS <= p < t ==> msg@[p] == 0u8,
        decreases TOTAL_CODEWORDS - t,
    {
        msg.push(0u8);
        t += 1;
    }
    let ghost padded = cw@ + Seq::new(EC_CODEWORDS as nat, |p: int| 0u8);
    proof {
        assert(msg@ =~= padded);
    }
    let mut i: usize = 0;
    while i < DATA_CODEWORDS
        invariant
            i <= DATA_CODEWORDS,
            gen@ == spec_gen_poly(EC_CODEWORDS as nat),
            gen@.len() == EC_CODEWORDS + 1,
            msg@.len() == TOTAL_CODEWORDS,
            msg@ == spec_rs_upto(padded, gen@, i as nat),
        decreases DATA_CODEWORDS - i,
    {
        let ghost before = msg@;
        let factor = msg[i];
        let mut j: usize = 0;
        while j < gen.len()
            invariant
                i < DATA_CODEWORDS,
                gen@.len() == EC_CODEWORDS + 1,
                j <= gen@.len(),
                msg@.len() == TOTAL_CODEWORDS,
                before.len() == TOTAL_CODEWORDS,
                factor == before[i as int],
                forall|p: int| 0 <= p < msg@.len() && !(i <= p < i + j) ==> msg@[p] == before[p],
                forall|p: int|
                    i <= p < i + j ==> msg@[p] == (before[p] ^ spec_gf_mul(
                        spec_coeff(gen@, p - i),
                        factor,
                    )),
            decreases gen@.len() - j,
        {
            let m = gf_mul(gen[j], factor);
            let cur = msg[i + j];
            msg.set(i + j, cur ^ m);
            j += 1;
        }
        proof {
            assert(msg@ =~= spec_rs_div_step(before, gen@, i as int));
        }
        i += 1;
    }
    let mut r: Vec<u8> = Vec::new();
    let mut k: usize = DATA_CODEWORDS;
    while k < TOTAL_CODEWORDS
        invariant
            DATA_CODEWORDS <= k <= TOTAL_CODEWORDS,
            msg@.len() == TOTAL_CODEWORDS,
            msg@ == spec_rs_upto(padded, spec_gen_poly(EC_CODEWORDS as nat), DATA_CODEWORDS as nat),
            r@.len() == k - DATA_CODEWORDS,
            forall|p: int| 0 <= p < r@.len() ==> r@[p] == msg@[DATA_CODEWORDS + p],
        decreases TOTAL_CODEWORDS - k,
    {
        r.push(msg[k]);
        k += 1;
    }
    proof {
        assert(r@ =~= spec_ec_codewords(cw@));
    }
    r
}

/// Builds the full 26-codeword sequence for the payload.
pub fn full_codewords(data: &[u8]) -> (r: Vec<u8>)
    requires
        data@.len() <= MAX_PAYLOAD,
    ensures
        r@ == spec_full_codewords(data@),
        r@.len() == TOTAL_CODEWORDS,
{
    let mut cw = data_codewords(data);
    let ec = ec_codewords(&cw);
    let mut k: usize = 0;
    while k < ec.len()
        invariant
            k <= ec@.len(),
            ec@ == spec_ec_codewords(spec_data_codewords(data@)),
            ec@.len() == EC_CODEWORDS,
            cw@.len() == DATA_CODEWORDS + k,
            forall|p: int| 0 <= p < DATA_CODEWORDS ==> cw@[p] == spec_data_codewords(data@)[p],
            forall|p: int| 0 <= p < k ==> cw@[DATA_CODEWORDS + p] == ec@[p],
        decreases ec@.len() - k,
    {
        cw.push(ec[k]);
        k += 1;
    }
    proof {
        assert(cw@ =~= spec_full_codewords(data@));
    }
    cw
}

} // verus!
