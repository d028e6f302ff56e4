//! The public encoding operations: payload in, SVG text out, with the
//! fixed configuration (version 1, byte mode, error-correction level M,
//! mask pattern 0). A payload beyond the capacity of that configuration
//! is rejected with an encoding error, never truncated.

use vstd::prelude::*;
use vstd::string::StringExecFns;
use vstd::utf8::encode_utf8;
use crate::codewords::{
    spec_data_codewords, spec_full_codewords, full_codewords, MAX_PAYLOAD, DATA_CODEWORDS,
};
use crate::grid::{spec_grid, build_grid};
use crate::svg::{spec_svg, svg_of_grid};
use crate::error::QrError;

verus! {

/// The reason reported when a payload does not fit.
pub open spec fn spec_capacity_reason() -> Seq<char> {
    "payload exceeds the capacity of a version 1 symbol at level M"@
}

/// The SVG document that encodes payload `d`: its codewords, laid out in
/// the module grid, rendered as text.
pub open spec fn spec_qr_svg(d: Seq<u8>) -> Seq<char> {
    spec_svg(spec_grid(spec_full_codewords(d)))
}

/// Encodes a byte payload as a QR symbol in SVG form. Succeeds exactly on
/// payloads of at most `MAX_PAYLOAD` bytes and pins the text produced.
pub fn encode_bytes_to_svg(data: &[u8]) -> (r: Result<String, QrError>)
    ensures
        r is Ok <==> data@.len() <= MAX_PAYLOAD,
        r is Ok ==> r->Ok_0@ == spec_qr_svg(data@),
        r is Err ==> (r->Err_0 matches QrError::Encoding(m) && m@ == spec_capacity_reason()),
{
    if data.len() > MAX_PAYLOAD {
        Err(
            QrError::Encoding(
                String::from_str("payload exceeds the capacity of a version 1 symbol at level M"),
            ),
        )
    } else {
        let cw = full_codewords(data);
        let g = build_grid(&cw);
        Ok(svg_of_grid(&g))
    }
}

/// Encodes a text payload as a QR symbol in SVG form; the capacity bound
/// applies to the UTF-8 byte length of the text.
pub fn encode_to_svg(data: &str) -> (r: Result<String, QrError>)
    ensures
        r is Ok <==> encode_utf8(data@).len() <= MAX_PAYLOAD,
        r is Ok ==> r->Ok_0@ == spec_qr_svg(encode_utf8(data@)),
        r is Err ==> (r->Err_0 matches QrError::Encoding(m) && m@ == spec_capacity_reason()),
{
    encode_bytes_to_svg(data.as_bytes())
}

/// Encodes a text payload, flattening any error to a plain string, as a
/// command boundary expects.
pub fn generate_qr_code(data: String) -> (r: Result<String, String>)
    ensures
        r is Ok <==> encode_utf8(data@).len() <= MAX_PAYLOAD,
        r is Ok ==> r->Ok_0@ == spec_qr_svg(encode_utf8(data@)),
        r is Err ==> r->Err_0@ == "encoding error: "@ + spec_capacity_reason(),
{
    match encode_to_svg(data.as_str()) {
        Ok(svg) => Ok(svg),
        Err(e) => Err(e.message()),
    }
}

/// Encoding is deterministic: with the fixed configuration, equal payloads
/// yield byte-identical SVG text.
pub proof fn lemma_encode_deterministic(d1: Seq<u8>, d2: Seq<u8>)
    requires
        d1 == d2,
    ensures
        spec_qr_svg(d1) == spec_qr_svg(d2),
{
}

/// The byte count recorded in the data codewords: the low nibble of the
/// first codeword and the high nibble of the second.
pub open spec fn spec_decoded_len(cw: Seq<u8>) -> int {
    (((cw[0] & 0xF) << 4) | (cw[1] >> 4)) as int
}

/// The payload read back from the data codewords: each byte straddles two
/// codewords, shifted by the 4-bit mode indicator.
pub open spec fn spec_decoded_payload(cw: Seq<u8>) -> Seq<u8> {
    Seq::new(
        spec_decoded_len(cw) as nat,
        |i: int| ((cw[i + 1] & 0xF) << 4) | (cw[i + 2] >> 4),
    )
}

/// Round trip through the byte-mode bit stream: the data codewords of any
/// payload that fits decode back to exactly that payload.
pub proof fn lemma_data_codewords_roundtrip(d: Seq<u8>)
    requires
        d.len() <= MAX_PAYLOAD,
    ensures
        spec_decoded_payload(spec_data_codewords(d)) == d,
{
    let cw = spec_data_codewords(d);
    let n8 = d.len() as u8;
    assert(cw[0] == 0x40 | (n8 >> 4));
    if d.len() == 0 {
        assert(cw[1] == (n8 & 0xF) << 4);
        assert((((0x40u8 | (n8 >> 4)) & 0xF) << 4) | (((n8 & 0xF) << 4) >> 4) == n8)
            by (bit_vector)
            requires n8 < 16;
    } else {
        let d0 = d[0];
        assert(cw[1] == ((n8 & 0xF) << 4) | (d0 >> 4));
        assert((((0x40u8 | (n8 >> 4)) & 0xF) << 4) | ((((n8 & 0xF) << 4) | (d0 >> 4)) >> 4)
            == n8) by (bit_vector)
            requires n8 < 16;
    }
    assert(spec_decoded_len(cw) == d.len());
    assert forall|i: int| 0 <= i < d.len() implies spec_decoded_payload(cw)[i] == d[i] by {
        let a = d[i];
        let p: u8 = if i == 0 { n8 } else { d[i - 1] };
        assert(cw[i + 1] == ((p & 0xF) << 4) | (a >> 4));
        if i + 1 < d.len() {
            let q = d[i + 1];
            assert(cw[i + 2] == ((a & 0xF) << 4) | (q >> 4));
            assert(((((((p & 0xF) << 4) | (a >> 4))) & 0xF) << 4) | ((((a & 0xF) << 4) | (q
                >> 4)) >> 4) == a) by (bit_vector);
        } else {
            assert(cw[i + 2] == (a & 0xF) << 4);
            assert(((((((p & 0xF) << 4) | (a >> 4))) & 0xF) << 4) | (((a & 0xF) << 4) >> 4)
                == a) by (bit_vector);
        }
    }
    assert(spec_decoded_payload(cw) =~= d);
}

/// A bit as the numeric value of a module.
pub open spec fn spec_bit_u8(b: bool) -> u8 {
    if b { 1 } else { 0 }
}

/// Eight consecutive stream bits repacked as one byte, most significant first.
pub open spec fn spec_byte_at(bits: Seq<bool>, s: int) -> u8 {
    (spec_bit_u8(bits[s]) << 7) | (spec_bit_u8(bits[s + 1]) << 6) | (spec_bit_u8(bits[s + 2]) << 5)
        | (spec_bit_u8(bits[s + 3]) << 4) | (spec_bit_u8(bits[s + 4]) << 3) | (spec_bit_u8(
        bits[s + 5],
    ) << 2) | (spec_bit_u8(bits[s + 6]) << 1) | spec_bit_u8(bits[s + 7])
}

/// The codewords read back out of a grid: its unmasked data bits, taken in
/// placement order and repacked into bytes.
pub open spec fn spec_extract_codewords(g: Seq<bool>) -> Seq<u8> {
    Seq::new(
        crate::codewords::TOTAL_CODEWORDS as nat,
        |b: int| spec_byte_at(crate::grid::spec_extract_bits(g), 8 * b),
    )
}

proof fn lemma_byte_repack(cw: Seq<u8>, b: int)
    requires
        cw.len() == crate::codewords::TOTAL_CODEWORDS,
        0 <= b < crate::codewords::TOTAL_CODEWORDS,
    ensures
        spec_byte_at(crate::grid::spec_bits(cw), 8 * b) == cw[b],
{
    let bits = crate::grid::spec_bits(cw);
    let x = cw[b];
    assert((8 * b + 0) / 8 == b && (8 * b + 0) % 8 == 0) by (nonlinear_arith)
        requires 0 <= b;
    assert((8 * b + 1) / 8 == b && (8 * b + 1) % 8 == 1) by (nonlinear_arith)
        requires 0 <= b;
    assert((8 * b + 2) / 8 == b && (8 * b + 2) % 8 == 2) by (nonlinear_arith)
        requires 0 <= b;
    assert((8 * b + 3) / 8 == b && (8 * b + 3) % 8 == 3) by (nonlinear_arith)
        requires 0 <= b;
    assert((8 * b + 4) / 8 == b && (8 * b + 4) % 8 == 4) by (nonlinear_arith)
        requires 0 <= b;
    assert((8 * b + 5) / 8 == b && (8 * b + 5) % 8 == 5) by (nonlinear_arith)
        requires 0 <= b;
    assert((8 * b + 6) / 8 == b && (8 * b + 6) % 8 == 6) by (nonlinear_arith)
        requires 0 <= b;
    assert((8 * b + 7) / 8 == b && (8 * b + 7) % 8 == 7) by (nonlinear_arith)
        requires 0 <= b;
    assert(bits[8 * b + 0] == ((x >> ((7 - 0) as u8)) & 1 == 1));
    assert(bits[8 * b + 1] == ((x >> ((7 - 1) as u8)) & 1 == 1));
    assert(bits[8 * b + 2] == ((x >> ((7 - 2) as u8)) & 1 == 1));
    assert(bits[8 * b + 3] == ((x >> ((7 - 3) as u8)) & 1 == 1));
    assert(bits[8 * b + 4] == ((x >> ((7 - 4) as u8)) & 1 == 1));
    assert(bits[8 * b + 5] == ((x >> ((7 - 5) as u8)) & 1 == 1));
    assert(bits[8 * b + 6] == ((x >> ((7 - 6) as u8)) & 1 == 1));
    assert(bits[8 * b + 7] == ((x >> ((7 - 7) as u8)) & 1 == 1));
    assert((7 - 0) as u8 == 7 && (7 - 1) as u8 == 6 && (7 - 2) as u8 == 5 && (7 - 3) as u8 == 4
        && (7 - 4) as u8 == 3 && (7 - 5) as u8 == 2 && (7 - 6) as u8 == 1 && (7 - 7) as u8 == 0);
    assert((x >> 7) & 1 == 0 || (x >> 7) & 1 == 1) by (bit_vector);
    assert((x >> 6) & 1 == 0 || (x >> 6) & 1 == 1) by (bit_vector);
    assert((x >> 5) & 1 == 0 || (x >> 5) & 1 == 1) by (bit_vector);
    assert((x >> 4) & 1 == 0 || (x >> 4) & 1 == 1) by (bit_vector);
    assert((x >> 3) & 1 == 0 || (x >> 3) & 1 == 1) by (bit_vector);
    assert((x >> 2) & 1 == 0 || (x >> 2) & 1 == 1) by (bit_vector);
    assert((x >> 1) & 1 == 0 || (x >> 1) & 1 == 1) by (bit_vector);
    assert((x >> 0) & 1 == 0 || (x >> 0) & 1 == 1) by (bit_vector);
    assert(spec_bit_u8(bits[8 * b + 0]) == (x >> 7) & 1);
    assert(spec_bit_u8(bits[8 * b + 1]) == (x >> 6) & 1);
    assert(spec_bit_u8(bits[8 * b + 2]) == (x >> 5) & 1);
    assert(spec_bit_u8(bits[8 * b + 3]) == (x >> 4) & 1);
    assert(spec_bit_u8(bits[8 * b + 4]) == (x >> 3) & 1);
    assert(spec_bit_u8(bits[8 * b + 5]) == (x >> 2) & 1);
    assert(spec_bit_u8(bits[8 * b + 6]) == (x >> 1) & 1);
    assert(spec_bit_u8(bits[8 * b + 7]) == (x >> 0) & 1);
    assert((((x >> 7) & 1) << 7) | (((x >> 6) & 1) << 6) | (((x >> 5) & 1) << 5) | (((x >> 4)
        & 1) << 4) | (((x >> 3) & 1) << 3) | (((x >> 2) & 1) << 2) | (((x >> 1) & 1) << 1) | ((x
        >> 0) & 1) == x) by (bit_vector);
}

/// Round trip at the symbol level: re-extracting the module grid of an
/// encoded payload (reading the data modules in placement order, removing
/// the mask, repacking bytes) recovers the full codeword sequence, and the
/// byte-mode decoding of those codewords recovers the payload itself.
pub proof fn lemma_symbol_roundtrip(d: Seq<u8>)
    requires
        d.len() <= MAX_PAYLOAD,
    ensures
        spec_extract_codewords(spec_grid(spec_full_codewords(d))) == spec_full_codewords(d),
        spec_decoded_payload(spec_extract_codewords(spec_grid(spec_full_codewords(d)))) == d,
{
    let full = spec_full_codewords(d);
    crate::codewords::lemma_full_codewords_len(d);
    crate::grid::lemma_extract_bits(full);
    let g = spec_grid(full);
    assert forall|b: int| 0 <= b < crate::codewords::TOTAL_CODEWORDS
        implies spec_extract_codewords(g)[b] == full[b] by {
        lemma_byte_repack(full, b);
    }
    assert(spec_extract_codewords(g) =~= full);
    lemma_data_codewords_roundtrip(d);
    let dataw = spec_data_codewords(d);
    assert(spec_decoded_len(full) == spec_decoded_len(dataw));
    assert(spec_decoded_payload(full) =~= spec_decoded_payload(dataw));
}

/// Round-trip decodability, end to end over the library's own formats: the
/// produced document is the header, one unit rectangle per dark module in
/// row-major order, and the closing tag; that dark-module list determines
/// the whole grid; and the grid's data modules, unmasked and repacked,
/// give back the codewords and the payload.
pub proof fn lemma_svg_roundtrip(d: Seq<u8>)
    requires
        d.len() <= MAX_PAYLOAD,
    ensures
        spec_qr_svg(d) == crate::svg::spec_svg_header() + crate::svg::spec_rects_of(
            crate::svg::spec_dark_cells(spec_grid(spec_full_codewords(d))),
        ) + "</svg>"@,
        crate::svg::spec_grid_of_dark(
            crate::svg::spec_dark_cells(spec_grid(spec_full_codewords(d))),
        ) == spec_grid(spec_full_codewords(d)),
        spec_decoded_payload(spec_extract_codewords(spec_grid(spec_full_codewords(d)))) == d,
{
    crate::svg::lemma_svg_structure(spec_grid(spec_full_codewords(d)));
    crate::grid::lemma_grid_len(spec_full_codewords(d));
    crate::svg::lemma_grid_of_dark(spec_grid(spec_full_codewords(d)));
    lemma_symbol_roundtrip(d);
}

fn extracted_bit(g: &Vec<bool>, coords: &Vec<(usize, usize)>, i: usize) -> (b: bool)
    requires
        g@.len() == crate::grid::CELLS,
        coords@ == crate::grid::spec_coords(),
        forall|t: int|
            0 <= t < coords@.len() ==> (#[trigger] coords@[t]).0 < crate::grid::SIZE
                && coords@[t].1 < crate::grid::SIZE,
        i < coords@.len(),
    ensures
        b == crate::grid::spec_extract_bits(g@)[i as int],
{
    let rc = coords[i];
    g[rc.0 * 21 + rc.1] != ((rc.0 + rc.1) % 2 == 0)
}

/// Reads the codewords back out of a finished module grid: the data
/// modules in placement order, unmasked and repacked into bytes.
pub fn extract_codewords(g: &Vec<bool>) -> (r: Vec<u8>)
    requires
        g@.len() == crate::grid::CELLS,
    ensures
        r@ == spec_extract_codewords(g@),
{
    let coords = crate::grid::data_coords();
    proof {
        crate::grid::lemma_coords_count();
    }
    let mut out: Vec<u8> = Vec::new();
    let mut b: usize = 0;
    while b < crate::codewords::TOTAL_CODEWORDS
        invariant
            g@.len() == crate::grid::CELLS,
            coords@ == crate::grid::spec_coords(),
            forall|t: int|
                0 <= t < coords@.len() ==> (#[trigger] coords@[t]).0 < crate::grid::SIZE
                    && coords@[t].1 < crate::grid::SIZE,
            coords@.len() == crate::grid::DATA_MODULES,
            b <= crate::codewords::TOTAL_CODEWORDS,
            out@.len() == b,
            forall|t: int| 0 <= t < b ==> out@[t] == spec_extract_codewords(g@)[t],
        decreases crate::codewords::TOTAL_CODEWORDS - b,
    {
        let b0 = extracted_bit(g, &coords, 8 * b);
        let b1 = extracted_bit(g, &coords, 8 * b + 1);
        let b2 = extracted_bit(g, &coords, 8 * b + 2);
        let b3 = extracted_bit(g, &coords, 8 * b + 3);
        let b4 = extracted_bit(g, &coords, 8 * b + 4);
        let b5 = extracted_bit(g, &coords, 8 * b + 5);
        let b6 = extracted_bit(g, &coords, 8 * b + 6);
        let b7 = extracted_bit(g, &coords, 8 * b + 7);
        let v: u8 = ((if b0 { 1u8 } else { 0u8 }) << 7) | ((if b1 { 1u8 } else { 0u8 }) << 6) | ((
        if b2 { 1u8 } else { 0u8 }) << 5) | ((if b3 { 1u8 } else { 0u8 }) << 4) | ((if b4 { 1u8 } else { 0u8 }) << 3)
            | ((if b5 { 1u8 } else { 0u8 }) << 2) | ((if b6 { 1u8 } else { 0u8 }) << 1) | (if b7 { 1u8 } else { 0u8 });
        out.push(v);
        b += 1;
    }
    proof {
        assert(out@ =~= spec_extract_codewords(g@));
    }
    out
}

/// Reads the payload back out of a symbol's data codewords. Returns the
/// payload when the recorded length fits the capacity, nothing otherwise.
pub fn decode_data_codewords(cw: &Vec<u8>) -> (r: Option<Vec<u8>>)
    requires
        cw@.len() >= DATA_CODEWORDS,
    ensures
        r is Some <==> spec_decoded_len(cw@) <= MAX_PAYLOAD,
        r is Some ==> r->0@ == spec_decoded_payload(cw@),
{
    let n_byte: u8 = ((cw[0] & 0xF) << 4) | (cw[1] >> 4);
    let n = n_byte as usize;
    if n > MAX_PAYLOAD {
        return None;
    }
    let mut out: Vec<u8> = Vec::new();
    let mut i: usize = 0;
    while i < n
        invariant
            n == spec_decoded_len(cw@),
            n <= MAX_PAYLOAD,
            cw@.len() >= DATA_CODEWORDS,
            i <= n,
            out@.len() == i,
            forall|t: int| 0 <= t < i ==> out@[t] == spec_decoded_payload(cw@)[t],
        decreases n - i,
    {
        out.push(((cw[i + 1] & 0xF) << 4) | (cw[i + 2] >> 4));
        i += 1;
    }
    proof {
        assert(out@ =~= spec_decoded_payload(cw@));
    }
    Some(out)
}

} // verus!
