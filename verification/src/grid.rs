//! Construction of the 21 x 21 module grid of a version 1 QR symbol:
//! finder patterns, separators, timing patterns, the dark module, the
//! format information, and the masked data modules placed in the standard
//! two-column zigzag order. The fixed configuration is error-correction
//! level M and mask pattern 0.

use vstd::prelude::*;
use crate::codewords::TOTAL_CODEWORDS;

verus! {

/// The fixed symbol version this encoder produces.
pub const VERSION: usize = 1;

/// The fixed mask pattern this encoder applies.
pub const MASK_PATTERN: usize = 0;

/// Side length of a version 1 symbol, in modules.
pub const SIZE: usize = 21;

/// Number of modules in the grid.
pub const CELLS: usize = 441;

/// Number of two-column zigzag scan slots: ten column pairs of 21 rows,
/// two columns each (the timing column is skipped entirely).
pub const SCAN_SLOTS: usize = 420;

/// Bits of the format-information field: error-correction level M (00)
/// and mask pattern 0 (000).
pub const FORMAT_DATA: u16 = 0;

/// The BCH generator polynomial for the format information.
pub const BCH_GEN: u16 = 0x537;

/// The fixed mask applied to the 15 format-information bits.
pub const FORMAT_XOR: u16 = 0x5412;

/// BCH remainder computation: `k` reduction steps remain, the next one
/// clearing bit 10 + k - 1.
pub open spec fn spec_bch_reduce(x: u16, k: nat) -> u16
    decreases k,
{
    if k == 0 {
        x
    } else {
        let b = (10 + k - 1) as u16;
        let y: u16 = if (x >> b) & 1 == 1 { x ^ ((BCH_GEN << ((b - 10) as u16)) as u16) } else { x };
        spec_bch_reduce(y, (k - 1) as nat)
    }
}

/// The 15-bit format information word: data bits, BCH remainder, fixed mask.
pub open spec fn spec_format_info() -> u16 {
    (((FORMAT_DATA << 10) as u16 | spec_bch_reduce((FORMAT_DATA << 10) as u16, 5)) as u16) ^ FORMAT_XOR
}

/// Bit `b` (0 = least significant) of the format information word.
pub open spec fn spec_format_bit(b: int) -> bool {
    (spec_format_info() >> (b as u16)) & 1 == 1
}

/// Whether module (i, j) of a finder pattern, relative to its corner, is dark.
pub open spec fn spec_finder(i: int, j: int) -> bool {
    i == 0 || i == 6 || j == 0 || j == 6 || (2 <= i <= 4 && 2 <= j <= 4)
}

/// Whether (r, c) is a function module (finder, separator, timing, format,
/// dark module), as opposed to a data module.
pub open spec fn spec_is_function(r: int, c: int) -> bool {
    (r <= 8 && c <= 8) || (r <= 8 && c >= 13) || (r >= 13 && c <= 8) || r == 6 || c == 6
}

/// The value of the function module at (r, c).
pub open spec fn spec_function_value(r: int, c: int) -> bool {
    if r <= 6 && c <= 6 {
        spec_finder(r, c)
    } else if r <= 6 && c >= 14 {
        spec_finder(r, c - 14)
    } else if r >= 14 && c <= 6 {
        spec_finder(r - 14, c)
    } else if r == 13 && c == 8 {
        true
    } else if r == 8 && c <= 5 {
        spec_format_bit(14 - c)
    } else if r == 8 && c == 7 {
        spec_format_bit(8)
    } else if r == 8 && c == 8 {
        spec_format_bit(7)
    } else if c == 8 && r == 7 {
        spec_format_bit(6)
    } else if c == 8 && r <= 5 {
        spec_format_bit(r)
    } else if r == 8 && c >= 13 {
        spec_format_bit(20 - c)
    } else if c == 8 && r >= 14 {
        spec_format_bit(r - 6)
    } else if r == 6 {
        c % 2 == 0
    } else if c == 6 {
        r % 2 == 0
    } else {
        false
    }
}

/// The grid before data placement: function modules set, data modules light.
pub open spec fn spec_base_grid() -> Seq<bool> {
    Seq::new(
        CELLS as nat,
        |i: int| if spec_is_function(i / 21, i % 21) { spec_function_value(i / 21, i % 21) } else { false },
    )
}

/// The cell visited by zigzag scan slot `s`: column pairs right to left
/// (skipping the timing column), alternately upward and downward, the
/// right column of a pair before the left one.
pub open spec fn spec_scan(s: int) -> (usize, usize) {
    let p = s / 42;
    let t = s % 42;
    let rowstep = t / 2;
    let which = t % 2;
    let row: int = if p % 2 == 0 { 20 - rowstep } else { rowstep };
    let cr: int = if p < 7 { 20 - 2 * p } else { 19 - 2 * p };
    (row as usize, (cr - which) as usize)
}

/// The data-module coordinates among the first `s` scan slots, in order.
pub open spec fn spec_coords_upto(s: nat) -> Seq<(usize, usize)>
    decreases s,
{
    if s == 0 {
        Seq::empty()
    } else {
        let rc = spec_scan(s - 1);
        let rest = spec_coords_upto((s - 1) as nat);
        if spec_is_function(rc.0 as int, rc.1 as int) {
            rest
        } else {
            rest.push(rc)
        }
    }
}

/// All data-module coordinates in placement order.
pub open spec fn spec_coords() -> Seq<(usize, usize)> {
    spec_coords_upto(SCAN_SLOTS as nat)
}

/// The bit stream of the codewords, most significant bit of each byte first.
pub open spec fn spec_bits(cw: Seq<u8>) -> Seq<bool> {
    Seq::new(cw.len() * 8, |i: int| (cw[i / 8] >> ((7 - i % 8) as u8)) & 1 == 1)
}

/// Bit `i` of the stream, or a light filler past its end.
pub open spec fn spec_bit_at(bits: Seq<bool>, i: int) -> bool {
    if 0 <= i < bits.len() { bits[i] } else { false }
}

/// Mask pattern 0: invert where row + column is even.
pub open spec fn spec_mask0(r: int, c: int) -> bool {
    (r + c) % 2 == 0
}

/// The grid after placing the first `k` data bits at their coordinates,
/// each xored with the mask.
pub open spec fn spec_place_upto(
    g: Seq<bool>,
    coords: Seq<(usize, usize)>,
    bits: Seq<bool>,
    k: nat,
) -> Seq<bool>
    decreases k,
{
    if k == 0 {
        g
    } else {
        let g1 = spec_place_upto(g, coords, bits, (k - 1) as nat);
        let rc = coords[k - 1];
        g1.update(
            rc.0 as int * 21 + rc.1 as int,
            spec_bit_at(bits, k - 1) != spec_mask0(rc.0 as int, rc.1 as int),
        )
    }
}

/// The finished module grid for codeword sequence `cw`, row-major.
pub open spec fn spec_grid(cw: Seq<u8>) -> Seq<bool> {
    spec_place_upto(spec_base_grid(), spec_coords(), spec_bits(cw), spec_coords().len())
}

/// Number of data modules in a version 1 symbol.
pub const DATA_MODULES: usize = 208;

/// The row-major cell index of a coordinate pair.
pub open spec fn spec_cell_index(rc: (usize, usize)) -> int {
    rc.0 as int * 21 + rc.1 as int
}

/// The data bits read back out of a grid: the module at each placement
/// coordinate, with the mask removed.
pub open spec fn spec_extract_bits(g: Seq<bool>) -> Seq<bool> {
    Seq::new(
        spec_coords().len(),
        |i: int|
            {
                let rc = spec_coords()[i];
                g[spec_cell_index(rc)] != spec_mask0(rc.0 as int, rc.1 as int)
            },
    )
}

/// The zigzag scan stays inside the grid.
pub proof fn lemma_scan_bounds(s: int)
    requires
        0 <= s < SCAN_SLOTS,
    ensures
        spec_scan(s).0 < SIZE,
        spec_scan(s).1 < SIZE,
{
}

/// Distinct scan slots visit distinct cells.
pub proof fn lemma_scan_injective(s1: int, s2: int)
    requires
        0 <= s1 < SCAN_SLOTS,
        0 <= s2 < SCAN_SLOTS,
        s1 != s2,
    ensures
        spec_scan(s1) != spec_scan(s2),
{
    let p1 = s1 / 42;
    let t1 = s1 % 42;
    let p2 = s2 / 42;
    let t2 = s2 % 42;
    vstd::arithmetic::div_mod::lemma_fundamental_div_mod(s1, 42);
    vstd::arithmetic::div_mod::lemma_fundamental_div_mod(s2, 42);
    vstd::arithmetic::div_mod::lemma_fundamental_div_mod(t1, 2);
    vstd::arithmetic::div_mod::lemma_fundamental_div_mod(t2, 2);
    if p1 == p2 {
        assert(t1 != t2);
        if t1 % 2 == t2 % 2 {
            assert(t1 / 2 != t2 / 2);
            assert(spec_scan(s1).0 != spec_scan(s2).0);
        } else {
            assert(spec_scan(s1).1 != spec_scan(s2).1);
        }
    } else {
        let cr1: int = if p1 < 7 { 20 - 2 * p1 } else { 19 - 2 * p1 };
        let cr2: int = if p2 < 7 { 20 - 2 * p2 } else { 19 - 2 * p2 };
        if p1 < p2 {
            assert(cr2 <= cr1 - 2);
        } else {
            assert(cr1 <= cr2 - 2);
        }
        assert(spec_scan(s1).1 != spec_scan(s2).1);
    }
}

/// The placement coordinates are pairwise distinct cells; moreover none of
/// them is revisited by any scan slot at or past `s`.
pub proof fn lemma_coords_distinct_upto(s: nat)
    requires
        s <= SCAN_SLOTS,
    ensures
        forall|i: int, j: int|
            0 <= i < j < spec_coords_upto(s).len() ==> spec_coords_upto(s)[i]
                != spec_coords_upto(s)[j],
        forall|i: int, u: int|
            0 <= i < spec_coords_upto(s).len() && s <= u < SCAN_SLOTS ==> spec_coords_upto(s)[i]
                != spec_scan(u),
        forall|i: int|
            0 <= i < spec_coords_upto(s).len() ==> (#[trigger] spec_coords_upto(s)[i]).0 < SIZE
                && spec_coords_upto(s)[i].1 < SIZE,
    decreases s,
{
    if s > 0 {
        lemma_coords_distinct_upto((s - 1) as nat);
        let prev = spec_coords_upto((s - 1) as nat);
        let cur = spec_coords_upto(s);
        let rc = spec_scan(s - 1);
        lemma_scan_bounds(s - 1);
        assert forall|i: int, u: int|
            0 <= i < cur.len() && s <= u < SCAN_SLOTS implies cur[i] != spec_scan(u) by {
            if i < prev.len() {
                assert(prev[i] != spec_scan(u));
            } else {
                lemma_scan_injective(s - 1, u);
            }
        }
        assert forall|i: int, j: int| 0 <= i < j < cur.len() implies cur[i] != cur[j] by {
            if j < prev.len() {
                assert(prev[i] != prev[j]);
            } else {
                assert(cur[j] == rc);
                assert(prev[i] != spec_scan(s - 1));
            }
        }
    }
}

/// There are exactly 208 data modules, so the placement coordinate list
/// and the codeword bit stream have the same length.
#[verifier::rlimit(100)]
pub proof fn lemma_coords_count()
    ensures
        spec_coords().len() == DATA_MODULES,
{
    reveal_with_fuel(spec_coords_upto, 43);
    assert(spec_coords_upto(42).len() == 24);
    assert(spec_coords_upto(84).len() == 48);
    assert(spec_coords_upto(126).len() == 72);
    assert(spec_coords_upto(168).len() == 96);
    assert(spec_coords_upto(210).len() == 136);
    assert(spec_coords_upto(252).len() == 176);
    assert(spec_coords_upto(294).len() == 184);
    assert(spec_coords_upto(336).len() == 192);
    assert(spec_coords_upto(378).len() == 200);
    assert(spec_coords_upto(SCAN_SLOTS as nat).len() == 208);
}

proof fn lemma_place_upto_len(
    g0: Seq<bool>,
    coords: Seq<(usize, usize)>,
    bits: Seq<bool>,
    k: nat,
)
    requires
        g0.len() == CELLS,
        forall|t: int|
            0 <= t < coords.len() ==> (#[trigger] coords[t]).0 < SIZE && coords[t].1 < SIZE,
        k <= coords.len(),
    ensures
        spec_place_upto(g0, coords, bits, k).len() == CELLS,
    decreases k,
{
    if k > 0 {
        lemma_place_upto_len(g0, coords, bits, (k - 1) as nat);
    }
}

/// A finished grid always covers the whole symbol.
pub proof fn lemma_grid_len(cw: Seq<u8>)
    ensures
        spec_grid(cw).len() == CELLS,
{
    lemma_coords_distinct_upto(SCAN_SLOTS as nat);
    lemma_place_upto_len(spec_base_grid(), spec_coords(), spec_bits(cw), spec_coords().len());
}

/// After placing the first `k` bits, each placed cell holds its bit xored
/// with the mask: distinctness means no later write disturbs it.
pub proof fn lemma_place_readback(
    g0: Seq<bool>,
    coords: Seq<(usize, usize)>,
    bits: Seq<bool>,
    k: nat,
)
    requires
        g0.len() == CELLS,
        forall|t: int|
            0 <= t < coords.len() ==> (#[trigger] coords[t]).0 < SIZE && coords[t].1 < SIZE,
        forall|i: int, j: int| 0 <= i < j < coords.len() ==> coords[i] != coords[j],
        k <= coords.len(),
    ensures
        spec_place_upto(g0, coords, bits, k).len() == CELLS,
        forall|i: int|
            0 <= i < k ==> spec_place_upto(g0, coords, bits, k)[spec_cell_index(#[trigger] coords[i])]
                == (spec_bit_at(bits, i) != spec_mask0(coords[i].0 as int, coords[i].1 as int)),
    decreases k,
{
    if k > 0 {
        lemma_place_readback(g0, coords, bits, (k - 1) as nat);
        let before = spec_place_upto(g0, coords, bits, (k - 1) as nat);
        let cur = spec_place_upto(g0, coords, bits, k);
        let last = coords[k - 1];
        assert forall|i: int|
            0 <= i < k implies cur[spec_cell_index(#[trigger] coords[i])] == (spec_bit_at(bits, i)
            != spec_mask0(coords[i].0 as int, coords[i].1 as int)) by {
            if i < k - 1 {
                assert(coords[i] != last);
                assert(spec_cell_index(coords[i]) != spec_cell_index(last));
            }
        }
    }
}

/// Reading the data modules of a finished grid back, in placement order
/// and unmasked, yields exactly the codeword bit stream.
pub proof fn lemma_extract_bits(cw: Seq<u8>)
    requires
        cw.len() == TOTAL_CODEWORDS,
    ensures
        spec_extract_bits(spec_grid(cw)) == spec_bits(cw),
{
    let coords = spec_coords();
    let bits = spec_bits(cw);
    lemma_coords_distinct_upto(SCAN_SLOTS as nat);
    lemma_coords_count();
    lemma_place_readback(spec_base_grid(), coords, bits, coords.len());
    assert(spec_extract_bits(spec_grid(cw)) =~= bits);
}

fn bch_reduce(x: u16, k: u8) -> (r: u16)
    requires
        k <= 5,
    ensures
        r == spec_bch_reduce(x, k as nat),
    decreases k,
{
    if k == 0 {
        x
    } else {
        let b: u16 = 10 + (k as u16) - 1;
        let y: u16 = if (x >> b) & 1 == 1 { x ^ (BCH_GEN << (b - 10)) } else { x };
        bch_reduce(y, k - 1)
    }
}

/// Computes the 15-bit format information word.
pub fn format_info() -> (f: u16)
    ensures
        f == spec_format_info(),
{
    let d: u16 = FORMAT_DATA << 10;
    let rem = bch_reduce(d, 5);
    (d | rem) ^ FORMAT_XOR
}

/// Decides whether (r, c) is a function module.
pub fn is_function_at(r: usize, c: usize) -> (b: bool)
    ensures
        b == spec_is_function(r as int, c as int),
{
    (r <= 8 && c <= 8) || (r <= 8 && c >= 13) || (r >= 13 && c <= 8) || r == 6 || c == 6
}

fn finder_at(i: usize, j: usize) -> (b: bool)
    ensures
        b == spec_finder(i as int, j as int),
{
    i == 0 || i == 6 || j == 0 || j == 6 || (2 <= i && i <= 4 && 2 <= j && j <= 4)
}

/// Computes the value of the function module at (r, c).
pub fn function_value_at(r: usize, c: usize, f: u16) -> (b: bool)
    requires
        r < SIZE,
        c < SIZE,
        f == spec_format_info(),
    ensures
        b == spec_function_value(r as int, c as int),
{
    if r <= 6 && c <= 6 {
        finder_at(r, c)
    } else if r <= 6 && c >= 14 {
        finder_at(r, c - 14)
    } else if r >= 14 && c <= 6 {
        finder_at(r - 14, c)
    } else if r == 13 && c == 8 {
        true
    } else if r == 8 && c <= 5 {
        (f >> ((14 - c) as u16)) & 1 == 1
    } else if r == 8 && c == 7 {
        (f >> 8u16) & 1 == 1
    } else if r == 8 && c == 8 {
        (f >> 7u16) & 1 == 1
    } else if c == 8 && r == 7 {
        (f >> 6u16) & 1 == 1
    } else if c == 8 && r <= 5 {
        (f >> (r as u16)) & 1 == 1
    } else if r == 8 && c >= 13 {
        (f >> ((20 - c) as u16)) & 1 == 1
    } else if c == 8 && r >= 14 {
        (f >> ((r - 6) as u16)) & 1 == 1
    } else if r == 6 {
        c % 2 == 0
    } else if c == 6 {
        r % 2 == 0
    } else {
        false
    }
}

/// Builds the grid of function modules, data modules still light.
pub fn base_grid() -> (g: Vec<bool>)
    ensures
        g@ == spec_base_grid(),
{
    let f = format_info();
    let mut g: Vec<bool> = Vec::new();
    let mut i: usize = 0;
    while i < CELLS
        invariant
            i <= CELLS,
            f == spec_format_info(),
            g@.len() == i,
            forall|t: int| 0 <= t < i ==> g@[t] == spec_base_grid()[t],
        decreases CELLS - i,
    {
        let r = i / 21;
        let c = i % 21;
        if is_function_at(r, c) {
            let v = function_value_at(r, c, f);
            g.push(v);
        } else {
            g.push(false);
        }
        i += 1;
    }
    proof {
        assert(g@ =~= spec_base_grid());
    }
    g
}

fn scan_at(s: usize) -> (rc: (usize, usize))
    requires
        s < SCAN_SLOTS,
    ensures
        rc == spec_scan(s as int),
        rc.0 < SIZE,
        rc.1 < SIZE,
{
    let p = s / 42;
    let t = s % 42;
    let rowstep = t / 2;
    let which = t % 2;
    let row: usize = if p % 2 == 0 { 20 - rowstep } else { rowstep };
    let cr: usize = if p < 7 { 20 - 2 * p } else { 19 - 2 * p };
    (row, cr - which)
}

/// Builds the list of data-module coordinates in placement order.
pub fn data_coords() -> (v: Vec<(usize, usize)>)
    ensures
        v@ == spec_coords(),
        forall|k: int| 0 <= k < v@.len() ==> (#[trigger] v@[k]).0 < SIZE && v@[k].1 < SIZE,
{
    let mut v: Vec<(usize, usize)> = Vec::new();
    let mut s: usize = 0;
    while s < SCAN_SLOTS
        invariant
            s <= SCAN_SLOTS,
            v@ == spec_coords_upto(s as nat),
            forall|k: int| 0 <= k < v@.len() ==> (#[trigger] v@[k]).0 < SIZE && v@[k].1 < SIZE,
        decreases SCAN_SLOTS - s,
    {
        let rc = scan_at(s);
        if !is_function_at(rc.0, rc.1) {
            v.push(rc);
        }
        s += 1;
    }
    v
}

/// Unpacks the codewords into their bit stream, most significant bit first.
pub fn codeword_bits(cw: &Vec<u8>) -> (b: Vec<bool>)
    ensures
        b@ == spec_bits(cw@),
{
    let mut b: Vec<bool> = Vec::new();
    let mut i: usize = 0;
    while i < cw.len()
        invariant
            i <= cw@.len(),
            b@.len() == i * 8,
            forall|t: int| 0 <= t < b@.len() ==> b@[t] == spec_bits(cw@)[t],
        decreases cw@.len() - i,
    {
        let byte = cw[i];
        let mut j: usize = 0;
        while j < 8
            invariant
                i < cw@.len(),
                j <= 8,
                byte == cw@[i as int],
                b@.len() == i * 8 + j,
                forall|t: int| 0 <= t < b@.len() ==> b@[t] == spec_bits(cw@)[t],
            decreases 8 - j,
        {
            proof {
                assert((i * 8 + j) / 8 == i && (i * 8 + j) % 8 == j) by (nonlinear_arith)
                    requires j < 8, i >= 0;
                assert(i * 8 + j < cw@.len() * 8) by (nonlinear_arith)
                    requires j < 8, i < cw@.len();
            }
            let bit = (byte >> ((7 - j) as u8)) & 1 == 1;
            b.push(bit);
            j += 1;
        }
        i += 1;
    }
    proof {
        assert(b@ =~= spec_bits(cw@));
    }
    b
}

/// Builds the finished module grid for the codeword sequence.
pub fn build_grid(cw: &Vec<u8>) -> (g: Vec<bool>)
    requires
        cw@.len() == TOTAL_CODEWORDS,
    ensures
        g@ == spec_grid(cw@),
        g@.len() == CELLS,
{
    let mut g = base_grid();
    let coords = data_coords();
    let bits = codeword_bits(cw);
    let ghost base = g@;
    let mut k: usize = 0;
    while k < coords.len()
        invariant
            k <= coords@.len(),
            coords@ == spec_coords(),
            forall|t: int| 0 <= t < coords@.len() ==> (#[trigger] coords@[t]).0 < SIZE && coords@[t].1 < SIZE,
            bits@ == spec_bits(cw@),
            base == spec_base_grid(),
            g@ == spec_place_upto(base, coords@, bits@, k as nat),
            g@.len() == CELLS,
        decreases coords@.len() - k,
    {
        let rc = coords[k];
        let bit = if k < bits.len() { bits[k] } else { false };
        let masked = bit != ((rc.0 + rc.1) % 2 == 0);
        g.set(rc.0 * 21 + rc.1, masked);
        k += 1;
    }
    g
}

} // verus!
