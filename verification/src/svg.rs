//! Rendering of a module grid as a self-contained SVG document: a root
//! element sized to the symbol plus its quiet zone, and one unit rectangle
//! per dark module. The module unit is 1 and the quiet zone is 4 modules
//! wide on every side.

use vstd::prelude::*;
use vstd::string::StringExecFns;
use crate::grid::{CELLS, SIZE};

verus! {

/// Width of the quiet zone, in modules.
pub const QUIET: usize = 4;

/// Side length of the rendered image: the symbol plus the quiet zone.
pub const IMAGE_SIZE: usize = 29;

/// The decimal digit `d` as text.
pub open spec fn spec_digit(d: int) -> Seq<char> {
    if d == 0 {
        "0"@
    } else if d == 1 {
        "1"@
    } else if d == 2 {
        "2"@
    } else if d == 3 {
        "3"@
    } else if d == 4 {
        "4"@
    } else if d == 5 {
        "5"@
    } else if d == 6 {
        "6"@
    } else if d == 7 {
        "7"@
    } else if d == 8 {
        "8"@
    } else {
        "9"@
    }
}

/// The number `n` (below 100) in decimal, without leading zeros.
pub open spec fn spec_dec(n: int) -> Seq<char> {
    if n < 10 {
        spec_digit(n)
    } else {
        spec_digit(n / 10) + spec_digit(n % 10)
    }
}

/// The unit rectangle for the dark module at (r, c), offset by the quiet zone.
pub open spec fn spec_rect(r: int, c: int) -> Seq<char> {
    "<rect x=\""@ + spec_dec(c + 4) + "\" y=\""@ + spec_dec(r + 4)
        + "\" width=\"1\" height=\"1\"/>"@
}

/// The rectangles of the first `c` cells of row `r`, dark modules only.
pub open spec fn spec_svg_row(g: Seq<bool>, r: int, c: nat) -> Seq<char>
    decreases c,
{
    if c == 0 {
        Seq::empty()
    } else {
        let rest = spec_svg_row(g, r, (c - 1) as nat);
        if g[r * 21 + (c - 1)] {
            rest + spec_rect(r, c - 1)
        } else {
            rest
        }
    }
}

/// The rectangles of the first `r` rows.
pub open spec fn spec_svg_rows(g: Seq<bool>, r: nat) -> Seq<char>
    decreases r,
{
    if r == 0 {
        Seq::empty()
    } else {
        spec_svg_rows(g, (r - 1) as nat) + spec_svg_row(g, r - 1, SIZE as nat)
    }
}

/// The opening tag of the document.
pub open spec fn spec_svg_header() -> Seq<char> {
    "<svg xmlns=\"http://www.w3.org/2000/svg\" width=\"29\" height=\"29\" viewBox=\"0 0 29 29\">"@
}

/// The whole SVG document for grid `g`.
pub open spec fn spec_svg(g: Seq<bool>) -> Seq<char> {
    spec_svg_header() + spec_svg_rows(g, SIZE as nat) + "</svg>"@
}

/// The dark cells among the first `c` of row `r`, in column order.
pub open spec fn spec_dark_row(g: Seq<bool>, r: int, c: nat) -> Seq<(usize, usize)>
    decreases c,
{
    if c == 0 {
        Seq::empty()
    } else {
        let rest = spec_dark_row(g, r, (c - 1) as nat);
        if g[r * 21 + (c - 1)] {
            rest.push((r as usize, (c - 1) as usize))
        } else {
            rest
        }
    }
}

/// The dark cells of the first `r` rows, row-major.
pub open spec fn spec_dark_rows(g: Seq<bool>, r: nat) -> Seq<(usize, usize)>
    decreases r,
{
    if r == 0 {
        Seq::empty()
    } else {
        spec_dark_rows(g, (r - 1) as nat) + spec_dark_row(g, r - 1, SIZE as nat)
    }
}

/// All dark cells of the grid, row-major: the symbol's dark modules.
pub open spec fn spec_dark_cells(g: Seq<bool>) -> Seq<(usize, usize)> {
    spec_dark_rows(g, SIZE as nat)
}

/// One unit rectangle per listed cell, concatenated in order.
pub open spec fn spec_rects_of(cells: Seq<(usize, usize)>) -> Seq<char>
    decreases cells.len(),
{
    if cells.len() == 0 {
        Seq::empty()
    } else {
        spec_rects_of(cells.drop_last()) + spec_rect(
            cells.last().0 as int,
            cells.last().1 as int,
        )
    }
}

proof fn lemma_rects_of_concat(a: Seq<(usize, usize)>, b: Seq<(usize, usize)>)
    ensures
        spec_rects_of(a + b) == spec_rects_of(a) + spec_rects_of(b),
    decreases b.len(),
{
    if b.len() == 0 {
        assert(a + b =~= a);
        assert(spec_rects_of(a) + Seq::<char>::empty() =~= spec_rects_of(a));
    } else {
        lemma_rects_of_concat(a, b.drop_last());
        assert((a + b).drop_last() =~= a + b.drop_last());
        assert((a + b).last() == b.last());
        assert(spec_rects_of(a) + (spec_rects_of(b.drop_last()) + spec_rect(
            b.last().0 as int,
            b.last().1 as int,
        )) =~= (spec_rects_of(a) + spec_rects_of(b.drop_last())) + spec_rect(
            b.last().0 as int,
            b.last().1 as int,
        ));
    }
}

proof fn lemma_svg_row_structure(g: Seq<bool>, r: int, c: nat)
    requires
        0 <= r < SIZE,
        c <= SIZE,
    ensures
        spec_svg_row(g, r, c) == spec_rects_of(spec_dark_row(g, r, c)),
    decreases c,
{
    if c > 0 {
        lemma_svg_row_structure(g, r, (c - 1) as nat);
        let rest = spec_dark_row(g, r, (c - 1) as nat);
        if g[r * 21 + (c - 1)] {
            assert(rest.push((r as usize, (c - 1) as usize)).drop_last() =~= rest);
        }
    }
}

proof fn lemma_svg_rows_structure(g: Seq<bool>, r: nat)
    requires
        r <= SIZE,
    ensures
        spec_svg_rows(g, r) == spec_rects_of(spec_dark_rows(g, r)),
    decreases r,
{
    if r > 0 {
        lemma_svg_rows_structure(g, (r - 1) as nat);
        lemma_svg_row_structure(g, r - 1, SIZE as nat);
        lemma_rects_of_concat(spec_dark_rows(g, (r - 1) as nat), spec_dark_row(g, r - 1, SIZE as nat));
    }
}

/// The document's shape: the header, then exactly one unit rectangle per
/// dark module in row-major order, then the closing tag.
pub proof fn lemma_svg_structure(g: Seq<bool>)
    ensures
        spec_svg(g) == spec_svg_header() + spec_rects_of(spec_dark_cells(g)) + "</svg>"@,
{
    lemma_svg_rows_structure(g, SIZE as nat);
}

/// The grid whose dark modules are exactly the listed cells.
pub open spec fn spec_grid_of_dark(cells: Seq<(usize, usize)>) -> Seq<bool> {
    Seq::new(CELLS as nat, |i: int| cells.contains((((i / 21) as usize), ((i % 21) as usize))))
}

proof fn lemma_dark_row_membership(g: Seq<bool>, r: int, c: nat, x: (usize, usize))
    requires
        0 <= r < SIZE,
        c <= SIZE,
    ensures
        spec_dark_row(g, r, c).contains(x) <==> (x.0 as int == r && (x.1 as int) < c && g[r * 21
            + x.1 as int]),
    decreases c,
{
    if c > 0 {
        lemma_dark_row_membership(g, r, (c - 1) as nat, x);
        let rest = spec_dark_row(g, r, (c - 1) as nat);
        let cur = spec_dark_row(g, r, c);
        if g[r * 21 + (c - 1)] {
            let y = (r as usize, (c - 1) as usize);
            assert(cur == rest.push(y));
            if cur.contains(x) {
                let i = choose|i: int| 0 <= i < cur.len() && cur[i] == x;
                if i < rest.len() {
                    assert(rest[i] == x);
                    assert(rest.contains(x));
                } else {
                    assert(x == y);
                }
            }
            if rest.contains(x) {
                let i = choose|i: int| 0 <= i < rest.len() && rest[i] == x;
                assert(cur[i] == x);
                assert(cur.contains(x));
            }
            assert(cur[cur.len() - 1] == y);
            assert(cur.contains(y));
        } else {
            assert(cur == rest);
        }
    }
}

proof fn lemma_dark_rows_membership(g: Seq<bool>, r: nat, x: (usize, usize))
    requires
        r <= SIZE,
    ensures
        spec_dark_rows(g, r).contains(x) <==> ((x.0 as int) < r && (x.1 as int) < SIZE && g[
            x.0 as int * 21 + x.1 as int]),
    decreases r,
{
    if r > 0 {
        lemma_dark_rows_membership(g, (r - 1) as nat, x);
        lemma_dark_row_membership(g, r - 1, SIZE as nat, x);
        let a = spec_dark_rows(g, (r - 1) as nat);
        let b = spec_dark_row(g, r - 1, SIZE as nat);
        let cur = spec_dark_rows(g, r);
        assert(cur == a + b);
        if cur.contains(x) {
            let i = choose|i: int| 0 <= i < cur.len() && cur[i] == x;
            if i < a.len() {
                assert(a[i] == x);
                assert(a.contains(x));
            } else {
                assert(b[i - a.len()] == x);
                assert(b.contains(x));
            }
        }
        if a.contains(x) {
            let i = choose|i: int| 0 <= i < a.len() && a[i] == x;
            assert(cur[i] == x);
            assert(cur.contains(x));
        }
        if b.contains(x) {
            let i = choose|i: int| 0 <= i < b.len() && b[i] == x;
            assert(cur[a.len() + i] == x);
            assert(cur.contains(x));
        }
    }
}

/// A grid is recovered exactly from its dark-cell list: the rectangles the
/// document draws determine every module of the symbol.
pub proof fn lemma_grid_of_dark(g: Seq<bool>)
    requires
        g.len() == CELLS,
    ensures
        spec_grid_of_dark(spec_dark_cells(g)) == g,
{
    assert forall|i: int| 0 <= i < CELLS implies spec_grid_of_dark(spec_dark_cells(g))[i] == g[i] by {
        vstd::arithmetic::div_mod::lemma_fundamental_div_mod(i, 21);
        lemma_dark_rows_membership(g, SIZE as nat, (((i / 21) as usize), ((i % 21) as usize)));
    }
    assert(spec_grid_of_dark(spec_dark_cells(g)) =~= g);
}

fn append_digit(s: &mut String, d: usize)
    requires
        d < 10,
    ensures
        final(s)@ == old(s)@ + spec_digit(d as int),
{
    if d == 0 {
        s.append("0");
    } else if d == 1 {
        s.append("1");
    } else if d == 2 {
        s.append("2");
    } else if d == 3 {
        s.append("3");
    } else if d == 4 {
        s.append("4");
    } else if d == 5 {
        s.append("5");
    } else if d == 6 {
        s.append("6");
    } else if d == 7 {
        s.append("7");
    } else if d == 8 {
        s.append("8");
    } else {
        s.append("9");
    }
}

fn append_dec(s: &mut String, n: usize)
    requires
        n < 100,
    ensures
        final(s)@ == old(s)@ + spec_dec(n as int),
{
    if n < 10 {
        append_digit(s, n);
    } else {
        append_digit(s, n / 10);
        append_digit(s, n % 10);
        proof {
            assert(s@ =~= old(s)@ + spec_dec(n as int));
        }
    }
}

fn append_rect(s: &mut String, r: usize, c: usize)
    requires
        r < SIZE,
        c < SIZE,
    ensures
        final(s)@ == old(s)@ + spec_rect(r as int, c as int),
{
    s.append("<rect x=\"");
    append_dec(s, c + 4);
    s.append("\" y=\"");
    append_dec(s, r + 4);
    s.append("\" width=\"1\" height=\"1\"/>");
    proof {
        assert(s@ =~= old(s)@ + spec_rect(r as int, c as int));
    }
}

/// Renders the module grid as a complete SVG document.
pub fn svg_of_grid(g: &Vec<bool>) -> (r: String)
    requires
        g@.len() == CELLS,
    ensures
        r@ == spec_svg(g@),
{
    let mut s = String::from_str(
        "<svg xmlns=\"http://www.w3.org/2000/svg\" width=\"29\" height=\"29\" viewBox=\"0 0 29 29\">",
    );
    let mut row: usize = 0;
    while row < SIZE
        invariant
            row <= SIZE,
            g@.len() == CELLS,
            s@ == spec_svg_header() + spec_svg_rows(g@, row as nat),
        decreases SIZE - row,
    {
        let mut col: usize = 0;
        while col < SIZE
            invariant
                row < SIZE,
                col <= SIZE,
                g@.len() == CELLS,
                s@ == spec_svg_header() + spec_svg_rows(g@, row as nat) + spec_svg_row(
                    g@,
                    row as int,
                    col as nat,
                ),
            decreases SIZE - col,
        {
            if g[row * 21 + col] {
                append_rect(&mut s, row, col);
            }
            col += 1;
            proof {
                assert(s@ =~= spec_svg_header() + spec_svg_rows(g@, row as nat) + spec_svg_row(
                    g@,
                    row as int,
                    col as nat,
                ));
            }
        }
        row += 1;
        proof {
            assert(s@ =~= spec_svg_header() + spec_svg_rows(g@, row as nat));
        }
    }
    s.append("</svg>");
    proof {
        assert(s@ =~= spec_svg(g@));
    }
    s
}

} // verus!
