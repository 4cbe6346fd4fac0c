//! Command generation for a filled rectangle: one `PX` command per cell,
//! columns outermost, matching the single-threaded rectangle painter.

use vstd::arithmetic::div_mod::lemma_fundamental_div_mod_converse;
use vstd::prelude::*;

verus! {

use crate::encode::px_cmd_chars;
use crate::types::{Pixel, Rect};

/// How many columns the rectangle spans (empty when the ends are crossed).
pub open spec fn spec_rect_cols(r: Rect) -> int {
    if r.end_x >= r.start_x {
        r.end_x - r.start_x
    } else {
        0
    }
}

/// How many rows the rectangle spans (empty when the ends are crossed).
pub open spec fn spec_rect_rows(r: Rect) -> int {
    if r.end_y >= r.start_y {
        r.end_y - r.start_y
    } else {
        0
    }
}

/// The pixels of the rectangle, column by column: cell `j` lies `j / rows`
/// columns right of `start_x` and `j % rows` rows below `start_y`.
pub open spec fn spec_rect_pixels(r: Rect) -> Seq<Pixel> {
    Seq::new(
        (spec_rect_cols(r) * spec_rect_rows(r)) as nat,
        |j: int|
            Pixel {
                x: (r.start_x + j / spec_rect_rows(r)) as u32,
                y: (r.start_y + j % spec_rect_rows(r)) as u32,
                color: r.color,
            },
    )
}

/// Encodes the whole rectangle as wire commands, in the order of
/// [`spec_rect_pixels`].
pub fn rect_commands(r: &Rect) -> (out: Vec<String>)
    requires
        spec_rect_cols(*r) * spec_rect_rows(*r) <= usize::MAX,
    ensures
        out@.len() == spec_rect_pixels(*r).len(),
        forall|j: int|
            0 <= j < out@.len() ==> (#[trigger] out@[j])@ == px_cmd_chars(spec_rect_pixels(*r)[j]),
{
    let ghost cols = spec_rect_cols(*r);
    let ghost rows = spec_rect_rows(*r);
    let mut out: Vec<String> = Vec::new();
    let mut idx: usize = 0;
    let mut x = r.start_x;
    while x < r.end_x
        invariant
            cols == spec_rect_cols(*r),
            rows == spec_rect_rows(*r),
            cols * rows <= usize::MAX,
            r.start_x <= x,
            x <= r.end_x || x == r.start_x,
            idx as int == (x - r.start_x) * rows,
            out@.len() == idx,
            forall|j: int|
                0 <= j < out@.len() ==> (#[trigger] out@[j])@ == px_cmd_chars(
                    spec_rect_pixels(*r)[j],
                ),
        decreases r.end_x - x,
    {
        let mut y = r.start_y;
        while y < r.end_y
            invariant
                cols == spec_rect_cols(*r),
                rows == spec_rect_rows(*r),
                cols * rows <= usize::MAX,
                r.start_x <= x < r.end_x,
                r.start_y <= y,
                y <= r.end_y || y == r.start_y,
                idx as int == (x - r.start_x) * rows + (y - r.start_y),
                out@.len() == idx,
                forall|j: int|
                    0 <= j < out@.len() ==> (#[trigger] out@[j])@ == px_cmd_chars(
                        spec_rect_pixels(*r)[j],
                    ),
            decreases r.end_y - y,
        {
            proof {
                assert((x - r.start_x + 1) * rows == (x - r.start_x) * rows + rows
                    && (x - r.start_x + 1) * rows <= cols * rows) by (nonlinear_arith)
                    requires
                        0 <= rows,
                        0 <= x - r.start_x,
                        x - r.start_x + 1 <= cols,
                ;
            }
            let p = Pixel { x, y, color: r.color };
            let cmd = p.to_cmd();
            out.push(cmd);
            proof {
                lemma_fundamental_div_mod_converse(
                    idx as int,
                    rows,
                    x - r.start_x,
                    y - r.start_y,
                );
            }
            idx = idx + 1;
            y = y + 1;
        }
        proof {
            assert((x - r.start_x + 1) * rows == (x - r.start_x) * rows + rows)
                by (nonlinear_arith);
        }
        x = x + 1;
    }
    proof {
        if r.end_x < r.start_x || r.end_y < r.start_y {
            assert(cols * rows == 0) by (nonlinear_arith)
                requires
                    cols == 0 || rows == 0,
            ;
        } else {
            assert(idx as int == cols * rows);
        }
    }
    out
}

} // verus!
