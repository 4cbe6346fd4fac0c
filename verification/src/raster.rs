//! Rasterization: turning a decoded image grid and a placement offset into
//! the flat, row-major sequence of absolute pixels to paint.

use vstd::arithmetic::div_mod::lemma_fundamental_div_mod_converse;
use vstd::prelude::*;

verus! {

use crate::types::{Pixel, Rgb};

/// A decoded raster image: a `width x height` grid of colors, row-major
/// (index `iy * width + ix` holds the color at local coordinate `(ix, iy)`).
#[derive(Debug, Clone)]
pub struct ImageGrid {
    pub width: u32,
    pub height: u32,
    pub pixels: Vec<Rgb>,
}

impl ImageGrid {
    /// The grid holds exactly one color per cell.
    pub open spec fn wf(&self) -> bool {
        self.pixels@.len() == (self.height as nat) * (self.width as nat)
    }

    /// Builds a grid, checking that the color vector covers the grid exactly.
    pub fn new(width: u32, height: u32, pixels: Vec<Rgb>) -> (r: Result<
        ImageGrid,
        crate::error::ClientError,
    >)
        ensures
            r is Ok <==> pixels@.len() == (height as nat) * (width as nat),
            r matches Ok(g) ==> g == (ImageGrid { width, height, pixels }) && g.wf(),
            r matches Err(e) ==> e is ImageDecode,
    {
        proof {
            assert((height as int) * (width as int) <= 0xffff_ffff * 0xffff_ffff)
                by (nonlinear_arith)
                requires
                    0 <= height as int <= 0xffff_ffff,
                    0 <= width as int <= 0xffff_ffff,
            ;
        }
        let cells = (height as u64) * (width as u64);
        let len = pixels.len();
        if cells <= usize::MAX as u64 && len as u64 == cells {
            Ok(ImageGrid { width, height, pixels })
        } else {
            Err(crate::error::ClientError::ImageDecode)
        }
    }
}

/// The pixel sequence an image grid placed at offset `(ox, oy)` paints, in
/// row-major order: element `j` is the image-local cell `(j % width,
/// j / width)` moved by the offset.
pub open spec fn spec_raster(grid: ImageGrid, ox: u32, oy: u32) -> Seq<Pixel>
    recommends
        grid.wf(),
{
    Seq::new(
        grid.pixels@.len(),
        |j: int|
            Pixel {
                x: (ox + (j % (grid.width as int))) as u32,
                y: (oy + (j / (grid.width as int))) as u32,
                color: grid.pixels@[j],
            },
    )
}

/// Flattens the grid into the absolute pixels it paints at offset
/// `(ox, oy)`, row by row.
pub fn rasterize(grid: &ImageGrid, ox: u32, oy: u32) -> (out: Vec<Pixel>)
    requires
        grid.wf(),
        ox + grid.width <= u32::MAX,
        oy + grid.height <= u32::MAX,
    ensures
        out@ == spec_raster(*grid, ox, oy),
{
    let w = grid.width;
    let h = grid.height;
    let n = grid.pixels.len();
    let mut out: Vec<Pixel> = Vec::new();
    let mut idx: usize = 0;
    let mut iy: u32 = 0;
    while iy < h
        invariant
            grid.wf(),
            w == grid.width,
            h == grid.height,
            n == grid.pixels@.len(),
            ox + w <= u32::MAX,
            oy + h <= u32::MAX,
            iy <= h,
            idx as int == (iy as int) * (w as int),
            out@.len() == idx,
            forall|j: int| 0 <= j < out@.len() ==> out@[j] == spec_raster(*grid, ox, oy)[j],
        decreases h - iy,
    {
        let mut ix: u32 = 0;
        while ix < w
            invariant
                grid.wf(),
                w == grid.width,
                h == grid.height,
                n == grid.pixels@.len(),
                ox + w <= u32::MAX,
                oy + h <= u32::MAX,
                iy < h,
                ix <= w,
                idx as int == (iy as int) * (w as int) + (ix as int),
                out@.len() == idx,
                forall|j: int| 0 <= j < out@.len() ==> out@[j] == spec_raster(*grid, ox, oy)[j],
            decreases w - ix,
        {
            proof {
                assert(((iy as int) + 1) * (w as int) == (iy as int) * (w as int) + (w as int))
                    by (nonlinear_arith);
                assert(((iy as int) + 1) * (w as int) <= (h as int) * (w as int))
                    by (nonlinear_arith)
                    requires
                        (iy as int) + 1 <= h as int,
                        w as int >= 0,
                ;
                assert(idx < n);
            }
            let color = grid.pixels[idx];
            out.push(Pixel { x: ox + ix, y: oy + iy, color });
            proof {
                lemma_fundamental_div_mod_converse(
                    idx as int,
                    w as int,
                    iy as int,
                    ix as int,
                );
            }
            idx = idx + 1;
            ix = ix + 1;
        }
        proof {
            assert(((iy as int) + 1) * (w as int) == (iy as int) * (w as int) + (w as int))
                by (nonlinear_arith);
        }
        iy = iy + 1;
    }
    proof {
        assert(out@ =~= spec_raster(*grid, ox, oy));
    }
    out
}

} // verus!
