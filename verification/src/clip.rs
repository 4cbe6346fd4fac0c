//! Clipping pixels against the last-known canvas bounds.

use vstd::prelude::*;

verus! {

use crate::types::Pixel;

/// The canvas dimensions the server reported, a read-only snapshot for the
/// duration of one drawing operation.
#[derive(Debug, Clone, Copy, PartialEq, Eq, Structural)]
pub struct CanvasBounds {
    pub width: u32,
    pub height: u32,
}

/// True when the pixel lies on a canvas of these bounds (coordinates are
/// never negative, so only the upper bounds are checked).
pub open spec fn spec_in_bounds(p: Pixel, b: CanvasBounds) -> bool {
    p.x < b.width && p.y < b.height
}

/// The sub-sequence of `s` that lies on the canvas, in its original order.
pub open spec fn spec_clip(s: Seq<Pixel>, b: CanvasBounds) -> Seq<Pixel> {
    s.filter(|p: Pixel| spec_in_bounds(p, b))
}

/// True when the pixel lies on the canvas.
pub fn in_bounds(p: &Pixel, b: &CanvasBounds) -> (r: bool)
    ensures
        r == spec_in_bounds(*p, *b),
{
    p.x < b.width && p.y < b.height
}

/// Drops every pixel outside the bounds, keeping the rest in order. The
/// returned flag says whether anything was dropped, so that the caller can
/// emit its one advisory warning; a dropped pixel is not an error.
pub fn clip(pixels: &Vec<Pixel>, bounds: &CanvasBounds) -> (r: (Vec<Pixel>, bool))
    ensures
        r.0@ == spec_clip(pixels@, *bounds),
        r.1 <==> exists|j: int|
            0 <= j < pixels@.len() && !spec_in_bounds(#[trigger] pixels@[j], *bounds),
{
    let mut out: Vec<Pixel> = Vec::new();
    let mut dropped = false;
    let mut i: usize = 0;
    proof {
        reveal(Seq::filter);
        assert(pixels@.take(0) =~= Seq::<Pixel>::empty());
        assert(spec_clip(pixels@.take(0), *bounds) =~= Seq::<Pixel>::empty());
    }
    while i < pixels.len()
        invariant
            i <= pixels@.len(),
            out@ == spec_clip(pixels@.take(i as int), *bounds),
            dropped <==> exists|j: int|
                0 <= j < i && !spec_in_bounds(#[trigger] pixels@[j], *bounds),
        decreases pixels@.len() - i,
    {
        let p = pixels[i];
        if p.x < bounds.width && p.y < bounds.height {
            out.push(p);
        } else {
            dropped = true;
        }
        proof {
            assert(pixels@.take(i + 1) =~= pixels@.take(i as int).push(pixels@[i as int]));
            pixels@.take(i as int).lemma_filter_push(
                pixels@[i as int],
                |q: Pixel| spec_in_bounds(q, *bounds),
            );
            assert(spec_clip(pixels@.take(i + 1), *bounds) == spec_clip(
                pixels@.take(i as int).push(pixels@[i as int]),
                *bounds,
            ));
        }
        i = i + 1;
    }
    proof {
        assert(pixels@.take(pixels@.len() as int) =~= pixels@);
    }
    (out, dropped)
}

/// Clipping is exact: every pixel it keeps lies on the canvas, and every
/// on-canvas pixel of the input is kept, unchanged.
pub proof fn lemma_clip_correct(s: Seq<Pixel>, b: CanvasBounds)
    ensures
        forall|i: int|
            0 <= i < spec_clip(s, b).len() ==> spec_in_bounds(#[trigger] spec_clip(s, b)[i], b),
        forall|i: int|
            0 <= i < s.len() && spec_in_bounds(#[trigger] s[i], b) ==> spec_clip(s, b).contains(
                s[i],
            ),
        forall|i: int|
            0 <= i < s.len() && !spec_in_bounds(#[trigger] s[i], b) ==> !spec_clip(s, b).contains(
                s[i],
            ),
{
    broadcast use vstd::prelude::Seq::lemma_filter_pred;
    broadcast use vstd::prelude::Seq::lemma_filter_contains;

    assert forall|i: int|
        0 <= i < s.len() && !spec_in_bounds(#[trigger] s[i], b) implies !spec_clip(s, b).contains(
        s[i],
    ) by {
        if spec_clip(s, b).contains(s[i]) {
            let j = choose|j: int| 0 <= j < spec_clip(s, b).len() && spec_clip(s, b)[j] == s[i];
            assert(spec_in_bounds(spec_clip(s, b)[j], b));
        }
    }
}

} // verus!
