//! Size arithmetic: the shared target size, the normalized size of each
//! image, and the canvas dimensions.

use vstd::prelude::*;
use crate::options::Orientation;

verus! {

/// The target dimension: the explicit one when given, else the first image's.
pub open spec fn spec_target(explicit: Option<u32>, first: u32) -> u32 {
    match explicit {
        Some(v) => v,
        None => first,
    }
}

/// Resolve one axis of the shared target size.
pub fn resolve_target(explicit: Option<u32>, first: u32) -> (r: u32)
    ensures
        r == spec_target(explicit, first),
{
    match explicit {
        Some(v) => v,
        None => first,
    }
}

/// Clamp a nonnegative value into the `u32` range.
pub open spec fn sat_u32(v: int) -> int {
    if v > u32::MAX {
        u32::MAX as int
    } else {
        v
    }
}

/// The size an image of `sw × sh` is resized to, given the target size.
///
/// Without aspect preservation every image becomes exactly `tw × th`.
/// With it, a Portrait layout pins the width to `tw` and derives the height
/// as `tw * sh / sw`, truncated; a Landscape layout pins the height to `th`
/// and derives the width as `th * sw / sh`, truncated. A derived dimension
/// beyond the `u32` range is clamped to `u32::MAX`.
pub open spec fn spec_normalized_dims(
    preserve: bool,
    orientation: Orientation,
    tw: u32,
    th: u32,
    sw: u32,
    sh: u32,
) -> (int, int)
    recommends
        sw >= 1,
        sh >= 1,
{
    if !preserve {
        (tw as int, th as int)
    } else {
        match orientation {
            Orientation::Portrait => (tw as int, sat_u32(tw * sh / (sw as int))),
            Orientation::Landscape => (sat_u32(th * sw / (sh as int)), th as int),
        }
    }
}

/// Compute the normalized size of one image.
pub fn normalized_dims(
    preserve: bool,
    orientation: Orientation,
    tw: u32,
    th: u32,
    sw: u32,
    sh: u32,
) -> (r: (u32, u32))
    requires
        sw >= 1,
        sh >= 1,
    ensures
        r.0 == spec_normalized_dims(preserve, orientation, tw, th, sw, sh).0,
        r.1 == spec_normalized_dims(preserve, orientation, tw, th, sw, sh).1,
{
    if !preserve {
        return (tw, th);
    }
    match orientation {
        Orientation::Portrait => {
            assert((tw as int) * (sh as int) <= u64::MAX) by (nonlinear_arith)
                requires
                    tw <= u32::MAX,
                    sh <= u32::MAX,
            ;
            let d: u64 = (tw as u64) * (sh as u64) / (sw as u64);
            assert(d == tw * sh / (sw as int));
            let h: u32 = if d > u32::MAX as u64 {
                u32::MAX
            } else {
                d as u32
            };
            (tw, h)
        },
        Orientation::Landscape => {
            assert((th as int) * (sw as int) <= u64::MAX) by (nonlinear_arith)
                requires
                    th <= u32::MAX,
                    sw <= u32::MAX,
            ;
            let d: u64 = (th as u64) * (sw as u64) / (sh as u64);
            assert(d == th * sw / (sh as int));
            let w: u32 = if d > u32::MAX as u64 {
                u32::MAX
            } else {
                d as u32
            };
            (w, th)
        },
    }
}

/// Law: with preservation disabled every normalized image has exactly the
/// target size, whatever its own dimensions.
pub proof fn lemma_exact_resize(orientation: Orientation, tw: u32, th: u32, sw: u32, sh: u32)
    ensures
        spec_normalized_dims(false, orientation, tw, th, sw, sh) == (tw as int, th as int),
{
}

/// Law: with preservation enabled a Portrait layout pins the width to the
/// target width and derives the height as `tw * sh / sw`, truncated; a
/// Landscape layout pins the height to the target height and derives the
/// width as `th * sw / sh`, truncated. (A derived dimension beyond the
/// `u32` range is clamped and left out here.)
pub proof fn lemma_preserving_resize(orientation: Orientation, tw: u32, th: u32, sw: u32, sh: u32)
    requires
        sw >= 1,
        sh >= 1,
        tw * sh / (sw as int) <= u32::MAX,
        th * sw / (sh as int) <= u32::MAX,
    ensures
        orientation is Portrait ==> spec_normalized_dims(true, orientation, tw, th, sw, sh) == (
        tw as int, tw * sh / (sw as int)),
        orientation is Landscape ==> spec_normalized_dims(true, orientation, tw, th, sw, sh) == (
        th * sw / (sh as int), th as int),
{
}

/// An image's extent along the stacking axis: height when Portrait,
/// width when Landscape.
pub open spec fn main_extent(orientation: Orientation, d: (u32, u32)) -> int {
    match orientation {
        Orientation::Portrait => d.1 as int,
        Orientation::Landscape => d.0 as int,
    }
}

/// The sum of all extents along the stacking axis, without spacing.
pub open spec fn sum_main(orientation: Orientation, dims: Seq<(u32, u32)>) -> int
    decreases dims.len(),
{
    if dims.len() == 0 {
        0
    } else {
        main_extent(orientation, dims[0]) + sum_main(orientation, dims.skip(1))
    }
}

/// The total extent of the stacked images along the stacking axis:
/// every image's extent plus the spacing between consecutive images.
pub open spec fn total_extent(orientation: Orientation, dims: Seq<(u32, u32)>, spacing: u32) -> int
    decreases dims.len(),
{
    if dims.len() == 0 {
        0
    } else if dims.len() == 1 {
        main_extent(orientation, dims[0])
    } else {
        main_extent(orientation, dims[0]) + spacing + total_extent(
            orientation,
            dims.skip(1),
            spacing,
        )
    }
}

/// Law: for n >= 1 images the total extent along the stacking axis is
/// the sum of the individual extents plus spacing * (n - 1); for n = 1
/// the spacing term vanishes.
pub proof fn lemma_total_extent_formula(
    orientation: Orientation,
    dims: Seq<(u32, u32)>,
    spacing: u32,
)
    requires
        dims.len() >= 1,
    ensures
        total_extent(orientation, dims, spacing) == sum_main(orientation, dims) + (
        spacing as int) * (dims.len() - 1),
    decreases dims.len(),
{
    if dims.len() == 1 {
        assert(sum_main(orientation, dims.skip(1)) == 0);
    } else {
        lemma_total_extent_formula(orientation, dims.skip(1), spacing);
        assert((spacing as int) * (dims.len() - 1) == spacing + (spacing as int) * (dims.len()
            - 2)) by (nonlinear_arith);
        assert(dims.skip(1).len() == dims.len() - 1);
    }
}

/// Appending one image to the stack adds its extent, plus one spacing
/// term when the stack was not empty.
pub proof fn lemma_total_extent_push(
    orientation: Orientation,
    dims: Seq<(u32, u32)>,
    spacing: u32,
    d: (u32, u32),
)
    ensures
        total_extent(orientation, dims.push(d), spacing) == if dims.len() == 0 {
            main_extent(orientation, d)
        } else {
            total_extent(orientation, dims, spacing) + spacing + main_extent(orientation, d)
        },
    decreases dims.len(),
{
    if dims.len() == 0 {
        assert(dims.push(d)[0] == d);
    } else {
        lemma_total_extent_push(orientation, dims.skip(1), spacing, d);
        assert(dims.push(d).skip(1) =~= dims.skip(1).push(d));
    }
}

/// Each extent is nonnegative, so the total only grows with more images.
pub proof fn lemma_total_extent_take_le(
    orientation: Orientation,
    dims: Seq<(u32, u32)>,
    spacing: u32,
    i: int,
)
    requires
        0 <= i <= dims.len(),
    ensures
        total_extent(orientation, dims.take(i), spacing) <= total_extent(
            orientation,
            dims,
            spacing,
        ),
    decreases dims.len() - i,
{
    if i < dims.len() {
        lemma_total_extent_push(orientation, dims.take(i), spacing, dims[i]);
        assert(dims.take(i).push(dims[i]) =~= dims.take(i + 1));
        lemma_total_extent_take_le(orientation, dims, spacing, i + 1);
        assert(dims.take(dims.len() as int) =~= dims);
    } else {
        assert(dims.take(i) =~= dims);
    }
}

/// Canvas width per the layout formulas: the target width plus both side
/// margins when Portrait; the total stacked extent plus both side margins
/// when Landscape.
pub open spec fn spec_canvas_width(
    orientation: Orientation,
    dims: Seq<(u32, u32)>,
    tw: u32,
    spacing: u32,
    left_margin: u32,
) -> int {
    match orientation {
        Orientation::Portrait => tw + 2 * (left_margin as int),
        Orientation::Landscape => total_extent(orientation, dims, spacing) + 2 * (
        left_margin as int),
    }
}

/// Canvas height per the layout formulas: the total stacked extent plus
/// both vertical margins when Portrait; the target height plus both
/// vertical margins when Landscape.
pub open spec fn spec_canvas_height(
    orientation: Orientation,
    dims: Seq<(u32, u32)>,
    th: u32,
    spacing: u32,
    top_margin: u32,
) -> int {
    match orientation {
        Orientation::Portrait => total_extent(orientation, dims, spacing) + 2 * (
        top_margin as int),
        Orientation::Landscape => th + 2 * (top_margin as int),
    }
}

/// Law: for n >= 1 images the canvas formulas are exactly these. Portrait:
/// width = target width + 2 * left margin, height = sum of the images'
/// heights + spacing * (n - 1) + 2 * top margin. Landscape: height =
/// target height + 2 * top margin, width = sum of the images' widths +
/// spacing * (n - 1) + 2 * left margin. For n = 1 the spacing term
/// vanishes.
pub proof fn lemma_canvas_formula(
    orientation: Orientation,
    dims: Seq<(u32, u32)>,
    tw: u32,
    th: u32,
    spacing: u32,
    left_margin: u32,
    top_margin: u32,
)
    requires
        dims.len() >= 1,
    ensures
        orientation is Portrait ==> spec_canvas_width(orientation, dims, tw, spacing, left_margin)
            == tw + 2 * (left_margin as int) && spec_canvas_height(
            orientation,
            dims,
            th,
            spacing,
            top_margin,
        ) == sum_main(orientation, dims) + (spacing as int) * (dims.len() - 1) + 2 * (
        top_margin as int),
        orientation is Landscape ==> spec_canvas_height(orientation, dims, th, spacing, top_margin)
            == th + 2 * (top_margin as int) && spec_canvas_width(
            orientation,
            dims,
            tw,
            spacing,
            left_margin,
        ) == sum_main(orientation, dims) + (spacing as int) * (dims.len() - 1) + 2 * (
        left_margin as int),
{
    lemma_total_extent_formula(orientation, dims, spacing);
}

/// Compute the canvas size, or `None` when a dimension leaves the `u32` range.
pub fn canvas_dims(
    orientation: Orientation,
    dims: &Vec<(u32, u32)>,
    tw: u32,
    th: u32,
    spacing: u32,
    left_margin: u32,
    top_margin: u32,
) -> (r: Option<(u32, u32)>)
    requires
        dims@.len() >= 1,
    ensures
        match r {
            Some(wh) => wh.0 == spec_canvas_width(orientation, dims@, tw, spacing, left_margin)
                && wh.1 == spec_canvas_height(orientation, dims@, th, spacing, top_margin),
            None => spec_canvas_width(orientation, dims@, tw, spacing, left_margin) > u32::MAX
                || spec_canvas_height(orientation, dims@, th, spacing, top_margin) > u32::MAX,
        },
{
    let mut acc: u64 = 0;
    for i in 0..dims.len()
        invariant
            acc == total_extent(orientation, dims@.take(i as int), spacing),
            acc <= u32::MAX,
    {
        proof {
            lemma_total_extent_push(orientation, dims@.take(i as int), spacing, dims@[i as int]);
            assert(dims@.take(i as int).push(dims@[i as int]) =~= dims@.take(i as int + 1));
        }
        let d = dims[i];
        let step: u64 = if i == 0 {
            match orientation {
                Orientation::Portrait => d.1 as u64,
                Orientation::Landscape => d.0 as u64,
            }
        } else {
            match orientation {
                Orientation::Portrait => d.1 as u64 + spacing as u64,
                Orientation::Landscape => d.0 as u64 + spacing as u64,
            }
        };
        acc = acc + step;
        if acc > u32::MAX as u64 {
            proof {
                lemma_total_extent_take_le(orientation, dims@, spacing, i as int + 1);
            }
            return None;
        }
    }
    proof {
        assert(dims@.take(dims@.len() as int) =~= dims@);
    }
    let (cross_target, main_margin, cross_margin): (u32, u32, u32) = match orientation {
        Orientation::Portrait => (tw, top_margin, left_margin),
        Orientation::Landscape => (th, left_margin, top_margin),
    };
    let main_total: u64 = acc + 2 * (main_margin as u64);
    let cross_total: u64 = cross_target as u64 + 2 * (cross_margin as u64);
    if main_total > u32::MAX as u64 || cross_total > u32::MAX as u64 {
        return None;
    }
    match orientation {
        Orientation::Portrait => Some((cross_total as u32, main_total as u32)),
        Orientation::Landscape => Some((main_total as u32, cross_total as u32)),
    }
}

} // verus!
