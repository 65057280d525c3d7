//! The collage pipeline: resolve the shared target size, normalize every
//! image to it, compute the canvas, and blit each image at its offset.

use vstd::prelude::*;
use crate::img::Img;
use crate::layout::main_extent;
use crate::layout::canvas_dims;
use crate::layout::lemma_total_extent_push;
use crate::layout::lemma_total_extent_take_le;
use crate::layout::normalized_dims;
use crate::layout::resolve_target;
use crate::layout::spec_canvas_height;
use crate::layout::spec_canvas_width;
use crate::layout::spec_normalized_dims;
use crate::layout::spec_target;
use crate::layout::total_extent;
use crate::options::Options;
use crate::options::Orientation;

verus! {

/// Why a collage could not be composed.
#[derive(Clone, Copy, Debug, PartialEq, Eq, Structural)]
pub enum CollageError {
    /// A computed image or canvas size leaves the machine's range.
    TooLarge,
}

/// The shared target width: the explicit one, else the first image's width.
pub open spec fn spec_target_width(images: Seq<Img>, opts: Options) -> u32 {
    spec_target(opts.image_width, images[0].spec_width())
}

/// The shared target height: the explicit one, else the first image's height.
pub open spec fn spec_target_height(images: Seq<Img>, opts: Options) -> u32 {
    spec_target(opts.image_height, images[0].spec_height())
}

/// The size image `i` is normalized to.
pub open spec fn spec_prepared_one(images: Seq<Img>, opts: Options, i: int) -> (u32, u32) {
    let d = spec_normalized_dims(
        opts.preserve_aspect_ratio,
        opts.orientation,
        spec_target_width(images, opts),
        spec_target_height(images, opts),
        images[i].spec_width(),
        images[i].spec_height(),
    );
    (d.0 as u32, d.1 as u32)
}

/// The normalized sizes of all images, in order.
pub open spec fn spec_prepared(images: Seq<Img>, opts: Options) -> Seq<(u32, u32)> {
    Seq::new(images.len(), |i: int| spec_prepared_one(images, opts, i))
}

/// The canvas width the collage of these images has.
pub open spec fn spec_collage_width(images: Seq<Img>, opts: Options) -> int {
    spec_canvas_width(
        opts.orientation,
        spec_prepared(images, opts),
        spec_target_width(images, opts),
        opts.spacing,
        opts.left_margin,
    )
}

/// The canvas height the collage of these images has.
pub open spec fn spec_collage_height(images: Seq<Img>, opts: Options) -> int {
    spec_canvas_height(
        opts.orientation,
        spec_prepared(images, opts),
        spec_target_height(images, opts),
        opts.spacing,
        opts.top_margin,
    )
}

/// Whether some computed buffer leaves the machine's range: a normalized
/// image, a resampling buffer or the canvas would not fit in memory, or a
/// canvas dimension leaves the `u32` range.
pub open spec fn spec_oversized(images: Seq<Img>, opts: Options) -> bool {
    let dims = spec_prepared(images, opts);
    ||| exists|i: int|
        0 <= i < dims.len() && (#[trigger] dims[i]).0 * dims[i].1 * 4 > usize::MAX
    ||| exists|i: int|
        0 <= i < images.len() && (#[trigger] images[i]).spec_width() * spec_prepared(
            images,
            opts,
        )[i].1 * 4 > usize::MAX
    ||| spec_collage_width(images, opts) > u32::MAX
    ||| spec_collage_height(images, opts) > u32::MAX
    ||| spec_collage_width(images, opts) * spec_collage_height(images, opts) * 4 > usize::MAX
}

/// Resize one image for a collage with the given target size.
///
/// Without aspect preservation the result is exactly `width x height`;
/// with it, the dimension along the layout's shared axis is pinned and the
/// other is derived from the source's aspect ratio, truncated.
pub fn prepare_image(image: &Img, width: u32, height: u32, opts: &Options) -> (r: Img)
    requires
        image.spec_width() >= 1,
        image.spec_height() >= 1,
        spec_normalized_dims(
            opts.preserve_aspect_ratio,
            opts.orientation,
            width,
            height,
            image.spec_width(),
            image.spec_height(),
        ).0 * spec_normalized_dims(
            opts.preserve_aspect_ratio,
            opts.orientation,
            width,
            height,
            image.spec_width(),
            image.spec_height(),
        ).1 * 4 <= usize::MAX,
        image.spec_width() * spec_normalized_dims(
            opts.preserve_aspect_ratio,
            opts.orientation,
            width,
            height,
            image.spec_width(),
            image.spec_height(),
        ).1 * 4 <= usize::MAX,
    ensures
        r.spec_width() == spec_normalized_dims(
            opts.preserve_aspect_ratio,
            opts.orientation,
            width,
            height,
            image.spec_width(),
            image.spec_height(),
        ).0,
        r.spec_height() == spec_normalized_dims(
            opts.preserve_aspect_ratio,
            opts.orientation,
            width,
            height,
            image.spec_width(),
            image.spec_height(),
        ).1,
{
    let (w, h) = normalized_dims(
        opts.preserve_aspect_ratio,
        opts.orientation,
        width,
        height,
        image.width(),
        image.height(),
    );
    image.resize_exact(w, h)
}

/// Compose the collage: normalize every image to the shared target size,
/// allocate the background canvas per the layout formulas, and blit each
/// image in order at its offset.
///
/// Succeeds, with the canvas dimensions given exactly by the layout
/// formulas, whenever no computed size leaves the machine's range; fails
/// with `TooLarge` exactly otherwise.
pub fn make_collage(images: Vec<Img>, opts: &Options) -> (r: Result<Img, CollageError>)
    requires
        images@.len() >= 1,
        forall|i: int|
            0 <= i < images@.len() ==> (#[trigger] images@[i]).spec_width() >= 1
                && images@[i].spec_height() >= 1,
    ensures
        match r {
            Ok(canvas) => !spec_oversized(images@, *opts) && canvas.spec_width()
                == spec_collage_width(images@, *opts) && canvas.spec_height()
                == spec_collage_height(images@, *opts),
            Err(e) => e == CollageError::TooLarge && spec_oversized(images@, *opts),
        },
{
    let tw = resolve_target(opts.image_width, images[0].width());
    let th = resolve_target(opts.image_height, images[0].height());

    let mut prepared: Vec<Img> = Vec::new();
    let mut dims: Vec<(u32, u32)> = Vec::new();
    for i in 0..images.len()
        invariant
            images@.len() >= 1,
            forall|j: int|
                0 <= j < images@.len() ==> (#[trigger] images@[j]).spec_width() >= 1
                    && images@[j].spec_height() >= 1,
            tw == spec_target_width(images@, *opts),
            th == spec_target_height(images@, *opts),
            prepared@.len() == i,
            dims@.len() == i,
            forall|j: int| 0 <= j < i ==> #[trigger] dims@[j] == spec_prepared(images@, *opts)[j],
            forall|j: int|
                0 <= j < i ==> (#[trigger] prepared@[j]).spec_width() == dims@[j].0
                    && prepared@[j].spec_height() == dims@[j].1,
            forall|j: int| 0 <= j < i ==> (#[trigger] dims@[j]).0 * dims@[j].1 * 4 <= usize::MAX,
            forall|j: int|
                0 <= j < i ==> (#[trigger] images@[j]).spec_width() * dims@[j].1 * 4 <= usize::MAX,
    {
        let (w, h) = normalized_dims(
            opts.preserve_aspect_ratio,
            opts.orientation,
            tw,
            th,
            images[i].width(),
            images[i].height(),
        );
        let sw = images[i].width();
        proof {
            assert(spec_prepared(images@, *opts)[i as int] == (w, h));
            assert((w as int) * (h as int) <= u64::MAX) by (nonlinear_arith)
                requires
                    w <= u32::MAX,
                    h <= u32::MAX,
            ;
            assert((sw as int) * (h as int) <= u64::MAX) by (nonlinear_arith)
                requires
                    sw <= u32::MAX,
                    h <= u32::MAX,
            ;
        }
        if (w as u64) * (h as u64) > usize::MAX as u64 / 4 {
            proof {
                let dimseq = spec_prepared(images@, *opts);
                assert((dimseq[i as int]).0 * dimseq[i as int].1 * 4 > usize::MAX);
            }
            return Err(CollageError::TooLarge);
        }
        if (sw as u64) * (h as u64) > usize::MAX as u64 / 4 {
            proof {
                assert(images@[i as int].spec_width() * spec_prepared(images@, *opts)[i as int].1
                    * 4 > usize::MAX);
            }
            return Err(CollageError::TooLarge);
        }
        let p = prepare_image(&images[i], tw, th, opts);
        prepared.push(p);
        dims.push((w, h));
    }
    proof {
        assert(dims@ =~= spec_prepared(images@, *opts));
    }
    let cd = canvas_dims(
        opts.orientation,
        &dims,
        tw,
        th,
        opts.spacing,
        opts.left_margin,
        opts.top_margin,
    );
    let (cw, ch) = match cd {
        None => {
            return Err(CollageError::TooLarge);
        },
        Some(wh) => wh,
    };
    proof {
        assert((cw as int) * (ch as int) <= u64::MAX) by (nonlinear_arith)
            requires
                cw <= u32::MAX,
                ch <= u32::MAX,
        ;
    }
    if (cw as u64) * (ch as u64) > usize::MAX as u64 / 4 {
        return Err(CollageError::TooLarge);
    }
    let mut canvas = Img::solid(cw, ch, opts.background_color);

    let ghost main_margin: int = match opts.orientation {
        Orientation::Portrait => opts.top_margin as int,
        Orientation::Landscape => opts.left_margin as int,
    };
    let ghost canvas_main: int = match opts.orientation {
        Orientation::Portrait => ch as int,
        Orientation::Landscape => cw as int,
    };
    proof {
        assert(canvas_main == total_extent(opts.orientation, dims@, opts.spacing) + 2
            * main_margin);
    }
    let mut cursor: u64 = match opts.orientation {
        Orientation::Portrait => opts.top_margin as u64,
        Orientation::Landscape => opts.left_margin as u64,
    };
    for i in 0..prepared.len()
        invariant
            canvas.spec_width() == cw,
            canvas.spec_height() == ch,
            prepared@.len() == dims@.len(),
            dims@ == spec_prepared(images@, *opts),
            images@.len() >= 1,
            tw == spec_target_width(images@, *opts),
            th == spec_target_height(images@, *opts),
            cw == spec_collage_width(images@, *opts),
            ch == spec_collage_height(images@, *opts),
            forall|j: int|
                0 <= j < prepared@.len() ==> (#[trigger] prepared@[j]).spec_width() == dims@[j].0
                    && prepared@[j].spec_height() == dims@[j].1,
            main_margin == (match opts.orientation {
                Orientation::Portrait => opts.top_margin as int,
                Orientation::Landscape => opts.left_margin as int,
            }),
            canvas_main == (match opts.orientation {
                Orientation::Portrait => ch as int,
                Orientation::Landscape => cw as int,
            }),
            canvas_main == total_extent(opts.orientation, dims@, opts.spacing) + 2 * main_margin,
            cursor == main_margin + total_extent(opts.orientation, dims@.take(i as int), opts.spacing)
                + (if i > 0 { opts.spacing as int } else { 0 }),
    {
        proof {
            lemma_total_extent_push(
                opts.orientation,
                dims@.take(i as int),
                opts.spacing,
                dims@[i as int],
            );
            assert(dims@.take(i as int).push(dims@[i as int]) =~= dims@.take(i as int + 1));
            lemma_total_extent_take_le(opts.orientation, dims@, opts.spacing, i as int + 1);
            assert(cursor + main_extent(opts.orientation, dims@[i as int]) == main_margin
                + total_extent(opts.orientation, dims@.take(i as int + 1), opts.spacing));
            assert(cursor + main_extent(opts.orientation, dims@[i as int]) <= canvas_main
                - main_margin);
        }
        let (x, y): (u32, u32) = match opts.orientation {
            Orientation::Portrait => (opts.left_margin, cursor as u32),
            Orientation::Landscape => (cursor as u32, opts.top_margin),
        };
        let step: u32 = match opts.orientation {
            Orientation::Portrait => prepared[i].height(),
            Orientation::Landscape => prepared[i].width(),
        };
        let ok = canvas.blit(&prepared[i], x, y);
        proof {
            if opts.orientation is Portrait {
                assert(dims@[i as int].0 == tw);
            } else {
                assert(dims@[i as int].1 == th);
            }
        }
        assert(ok);
        cursor = cursor + step as u64 + opts.spacing as u64;
    }
    Ok(canvas)
}

} // verus!
