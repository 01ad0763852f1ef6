use vstd::prelude::*;
use crate::color::Color;
use crate::grid::PixelGrid;
use crate::quantize::quantize;
use crate::transform::{lemma_output_in_palette, transform, transformed_pixels, TransformError};

verus! {

/// The settings of one recoloring run, fixed for its whole duration.
#[derive(Clone, Copy, Debug, PartialEq, Eq, Structural)]
pub struct RecolorOptions {
    /// Box-averaging radius; 0 disables averaging.
    pub radius: u32,
    /// Quantize the grid towards the palette's size before matching.
    pub quantize: bool,
    /// Dither while quantizing.
    pub dither: bool,
}

/// The color count handed to the quantizer: the palette's length, capped at
/// the 256 colors the quantizer supports.
pub open spec fn target_colors(palette_len: int) -> int {
    if palette_len > 256 {
        256
    } else {
        palette_len
    }
}

/// Runs the whole pipeline: fails fast on an empty palette, optionally
/// quantizes, then matches every (optionally averaged) pixel to the palette.
pub fn recolor(grid: &PixelGrid, palette: &Vec<Color>, options: RecolorOptions) -> (r: Result<PixelGrid, TransformError>)
    requires
        grid.wf(),
    ensures
        palette@.len() == 0 <==> r == Err::<PixelGrid, TransformError>(TransformError::InvalidPalette),
        r is Err ==> (r->Err_0 == TransformError::InvalidPalette || (options.quantize && r->Err_0
            == TransformError::QuantizationFailure)),
        !options.quantize && palette@.len() > 0 ==> r is Ok,
        options.quantize && palette@.len() > 0 && grid.width as int * grid.height as int
            <= u32::MAX ==> r is Ok,
        options.quantize && palette@.len() > 0 && grid.width as int * grid.height as int
            > u32::MAX ==> r == Err::<PixelGrid, TransformError>(TransformError::QuantizationFailure),
        r is Ok ==> (r->Ok_0.width == grid.width && r->Ok_0.height == grid.height && r->Ok_0.wf()),
        r is Ok && !options.quantize ==> r->Ok_0.pixels@ == transformed_pixels(
            *grid,
            palette@,
            options.radius as int,
        ),
        r is Ok && options.quantize ==> exists|q: PixelGrid|
            q.wf() && q.width == grid.width && q.height == grid.height && r->Ok_0.pixels@
                == #[trigger] transformed_pixels(q, palette@, options.radius as int),
        r is Ok ==> forall|i: int|
            0 <= i < r->Ok_0.pixels@.len() ==> palette@.contains(#[trigger] r->Ok_0.pixels@[i]),
{
    if palette.len() == 0 {
        return Err(TransformError::InvalidPalette);
    }
    let colors: u16 = if palette.len() > 256 {
        256
    } else {
        palette.len() as u16
    };
    let out = if options.quantize {
        match quantize(grid, colors, options.dither) {
            Ok(q) => {
                proof {
                    lemma_output_in_palette(q, palette@, options.radius as int);
                }
                let t = transform(&q, palette, options.radius);
                assert(t is Ok ==> t->Ok_0.pixels@ == transformed_pixels(q, palette@, options.radius as int));
                t
            },
            Err(e) => Err(e),
        }
    } else {
        proof {
            lemma_output_in_palette(*grid, palette@, options.radius as int);
        }
        transform(grid, palette, options.radius)
    };
    out
}

} // verus!
