use vstd::prelude::*;
use rayon::iter::{IntoParallelIterator, ParallelIterator};
use crate::average::{box_average, mean_color, window_samples};
use crate::color::Color;
use crate::grid::PixelGrid;
use crate::matcher::{best_index, lemma_best_index, nearest_color, nearest_spec};

verus! {

/// Errors that stop a transform before any pixel is written.
#[derive(Clone, Copy, Debug, PartialEq, Eq, Structural)]
pub enum TransformError {
    /// The palette has no entry to match against.
    InvalidPalette,
    /// The quantizer refused the grid.
    QuantizationFailure,
}

/// The color fed into matching at `(x, y)`: the pixel itself for radius 0,
/// else the box average around it.
pub open spec fn source_color(g: PixelGrid, x: int, y: int, radius: int) -> Color {
    if radius == 0 {
        g.pixel_spec(x, y)
    } else {
        mean_color(window_samples(g, x, y, radius))
    }
}

/// The output color at flat index `i`.
pub open spec fn output_pixel(g: PixelGrid, p: Seq<Color>, radius: int, i: int) -> Color {
    let w = g.width as int;
    nearest_spec(source_color(g, i % w, i / w, radius), p)
}

/// The whole output buffer: each cell depends only on the input grid, the
/// palette, the radius and its own index.
pub open spec fn transformed_pixels(g: PixelGrid, p: Seq<Color>, radius: int) -> Seq<Color> {
    Seq::new(g.pixels@.len(), |i: int| output_pixel(g, p, radius, i))
}

/// Flat index `i` of a well-formed grid splits into a coordinate of the grid.
proof fn lemma_coordinate_of(g: PixelGrid, i: int)
    requires
        g.wf(),
        0 <= i < g.pixels@.len(),
    ensures
        g.width > 0,
        0 <= i % (g.width as int) < g.width,
        0 <= i / (g.width as int) < g.height,
        i == (i / (g.width as int)) * g.width + i % (g.width as int),
{
    let w = g.width as int;
    let h = g.height as int;
    if w == 0 {
        assert(w * h == 0) by (nonlinear_arith)
            requires
                w == 0,
        ;
    }
    assert(i == (i / w) * w + i % w && 0 <= i % w < w) by (nonlinear_arith)
        requires
            w > 0,
    ;
    assert(0 <= i / w < h) by (nonlinear_arith)
        requires
            w > 0,
            0 <= i < w * h,
            i == (i / w) * w + i % w,
            0 <= i % w < w,
    ;
}

/// With radius 0 no averaging takes place: every cell is the match of the
/// input pixel at the same index.
pub proof fn lemma_radius_zero_is_identity(g: PixelGrid, p: Seq<Color>, i: int)
    requires
        g.wf(),
        0 <= i < g.pixels@.len(),
    ensures
        transformed_pixels(g, p, 0)[i] == nearest_spec(g.pixels@[i], p),
{
    lemma_coordinate_of(g, i);
}

/// Every output color is an entry of the palette.
pub proof fn lemma_output_in_palette(g: PixelGrid, p: Seq<Color>, radius: int)
    requires
        p.len() > 0,
    ensures
        forall|i: int|
            0 <= i < g.pixels@.len() ==> p.contains(#[trigger] transformed_pixels(g, p, radius)[i]),
{
    assert forall|i: int| 0 <= i < g.pixels@.len() implies p.contains(
        #[trigger] transformed_pixels(g, p, radius)[i],
    ) by {
        let w = g.width as int;
        let c = source_color(g, i % w, i / w, radius);
        lemma_best_index(c, p, p.len() as int);
        assert(p[best_index(c, p, p.len() as int)] == transformed_pixels(g, p, radius)[i]);
    }
}

/// The output color at flat index `i`.
pub fn transform_pixel(grid: &PixelGrid, palette: &Vec<Color>, radius: u32, i: usize) -> (c: Color)
    requires
        grid.wf(),
        palette@.len() > 0,
        i < grid.pixels@.len(),
    ensures
        c == output_pixel(*grid, palette@, radius as int, i as int),
{
    proof {
        lemma_coordinate_of(*grid, i as int);
    }
    let x = (i % (grid.width as usize)) as u32;
    let y = (i / (grid.width as usize)) as u32;
    let source = if radius == 0 {
        grid.pixels[i]
    } else {
        box_average(grid, x, y, radius)
    };
    nearest_color(source, palette)
}

/// Recolors every pixel one after another; see `transform` for the parallel form.
pub fn transform_sequential(grid: &PixelGrid, palette: &Vec<Color>, radius: u32) -> (r: Result<PixelGrid, TransformError>)
    requires
        grid.wf(),
    ensures
        r is Err <==> palette@.len() == 0,
        r is Err ==> r->Err_0 == TransformError::InvalidPalette,
        r is Ok ==> (r->Ok_0.width == grid.width && r->Ok_0.height == grid.height
            && r->Ok_0.wf() && r->Ok_0.pixels@ == transformed_pixels(*grid, palette@, radius as int)),
{
    if palette.len() == 0 {
        return Err(TransformError::InvalidPalette);
    }
    let n = grid.pixels.len();
    let mut out: Vec<Color> = Vec::with_capacity(n);
    let mut i: usize = 0;
    while i < n
        invariant
            grid.wf(),
            palette@.len() > 0,
            n == grid.pixels@.len(),
            i <= n,
            out@ =~= transformed_pixels(*grid, palette@, radius as int).take(i as int),
        decreases n - i,
    {
        let c = transform_pixel(grid, palette, radius, i);
        out.push(c);
        i = i + 1;
    }
    assert(out@ =~= transformed_pixels(*grid, palette@, radius as int));
    Ok(PixelGrid { width: grid.width, height: grid.height, pixels: out })
}

/// Relies on rayon: `map` over the indexed parallel range `0..n`, collected
/// into a `Vec`, holds the closure's result for index `i` at position `i`.
#[verifier::external_body]
fn par_transform_pixels(grid: &PixelGrid, palette: &Vec<Color>, radius: u32) -> (r: Vec<Color>)
    requires
        grid.wf(),
        palette@.len() > 0,
    ensures
        r@ == transformed_pixels(*grid, palette@, radius as int),
{
    (0..grid.pixels.len()).into_par_iter().map(|i| transform_pixel(grid, palette, radius, i)).collect()
}

/// Recolors every pixel, spreading the pixels over rayon's worker pool. Each
/// cell is a pure function of its index, so the result is the one that
/// `transform_sequential` gives, whatever the number of workers.
pub fn transform(grid: &PixelGrid, palette: &Vec<Color>, radius: u32) -> (r: Result<PixelGrid, TransformError>)
    requires
        grid.wf(),
    ensures
        r is Err <==> palette@.len() == 0,
        r is Err ==> r->Err_0 == TransformError::InvalidPalette,
        r is Ok ==> (r->Ok_0.width == grid.width && r->Ok_0.height == grid.height
            && r->Ok_0.wf() && r->Ok_0.pixels@ == transformed_pixels(*grid, palette@, radius as int)),
{
    if palette.len() == 0 {
        return Err(TransformError::InvalidPalette);
    }
    let out = par_transform_pixels(grid, palette, radius);
    Ok(PixelGrid { width: grid.width, height: grid.height, pixels: out })
}

/// The parallel and the sequential transform agree on every input: both
/// succeed or fail together, and on success give the same grid.
pub proof fn lemma_parallel_matches_sequential(
    grid: PixelGrid,
    palette: Seq<Color>,
    radius: int,
    par: Result<PixelGrid, TransformError>,
    seq: Result<PixelGrid, TransformError>,
)
    requires
        grid.wf(),
        par is Err <==> palette.len() == 0,
        par is Err ==> par->Err_0 == TransformError::InvalidPalette,
        par is Ok ==> (par->Ok_0.width == grid.width && par->Ok_0.height == grid.height
            && par->Ok_0.pixels@ == transformed_pixels(grid, palette, radius)),
        seq is Err <==> palette.len() == 0,
        seq is Err ==> seq->Err_0 == TransformError::InvalidPalette,
        seq is Ok ==> (seq->Ok_0.width == grid.width && seq->Ok_0.height == grid.height
            && seq->Ok_0.pixels@ == transformed_pixels(grid, palette, radius)),
    ensures
        par is Err <==> seq is Err,
        par is Err ==> par->Err_0 == seq->Err_0,
        par is Ok ==> (par->Ok_0.width == seq->Ok_0.width && par->Ok_0.height == seq->Ok_0.height
            && par->Ok_0.pixels@ == seq->Ok_0.pixels@),
{
}

} // verus!
