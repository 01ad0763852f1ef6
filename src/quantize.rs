use vstd::prelude::*;
use image::RgbImage;
use quantette::{AboveMaxLen, ColorSpace, ImagePipeline, PaletteSize, QuantizeMethod};
use crate::color::Color;
use crate::grid::PixelGrid;
use crate::transform::TransformError;

verus! {

#[verifier::external_type_specification]
#[verifier::external_body]
#[verifier::reject_recursive_types(T)]
pub struct ExAboveMaxLen<T>(AboveMaxLen<T>);

/// The channel bytes of a color sequence, three per color in red, green, blue order.
pub open spec fn bytes_of(s: Seq<Color>) -> Seq<u8>
    decreases s.len(),
{
    if s.len() == 0 {
        Seq::empty()
    } else {
        bytes_of(s.drop_last()) + seq![s.last().r, s.last().g, s.last().b]
    }
}

/// The colors packed in a byte buffer, three bytes each.
pub open spec fn colors_of(b: Seq<u8>) -> Seq<Color> {
    Seq::new(b.len() / 3, |i: int| Color { r: b[3 * i], g: b[3 * i + 1], b: b[3 * i + 2] })
}

pub proof fn lemma_bytes_of_len(s: Seq<Color>)
    ensures
        bytes_of(s).len() == 3 * s.len(),
    decreases s.len(),
{
    if s.len() > 0 {
        lemma_bytes_of_len(s.drop_last());
    }
}

/// Flattens colors into channel bytes.
pub fn to_bytes(pixels: &Vec<Color>) -> (b: Vec<u8>)
    ensures
        b@ == bytes_of(pixels@),
        b@.len() == 3 * pixels@.len(),
{
    let mut out: Vec<u8> = Vec::new();
    let mut i: usize = 0;
    while i < pixels.len()
        invariant
            i <= pixels@.len(),
            out@ == bytes_of(pixels@.take(i as int)),
        decreases pixels@.len() - i,
    {
        proof {
            assert(pixels@.take(i + 1).drop_last() =~= pixels@.take(i as int));
        }
        let p = pixels[i];
        out.push(p.r);
        out.push(p.g);
        out.push(p.b);
        i = i + 1;
        assert(out@ =~= bytes_of(pixels@.take(i as int)));
    }
    assert(pixels@.take(i as int) =~= pixels@);
    proof {
        lemma_bytes_of_len(pixels@);
    }
    out
}

/// Groups channel bytes into colors, three bytes each.
pub fn from_bytes(bytes: &Vec<u8>) -> (c: Vec<Color>)
    requires
        bytes@.len() % 3 == 0,
    ensures
        c@ == colors_of(bytes@),
{
    let len = bytes.len();
    let n = len / 3;
    let mut out: Vec<Color> = Vec::with_capacity(n);
    let mut i: usize = 0;
    while i < n
        invariant
            len == bytes@.len(),
            n == len / 3,
            len % 3 == 0,
            i <= n,
            out@ =~= colors_of(bytes@).take(i as int),
        decreases n - i,
    {
        proof {
            assert(3 * i + 2 < len) by (nonlinear_arith)
                requires
                    i < n,
                    n == len / 3,
                    len % 3 == 0,
            ;
        }
        let c = Color { r: bytes[3 * i], g: bytes[3 * i + 1], b: bytes[3 * i + 2] };
        out.push(c);
        i = i + 1;
    }
    out
}

/// Relies on quantette's `ImagePipeline` (k-means in Oklab, run in parallel,
/// optionally dithered): it reduces the image to at most `colors` colors and
/// `quantized_rgbimage_par` returns an image of the same dimensions; building
/// the pipeline fails with `AboveMaxLen` exactly when the image has more than
/// `u32::MAX` pixels.
/// Also relies on image's `RgbImage::from_raw`, which accepts a buffer of
/// `3 * width * height` bytes, and `into_raw`, which hands that buffer back.
#[verifier::external_body]
fn quantize_bytes(width: u32, height: u32, raw: Vec<u8>, colors: u16, dither: bool) -> (r: Result<Vec<u8>, AboveMaxLen<u32>>)
    requires
        raw@.len() == 3 * width * height,
        1 <= colors <= 256,
    ensures
        r is Ok <==> width as int * height as int <= u32::MAX,
        r is Ok ==> r->Ok_0@.len() == raw@.len(),
{
    let image = RgbImage::from_raw(width, height, raw).unwrap();
    let mut pipeline = ImagePipeline::try_from(&image)?;
    Ok(pipeline.palette_size(PaletteSize::from_clamped(colors)).dither(dither)
        .colorspace(ColorSpace::Oklab).quantize_method(QuantizeMethod::kmeans())
        .quantized_rgbimage_par().into_raw())
}

/// Reduces the grid towards `colors` colors before matching; the result has
/// the grid's dimensions. Fails with `QuantizationFailure` exactly when the
/// grid has more pixels than the quantizer takes (`u32::MAX`).
pub fn quantize(grid: &PixelGrid, colors: u16, dither: bool) -> (r: Result<PixelGrid, TransformError>)
    requires
        grid.wf(),
        1 <= colors <= 256,
    ensures
        r is Ok <==> grid.width as int * grid.height as int <= u32::MAX,
        r is Err ==> r->Err_0 == TransformError::QuantizationFailure,
        r is Ok ==> (r->Ok_0.width == grid.width && r->Ok_0.height == grid.height && r->Ok_0.wf()),
{
    let raw = to_bytes(&grid.pixels);
    proof {
        assert(raw@.len() == 3 * grid.width * grid.height) by (nonlinear_arith)
            requires
                raw@.len() == 3 * grid.pixels@.len(),
                grid.pixels@.len() == grid.width * grid.height,
        ;
    }
    match quantize_bytes(grid.width, grid.height, raw, colors, dither) {
        Ok(bytes) => {
            let pixels = from_bytes(&bytes);
            Ok(PixelGrid { width: grid.width, height: grid.height, pixels })
        },
        Err(_) => Err(TransformError::QuantizationFailure),
    }
}

} // verus!
