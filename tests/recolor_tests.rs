use recolor::average::{average_color, box_average};
use recolor::color::{color_difference, Color};
use recolor::grid::{GridError, PixelGrid};
use recolor::matcher::nearest_color;
use recolor::palette::dedup_palette;
use recolor::pipeline::{recolor, RecolorOptions};
use recolor::quantize::{from_bytes, quantize, to_bytes};
use recolor::transform::{transform, transform_pixel, transform_sequential, TransformError};

fn c(r: u8, g: u8, b: u8) -> Color {
    Color::new(r, g, b)
}

fn grid(width: u32, height: u32, pixels: Vec<Color>) -> PixelGrid {
    PixelGrid::new(width, height, pixels).unwrap()
}

#[test]
fn metric_symmetric_and_zero() {
    let a = c(10, 200, 30);
    let b = c(250, 0, 31);
    assert_eq!(color_difference(a, b), 240 + 200 + 1);
    assert_eq!(color_difference(a, b), color_difference(b, a));
    assert_eq!(color_difference(a, a), 0);
}

#[test]
fn metric_extremes() {
    assert_eq!(color_difference(c(0, 0, 0), c(255, 255, 255)), 765);
    assert_eq!(color_difference(c(255, 255, 255), c(0, 0, 0)), 765);
}

#[test]
fn match_picks_nearest() {
    let palette = vec![c(0, 0, 0), c(255, 255, 255)];
    assert_eq!(color_difference(c(100, 100, 100), palette[0]), 300);
    assert_eq!(color_difference(c(100, 100, 100), palette[1]), 465);
    assert_eq!(nearest_color(c(100, 100, 100), &palette), c(0, 0, 0));
    assert_eq!(nearest_color(c(200, 180, 190), &palette), c(255, 255, 255));
}

#[test]
fn match_tie_goes_to_first_entry() {
    let palette = vec![c(0, 0, 0), c(20, 0, 0), c(0, 20, 0)];
    assert_eq!(nearest_color(c(10, 0, 0), &palette), c(0, 0, 0));
    let reversed = vec![c(20, 0, 0), c(0, 0, 0)];
    assert_eq!(nearest_color(c(10, 0, 0), &reversed), c(20, 0, 0));
}

#[test]
fn average_color_truncates() {
    let pixels = vec![c(0, 0, 0), c(10, 0, 0), c(0, 0, 0), c(10, 0, 0)];
    assert_eq!(average_color(&pixels), c(5, 0, 0));
    let odd = vec![c(1, 2, 255), c(2, 3, 254)];
    assert_eq!(average_color(&odd), c(1, 2, 254));
}

#[test]
fn box_average_clamps_at_borders() {
    // 2x1 grid: radius 1 samples offsets -1..1 on each axis; at x = 0 the
    // column offsets -1 and 0 both land on x = 0, rows clamp to y = 0.
    let g = grid(2, 1, vec![c(0, 0, 0), c(100, 50, 10)]);
    assert_eq!(box_average(&g, 0, 0, 1), c(0, 0, 0));
    // at x = 1 the offsets reach x = 0 and x = 1, each twice.
    assert_eq!(box_average(&g, 1, 0, 1), c(50, 25, 5));
}

#[test]
fn box_average_single_pixel_grid() {
    let g = grid(1, 1, vec![c(7, 8, 9)]);
    assert_eq!(box_average(&g, 0, 0, 3), c(7, 8, 9));
}

#[test]
fn end_to_end_two_by_two() {
    let g = grid(2, 2, vec![c(10, 10, 10), c(250, 250, 250), c(10, 10, 10), c(250, 250, 250)]);
    let palette = vec![c(0, 0, 0), c(255, 255, 255)];
    let options = RecolorOptions { radius: 0, quantize: false, dither: false };
    let out = recolor(&g, &palette, options).unwrap();
    assert_eq!(out.width(), 2);
    assert_eq!(out.height(), 2);
    assert_eq!(
        out.pixels(),
        &vec![c(0, 0, 0), c(255, 255, 255), c(0, 0, 0), c(255, 255, 255)]
    );
}

#[test]
fn radius_zero_matches_each_pixel() {
    let pixels = vec![c(10, 0, 0), c(0, 200, 0), c(0, 0, 90)];
    let g = grid(3, 1, pixels.clone());
    let palette = vec![c(255, 0, 0), c(0, 255, 0), c(0, 0, 255), c(0, 0, 0)];
    let out = transform(&g, &palette, 0).unwrap();
    for i in 0..3 {
        assert_eq!(out.pixels()[i], nearest_color(pixels[i], &palette));
    }
    assert_eq!(out.pixels(), &vec![c(0, 0, 0), c(0, 255, 0), c(0, 0, 0)]);
}

#[test]
fn averaging_changes_the_match() {
    // The averaged color of the right pixel is (50,50,50) at radius 1,
    // which is closer to grey than to black.
    let g = grid(2, 1, vec![c(0, 0, 0), c(100, 100, 100)]);
    let palette = vec![c(0, 0, 0), c(60, 60, 60), c(100, 100, 100)];
    let out = transform(&g, &palette, 1).unwrap();
    assert_eq!(out.pixels(), &vec![c(0, 0, 0), c(60, 60, 60)]);
    assert_eq!(transform_pixel(&g, &palette, 1, 1), c(60, 60, 60));
}

#[test]
fn dimensions_are_preserved() {
    let pixels: Vec<Color> = (0..12u8).map(|i| c(i * 20, 255 - i * 20, i)).collect();
    let g = grid(4, 3, pixels);
    let palette = vec![c(0, 0, 0), c(255, 255, 255), c(255, 0, 0)];
    for radius in 0..4u32 {
        let out = transform(&g, &palette, radius).unwrap();
        assert_eq!((out.width(), out.height()), (4, 3));
        assert_eq!(out.pixels().len(), 12);
    }
}

#[test]
fn parallel_equals_sequential() {
    let pixels: Vec<Color> = (0..64u32)
        .map(|i| c((i * 37 % 256) as u8, (i * 91 % 256) as u8, (i * 13 % 256) as u8))
        .collect();
    let g = grid(8, 8, pixels);
    let palette = vec![c(0, 0, 0), c(29, 43, 83), c(126, 37, 83), c(255, 241, 232)];
    for radius in 0..3u32 {
        let par = transform(&g, &palette, radius).unwrap();
        let seq = transform_sequential(&g, &palette, radius).unwrap();
        assert_eq!(par.pixels(), seq.pixels());
        assert_eq!((par.width(), par.height()), (seq.width(), seq.height()));
    }
}

#[test]
fn empty_palette_is_rejected() {
    let g = grid(1, 1, vec![c(1, 2, 3)]);
    let empty: Vec<Color> = Vec::new();
    assert_eq!(transform(&g, &empty, 0).err(), Some(TransformError::InvalidPalette));
    assert_eq!(transform_sequential(&g, &empty, 2).err(), Some(TransformError::InvalidPalette));
    let options = RecolorOptions { radius: 0, quantize: true, dither: true };
    assert_eq!(recolor(&g, &empty, options).err(), Some(TransformError::InvalidPalette));
}

#[test]
fn grid_dimension_mismatch() {
    assert_eq!(
        PixelGrid::new(2, 2, vec![c(0, 0, 0); 3]).err(),
        Some(GridError::DimensionMismatch)
    );
    assert!(PixelGrid::new(0, 5, Vec::new()).is_ok());
}

#[test]
fn bytes_round_trip() {
    let pixels = vec![c(1, 2, 3), c(4, 5, 6)];
    let bytes = to_bytes(&pixels);
    assert_eq!(bytes, vec![1, 2, 3, 4, 5, 6]);
    assert_eq!(from_bytes(&bytes), pixels);
}

#[test]
fn quantize_to_one_color() {
    let g = grid(2, 2, vec![c(0, 0, 0), c(255, 255, 255), c(255, 0, 0), c(0, 0, 255)]);
    let q = quantize(&g, 1, false).unwrap();
    assert_eq!((q.width(), q.height()), (2, 2));
    let first = q.pixels()[0];
    assert!(q.pixels().iter().all(|p| *p == first));
}

#[test]
fn recolor_with_quantize_stays_in_palette() {
    let g = grid(3, 2, vec![c(0, 0, 0), c(250, 250, 250), c(10, 10, 10), c(240, 0, 0), c(5, 5, 5), c(255, 255, 255)]);
    let palette = vec![c(0, 0, 0), c(255, 255, 255)];
    let options = RecolorOptions { radius: 1, quantize: true, dither: true };
    let out = recolor(&g, &palette, options).unwrap();
    assert_eq!((out.width(), out.height()), (3, 2));
    assert!(out.pixels().iter().all(|p| palette.contains(p)));
}

#[test]
fn dedup_keeps_first_occurrences() {
    let colors = vec![c(1, 1, 1), c(2, 2, 2), c(1, 1, 1), c(3, 3, 3), c(2, 2, 2)];
    assert_eq!(dedup_palette(&colors), vec![c(1, 1, 1), c(2, 2, 2), c(3, 3, 3)]);
    assert_eq!(dedup_palette(&Vec::new()), Vec::<Color>::new());
}

#[test]
fn average_color_ignores_order() {
    let a = vec![c(3, 200, 7), c(250, 1, 9), c(3, 200, 7), c(40, 41, 42)];
    let b = vec![c(40, 41, 42), c(3, 200, 7), c(250, 1, 9), c(3, 200, 7)];
    assert_eq!(average_color(&a), average_color(&b));
    assert_eq!(average_color(&a), c(74, 110, 16));
}
