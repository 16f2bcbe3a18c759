use normalize::{
    composite, detect_foreground, image_boundbox, process_image, scale_to_fit, BoundingBox, CanvasSpec, Detection,
    GrayGrid, NormalizeError, Rgba, RgbaGrid,
};

const WHITE: [u8; 4] = [255, 255, 255, 255];
const BLACK: [u8; 4] = [0, 0, 0, 255];

fn gray(width: u32, height: u32, fill: u8) -> Vec<u8> {
    vec![fill; (width * height) as usize]
}

fn set_gray(data: &mut [u8], width: u32, x: u32, y: u32, v: u8) {
    data[(y * width + x) as usize] = v;
}

fn rgba_image(width: u32, height: u32, fill: [u8; 4]) -> Vec<u8> {
    let mut data = Vec::new();
    for _ in 0..width * height {
        data.extend_from_slice(&fill);
    }
    data
}

fn set_rgba(data: &mut [u8], width: u32, x: u32, y: u32, p: [u8; 4]) {
    let i = (4 * (y * width + x)) as usize;
    data[i..i + 4].copy_from_slice(&p);
}

fn bbox(left: u32, top: u32, right: u32, bottom: u32) -> BoundingBox {
    BoundingBox { left, top, right, bottom }
}

#[test]
fn blank_gray_grid_gives_full_extent() {
    for tolerance in [0u8, 10, 128, 255] {
        let grid = GrayGrid::from_raw(7, 5, gray(7, 5, 255)).unwrap();
        assert_eq!(detect_foreground(&grid, tolerance), Detection::Empty);
        assert_eq!(image_boundbox(&grid, tolerance), bbox(0, 0, 7, 5));
    }
}

#[test]
fn empty_grid_gives_well_formed_box() {
    let grid = GrayGrid::from_raw(0, 4, Vec::new()).unwrap();
    assert_eq!(detect_foreground(&grid, 10), Detection::Empty);
    assert_eq!(image_boundbox(&grid, 10), bbox(0, 0, 0, 4));
}

#[test]
fn single_block_detected_exactly() {
    let mut data = gray(10, 8, 255);
    for y in 2..6 {
        for x in 3..9 {
            set_gray(&mut data, 10, x, y, 254);
        }
    }
    let grid = GrayGrid::from_raw(10, 8, data).unwrap();
    assert_eq!(image_boundbox(&grid, 0), bbox(3, 2, 9, 6));
    assert_eq!(detect_foreground(&grid, 0), Detection::Found(bbox(3, 2, 9, 6)));
}

#[test]
fn single_pixel_at_corner() {
    let mut data = gray(4, 3, 255);
    set_gray(&mut data, 4, 3, 2, 0);
    let grid = GrayGrid::from_raw(4, 3, data).unwrap();
    assert_eq!(image_boundbox(&grid, 10), bbox(3, 2, 4, 3));
}

#[test]
fn threshold_boundary() {
    // tolerance 10: threshold 245, so 244 is foreground and 245 is not.
    let mut data = gray(5, 5, 255);
    set_gray(&mut data, 5, 1, 1, 245);
    set_gray(&mut data, 5, 3, 3, 244);
    let grid = GrayGrid::from_raw(5, 5, data).unwrap();
    assert_eq!(image_boundbox(&grid, 10), bbox(3, 3, 4, 4));
    assert_eq!(image_boundbox(&grid, 9), bbox(1, 1, 4, 4));
}

#[test]
fn higher_tolerance_never_grows_box() {
    let mut data = gray(12, 9, 255);
    set_gray(&mut data, 12, 1, 1, 200);
    set_gray(&mut data, 12, 10, 7, 200);
    for y in 4..6 {
        for x in 5..8 {
            set_gray(&mut data, 12, x, y, 0);
        }
    }
    let grid = GrayGrid::from_raw(12, 9, data).unwrap();
    let mut previous = image_boundbox(&grid, 0);
    assert_eq!(previous, bbox(1, 1, 11, 8));
    for tolerance in 1..=254u8 {
        let b = image_boundbox(&grid, tolerance);
        assert!(previous.left <= b.left && b.right <= previous.right);
        assert!(previous.top <= b.top && b.bottom <= previous.bottom);
        previous = b;
    }
    assert_eq!(image_boundbox(&grid, 100), bbox(5, 4, 8, 6));
}

#[test]
fn gray_grid_rejects_wrong_length() {
    assert!(GrayGrid::from_raw(3, 3, vec![0; 8]).is_none());
    assert!(RgbaGrid::from_raw(3, 3, vec![0; 35]).is_none());
    assert!(RgbaGrid::from_raw(3, 3, vec![0; 36]).is_some());
}

#[test]
fn scale_wide_region() {
    assert_eq!(scale_to_fit(400, 300, 700, 700), Ok((700, 525)));
}

#[test]
fn scale_tall_region() {
    assert_eq!(scale_to_fit(300, 400, 700, 700), Ok((525, 700)));
}

#[test]
fn scale_square_region() {
    assert_eq!(scale_to_fit(50, 50, 700, 700), Ok((700, 700)));
}

#[test]
fn scale_uses_the_smaller_factor() {
    // A wide region in a much wider than tall box is limited by the height.
    assert_eq!(scale_to_fit(200, 100, 700, 300), Ok((600, 300)));
    // A square region in a non-square box.
    assert_eq!(scale_to_fit(100, 100, 700, 300), Ok((300, 300)));
}

#[test]
fn scale_rounds_half_away_from_zero() {
    // 2 * 5 / 4 = 2.5 rounds to 3.
    assert_eq!(scale_to_fit(4, 2, 5, 100), Ok((5, 3)));
    // 2 * 5 / 3 = 3.33 rounds to 3; 1 * 5 / 3 = 1.67 rounds to 2.
    assert_eq!(scale_to_fit(3, 2, 5, 100), Ok((5, 3)));
    assert_eq!(scale_to_fit(3, 1, 5, 100), Ok((5, 2)));
}

#[test]
fn scale_keeps_one_pixel_minimum() {
    assert_eq!(scale_to_fit(1000, 1, 10, 10), Ok((10, 1)));
    assert_eq!(scale_to_fit(1, 1000, 10, 10), Ok((1, 10)));
}

#[test]
fn scale_zero_side_is_invalid_geometry() {
    assert_eq!(scale_to_fit(0, 5, 10, 10), Err(NormalizeError::InvalidGeometry));
    assert_eq!(scale_to_fit(5, 0, 10, 10), Err(NormalizeError::InvalidGeometry));
}

#[test]
fn scale_fits_inside_interior() {
    for &(w, h) in &[(1u32, 1u32), (3, 7), (1000, 3), (640, 480), (17, 4000), (u32::MAX, 1)] {
        for &(iw, ih) in &[(1u32, 1u32), (700, 700), (700, 300), (5, 900), (u32::MAX, u32::MAX)] {
            let (w2, h2) = scale_to_fit(w, h, iw, ih).unwrap();
            assert!(1 <= w2 && w2 <= iw, "{w}x{h} in {iw}x{ih}: {w2}");
            assert!(1 <= h2 && h2 <= ih, "{w}x{h} in {iw}x{ih}: {h2}");
        }
    }
}

#[test]
fn scale_keeps_aspect_ratio() {
    for &(w, h) in &[(400u32, 300u32), (300, 400), (123, 457), (1920, 1080), (999, 1000)] {
        let (w2, h2) = scale_to_fit(w, h, 700, 500).unwrap();
        let exact = w as f64 / h as f64;
        let got = w2 as f64 / h2 as f64;
        // One pixel of rounding on the shorter fitted side.
        let epsilon = exact / (w2.min(h2) as f64) + 1e-9;
        assert!((got - exact).abs() <= epsilon, "{w}x{h} gave {w2}x{h2}");
    }
}

#[test]
fn canvas_padding_too_large() {
    assert_eq!(CanvasSpec::new(800, 800, 400).unwrap_err(), NormalizeError::InvalidConfiguration);
    assert_eq!(CanvasSpec::new(800, 600, 300).unwrap_err(), NormalizeError::InvalidConfiguration);
    assert_eq!(CanvasSpec::new(0, 0, 0).unwrap_err(), NormalizeError::InvalidConfiguration);
}

#[test]
fn canvas_interior() {
    let c = CanvasSpec::new(800, 800, 399).unwrap();
    assert_eq!(c.interior(), (2, 2));
    let c = CanvasSpec::new(800, 600, 50).unwrap();
    assert_eq!((c.width(), c.height(), c.padding()), (800, 600, 50));
    assert_eq!(c.interior(), (700, 500));
}

#[test]
fn composite_centres_object() {
    let mut data = rgba_image(2, 1, BLACK);
    set_rgba(&mut data, 2, 1, 0, [10, 20, 30, 40]);
    let object = RgbaGrid::from_raw(2, 1, data).unwrap();
    let canvas = composite(&object, 5, 4).unwrap();
    assert_eq!((canvas.width(), canvas.height()), (5, 4));
    // Offsets (5 - 2) / 2 = 1 and (4 - 1) / 2 = 1.
    for y in 0..4 {
        for x in 0..5 {
            let expected = match (x, y) {
                (1, 1) => Rgba { r: 0, g: 0, b: 0, a: 255 },
                (2, 1) => Rgba { r: 10, g: 20, b: 30, a: 40 },
                _ => Rgba { r: 255, g: 255, b: 255, a: 255 },
            };
            assert_eq!(canvas.pixel(x, y), expected, "at ({x}, {y})");
        }
    }
    assert_eq!(canvas.into_raw().len(), 5 * 4 * 4);
}

#[test]
fn composite_same_size_object() {
    let object = RgbaGrid::from_raw(3, 2, rgba_image(3, 2, BLACK)).unwrap();
    let canvas = composite(&object, 3, 2).unwrap();
    assert_eq!(canvas.into_raw(), rgba_image(3, 2, BLACK));
}

#[test]
fn composite_object_too_large() {
    let object = RgbaGrid::from_raw(4, 2, rgba_image(4, 2, BLACK)).unwrap();
    assert_eq!(composite(&object, 3, 10).unwrap_err(), NormalizeError::OutOfBounds);
    assert_eq!(composite(&object, 10, 1).unwrap_err(), NormalizeError::OutOfBounds);
}

#[test]
fn composite_output_has_canvas_size() {
    for &(ow, oh, tw, th) in &[(1u32, 1u32, 1u32, 1u32), (3, 5, 8, 8), (7, 2, 7, 9), (0, 0, 4, 3)] {
        let object = RgbaGrid::from_raw(ow, oh, rgba_image(ow, oh, BLACK)).unwrap();
        let canvas = composite(&object, tw, th).unwrap();
        assert_eq!((canvas.width(), canvas.height()), (tw, th));
    }
}

#[test]
fn crop_copies_region() {
    let mut data = rgba_image(4, 3, WHITE);
    set_rgba(&mut data, 4, 2, 1, [1, 2, 3, 4]);
    let image = RgbaGrid::from_raw(4, 3, data).unwrap();
    let part = image.crop(1, 1, 2, 2);
    assert_eq!((part.width(), part.height()), (2, 2));
    assert_eq!(part.pixel(1, 0), Rgba { r: 1, g: 2, b: 3, a: 4 });
    assert_eq!(part.pixel(0, 0), Rgba { r: 255, g: 255, b: 255, a: 255 });
}

#[test]
fn luminance_uses_srgb_weights() {
    let mut data = rgba_image(3, 1, WHITE);
    set_rgba(&mut data, 3, 0, 0, [255, 0, 0, 255]);
    set_rgba(&mut data, 3, 1, 0, [0, 255, 0, 0]);
    let image = RgbaGrid::from_raw(3, 1, data).unwrap();
    let luma = image.to_luma();
    assert_eq!((luma.width(), luma.height()), (3, 1));
    // (2126 * 255) / 10000 = 54, (7152 * 255) / 10000 = 182.
    assert_eq!(luma.get(0, 0), 54);
    assert_eq!(luma.get(1, 0), 182);
    assert_eq!(luma.get(2, 0), 255);
}

#[test]
fn resize_changes_size() {
    let image = RgbaGrid::from_raw(2, 2, rgba_image(2, 2, BLACK)).unwrap();
    let bigger = image.resize(5, 3);
    assert_eq!((bigger.width(), bigger.height()), (5, 3));
    assert_eq!(bigger.as_raw().len(), 5 * 3 * 4);
    assert_eq!(bigger.pixel(4, 2).r, 0);
}

fn square_scene() -> RgbaGrid {
    let mut data = rgba_image(1000, 600, WHITE);
    for y in 150..450 {
        for x in 300..700 {
            set_rgba(&mut data, 1000, x, y, BLACK);
        }
    }
    RgbaGrid::from_raw(1000, 600, data).unwrap()
}

#[test]
fn centred_square_end_to_end() {
    let image = square_scene();
    let luma = image.to_luma();
    assert_eq!(image_boundbox(&luma, 10), bbox(300, 150, 700, 450));
    let canvas = CanvasSpec::new(800, 800, 50).unwrap();
    let (iw, ih) = canvas.interior();
    assert_eq!((iw, ih), (700, 700));
    let (w, h) = scale_to_fit(400, 300, iw, ih).unwrap();
    assert!(w <= 700 && h <= 700);
    assert_eq!((w, h), (700, 525));
    let out = process_image(&image, &canvas, 10).unwrap();
    assert_eq!((out.width(), out.height()), (800, 800));
    // The square covers [50, 750) x [137, 662).
    for &(x, y) in &[(0, 0), (799, 799), (49, 400), (750, 400), (400, 136), (400, 662)] {
        assert_eq!(out.pixel(x, y), Rgba { r: 255, g: 255, b: 255, a: 255 }, "at ({x}, {y})");
    }
    for &(x, y) in &[(50, 137), (749, 661), (400, 400)] {
        let p = out.pixel(x, y);
        assert_eq!((p.r, p.g, p.b), (0, 0, 0), "at ({x}, {y})");
    }
}

#[test]
fn padding_half_the_canvas_is_invalid() {
    assert_eq!(CanvasSpec::new(800, 800, 400).unwrap_err(), NormalizeError::InvalidConfiguration);
}

#[test]
fn all_white_input_is_invalid_geometry() {
    let image = RgbaGrid::from_raw(64, 48, rgba_image(64, 48, WHITE)).unwrap();
    let canvas = CanvasSpec::new(800, 800, 50).unwrap();
    for tolerance in [0u8, 10, 255] {
        assert_eq!(process_image(&image, &canvas, tolerance).unwrap_err(), NormalizeError::InvalidGeometry);
    }
}

#[test]
fn pipeline_is_deterministic() {
    let image = square_scene();
    let canvas = CanvasSpec::new(300, 200, 20).unwrap();
    let first = process_image(&image, &canvas, 10).unwrap().into_raw();
    let second = process_image(&image, &canvas, 10).unwrap().into_raw();
    assert_eq!(first.len(), 300 * 200 * 4);
    assert!(first == second);
}

#[test]
fn pipeline_on_non_square_canvas() {
    let image = square_scene();
    let canvas = CanvasSpec::new(600, 300, 25).unwrap();
    let out = process_image(&image, &canvas, 10).unwrap();
    assert_eq!((out.width(), out.height()), (600, 300));
    // Interior 550 x 250: the 400 x 300 square becomes 333 x 250, placed at
    // ((600 - 333) / 2, (300 - 250) / 2) = (133, 25).
    assert_eq!(out.pixel(132, 150), Rgba { r: 255, g: 255, b: 255, a: 255 });
    assert_eq!(out.pixel(466, 150), Rgba { r: 255, g: 255, b: 255, a: 255 });
    assert_eq!(out.pixel(150, 24), Rgba { r: 255, g: 255, b: 255, a: 255 });
    assert_eq!(out.pixel(133, 25).r, 0);
    assert_eq!(out.pixel(465, 274).r, 0);
}

#[test]
fn luminance_of_zero_sided_image() {
    for &(w, h) in &[(0u32, 3u32), (4, 0), (0, 0)] {
        let image = RgbaGrid::from_raw(w, h, Vec::new()).unwrap();
        let luma = image.to_luma();
        assert_eq!((luma.width(), luma.height()), (w, h));
    }
}

#[test]
fn zero_width_input_is_invalid_geometry() {
    let image = RgbaGrid::from_raw(0, 5, Vec::new()).unwrap();
    let canvas = CanvasSpec::new(800, 800, 50).unwrap();
    assert_eq!(process_image(&image, &canvas, 10).unwrap_err(), NormalizeError::InvalidGeometry);
}
