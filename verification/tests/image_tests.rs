use imgscript::image::blend::BlendMode;
use imgscript::image::effect::Kernel;
use imgscript::image::Image;
use imgscript::number::Number;
use imgscript::pixel::Pixel;

fn px(r: u8, g: u8, b: u8, a: u8) -> Pixel {
    Pixel::new(r, g, b, a)
}

fn clear() -> Pixel {
    Pixel::new(0, 0, 0, 0)
}

fn numbered(width: usize, height: usize) -> Image {
    let mut img = Image::new(width, height);
    for y in 0..height {
        for x in 0..width {
            img.set_pixel_unchecked(x, y, px(x as u8, y as u8, (x * 16 + y) as u8, 255));
        }
    }
    img
}

fn filled(width: usize, height: usize, color: Pixel) -> Image {
    let mut img = Image::new(width, height);
    for y in 0..height {
        for x in 0..width {
            img.set_pixel_unchecked(x, y, color);
        }
    }
    img
}

fn same_image(a: &Image, b: &Image) -> bool {
    if a.width() != b.width() || a.height() != b.height() {
        return false;
    }
    for y in 0..a.height() {
        for x in 0..a.width() {
            if a.get_pixel_unchecked(x, y) != b.get_pixel_unchecked(x, y) {
                return false;
            }
        }
    }
    true
}

#[test]
fn new_image_is_transparent() {
    let img = Image::new(3, 2);
    assert_eq!(img.width(), 3);
    assert_eq!(img.height(), 2);
    for y in 0..2 {
        for x in 0..3 {
            assert_eq!(img.get_pixel_unchecked(x, y), clear());
        }
    }
    let empty = Image::new(0, 5);
    assert_eq!(empty.width(), 0);
    assert_eq!(empty.height(), 5);
    assert_eq!(empty.get_pixel_or_default(0, 0), clear());
}

#[test]
fn a_pixel_that_was_set_is_read_back() {
    let mut img = Image::new(4, 3);
    img.set_pixel_unchecked(2, 1, px(9, 8, 7, 6));
    assert_eq!(img.get_pixel_unchecked(2, 1), px(9, 8, 7, 6));
    assert_eq!(img.get_pixel_unchecked(1, 2), clear());
    assert_eq!(img.get_pixel_unchecked(1, 1), clear());
    assert_eq!(img.get_pixel_or_default(2, 1), px(9, 8, 7, 6));
}

#[test]
fn outside_the_image_is_transparent() {
    let img = filled(2, 2, px(1, 2, 3, 4));
    assert_eq!(img.get_pixel_or_default(1, 1), px(1, 2, 3, 4));
    assert_eq!(img.get_pixel_or_default(2, 0), clear());
    assert_eq!(img.get_pixel_or_default(0, 2), clear());
    assert_eq!(img.get_pixel_or_default(usize::MAX, usize::MAX), clear());
}

#[test]
fn a_copy_keeps_its_own_pixels() {
    let mut img = filled(2, 2, px(1, 2, 3, 4));
    let copy = img.clone();
    img.set_pixel_unchecked(0, 0, px(50, 60, 70, 80));
    assert_eq!(copy.get_pixel_unchecked(0, 0), px(1, 2, 3, 4));
    assert_eq!(img.get_pixel_unchecked(0, 0), px(50, 60, 70, 80));
    assert_eq!(copy.width(), 2);
    assert_eq!(copy.height(), 2);
}

#[test]
fn sizes_that_fit() {
    assert!(Image::fits(0, 0));
    assert!(Image::fits(1920, 1080));
    assert!(!Image::fits(usize::MAX, 2));
    assert!(!Image::fits(usize::MAX, 0));
    assert!(Image::fits(0, (isize::MAX) as usize));
    assert!(!Image::fits(1usize << 40, 1usize << 40));
}

#[test]
fn transparent_top_keeps_bottom() {
    let bottom = px(10, 20, 30, 40);
    let top = px(200, 100, 50, 0);
    assert_eq!(BlendMode::Normal.blend_pixel(top, bottom), bottom);
    assert_eq!(BlendMode::Multiply.blend_pixel(top, bottom), bottom);
    assert_eq!(BlendMode::Screen.blend_pixel(top, bottom), bottom);
    assert_eq!(BlendMode::Overlay.blend_pixel(top, bottom), bottom);
}

#[test]
fn opaque_top_replaces_bottom_in_normal_mode() {
    for alpha in [0u8, 1, 127, 128, 254, 255] {
        let bottom = px(10, 20, 30, alpha);
        let top = px(200, 100, 50, 255);
        assert_eq!(BlendMode::Normal.blend_pixel(top, bottom), top);
    }
}

#[test]
fn blend_half_transparent_over_opaque() {
    let top = px(200, 100, 50, 128);
    let bottom = px(10, 20, 30, 255);
    assert_eq!(BlendMode::Normal.blend_pixel(top, bottom), px(105, 60, 40, 255));
    assert_eq!(BlendMode::Multiply.blend_pixel(top, bottom), px(3, 3, 2, 255));
    assert_eq!(BlendMode::Screen.blend_pixel(top, bottom), px(106, 66, 52, 255));
    assert_eq!(BlendMode::Overlay.blend_pixel(top, bottom), px(7, 7, 5, 255));
}

#[test]
fn blend_half_transparent_over_half_transparent() {
    let top = px(200, 100, 50, 128);
    let bottom = px(10, 20, 30, 128);
    assert_eq!(BlendMode::Normal.blend_pixel(top, bottom), px(136, 73, 43, 191));
    assert_eq!(BlendMode::Multiply.blend_pixel(top, bottom), px(2, 2, 1, 191));
    assert_eq!(BlendMode::Screen.blend_pixel(top, bottom), px(137, 77, 51, 191));
    assert_eq!(BlendMode::Overlay.blend_pixel(top, bottom), px(5, 5, 3, 191));
}

#[test]
fn blend_mixed_alphas() {
    let top = px(120, 200, 40, 200);
    let bottom = px(90, 60, 250, 100);
    assert_eq!(BlendMode::Normal.blend_pixel(top, bottom), px(117, 186, 60, 221));
    assert_eq!(BlendMode::Multiply.blend_pixel(top, bottom), px(14, 16, 13, 221));
    assert_eq!(BlendMode::Screen.blend_pixel(top, bottom), px(133, 190, 135, 221));
    assert_eq!(BlendMode::Overlay.blend_pixel(top, bottom), px(29, 88, 27, 221));
}

#[test]
fn blend_opaque_extremes() {
    let white = px(255, 255, 255, 255);
    let black = px(0, 0, 0, 255);
    assert_eq!(BlendMode::Multiply.blend_pixel(white, black), black);
    assert_eq!(BlendMode::Screen.blend_pixel(black, white), white);
    assert_eq!(BlendMode::Overlay.blend_pixel(white, black), white);
    assert_eq!(BlendMode::Overlay.blend_pixel(black, white), black);
    assert_eq!(BlendMode::Overlay.blend_pixel(px(200, 100, 50, 255), px(10, 20, 30, 128)), px(147, 7, 5, 255));
    assert_eq!(BlendMode::Normal.blend_pixel(px(1, 2, 3, 1), px(250, 251, 252, 1)), px(125, 126, 127, 1));
}

#[test]
fn blend_images_changes_only_the_overlap() {
    let mut below = filled(4, 3, px(10, 20, 30, 255));
    let above = filled(2, 5, px(200, 100, 50, 128));
    below.blend_images(&above, BlendMode::Normal);
    assert_eq!(below.width(), 4);
    assert_eq!(below.height(), 3);
    for y in 0..3 {
        for x in 0..4 {
            let want = if x < 2 { px(105, 60, 40, 255) } else { px(10, 20, 30, 255) };
            assert_eq!(below.get_pixel_unchecked(x, y), want);
        }
    }
}

#[test]
fn mix_covers_only_the_overlap() {
    let below = filled(4, 3, px(10, 20, 30, 255));
    let above = filled(2, 5, px(200, 100, 50, 128));
    let mixed = below.mix(&above, BlendMode::Multiply);
    assert_eq!(mixed.width(), 2);
    assert_eq!(mixed.height(), 3);
    for y in 0..3 {
        for x in 0..2 {
            assert_eq!(mixed.get_pixel_unchecked(x, y), px(3, 3, 2, 255));
        }
    }
}

#[test]
fn mix_with_transparent_top_gives_bottom() {
    let below = numbered(3, 3);
    let above = Image::new(5, 4);
    assert!(same_image(&below.mix(&above, BlendMode::Normal), &below));
    assert!(same_image(&below.mix(&above, BlendMode::Overlay), &below));
}

#[test]
fn mix_with_opaque_top_gives_top() {
    let below = filled(6, 5, px(1, 2, 3, 77));
    let above = numbered(4, 4);
    assert!(same_image(&below.mix(&above, BlendMode::Normal), &above));
}

#[test]
fn nearest_to_the_same_size_is_the_identity() {
    let mut img = numbered(7, 5);
    let before = img.clone();
    img.resize_nearest_neighbour(7, 5);
    assert!(same_image(&img, &before));
}

#[test]
fn bilinear_to_the_same_size_is_the_identity() {
    let mut img = numbered(7, 5);
    let before = img.clone();
    img.resize_bilinear(7, 5);
    assert!(same_image(&img, &before));
}

#[test]
fn nearest_doubles_and_halves() {
    let mut img = numbered(2, 2);
    img.resize_nearest_neighbour(4, 4);
    assert_eq!(img.width(), 4);
    assert_eq!(img.height(), 4);
    for y in 0..4 {
        for x in 0..4 {
            assert_eq!(img.get_pixel_unchecked(x, y), px((x / 2) as u8, (y / 2) as u8, ((x / 2) * 16 + y / 2) as u8, 255));
        }
    }
    let mut img = numbered(4, 4);
    img.resize_nearest_neighbour(2, 2);
    for y in 0..2 {
        for x in 0..2 {
            assert_eq!(img.get_pixel_unchecked(x, y), px((x * 2) as u8, (y * 2) as u8, ((x * 2) * 16 + y * 2) as u8, 255));
        }
    }
    let mut img = numbered(3, 1);
    img.resize_nearest_neighbour(5, 1);
    let sources = [0usize, 0, 1, 1, 2];
    for x in 0..5 {
        assert_eq!(img.get_pixel_unchecked(x, 0).r, sources[x] as u8);
    }
}

#[test]
fn resize_to_nothing_and_from_nothing() {
    let mut img = numbered(3, 3);
    img.resize_nearest_neighbour(0, 0);
    assert_eq!(img.width(), 0);
    assert_eq!(img.height(), 0);
    img.resize_nearest_neighbour(2, 2);
    assert_eq!(img.get_pixel_unchecked(1, 1), clear());
    let mut img = Image::new(0, 0);
    img.resize_bilinear(2, 2);
    assert_eq!(img.width(), 2);
    assert_eq!(img.get_pixel_unchecked(1, 1), clear());
}

#[test]
fn bilinear_interpolates_between_neighbours() {
    let mut img = Image::new(2, 1);
    img.set_pixel_unchecked(0, 0, px(0, 100, 200, 255));
    img.set_pixel_unchecked(1, 0, px(100, 0, 255, 255));
    img.resize_bilinear(4, 1);
    assert_eq!(img.get_pixel_unchecked(0, 0), px(0, 100, 200, 255));
    assert_eq!(img.get_pixel_unchecked(1, 0), px(50, 50, 227, 255));
    assert_eq!(img.get_pixel_unchecked(2, 0), px(100, 0, 255, 255));
    assert_eq!(img.get_pixel_unchecked(3, 0), px(100, 0, 255, 255));
    let mut img = Image::new(2, 2);
    img.set_pixel_unchecked(0, 0, px(0, 0, 0, 255));
    img.set_pixel_unchecked(1, 0, px(90, 0, 0, 255));
    img.set_pixel_unchecked(0, 1, px(0, 90, 0, 255));
    img.set_pixel_unchecked(1, 1, px(90, 90, 90, 255));
    img.resize_bilinear(3, 3);
    assert_eq!(img.get_pixel_unchecked(1, 1), px(60, 60, 40, 255));
    assert_eq!(img.get_pixel_unchecked(2, 2), px(90, 90, 90, 255));
    assert_eq!(img.get_pixel_unchecked(1, 0), px(60, 0, 0, 255));
}

#[test]
fn a_shift_grows_the_image() {
    let mut img = filled(10, 10, px(7, 8, 9, 255));
    img.shift_by(3, -2);
    assert_eq!(img.width(), 13);
    assert_eq!(img.height(), 12);
    assert_eq!(img.get_pixel_unchecked(3, 0), px(7, 8, 9, 255));
    for y in 0..12 {
        for x in 0..13 {
            let written = x >= 3 && y < 8;
            let want = if written { px(7, 8, 9, 255) } else { clear() };
            assert_eq!(img.get_pixel_unchecked(x, y), want, "({}, {})", x, y);
        }
    }
}

#[test]
fn a_shift_moves_each_pixel_by_the_offset() {
    let mut img = numbered(10, 10);
    img.shift_by(3, -2);
    assert_eq!(img.width(), 13);
    assert_eq!(img.height(), 12);
    for y in 0..12usize {
        for x in 0..13usize {
            let want = if x >= 3 && y + 2 < 10 {
                px((x - 3) as u8, (y + 2) as u8, ((x - 3) * 16 + y + 2) as u8, 255)
            } else {
                clear()
            };
            assert_eq!(img.get_pixel_unchecked(x, y), want, "({}, {})", x, y);
        }
    }
    let mut img = numbered(3, 3);
    img.shift_by(0, 0);
    assert!(same_image(&img, &numbered(3, 3)));
    let mut img = numbered(3, 3);
    img.shift_by(-1, 2);
    assert_eq!(img.width(), 4);
    assert_eq!(img.height(), 5);
    assert_eq!(img.get_pixel_unchecked(0, 2), px(1, 0, 16, 255));
    assert_eq!(img.get_pixel_unchecked(1, 4), px(2, 2, 34, 255));
    assert_eq!(img.get_pixel_unchecked(2, 2), clear());
    assert_eq!(img.get_pixel_unchecked(0, 1), clear());
}

#[test]
fn shift_offsets_round_away_from_zero() {
    let img = Image::new(10, 20);
    let n = |x: f64| Number::from_bits(x.to_bits());
    assert_eq!(img.shift_offsets(n(2.5), n(-2.5), false), (3, -3));
    assert_eq!(img.shift_offsets(n(2.4), n(-0.4), false), (2, 0));
    assert_eq!(img.shift_offsets(n(0.25), n(-0.5), true), (3, -10));
    assert_eq!(img.shift_offsets(n(0.05), n(0.0), true), (1, 0));
    assert!(img.can_shift_by(3, -3));
    assert!(!img.can_shift_by(isize::MAX, isize::MAX));
    let mut moved = filled(10, 20, px(1, 1, 1, 255));
    moved.shift_with_empty(n(0.25), n(-0.5), true);
    assert_eq!(moved.width(), 13);
    assert_eq!(moved.height(), 30);
    assert_eq!(moved.get_pixel_unchecked(3, 0), px(1, 1, 1, 255));
    assert_eq!(moved.get_pixel_unchecked(2, 0), clear());
    assert_eq!(moved.get_pixel_unchecked(3, 10), clear());
}

fn triangle() -> Kernel {
    Kernel::new(vec![1 << 30, 1 << 31, 1 << 30]).unwrap()
}

#[test]
fn a_kernel_needs_an_odd_length_and_a_sum_of_at_most_one() {
    assert!(Kernel::new(vec![1 << 32]).is_some());
    assert!(Kernel::new(vec![(1 << 32) + 1]).is_none());
    assert!(Kernel::new(vec![1 << 31, 1 << 31]).is_none());
    assert!(Kernel::new(vec![]).is_none());
    assert!(Kernel::new(vec![1 << 31, 1 << 31, 1]).is_none());
    assert!(Kernel::new(vec![u64::MAX, u64::MAX, 2]).is_none());
    let k = triangle();
    assert_eq!(k.radius(), 1);
    assert_eq!(k.len(), 3);
    assert_eq!(k.weight(1), 1 << 31);
    assert_eq!(k.clone().weight(0), 1 << 30);
}

#[test]
fn blur_with_radius_zero_is_the_identity() {
    let mut img = numbered(5, 4);
    let before = img.clone();
    img.blur(0, &triangle());
    assert!(same_image(&img, &before));
}

#[test]
fn blur_spreads_a_point() {
    let mut img = Image::new(3, 3);
    img.set_pixel_unchecked(1, 1, px(255, 128, 0, 255));
    img.blur(1, &triangle());
    assert_eq!(img.get_pixel_unchecked(1, 1), px(63, 32, 0, 63));
    assert_eq!(img.get_pixel_unchecked(0, 1), px(31, 16, 0, 31));
    assert_eq!(img.get_pixel_unchecked(1, 0), px(31, 16, 0, 31));
    assert_eq!(img.get_pixel_unchecked(0, 0), px(15, 8, 0, 15));
    assert_eq!(img.get_pixel_unchecked(2, 2), px(15, 8, 0, 15));
}

#[test]
fn blur_darkens_the_edges() {
    let mut img = filled(5, 5, px(200, 200, 200, 200));
    img.blur(1, &triangle());
    assert_eq!(img.get_pixel_unchecked(2, 2), px(200, 200, 200, 200));
    assert_eq!(img.get_pixel_unchecked(0, 2), px(150, 150, 150, 150));
    assert_eq!(img.get_pixel_unchecked(2, 0), px(150, 150, 150, 150));
    assert_eq!(img.get_pixel_unchecked(0, 0), px(112, 112, 112, 112));
    assert_eq!(img.get_pixel_unchecked(4, 4), px(112, 112, 112, 112));
    let mut row = filled(3, 1, px(200, 0, 0, 255));
    row.blur(1, &triangle());
    assert_eq!(row.get_pixel_unchecked(0, 0), px(75, 0, 0, 95));
    assert_eq!(row.get_pixel_unchecked(1, 0), px(100, 0, 0, 127));
}

#[test]
fn blur_with_a_wide_kernel() {
    let weights: Vec<u64> = vec![1 << 29, 1 << 30, 1 << 30, 1 << 30, 1 << 29];
    let kernel = Kernel::new(weights).unwrap();
    assert_eq!(kernel.radius(), 2);
    let mut img = filled(1, 1, px(255, 255, 255, 255));
    img.blur(2, &kernel);
    assert_eq!(img.get_pixel_unchecked(0, 0), px(15, 15, 15, 15));
    let mut img = filled(9, 9, px(80, 160, 240, 255));
    img.blur(2, &kernel);
    assert_eq!(img.get_pixel_unchecked(4, 4), px(80, 160, 240, 255));
    assert_eq!(img.get_pixel_unchecked(0, 4), px(50, 100, 150, 159));
    assert_eq!(img.get_pixel_unchecked(1, 4), px(70, 140, 210, 223));
}
