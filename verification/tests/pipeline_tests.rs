use collage::pipeline::make_collage;
use collage::pipeline::prepare_image;
use collage::color::Color;
use collage::img::Img;
use collage::options::Options;
use collage::options::Orientation;
use image::GenericImageView;

const RED: Color = Color { r: 255, g: 0, b: 0 };
const WHITE: Color = Color { r: 255, g: 255, b: 255 };

fn options(orientation: Orientation, spacing: u32, preserve: bool) -> Options {
    Options {
        image_width: None,
        image_height: None,
        orientation,
        top_margin: 0,
        left_margin: 0,
        spacing,
        background_color: WHITE,
        preserve_aspect_ratio: preserve,
    }
}

#[test]
fn two_red_squares_stack_into_a_column() {
    // two 100x100 red images, Portrait, no margins, spacing 10, no
    // preservation: canvas 100x210, first image at (0,0), second at (0,110)
    let images = vec![Img::solid(100, 100, RED), Img::solid(100, 100, RED)];
    let canvas = make_collage(images, &options(Orientation::Portrait, 10, false)).unwrap();
    assert_eq!(canvas.width(), 100);
    assert_eq!(canvas.height(), 210);

    let bytes = canvas.encode_png().unwrap();
    let decoded = image::load_from_memory(&bytes).unwrap();
    assert_eq!(decoded.dimensions(), (100, 210));
    // inside the first image
    assert_eq!(decoded.get_pixel(0, 0), image::Rgba([255, 0, 0, 255]));
    assert_eq!(decoded.get_pixel(50, 99), image::Rgba([255, 0, 0, 255]));
    // in the spacing strip: background
    assert_eq!(decoded.get_pixel(50, 105), image::Rgba([255, 255, 255, 255]));
    // inside the second image, which starts at y = 110
    assert_eq!(decoded.get_pixel(0, 110), image::Rgba([255, 0, 0, 255]));
    assert_eq!(decoded.get_pixel(99, 209), image::Rgba([255, 0, 0, 255]));
}

#[test]
fn landscape_preserving_normalizes_wide_image() {
    // Landscape, preservation on, target height 50, source 200x100:
    // normalized to 100x50
    let img = Img::solid(200, 100, RED);
    let mut opts = options(Orientation::Landscape, 0, true);
    opts.image_height = Some(50);
    let prepared = prepare_image(&img, 200, 50, &opts);
    assert_eq!(prepared.width(), 100);
    assert_eq!(prepared.height(), 50);
}

#[test]
fn landscape_collage_of_one_preserved_image() {
    let images = vec![Img::solid(200, 100, RED)];
    let mut opts = options(Orientation::Landscape, 20, true);
    opts.image_height = Some(50);
    let canvas = make_collage(images, &opts).unwrap();
    assert_eq!(canvas.width(), 100);
    assert_eq!(canvas.height(), 50);
}

#[test]
fn exact_stretch_applies_target_to_every_image() {
    // preservation off: each image is exactly the target size, whatever its
    // own aspect ratio; the first image's size is the default target
    let images = vec![Img::solid(40, 30, RED), Img::solid(123, 7, RED)];
    let canvas = make_collage(images, &options(Orientation::Portrait, 0, false)).unwrap();
    assert_eq!(canvas.width(), 40);
    assert_eq!(canvas.height(), 60);
}

#[test]
fn margins_surround_the_collage() {
    let images = vec![Img::solid(10, 10, RED)];
    let mut opts = options(Orientation::Portrait, 0, false);
    opts.top_margin = 4;
    opts.left_margin = 3;
    let canvas = make_collage(images, &opts).unwrap();
    assert_eq!(canvas.width(), 16);
    assert_eq!(canvas.height(), 18);

    let bytes = canvas.encode_png().unwrap();
    let decoded = image::load_from_memory(&bytes).unwrap();
    // margin is background, interior is the image
    assert_eq!(decoded.get_pixel(0, 0), image::Rgba([255, 255, 255, 255]));
    assert_eq!(decoded.get_pixel(3, 4), image::Rgba([255, 0, 0, 255]));
    assert_eq!(decoded.get_pixel(12, 13), image::Rgba([255, 0, 0, 255]));
    assert_eq!(decoded.get_pixel(13, 14), image::Rgba([255, 255, 255, 255]));
}

#[test]
fn decode_roundtrip_keeps_dimensions() {
    let bytes = Img::solid(33, 21, RED).encode_png().unwrap();
    let img = Img::decode(&bytes).unwrap();
    assert_eq!(img.width(), 33);
    assert_eq!(img.height(), 21);
    assert!(Img::decode(&[0u8, 1, 2, 3]).is_none());
}
