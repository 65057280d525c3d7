use collage::layout::canvas_dims;
use collage::layout::normalized_dims;
use collage::layout::resolve_target;
use collage::options::Orientation;

#[test]
fn target_prefers_explicit_value() {
    assert_eq!(resolve_target(Some(640), 100), 640);
    assert_eq!(resolve_target(None, 100), 100);
}

#[test]
fn exact_resize_ignores_aspect_ratio() {
    // preservation disabled: every image gets exactly the target size
    assert_eq!(normalized_dims(false, Orientation::Portrait, 300, 200, 999, 1), (300, 200));
    assert_eq!(normalized_dims(false, Orientation::Landscape, 300, 200, 7, 7), (300, 200));
}

#[test]
fn portrait_preserving_pins_width() {
    // height = floor(target width * source height / source width)
    assert_eq!(normalized_dims(true, Orientation::Portrait, 100, 999, 200, 100), (100, 50));
    assert_eq!(normalized_dims(true, Orientation::Portrait, 100, 999, 3, 1), (100, 33));
}

#[test]
fn landscape_preserving_pins_height() {
    // width = floor(target height * source width / source height)
    assert_eq!(normalized_dims(true, Orientation::Landscape, 999, 50, 200, 100), (100, 50));
    assert_eq!(normalized_dims(true, Orientation::Landscape, 999, 10, 100, 3), (333, 10));
}

#[test]
fn canvas_single_image_has_no_spacing_term() {
    // Portrait, n=1: width = tw + 2*left, height = h0 + 2*top
    let dims = vec![(100u32, 80u32)];
    assert_eq!(canvas_dims(Orientation::Portrait, &dims, 100, 80, 10, 5, 7), Some((110, 94)));
}

#[test]
fn canvas_portrait_sums_heights_and_spacing() {
    let dims = vec![(100u32, 80u32), (100u32, 70u32), (100u32, 60u32)];
    // height = 80+70+60 + 10*2 + 2*7 = 244, width = 100 + 2*5 = 110
    assert_eq!(canvas_dims(Orientation::Portrait, &dims, 100, 0, 10, 5, 7), Some((110, 244)));
}

#[test]
fn canvas_landscape_sums_widths_and_spacing() {
    let dims = vec![(30u32, 50u32), (40u32, 50u32)];
    // width = 30+40 + 10*1 + 2*5 = 90, height = 50 + 2*7 = 64
    assert_eq!(canvas_dims(Orientation::Landscape, &dims, 0, 50, 10, 5, 7), Some((90, 64)));
}

#[test]
fn canvas_rejects_dimension_beyond_u32() {
    let dims = vec![(u32::MAX, u32::MAX), (u32::MAX, u32::MAX)];
    assert_eq!(canvas_dims(Orientation::Portrait, &dims, 100, 0, 0, 0, 0), None);
}
