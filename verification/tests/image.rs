use webshotd::error::Error;
use webshotd::image::{split_by_height, Dimensions, ImageFormat, Region};

fn heights(width: u32, height: u32, chunk_height: u32) -> Vec<u32> {
    split_by_height(Ok(Dimensions { width, height }), chunk_height)
        .expect("split failed")
        .iter()
        .map(|r| r.height)
        .collect()
}

#[test]
fn test_split_by_height() {
    // height > chunk height
    assert_eq!(heights(200, 500, 200), [200, 200, 100]);

    // height < chunk height
    assert_eq!(heights(200, 500, 600), [500]);

    // height == chunk height
    assert_eq!(heights(200, 500, 500), [500]);
}

#[test]
fn suffix_of_each_format() {
    assert_eq!(ImageFormat::Jpeg.suffix(), ".jpg");
    assert_eq!(ImageFormat::Png.suffix(), ".png");
    assert_eq!(ImageFormat::Webp.suffix(), ".webp");
}

#[test]
fn split_regions_tile_the_image() {
    let plan = split_by_height(Ok(Dimensions { width: 200, height: 500 }), 200).unwrap();
    assert_eq!(
        plan,
        vec![
            Region { left: 0, top: 0, width: 200, height: 200 },
            Region { left: 0, top: 200, width: 200, height: 200 },
            Region { left: 0, top: 400, width: 200, height: 100 },
        ]
    );
    let total: u32 = plan.iter().map(|r| r.height).sum();
    assert_eq!(total, 500);
}

#[test]
fn split_into_single_rows() {
    assert_eq!(heights(3, 4, 1), [1, 1, 1, 1]);
}

#[test]
fn split_exact_multiple() {
    assert_eq!(heights(10, 600, 200), [200, 200, 200]);
}

#[test]
fn split_tall_image_count_rounds_up() {
    let plan = split_by_height(Ok(Dimensions { width: 1, height: 1001 }), 10).unwrap();
    assert_eq!(plan.len(), 101);
    assert_eq!(plan[100], Region { left: 0, top: 1000, width: 1, height: 1 });
}

#[test]
fn split_rejects_zero_chunk_height() {
    let err = split_by_height(Ok(Dimensions { width: 200, height: 500 }), 0).unwrap_err();
    assert_eq!(err, Error::Image("chunk height must be > 0".to_string()));
}

#[test]
fn split_checks_chunk_height_before_decoding() {
    let err = split_by_height(Err(Error::Libvips("bad input".to_string())), 0).unwrap_err();
    assert_eq!(err, Error::Image("chunk height must be > 0".to_string()));
}

#[test]
fn split_passes_on_decoding_error() {
    let err = split_by_height(Err(Error::Libvips("bad input".to_string())), 10).unwrap_err();
    assert_eq!(err, Error::Libvips("bad input".to_string()));
}

#[test]
fn split_rejects_empty_image() {
    let msg = Error::Image("image width and height must be > 0".to_string());
    assert_eq!(split_by_height(Ok(Dimensions { width: 0, height: 500 }), 10).unwrap_err(), msg);
    assert_eq!(split_by_height(Ok(Dimensions { width: 200, height: 0 }), 10).unwrap_err(), msg);
}

#[test]
fn split_full_u32_height() {
    let plan = split_by_height(Ok(Dimensions { width: 1, height: u32::MAX }), u32::MAX / 2).unwrap();
    let hs: Vec<u32> = plan.iter().map(|r| r.height).collect();
    assert_eq!(hs, [u32::MAX / 2, u32::MAX / 2, 1]);
    assert_eq!(plan[2].top, u32::MAX - 1);
}
