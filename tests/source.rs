use term_image::ascii::can_fit_ascii;
use term_image::color::Rgba;
use term_image::raster::{can_resize, Image};
use term_image::source::ImageSource;

#[test]
fn gif_names_have_frames() {
    assert!(ImageSource::new("cat.gif".to_string()).has_frames());
    assert!(!ImageSource::new("cat.png".to_string()).has_frames());
    assert!(!ImageSource::new("gif".to_string()).has_frames());
}

#[test]
fn stdin_has_no_path() {
    let src = ImageSource::new("-".to_string());
    assert!(!src.has_path());
    assert_eq!(src.path(), "-");
    assert!(!ImageSource::new("/no/such/file/here.png".to_string()).has_path());
}

#[test]
fn image_from_bytes() {
    let img = Image::from_rgba_bytes(1, 2, &vec![1, 2, 3, 4, 5, 6, 7, 8]).unwrap();
    assert_eq!(img.pixels.len(), 2);
    assert_eq!(img.pixels[1].r, 5);
    assert_eq!(img.pixels[1].a, 8);
    assert!(Image::from_rgba_bytes(2, 2, &vec![0; 8]).is_none());
    assert!(Image::from_rgba_bytes(1, 1, &vec![0; 5]).is_none());
}

#[test]
fn resize_checks() {
    let p = Rgba { r: 0, g: 0, b: 0, a: 255 };
    let img = Image { width: 2, height: 2, pixels: vec![p; 4] };
    assert!(can_resize(&img, (4, 8), (80, 25)));
    assert!(can_fit_ascii(&img, (80, 25)));
    assert!(!can_resize(&img, (0, 8), (80, 25)));
    let bad = Image { width: 3, height: 2, pixels: vec![p; 4] };
    assert!(!can_resize(&bad, (4, 8), (80, 25)));
    assert!(!can_fit_ascii(&bad, (80, 25)));
    let empty = Image { width: 0, height: 0, pixels: Vec::new() };
    assert!(!can_resize(&empty, (4, 8), (80, 25)));
    assert!(!can_resize(&img, (u32::MAX, 8), (2, 25)));
}
