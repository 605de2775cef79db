use term_image::args::parse_rgb_triplet;
use term_image::color::Rgb;

#[test]
fn plain_triplet() {
    assert_eq!(parse_rgb_triplet("1,2,3"), Some(Rgb((1, 2, 3))));
    assert_eq!(parse_rgb_triplet("255,0,+7"), Some(Rgb((255, 0, 7))));
    assert_eq!(parse_rgb_triplet("007,0,0"), Some(Rgb((7, 0, 0))));
}

#[test]
fn invalid_fields_are_skipped() {
    assert_eq!(parse_rgb_triplet("1,x,2,3"), Some(Rgb((1, 2, 3))));
    assert_eq!(parse_rgb_triplet("256,1,2,3"), Some(Rgb((1, 2, 3))));
    assert_eq!(parse_rgb_triplet(",,4,5,6,7"), Some(Rgb((4, 5, 6))));
}

#[test]
fn too_few_fields() {
    assert_eq!(parse_rgb_triplet(""), None);
    assert_eq!(parse_rgb_triplet("1,2"), None);
    assert_eq!(parse_rgb_triplet("1,2,-3"), None);
    assert_eq!(parse_rgb_triplet("1,2,+"), None);
    assert_eq!(parse_rgb_triplet("1, 2, 3"), None);
}
