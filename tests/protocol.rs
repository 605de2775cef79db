use term_image::color::Rgba;
use term_image::protocol::{decimal_bytes, print_cmd_payload, Kitty, KittyOptions};
use term_image::raster::Image;

fn cmd(k: &str, v: &str) -> (Vec<u8>, Vec<u8>) {
    (k.as_bytes().to_vec(), v.as_bytes().to_vec())
}

#[test]
fn short_payload_is_one_sequence() {
    let out = print_cmd_payload(&vec![cmd("a", "T"), cmd("f", "100")], &b"abc".to_vec());
    assert_eq!(out, b"\x1b_Ga=T,f=100,m=0;abc\x1b\\".to_vec());
}

#[test]
fn long_payload_is_chunked() {
    let payload = vec![b'x'; 2048 + 5];
    let out = print_cmd_payload(&vec![cmd("a", "T")], &payload);
    let mut expected = b"\x1b_Ga=T,m=1;".to_vec();
    expected.extend(vec![b'x'; 2048]);
    expected.extend(b"\x1b\\\x1b_Ga=T,m=0;xxxxx\x1b\\");
    assert_eq!(out, expected);
}

#[test]
fn exact_chunk_is_single() {
    let payload = vec![b'y'; 2048];
    let out = print_cmd_payload(&vec![cmd("a", "T")], &payload);
    assert_eq!(out.len(), 3 + 3 + 5 + 2048 + 2);
}

#[test]
fn decimal_numbers() {
    assert_eq!(decimal_bytes(0), b"0".to_vec());
    assert_eq!(decimal_bytes(7), b"7".to_vec());
    assert_eq!(decimal_bytes(4294967295), b"4294967295".to_vec());
}

#[test]
fn path_is_base64_encoded() {
    let out = Kitty::path(&b"/tmp/a.png".to_vec());
    assert_eq!(out, b"\x1b_Gf=100,a=T,t=f,m=0;L3RtcC9hLnBuZw==\x1b\\".to_vec());
}

#[test]
fn image_is_sent_as_rgba() {
    let img = Image { width: 1, height: 1, pixels: vec![Rgba { r: 1, g: 2, b: 3, a: 4 }] };
    let out = Kitty::img(&KittyOptions { size: (1, 1) }, &img);
    assert_eq!(out, b"\x1b_Gf=32,a=T,i=0,t=d,s=1,v=1,m=0;AQIDBA==\x1b\\".to_vec());
}
