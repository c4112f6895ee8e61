use markc::color::{font_candidates, parse_hex_color};
use markc::preview::{data_url, encode_base64, preview_data_url, preview_mime_type, rendered_preview_data_url};

#[test]
fn encodes_base64_with_padding() {
    assert_eq!(encode_base64(b""), "");
    assert_eq!(encode_base64(b"f"), "Zg==");
    assert_eq!(encode_base64(b"fo"), "Zm8=");
    assert_eq!(encode_base64(b"foo"), "Zm9v");
    assert_eq!(encode_base64(b"hello"), "aGVsbG8=");
}

#[test]
fn base64_covers_the_alphabet() {
    assert_eq!(encode_base64(&[0xfb, 0xff, 0xbf]), "+/+/");
    assert_eq!(encode_base64(&[0, 16, 131]), "ABCD");
    assert_eq!(encode_base64(b"foobar").len(), 8);
    assert_eq!(encode_base64(b"foobarx").len(), 12);
}

#[test]
fn preview_urls() {
    assert_eq!(preview_mime_type("a.PNG"), "image/png");
    assert_eq!(preview_mime_type("a.jpg"), "image/jpeg");
    assert_eq!(preview_mime_type("a"), "image/jpeg");
    assert_eq!(preview_data_url("a.png", b"fo"), "data:image/png;base64,Zm8=");
    assert_eq!(data_url("text/plain", b"f"), "data:text/plain;base64,Zg==");
}

#[test]
fn rendered_preview_is_a_png_data_url() {
    let raw = vec![255u8; 2 * 3 * 4];
    let url = rendered_preview_data_url(&raw, 2, 3).unwrap();
    assert!(url.starts_with("data:image/png;base64,iVBORw0KGgo"));
    let err = rendered_preview_data_url(&[], 0, 0).unwrap_err();
    assert!(err.starts_with("Could not encode preview image: "));
    assert!(rendered_preview_data_url(&[], 0, 5).is_err());
    assert!(rendered_preview_data_url(&[], 5, 0).is_err());
    assert!(rendered_preview_data_url(&[0, 0, 0, 0], 1, 1).is_ok());
}

#[test]
fn base64_of_whole_groups_concatenates() {
    let a = b"foobar";
    let b = b"hello";
    let joined: Vec<u8> = a.iter().chain(b.iter()).copied().collect();
    assert_eq!(encode_base64(&joined), encode_base64(a) + &encode_base64(b));
    assert_eq!(encode_base64(&joined), "Zm9vYmFyaGVsbG8=");
}

#[test]
fn base64_padding_sits_only_at_the_end() {
    for n in 0..10usize {
        let bytes: Vec<u8> = (0..n).map(|i| (i * 61) as u8).collect();
        let e = encode_base64(&bytes);
        let pad = (3 - n % 3) % 3;
        assert_eq!(e.len(), 4 * ((n + 2) / 3));
        for (i, ch) in e.chars().enumerate() {
            assert_eq!(ch == '=', i >= e.len() - pad);
        }
    }
}

#[test]
fn parses_hex_colors() {
    assert_eq!(parse_hex_color("#ffffff").unwrap(), [255, 255, 255]);
    assert_eq!(parse_hex_color("  ##ff6600 ").unwrap(), [255, 102, 0]);
    assert_eq!(parse_hex_color("0A0b0C").unwrap(), [10, 11, 12]);
    assert_eq!(parse_hex_color("+f+f+f").unwrap(), [15, 15, 15]);
    assert_eq!(
        parse_hex_color("#fff").unwrap_err(),
        "Invalid color '#fff'. Expected #RRGGBB."
    );
    assert_eq!(parse_hex_color("#gg0000").unwrap_err(), "invalid digit found in string");
    assert!(parse_hex_color("ééé").is_err());
}

#[test]
fn font_candidates_put_family_first() {
    let fonts = font_candidates("  Georgia ");
    assert_eq!(fonts.len(), 9);
    assert_eq!(fonts[0], "/System/Library/Fonts/Supplemental/Georgia.ttf");
    assert_eq!(fonts[4], "/System/Library/Fonts/Supplemental/Arial.ttf");
    let fonts = font_candidates("Unknown Family");
    assert_eq!(fonts.len(), 5);
    assert_eq!(fonts[4], "/usr/share/fonts/truetype/dejavu/DejaVuSans.ttf");
}

#[test]
fn overlapping_text_pixels_keep_the_stronger_alpha() {
    let mut pixel = [255u8, 255, 255, 230];
    let alpha = 0.08f32;
    let alpha_byte = (alpha * 255.0).round().clamp(0.0, 255.0) as u8;

    markc::color::write_text_layer_pixel(&mut pixel, [255, 255, 255], alpha_byte);

    assert_eq!(pixel, [255, 255, 255, 230]);
}

#[test]
fn text_pixel_takes_color_and_stronger_alpha() {
    let mut pixel = [1u8, 2, 3, 10];
    markc::color::write_text_layer_pixel(&mut pixel, [200, 100, 50], 99);
    assert_eq!(pixel, [200, 100, 50, 99]);
}
