use image::codecs::jpeg::JpegEncoder;
use image::codecs::png::PngEncoder;
use image::{ExtendedColorType, ImageEncoder};
use markc::domain::{MetadataPolicy, OutputRules};
use markc::metadata::{
    apply_metadata_policy, description_format, jpeg_exif_description_segment,
    read_exif_image_description, read_image_description, rewrite_jpeg_description,
    png_text_chunk, rewrite_png_description, write_description, DescriptionFormat,
};

fn png_image(width: u32, height: u32, pixel: [u8; 4]) -> Vec<u8> {
    let mut raw = Vec::new();
    for _ in 0..(width * height) {
        raw.extend_from_slice(&pixel);
    }
    let mut bytes = Vec::new();
    PngEncoder::new(&mut bytes)
        .write_image(&raw, width, height, ExtendedColorType::Rgba8)
        .unwrap();
    bytes
}

fn jpeg_image(width: u32, height: u32, pixel: [u8; 3]) -> Vec<u8> {
    let mut raw = Vec::new();
    for _ in 0..(width * height) {
        raw.extend_from_slice(&pixel);
    }
    let mut bytes = Vec::new();
    JpegEncoder::new(&mut bytes)
        .encode(&raw, width, height, ExtendedColorType::Rgb8)
        .unwrap();
    bytes
}

fn contains(haystack: &[u8], needle: &[u8]) -> bool {
    haystack.windows(needle.len()).any(|window| window == needle)
}

fn export_with_policy(
    format: DescriptionFormat,
    path: &str,
    bytes: &[u8],
    rules: &OutputRules,
    source_description: Option<&str>,
) -> Result<Vec<u8>, String> {
    match apply_metadata_policy(path, rules, source_description)? {
        Some(write) => {
            assert_eq!(write.format, format);
            write_description(write.format, bytes, &write.text)
        }
        None => Ok(bytes.to_vec()),
    }
}

#[test]
fn writes_png_description_text_chunk() {
    let bytes = png_image(16, 16, [1, 2, 3, 255]);
    let out = rewrite_png_description(&bytes, "custom description").unwrap();
    assert!(contains(&out, b"Description\0custom description"));
    assert_eq!(
        read_image_description(DescriptionFormat::Png, &out).unwrap(),
        Some("custom description".to_string())
    );
}

#[test]
fn writes_jpeg_image_description_tag() {
    let bytes = jpeg_image(16, 16, [1, 2, 3]);
    let out = rewrite_jpeg_description(&bytes, "custom description").unwrap();
    assert!(contains(&out, b"custom description"));
    assert_eq!(
        read_image_description(DescriptionFormat::Jpeg, &out).unwrap(),
        Some("custom description".to_string())
    );
}

#[test]
fn rewrites_png_description_metadata() {
    let bytes = png_image(44, 44, [10, 20, 30, 255]);
    let mut rules = OutputRules::default();
    rules.metadata_policy = MetadataPolicy::RewriteDescription;
    rules.description = "fresh description".to_string();
    let out = export_with_policy(DescriptionFormat::Png, "out/sample_watermark.png", &bytes, &rules, None)
        .unwrap();
    assert!(contains(&out, b"Description\0fresh description"));
}

#[test]
fn rewrites_jpeg_description_metadata() {
    let bytes = jpeg_image(44, 44, [10, 20, 30]);
    let mut rules = OutputRules::default();
    rules.metadata_policy = MetadataPolicy::RewriteDescription;
    rules.description = "fresh jpeg description".to_string();
    let out = export_with_policy(DescriptionFormat::Jpeg, "out/sample_watermark.jpg", &bytes, &rules, None)
        .unwrap();
    assert!(contains(&out, b"fresh jpeg description"));
}

#[test]
fn clears_png_description_metadata() {
    let source = png_image(44, 44, [10, 20, 30, 255]);
    let mut source_rules = OutputRules::default();
    source_rules.metadata_policy = MetadataPolicy::RewriteDescription;
    source_rules.description = "source png description".to_string();
    let source = export_with_policy(DescriptionFormat::Png, "sample.png", &source, &source_rules, None)
        .unwrap();
    assert_eq!(
        read_image_description(DescriptionFormat::Png, &source).unwrap(),
        Some("source png description".to_string())
    );

    let rules = OutputRules::default();
    assert!(apply_metadata_policy("out/sample_watermark.png", &rules, None)
        .unwrap()
        .is_none());
    let output = png_image(44, 44, [10, 20, 30, 255]);
    assert_eq!(read_image_description(DescriptionFormat::Png, &output).unwrap(), None);
}

#[test]
fn clears_jpeg_description_metadata() {
    let source = jpeg_image(44, 44, [10, 20, 30]);
    let mut source_rules = OutputRules::default();
    source_rules.metadata_policy = MetadataPolicy::RewriteDescription;
    source_rules.description = "source jpeg description".to_string();
    let source = export_with_policy(DescriptionFormat::Jpeg, "sample.jpg", &source, &source_rules, None)
        .unwrap();
    assert_eq!(
        read_image_description(DescriptionFormat::Jpeg, &source).unwrap(),
        Some("source jpeg description".to_string())
    );

    let mut rules = OutputRules::default();
    rules.metadata_policy = MetadataPolicy::ClearDescription;
    assert!(apply_metadata_policy("out/sample_watermark.jpg", &rules, None)
        .unwrap()
        .is_none());
    let output = jpeg_image(44, 44, [10, 20, 30]);
    assert_eq!(read_image_description(DescriptionFormat::Jpeg, &output).unwrap(), None);
}

#[test]
fn preserves_png_description_metadata() {
    let source = png_image(44, 44, [10, 20, 30, 255]);
    let mut source_rules = OutputRules::default();
    source_rules.metadata_policy = MetadataPolicy::RewriteDescription;
    source_rules.description = "source png description".to_string();
    let source = export_with_policy(DescriptionFormat::Png, "sample.png", &source, &source_rules, None)
        .unwrap();
    let description = read_image_description(DescriptionFormat::Png, &source).unwrap();

    let mut rules = OutputRules::default();
    rules.metadata_policy = MetadataPolicy::Preserve;
    let output = png_image(44, 44, [10, 20, 30, 255]);
    let output = export_with_policy(
        DescriptionFormat::Png,
        "out/sample_watermark.png",
        &output,
        &rules,
        description.as_deref(),
    )
    .unwrap();
    assert_eq!(
        read_image_description(DescriptionFormat::Png, &output).unwrap(),
        Some("source png description".to_string())
    );
}

#[test]
fn preserves_jpeg_description_metadata() {
    let source = jpeg_image(44, 44, [10, 20, 30]);
    let mut source_rules = OutputRules::default();
    source_rules.metadata_policy = MetadataPolicy::RewriteDescription;
    source_rules.description = "source jpeg description".to_string();
    let source = export_with_policy(DescriptionFormat::Jpeg, "sample.jpg", &source, &source_rules, None)
        .unwrap();
    let description = read_image_description(DescriptionFormat::Jpeg, &source).unwrap();

    let mut rules = OutputRules::default();
    rules.metadata_policy = MetadataPolicy::Preserve;
    let output = jpeg_image(44, 44, [10, 20, 30]);
    let output = export_with_policy(
        DescriptionFormat::Jpeg,
        "out/sample_watermark.jpg",
        &output,
        &rules,
        description.as_deref(),
    )
    .unwrap();
    assert_eq!(
        read_image_description(DescriptionFormat::Jpeg, &output).unwrap(),
        Some("source jpeg description".to_string())
    );
}

#[test]
fn metadata_rewrite_without_description_is_refused() {
    let mut rules = OutputRules::default();
    rules.metadata_policy = MetadataPolicy::RewriteDescription;
    rules.description = "   ".to_string();
    let error = apply_metadata_policy("out/sample_watermark.png", &rules, None).unwrap_err();
    assert!(error.contains("Description is required"));
}

#[test]
fn description_round_trip_replaces_earlier_description() {
    let bytes = png_image(8, 8, [0, 0, 0, 255]);
    let first = rewrite_png_description(&bytes, "first").unwrap();
    let second = rewrite_png_description(&first, "second").unwrap();
    assert!(!contains(&second, b"first"));
    assert_eq!(
        read_image_description(DescriptionFormat::Png, &second).unwrap(),
        Some("second".to_string())
    );

    let bytes = jpeg_image(8, 8, [0, 0, 0]);
    let first = rewrite_jpeg_description(&bytes, "first").unwrap();
    let second = rewrite_jpeg_description(&first, "second").unwrap();
    assert!(!contains(&second, b"first"));
    assert_eq!(
        read_image_description(DescriptionFormat::Jpeg, &second).unwrap(),
        Some("second".to_string())
    );
}

#[test]
fn short_jpeg_description_is_stored_inline() {
    let bytes = jpeg_image(8, 8, [0, 0, 0]);
    let out = rewrite_jpeg_description(&bytes, "abc").unwrap();
    assert_eq!(&out[..2], &[0xff, 0xd8]);
    assert_eq!(&out[2..4], &[0xff, 0xe1]);
    assert_eq!(&out[4..6], &[0, 34]);
    assert_eq!(
        read_image_description(DescriptionFormat::Jpeg, &out).unwrap(),
        Some("abc".to_string())
    );
}

#[test]
fn jpeg_description_drops_nul_characters() {
    let bytes = jpeg_image(8, 8, [0, 0, 0]);
    let out = rewrite_jpeg_description(&bytes, "a\0b\0c").unwrap();
    assert_eq!(
        read_image_description(DescriptionFormat::Jpeg, &out).unwrap(),
        Some("abc".to_string())
    );
}

#[test]
fn built_exif_segment_reads_back_without_nul() {
    for d in ["abc", "a\0b", "a longer description \u{e9}\0!", ""] {
        let seg = jpeg_exif_description_segment(d).unwrap();
        assert_eq!(read_exif_image_description(&seg[10..]), Some(d.replace('\0', "")));
    }
    assert_eq!(read_exif_image_description(b"MM\0\x2a\0\0\0\x08\0\0\0\0"), None);
    assert_eq!(read_exif_image_description(b"XX\0\x2a\0\0\0\x08\0\0\0\0\0\0"), None);
}

#[test]
fn oversized_jpeg_description_is_rejected() {
    let bytes = jpeg_image(8, 8, [0, 0, 0]);
    let longest = "x".repeat(65500);
    assert!(rewrite_jpeg_description(&bytes, &longest).is_ok());
    let too_long = "x".repeat(65501);
    assert_eq!(
        rewrite_jpeg_description(&bytes, &too_long).unwrap_err(),
        "Description metadata is too large for JPEG EXIF"
    );
}

#[test]
fn invalid_files_are_rejected() {
    assert_eq!(
        read_image_description(DescriptionFormat::Jpeg, b"not a jpeg").unwrap_err(),
        "Source is not a valid JPEG file"
    );
    assert_eq!(
        read_image_description(DescriptionFormat::Png, b"not a png").unwrap_err(),
        "Source is not a valid PNG file"
    );
    assert_eq!(
        rewrite_jpeg_description(b"xx", "d").unwrap_err(),
        "Output is not a valid JPEG file"
    );
    assert_eq!(
        rewrite_png_description(b"xx", "d").unwrap_err(),
        "Output is not a valid PNG file"
    );
    let mut broken = png_image(4, 4, [0, 0, 0, 255]);
    broken.truncate(30);
    assert_eq!(
        read_image_description(DescriptionFormat::Png, &broken).unwrap_err(),
        "PNG metadata chunks are malformed"
    );
    assert_eq!(
        rewrite_png_description(&broken, "d").unwrap_err(),
        "PNG metadata chunks are malformed"
    );
}

#[test]
fn png_without_end_chunk_gets_no_description() {
    let mut bytes = png_image(4, 4, [0, 0, 0, 255]);
    bytes.truncate(bytes.len() - 12);
    let out = rewrite_png_description(&bytes, "lost").unwrap();
    assert_eq!(read_image_description(DescriptionFormat::Png, &out).unwrap(), None);
}

#[test]
fn description_format_follows_extension() {
    assert_eq!(description_format("a/b.JPG"), Some(DescriptionFormat::Jpeg));
    assert_eq!(description_format("a/b.jpeg"), Some(DescriptionFormat::Jpeg));
    assert_eq!(description_format("a/b.Png"), Some(DescriptionFormat::Png));
    assert_eq!(description_format("a/b.gif"), None);
    assert_eq!(description_format("a/b"), None);
}

#[test]
fn png_text_chunk_checks_keyword_and_crc() {
    let chunk = png_text_chunk(b"Title", b"x").unwrap();
    assert_eq!(&chunk[..4], &[0, 0, 0, 7]);
    assert_eq!(&chunk[4..8], b"tEXt");
    assert_eq!(&chunk[8..15], b"Title\0x");
    let crc = markc::bytes::crc32(b"tEXtTitle\0x");
    assert_eq!(&chunk[15..], &crc.to_be_bytes());
    assert!(png_text_chunk(b"", b"x").is_err());
    assert!(png_text_chunk(b"a\0b", b"x").is_err());
    assert!(png_text_chunk(&[b'k'; 80], b"x").is_err());
}

#[test]
fn crc32_matches_check_value() {
    assert_eq!(markc::bytes::crc32(b"123456789"), 0xcbf4_3926);
    assert_eq!(markc::bytes::crc32(b""), 0);
    assert_eq!(markc::bytes::crc32(b"IEND"), 0xae42_6082);
}

#[test]
fn metadata_policy_decisions() {
    let mut rules = OutputRules::default();
    rules.metadata_policy = MetadataPolicy::Preserve;
    assert!(apply_metadata_policy("x.png", &rules, Some("  ")).unwrap().is_none());
    assert!(apply_metadata_policy("x.png", &rules, None).unwrap().is_none());
    let w = apply_metadata_policy("x.png", &rules, Some(" kept ")).unwrap().unwrap();
    assert_eq!(w.format, DescriptionFormat::Png);
    assert_eq!(w.text, " kept ");
    assert!(apply_metadata_policy("x.webp", &rules, Some("kept")).unwrap().is_none());

    rules.metadata_policy = MetadataPolicy::RewriteDescription;
    rules.description = "  new text \n".to_string();
    let w = apply_metadata_policy("x.JPEG", &rules, None).unwrap().unwrap();
    assert_eq!(w.format, DescriptionFormat::Jpeg);
    assert_eq!(w.text, "new text");
    assert_eq!(
        apply_metadata_policy("x.png", &{
            let mut r = OutputRules::default();
            r.metadata_policy = MetadataPolicy::RewriteDescription;
            r
        }, None)
        .unwrap_err(),
        "Description is required when metadata rewrite is selected"
    );
}

#[test]
fn png_description_keeps_nul_characters() {
    let bytes = png_image(4, 4, [0, 0, 0, 255]);
    let out = rewrite_png_description(&bytes, "a\0b").unwrap();
    assert_eq!(
        read_image_description(DescriptionFormat::Png, &out).unwrap(),
        Some("a\0b".to_string())
    );
}

#[test]
fn jpeg_rewrite_twice_can_drop_a_short_app1_segment() {
    let mut bytes = vec![0xff, 0xd8];
    bytes.extend_from_slice(&[0xff, 0xe1, 0x00, 0x02]);
    bytes.extend_from_slice(&[0xff, 0xe1, 0x00, 0x08, b'E', b'x', b'i', b'f', 0, 0]);
    bytes.extend_from_slice(&[b'E', b'x', b'i', b'f', 0, 0]);

    let once = rewrite_jpeg_description(&bytes, "second").unwrap();
    let first = rewrite_jpeg_description(&bytes, "first").unwrap();
    let twice = rewrite_jpeg_description(&first, "second").unwrap();

    assert!(contains(&once, &[0xff, 0xe1, 0x00, 0x02, b'E']));
    assert!(!contains(&twice, &[0xff, 0xe1, 0x00, 0x02]));
    assert_eq!(once.len(), twice.len() + 4);
    assert_eq!(
        read_image_description(DescriptionFormat::Jpeg, &twice).unwrap(),
        Some("second".to_string())
    );
}

#[test]
fn jpeg_rewrite_twice_equals_once_for_ordinary_files() {
    let bytes = jpeg_image(8, 8, [9, 9, 9]);
    let once = rewrite_jpeg_description(&bytes, "second").unwrap();
    let first = rewrite_jpeg_description(&bytes, "first").unwrap();
    let twice = rewrite_jpeg_description(&first, "second").unwrap();
    assert_eq!(once, twice);

    let bytes = png_image(8, 8, [9, 9, 9, 255]);
    let once = rewrite_png_description(&bytes, "second").unwrap();
    let first = rewrite_png_description(&bytes, "first").unwrap();
    let twice = rewrite_png_description(&first, "second").unwrap();
    assert_eq!(once, twice);
}
