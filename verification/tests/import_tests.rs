use markc::domain::{ImageStatus, ImportSkipReason};
use markc::import::{
    build_image_asset, classify_import_path, folder_precheck, import_precheck,
    is_supported_extension, skip, stable_id, ImportStep,
};

#[test]
fn accepts_uppercase_supported_extensions() {
    assert!(is_supported_extension("/tmp/uppercase/PHOTO.JPG"));
    assert!(is_supported_extension("/tmp/uppercase/PHOTO.PNG"));
}

#[test]
fn rejects_unsupported_extensions() {
    assert!(!is_supported_extension("photo.gif"));
    assert!(!is_supported_extension("photo"));
    assert!(is_supported_extension("photo.JpEg"));
}

#[test]
fn stable_id_is_fnv1a_hex() {
    assert_eq!(stable_id(""), "cbf29ce484222325");
    assert_eq!(stable_id("a"), "af63dc4c8601ec8c");
    assert_eq!(stable_id("abc"), "e71fa2190541574b");
    assert_eq!(stable_id("abc"), stable_id("abc"));
}

#[test]
fn import_prechecks() {
    let s = import_precheck("x.png", false).unwrap_err();
    assert_eq!(s.reason, ImportSkipReason::NotFile);
    assert_eq!(s.message, "Path is not a file");
    let s = import_precheck("x", true).unwrap_err();
    assert_eq!(s.reason, ImportSkipReason::UnsupportedFormat);
    assert_eq!(s.message, "File has no supported extension");
    let s = import_precheck("x.bmp", true).unwrap_err();
    assert_eq!(s.message, "Only JPG, JPEG, and PNG images are supported");
    assert_eq!(import_precheck("x.PNG", true).unwrap(), "png");
    assert_eq!(folder_precheck("f", false).unwrap_err().reason, ImportSkipReason::NotDirectory);
    assert!(folder_precheck("f", true).is_ok());
}

#[test]
fn classifies_import_paths() {
    assert!(matches!(classify_import_path("d", true, false), ImportStep::Folder));
    assert!(matches!(classify_import_path("a.jpg", false, true), ImportStep::Read));
    match classify_import_path("a.txt", false, true) {
        ImportStep::Skip(s) => assert_eq!(s.reason, ImportSkipReason::UnsupportedFormat),
        _ => panic!("expected a skip"),
    }
    match classify_import_path("gone.png", false, false) {
        ImportStep::Skip(s) => assert_eq!(s.reason, ImportSkipReason::NotFile),
        _ => panic!("expected a skip"),
    }
}

#[test]
fn image_asset_records_given_dimensions_and_id() {
    let asset = build_image_asset("/tmp/png_dimensions/sample.png", "png".to_string(), 24, 12, 100);
    assert_eq!(asset.width, 24);
    assert_eq!(asset.height, 12);
    assert_eq!(asset.extension, "png");
    assert_eq!(asset.filename, "sample.png");
    assert_eq!(asset.id, stable_id("/tmp/png_dimensions/sample.png"));
    assert_eq!(asset.status, ImageStatus::Ready);
    let record = skip("p", ImportSkipReason::CorruptImage, "m");
    assert_eq!((record.path.as_str(), record.message.as_str()), ("p", "m"));
}
