use vstd::prelude::*;

use crate::domain::{ImageAsset, ImageStatus, ImportSkipReason, SkippedImport};
use crate::metadata::{format_for_path, normalized_extension_spec};
use crate::text::{
    path_extension, path_file_name, path_file_name_spec, str_eq, string_of, to_ascii_lowercase,
};

verus! {

/// Whether a lowercased extension names a supported image format.
pub open spec fn is_supported_extension_spec(e: Seq<char>) -> bool {
    e == "jpg"@ || e == "jpeg"@ || e == "png"@
}

/// Whether a path names a supported image by its extension (JPG, JPEG or PNG,
/// in any letter case).
pub open spec fn path_is_supported(path: Seq<char>) -> bool {
    match normalized_extension_spec(path) {
        Some(e) => is_supported_extension_spec(e),
        None => false,
    }
}

/// Law: a path is imported as an image exactly when its lowercased extension
/// is `jpg`, `jpeg` or `png`, which are exactly the paths whose description
/// metadata can be read and written.
pub proof fn lemma_supported_paths(path: Seq<char>)
    ensures
        path_is_supported(path) <==> (normalized_extension_spec(path) == Some("jpg"@)
            || normalized_extension_spec(path) == Some("jpeg"@) || normalized_extension_spec(path)
            == Some("png"@)),
        path_is_supported(path) <==> format_for_path(path) is Some,
{
}

/// The lowercased extension of a path.
pub fn normalized_extension(path: &str) -> (res: Option<String>)
    ensures
        res matches Some(e) ==> normalized_extension_spec(path@) == Some(e@),
        res is None ==> normalized_extension_spec(path@) is None,
{
    match path_extension(path) {
        Some(e) => Some(to_ascii_lowercase(e.as_str())),
        None => None,
    }
}

fn is_supported_name(e: &str) -> (res: bool)
    ensures
        res == is_supported_extension_spec(e@),
{
    str_eq(e, "jpg") || str_eq(e, "jpeg") || str_eq(e, "png")
}

/// Whether a path names a supported image by its extension.
pub fn is_supported_extension(path: &str) -> (res: bool)
    ensures
        res == path_is_supported(path@),
{
    match normalized_extension(path) {
        Some(e) => is_supported_name(e.as_str()),
        None => false,
    }
}

/// A record of a path an import passed over.
pub fn skip(path: &str, reason: ImportSkipReason, message: &str) -> (res: SkippedImport)
    ensures
        res.path@ == path@,
        res.reason == reason,
        res.message@ == message@,
{
    SkippedImport {
        path: String::from_str(path),
        reason,
        message: String::from_str(message),
    }
}

/// Checks a path before its image is read: it must be a file with a supported
/// extension. Gives the lowercased extension.
pub fn import_precheck(path: &str, is_file: bool) -> (res: Result<String, SkippedImport>)
    ensures
        res is Ok <==> is_file && path_is_supported(path@),
        res matches Ok(e) ==> normalized_extension_spec(path@) == Some(e@),
        res matches Err(s) ==> s.path@ == path@,
        !is_file ==> (res matches Err(s) && s.reason == ImportSkipReason::NotFile && s.message@
            == "Path is not a file"@),
        is_file && normalized_extension_spec(path@) is None ==> (res matches Err(s) && s.reason
            == ImportSkipReason::UnsupportedFormat && s.message@
            == "File has no supported extension"@),
        is_file && normalized_extension_spec(path@) is Some && !path_is_supported(path@) ==> (res matches Err(
            s,
        ) && s.reason == ImportSkipReason::UnsupportedFormat && s.message@
            == "Only JPG, JPEG, and PNG images are supported"@),
{
    if !is_file {
        return Err(skip(path, ImportSkipReason::NotFile, "Path is not a file"));
    }
    let extension = match normalized_extension(path) {
        Some(e) => e,
        None => {
            return Err(
                skip(path, ImportSkipReason::UnsupportedFormat, "File has no supported extension"),
            )
        },
    };
    if !is_supported_name(extension.as_str()) {
        return Err(
            skip(
                path,
                ImportSkipReason::UnsupportedFormat,
                "Only JPG, JPEG, and PNG images are supported",
            ),
        );
    }
    Ok(extension)
}

/// The FNV-1a offset basis.
pub open spec fn fnv_offset() -> u64 {
    0xcbf29ce484222325u64
}

/// The FNV-1a prime.
pub open spec fn fnv_prime() -> u64 {
    0x100000001b3u64
}

/// The 64-bit FNV-1a hash of `bytes`.
pub open spec fn fnv1a(bytes: Seq<u8>) -> u64
    decreases bytes.len(),
{
    if bytes.len() == 0 {
        fnv_offset()
    } else {
        vstd::wrapping::u64_specs::wrapping_mul(
            fnv1a(bytes.drop_last()) ^ (bytes.last() as u64),
            fnv_prime(),
        )
    }
}

/// The lowercase hexadecimal digit for `d` (below 16).
pub open spec fn hex_digit(d: u64) -> char {
    if d < 10 {
        (48 + d) as char
    } else {
        (87 + d) as char
    }
}

/// `h` as sixteen lowercase hexadecimal digits.
pub open spec fn hex16(h: u64) -> Seq<char> {
    Seq::new(16, |i: int| hex_digit((h >> ((60 - 4 * i) as u64)) & 0xf))
}

/// An identifier that depends only on the path text: the FNV-1a hash of its
/// UTF-8 bytes, as sixteen hexadecimal digits.
pub fn stable_id(value: &str) -> (res: String)
    ensures
        res@ == hex16(fnv1a(vstd::utf8::encode_utf8(value@))),
{
    let bytes = value.as_bytes();
    let mut hash: u64 = 0xcbf29ce484222325;
    let mut i: usize = 0;
    while i < bytes.len()
        invariant
            i <= bytes.len(),
            bytes@ == vstd::utf8::encode_utf8(value@),
            hash == fnv1a(bytes@.take(i as int)),
        decreases bytes.len() - i,
    {
        assert(bytes@.take(i + 1).drop_last() =~= bytes@.take(i as int));
        hash = hash ^ (bytes[i] as u64);
        hash = hash.wrapping_mul(0x100000001b3);
        i = i + 1;
    }
    assert(bytes@.take(bytes@.len() as int) =~= bytes@);
    let mut digits: Vec<char> = Vec::new();
    let mut k: u64 = 0;
    while k < 16
        invariant
            k <= 16,
            digits@ == hex16(hash).take(k as int),
        decreases 16 - k,
    {
        let shift: u64 = 60 - 4 * k;
        let nibble = (hash >> shift) & 0xf;
        assert(((hash >> shift) & 0xf) < 16) by (bit_vector);
        let c = if nibble < 10 {
            ((nibble as u8) + 48) as char
        } else {
            ((nibble as u8) + 87) as char
        };
        digits.push(c);
        k = k + 1;
        assert(digits@ =~= hex16(hash).take(k as int));
    }
    assert(hex16(hash).take(16) =~= hex16(hash));
    string_of(digits.as_slice())
}

/// A path's file name, or `Untitled image` when it has none.
pub open spec fn file_name_or_default(path: Seq<char>) -> Seq<char> {
    match path_file_name_spec(path) {
        Some(n) => n,
        None => "Untitled image"@,
    }
}

/// The record of an imported image, from its path, extension, dimensions and
/// size.
pub fn build_image_asset(path: &str, extension: String, width: u32, height: u32, byte_size: u64) -> (res:
    ImageAsset)
    ensures
        res.id@ == hex16(fnv1a(vstd::utf8::encode_utf8(path@))),
        res.path@ == path@,
        res.filename@ == file_name_or_default(path@),
        res.extension == extension,
        res.width == width,
        res.height == height,
        res.byte_size == byte_size,
        res.status == ImageStatus::Ready,
{
    let filename = match path_file_name(path) {
        Some(name) => name,
        None => String::from_str("Untitled image"),
    };
    ImageAsset {
        id: stable_id(path),
        path: String::from_str(path),
        filename,
        extension,
        width,
        height,
        byte_size,
        status: ImageStatus::Ready,
    }
}

/// What an import does with one path.
pub enum ImportStep {
    /// Import the images directly inside the folder.
    Folder,
    /// Read the image at the path.
    Read,
    /// Pass over the path.
    Skip(SkippedImport),
}

/// Decides what an import does with one path: folders are imported one level
/// deep, files with a supported extension are read, anything else is passed
/// over.
pub fn classify_import_path(path: &str, is_dir: bool, is_file: bool) -> (res: ImportStep)
    ensures
        is_dir ==> res is Folder,
        !is_dir && !is_file ==> (res matches ImportStep::Skip(s) && s.path@ == path@ && s.reason
            == ImportSkipReason::NotFile && s.message@ == "Path is not a file"@),
        !is_dir && is_file && !path_is_supported(path@) ==> (res matches ImportStep::Skip(s)
            && s.path@ == path@ && s.reason == ImportSkipReason::UnsupportedFormat && s.message@
            == "Only JPG, JPEG, and PNG images are supported"@),
        !is_dir && is_file && path_is_supported(path@) ==> res is Read,
{
    if is_dir {
        return ImportStep::Folder;
    }
    if !is_file {
        return ImportStep::Skip(skip(path, ImportSkipReason::NotFile, "Path is not a file"));
    }
    if !is_supported_extension(path) {
        return ImportStep::Skip(
            skip(
                path,
                ImportSkipReason::UnsupportedFormat,
                "Only JPG, JPEG, and PNG images are supported",
            ),
        );
    }
    ImportStep::Read
}

/// Checks that a folder import names a folder.
pub fn folder_precheck(path: &str, is_dir: bool) -> (res: Result<(), SkippedImport>)
    ensures
        res is Ok <==> is_dir,
        res matches Err(s) ==> s.path@ == path@ && s.reason == ImportSkipReason::NotDirectory
            && s.message@ == "Path is not a folder"@,
{
    if !is_dir {
        return Err(skip(path, ImportSkipReason::NotDirectory, "Path is not a folder"));
    }
    Ok(())
}

} // verus!
