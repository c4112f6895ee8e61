use vstd::prelude::*;

use crate::bytes::{
    be16_at, be16_bytes, be32_at, be32_bytes, bytes_equal, bytes_start_with, crc32, find_zero,
    lemma_be16_roundtrip, lemma_be32_roundtrip, lemma_u16_roundtrip, lemma_u32_roundtrip,
    lemma_zero_position, push_bytes, push_u16_be, push_u32_be, read_u16, read_u32, spec_crc32,
    starts_with, u16_at, u16_bytes, u32_at, u32_bytes, zero_position,
};
use crate::domain::{MetadataPolicy, OutputRules};
use crate::text::{
    ascii_lower, has_no_nul, lemma_encode_utf8_no_zero, lossy_utf8, path_extension,
    path_extension_spec, remove_nul, str_eq, to_ascii_lowercase, trim, trim_spec, utf8_lossy,
};
use vstd::utf8::encode_utf8;

verus! {

/// The identifier that opens an EXIF payload inside a JPEG APP1 segment.
pub open spec fn exif_header() -> Seq<u8> {
    seq![0x45u8, 0x78u8, 0x69u8, 0x66u8, 0u8, 0u8]
}

/// Drops one trailing zero byte, if present.
pub open spec fn strip_trailing_nul(b: Seq<u8>) -> Seq<u8> {
    if b.len() > 0 && b.last() == 0 {
        b.drop_last()
    } else {
        b
    }
}

/// The raw text of an IFD entry (at byte `entry`) holding an ASCII value:
/// stored inline when it has at most four bytes, else at the offset it names.
pub open spec fn exif_entry_text(t: Seq<u8>, entry: int, be: bool) -> Option<Seq<u8>> {
    let count = u32_at(t, entry + 4, be);
    if count <= 4 {
        Some(t.subrange(entry + 8, entry + 8 + count))
    } else {
        let offset = u32_at(t, entry + 8, be);
        if offset + count <= t.len() {
            Some(t.subrange(offset, offset + count))
        } else {
            None
        }
    }
}

/// Whether the IFD entry at `entry` is a non-empty ASCII ImageDescription.
pub open spec fn is_description_entry(t: Seq<u8>, entry: int, be: bool) -> bool {
    u16_at(t, entry, be) == 0x010e && u16_at(t, entry + 2, be) == 2 && u32_at(t, entry + 4, be)
        != 0
}

/// Walks the IFD entries `index..count` starting at byte `start` and returns the
/// text of the first ImageDescription entry.
pub open spec fn exif_scan(t: Seq<u8>, be: bool, start: int, index: int, count: int) -> Option<
    Seq<u8>,
>
    decreases count - index,
{
    if index >= count {
        None
    } else {
        let entry = start + 12 * index;
        if entry + 12 > t.len() {
            None
        } else if !is_description_entry(t, entry, be) {
            exif_scan(t, be, start, index + 1, count)
        } else {
            match exif_entry_text(t, entry, be) {
                Some(text) => Some(strip_trailing_nul(text)),
                None => None,
            }
        }
    }
}

/// The ImageDescription text bytes of a TIFF structure (the body of an EXIF
/// payload), looked up in its first IFD.
pub open spec fn exif_description(t: Seq<u8>) -> Option<Seq<u8>> {
    if t.len() < 14 {
        None
    } else if !((t[0] == 0x4d && t[1] == 0x4d) || (t[0] == 0x49 && t[1] == 0x49)) {
        None
    } else {
        let be = t[0] == 0x4d;
        if u16_at(t, 2, be) != 42 {
            None
        } else {
            let ifd = u32_at(t, 4, be);
            if ifd + 2 > t.len() {
                None
            } else {
                exif_scan(t, be, ifd + 2, 0, u16_at(t, ifd, be))
            }
        }
    }
}

/// Reads the ImageDescription tag of an EXIF TIFF structure as text.
pub fn read_exif_image_description(tiff: &[u8]) -> (res: Option<String>)
    ensures
        res is Some <==> exif_description(tiff@) is Some,
        res matches Some(s) ==> s@ == lossy_utf8(exif_description(tiff@)->Some_0),
        res matches Some(s) ==> (vstd::utf8::valid_utf8(exif_description(tiff@)->Some_0) ==> s@
            == vstd::utf8::decode_utf8(exif_description(tiff@)->Some_0)),
{
    if tiff.len() < 14 {
        return None;
    }
    let big_endian = if tiff[0] == 0x4d && tiff[1] == 0x4d {
        true
    } else if tiff[0] == 0x49 && tiff[1] == 0x49 {
        false
    } else {
        return None;
    };
    let magic = read_u16(tiff, 2, big_endian).unwrap();
    if magic != 42 {
        return None;
    }
    let ifd_offset = read_u32(tiff, 4, big_endian).unwrap() as usize;
    let entry_count = match read_u16(tiff, ifd_offset, big_endian) {
        Some(c) => c as usize,
        None => return None,
    };
    let entries_start = ifd_offset + 2;
    let ghost t = tiff@;
    let ghost be = big_endian;
    let mut index: usize = 0;
    while index < entry_count
        invariant
            t == tiff@,
            be == big_endian,
            entries_start <= tiff@.len(),
            entry_count < 65536,
            index <= entry_count,
            exif_description(t) == exif_scan(t, be, entries_start as int, index as int, entry_count as int),
        decreases entry_count - index,
    {
        let step = index * 12;
        if step > tiff.len() - entries_start || tiff.len() - entries_start - step < 12 {
            return None;
        }
        let entry = entries_start + step;
        let tag = read_u16(tiff, entry, big_endian).unwrap();
        let field_type = read_u16(tiff, entry + 2, big_endian).unwrap();
        let count = read_u32(tiff, entry + 4, big_endian).unwrap() as usize;
        if tag != 0x010e || field_type != 2 || count == 0 {
            index = index + 1;
            continue;
        }
        let text: &[u8] = if count <= 4 {
            &tiff[entry + 8..entry + 8 + count]
        } else {
            let offset = read_u32(tiff, entry + 8, big_endian).unwrap() as usize;
            if count > tiff.len() || offset > tiff.len() - count {
                return None;
            }
            &tiff[offset..offset + count]
        };
        let stripped: &[u8] = if text.len() > 0 && text[text.len() - 1] == 0 {
            &text[0..text.len() - 1]
        } else {
            text
        };
        proof {
            assert(stripped@ =~= strip_trailing_nul(text@));
        }
        return Some(utf8_lossy(stripped));
    }
    None
}


/// Markers after which a JPEG header walk stops: start of scan, end of image
/// and the restart markers.
pub open spec fn is_jpeg_stop_marker(m: u8) -> bool {
    m == 0xda || m == 0xd9 || (0xd0 <= m && m <= 0xd7)
}

/// Whether `s` begins with a complete, well-formed JPEG header segment
/// (marker byte, non-stop marker, length of at least two that fits).
pub open spec fn jpeg_segment_ok(s: Seq<u8>) -> bool {
    &&& s.len() >= 4
    &&& s[0] == 0xff
    &&& !is_jpeg_stop_marker(s[1])
    &&& be16_at(s, 2) >= 2
    &&& 2 + be16_at(s, 2) <= s.len()
}

/// Total size of the segment that begins `s` (marker plus length-counted part).
pub open spec fn jpeg_segment_end(s: Seq<u8>) -> int {
    2 + be16_at(s, 2)
}

/// The EXIF description found in the segment that begins `s`, if it is an APP1
/// EXIF segment that holds one.
pub open spec fn jpeg_segment_description(s: Seq<u8>) -> Option<Seq<u8>> {
    let payload = s.subrange(4, jpeg_segment_end(s));
    if s[1] == 0xe1 && starts_with(payload, exif_header()) {
        exif_description(payload.skip(6))
    } else {
        None
    }
}

/// Walks the JPEG header segments at the front of `s` and returns the first
/// EXIF ImageDescription text found before the walk stops.
pub open spec fn jpeg_scan_description(s: Seq<u8>) -> Option<Seq<u8>>
    decreases s.len(),
{
    if jpeg_segment_ok(s) {
        if jpeg_segment_description(s) is Some {
            jpeg_segment_description(s)
        } else {
            jpeg_scan_description(s.skip(jpeg_segment_end(s)))
        }
    } else {
        None
    }
}

/// Whether `bytes` begins with a JPEG start-of-image marker (and has room for a
/// segment header).
pub open spec fn is_jpeg_start(bytes: Seq<u8>) -> bool {
    bytes.len() >= 4 && bytes[0] == 0xff && bytes[1] == 0xd8
}

/// The EXIF description text bytes of a JPEG file, or `None` when it has none.
pub open spec fn jpeg_description(bytes: Seq<u8>) -> Option<Seq<u8>> {
    jpeg_scan_description(bytes.skip(2))
}

/// The bytes `Exif\0\0`.
pub fn exif_header_bytes() -> (res: Vec<u8>)
    ensures
        res@ == exif_header(),
{
    let v: Vec<u8> = vec![0x45u8, 0x78u8, 0x69u8, 0x66u8, 0u8, 0u8];
    assert(v@ =~= exif_header());
    v
}

/// Reads the EXIF ImageDescription of a JPEG file held in `bytes`.
pub fn read_jpeg_description(bytes: &[u8]) -> (res: Result<Option<String>, String>)
    ensures
        !is_jpeg_start(bytes@) <==> res is Err,
        res matches Err(e) ==> e@ == "Source is not a valid JPEG file"@,
        res matches Ok(d) ==> (d is Some <==> jpeg_description(bytes@) is Some),
        res matches Ok(Some(d)) ==> d@ == lossy_utf8(jpeg_description(bytes@)->Some_0),
        res matches Ok(Some(d)) ==> (vstd::utf8::valid_utf8(jpeg_description(bytes@)->Some_0)
            ==> d@ == vstd::utf8::decode_utf8(jpeg_description(bytes@)->Some_0)),
{
    if bytes.len() < 4 || bytes[0] != 0xff || bytes[1] != 0xd8 {
        return Err(String::from_str("Source is not a valid JPEG file"));
    }
    let header = exif_header_bytes();
    let mut cursor: usize = 2;
    while cursor <= bytes.len() - 4 && bytes[cursor] == 0xff
        invariant
            2 <= cursor <= bytes.len(),
            bytes.len() >= 4,
            header@ == exif_header(),
            is_jpeg_start(bytes@),
            jpeg_description(bytes@) == jpeg_scan_description(bytes@.skip(cursor as int)),
        ensures
            jpeg_scan_description(bytes@.skip(cursor as int)) is None,
        decreases bytes.len() - cursor,
    {
        let ghost s = bytes@.skip(cursor as int);
        let marker = bytes[cursor + 1];
        if marker == 0xda || marker == 0xd9 || (0xd0 <= marker && marker <= 0xd7) {
            break;
        }
        let length = read_u16(bytes, cursor + 2, true).unwrap() as usize;
        assert(length == be16_at(s, 2));
        if length < 2 || length > bytes.len() - cursor - 2 {
            break;
        }
        let segment_end = cursor + 2 + length;
        let payload = &bytes[cursor + 4..segment_end];
        assert(payload@ =~= s.subrange(4, jpeg_segment_end(s)));
        if marker == 0xe1 && bytes_start_with(payload, header.as_slice()) {
            let body = &payload[6..payload.len()];
            assert(body@ =~= payload@.skip(6));
            let found = read_exif_image_description(body);
            if let Some(description) = found {
                return Ok(Some(description));
            }
        }
        assert(bytes@.skip(segment_end as int) =~= s.skip(jpeg_segment_end(s)));
        cursor = segment_end;
    }
    Ok(None)
}


/// The eight-byte PNG file signature.
pub open spec fn png_signature() -> Seq<u8> {
    seq![0x89u8, 0x50u8, 0x4eu8, 0x47u8, 0x0du8, 0x0au8, 0x1au8, 0x0au8]
}

/// The chunk type `tEXt`.
pub open spec fn text_chunk_type() -> Seq<u8> {
    seq![0x74u8, 0x45u8, 0x58u8, 0x74u8]
}

/// The chunk type `IEND`.
pub open spec fn end_chunk_type() -> Seq<u8> {
    seq![0x49u8, 0x45u8, 0x4eu8, 0x44u8]
}

/// The keyword `Description`.
pub open spec fn description_keyword() -> Seq<u8> {
    seq![0x44u8, 0x65u8, 0x73u8, 0x63u8, 0x72u8, 0x69u8, 0x70u8, 0x74u8, 0x69u8, 0x6fu8, 0x6eu8]
}

/// The keyword of a tEXt chunk's data: everything before the first zero byte.
pub open spec fn text_keyword(data: Seq<u8>) -> Seq<u8> {
    match zero_position(data) {
        Some(p) => data.take(p),
        None => data,
    }
}

/// The text of a tEXt chunk's data: everything after the first zero byte
/// (empty when there is none).
pub open spec fn text_value(data: Seq<u8>) -> Seq<u8> {
    match zero_position(data) {
        Some(p) => data.skip(p + 1),
        None => Seq::empty(),
    }
}

/// Length field of the chunk that begins `s`.
pub open spec fn png_chunk_length(s: Seq<u8>) -> int {
    be32_at(s, 0)
}

/// Total size of the chunk that begins `s`: length, type, data and CRC.
pub open spec fn png_chunk_end(s: Seq<u8>) -> int {
    12 + png_chunk_length(s)
}

/// Type of the chunk that begins `s`.
pub open spec fn png_chunk_type(s: Seq<u8>) -> Seq<u8> {
    s.subrange(4, 8)
}

/// Data of the chunk that begins `s`.
pub open spec fn png_chunk_data(s: Seq<u8>) -> Seq<u8> {
    s.subrange(8, 8 + png_chunk_length(s))
}

/// Whether the chunk that begins `s` is a tEXt chunk with keyword Description.
pub open spec fn is_description_chunk(s: Seq<u8>) -> bool {
    png_chunk_type(s) == text_chunk_type() && text_keyword(png_chunk_data(s))
        == description_keyword()
}

/// Walks the chunks at the front of `s` (up to and including IEND): the text of
/// the first Description tEXt chunk, `Ok(None)` when there is none, `Err` when a
/// chunk overruns the data.
pub open spec fn png_scan_description(s: Seq<u8>) -> Result<Option<Seq<u8>>, ()>
    decreases s.len(),
{
    if s.len() >= 12 {
        if png_chunk_end(s) > s.len() {
            Err(())
        } else if is_description_chunk(s) {
            Ok(Some(text_value(png_chunk_data(s))))
        } else if png_chunk_type(s) == end_chunk_type() {
            Ok(None)
        } else {
            png_scan_description(s.skip(png_chunk_end(s)))
        }
    } else {
        Ok(None)
    }
}

/// Whether `bytes` begins with the PNG signature.
pub open spec fn is_png_start(bytes: Seq<u8>) -> bool {
    starts_with(bytes, png_signature())
}

/// The Description text bytes of a PNG file.
pub open spec fn png_description(bytes: Seq<u8>) -> Result<Option<Seq<u8>>, ()> {
    png_scan_description(bytes.skip(8))
}

/// The PNG signature bytes.
pub fn png_signature_bytes() -> (res: Vec<u8>)
    ensures
        res@ == png_signature(),
{
    let v: Vec<u8> = vec![0x89u8, 0x50u8, 0x4eu8, 0x47u8, 0x0du8, 0x0au8, 0x1au8, 0x0au8];
    assert(v@ =~= png_signature());
    v
}

/// The bytes `tEXt`.
pub fn text_chunk_type_bytes() -> (res: Vec<u8>)
    ensures
        res@ == text_chunk_type(),
{
    let v: Vec<u8> = vec![0x74u8, 0x45u8, 0x58u8, 0x74u8];
    assert(v@ =~= text_chunk_type());
    v
}

/// The bytes `IEND`.
pub fn end_chunk_type_bytes() -> (res: Vec<u8>)
    ensures
        res@ == end_chunk_type(),
{
    let v: Vec<u8> = vec![0x49u8, 0x45u8, 0x4eu8, 0x44u8];
    assert(v@ =~= end_chunk_type());
    v
}

/// The bytes `Description`.
pub fn description_keyword_bytes() -> (res: Vec<u8>)
    ensures
        res@ == description_keyword(),
{
    let v: Vec<u8> = vec![
        0x44u8,
        0x65u8,
        0x73u8,
        0x63u8,
        0x72u8,
        0x69u8,
        0x70u8,
        0x74u8,
        0x69u8,
        0x6fu8,
        0x6eu8,
    ];
    assert(v@ =~= description_keyword());
    v
}

/// The keyword part of a tEXt chunk's data.
pub fn png_text_keyword(data: &[u8]) -> (res: &[u8])
    ensures
        res@ == text_keyword(data@),
{
    match find_zero(data) {
        Some(p) => &data[0..p],
        None => data,
    }
}

/// Reads the Description tEXt chunk of a PNG file held in `bytes`.
pub fn read_png_description(bytes: &[u8]) -> (res: Result<Option<String>, String>)
    ensures
        !is_png_start(bytes@) ==> (res matches Err(e) && e@ == "Source is not a valid PNG file"@),
        is_png_start(bytes@) ==> (res is Err <==> png_description(bytes@) is Err),
        is_png_start(bytes@) && res is Err ==> (res matches Err(e) && e@
            == "PNG metadata chunks are malformed"@),
        res matches Ok(d) ==> (d is Some <==> png_description(bytes@) matches Ok(Some(_))),
        res matches Ok(Some(d)) ==> d@ == lossy_utf8(png_description(bytes@)->Ok_0->Some_0),
        res matches Ok(Some(d)) ==> (vstd::utf8::valid_utf8(png_description(bytes@)->Ok_0->Some_0)
            ==> d@ == vstd::utf8::decode_utf8(png_description(bytes@)->Ok_0->Some_0)),
{
    let signature = png_signature_bytes();
    if !bytes_start_with(bytes, signature.as_slice()) {
        return Err(String::from_str("Source is not a valid PNG file"));
    }
    let text_type = text_chunk_type_bytes();
    let end_type = end_chunk_type_bytes();
    let keyword = description_keyword_bytes();
    let mut cursor: usize = 8;
    while cursor <= bytes.len() && bytes.len() - cursor >= 12
        invariant
            8 <= cursor <= bytes.len(),
            is_png_start(bytes@),
            text_type@ == text_chunk_type(),
            end_type@ == end_chunk_type(),
            keyword@ == description_keyword(),
            png_description(bytes@) == png_scan_description(bytes@.skip(cursor as int)),
        ensures
            png_scan_description(bytes@.skip(cursor as int)) == Ok::<Option<Seq<u8>>, ()>(None),
        decreases bytes.len() - cursor,
    {
        let ghost s = bytes@.skip(cursor as int);
        let length = read_u32(bytes, cursor, true).unwrap() as usize;
        assert(length == be32_at(s, 0));
        if length > bytes.len() - cursor - 12 {
            return Err(String::from_str("PNG metadata chunks are malformed"));
        }
        let chunk_end = cursor + 12 + length;
        let chunk_type = &bytes[cursor + 4..cursor + 8];
        let data = &bytes[cursor + 8..cursor + 8 + length];
        assert(chunk_type@ =~= png_chunk_type(s));
        assert(data@ =~= png_chunk_data(s));
        if bytes_equal(chunk_type, text_type.as_slice()) && bytes_equal(
            png_text_keyword(data),
            keyword.as_slice(),
        ) {
            let text_start = match find_zero(data) {
                Some(p) => p + 1,
                None => data.len(),
            };
            let text = &data[text_start..data.len()];
            assert(text@ =~= text_value(data@));
            return Ok(Some(utf8_lossy(text)));
        }
        if bytes_equal(chunk_type, end_type.as_slice()) {
            break;
        }
        assert(bytes@.skip(chunk_end as int) =~= s.skip(png_chunk_end(s)));
        cursor = chunk_end;
    }
    Ok(None)
}


/// Whether a tEXt keyword is acceptable: one to 79 bytes, no zero byte.
pub open spec fn valid_text_keyword(keyword: Seq<u8>) -> bool {
    keyword.len() > 0 && keyword.len() <= 79 && zero_position(keyword) is None
}

/// The data of a tEXt chunk: keyword, a zero separator, the text.
pub open spec fn text_chunk_data(keyword: Seq<u8>, text: Seq<u8>) -> Seq<u8> {
    keyword + seq![0u8] + text
}

/// A complete tEXt chunk: length, type, data and the CRC of type and data.
pub open spec fn text_chunk(keyword: Seq<u8>, text: Seq<u8>) -> Seq<u8> {
    let data = text_chunk_data(keyword, text);
    be32_bytes((data.len() as u32) as int) + text_chunk_type() + data + be32_bytes(
        spec_crc32(text_chunk_type() + data) as int,
    )
}

/// Builds a PNG tEXt chunk holding `text` under `keyword`.
pub fn png_text_chunk(keyword: &[u8], text: &[u8]) -> (res: Result<Vec<u8>, String>)
    ensures
        valid_text_keyword(keyword@) <==> res is Ok,
        res matches Ok(c) ==> c@ == text_chunk(keyword@, text@),
        res matches Err(e) ==> e@ == "PNG metadata keyword is invalid"@,
{
    if keyword.len() == 0 || keyword.len() > 79 || find_zero(keyword).is_some() {
        return Err(String::from_str("PNG metadata keyword is invalid"));
    }
    let mut data: Vec<u8> = Vec::new();
    push_bytes(&mut data, keyword);
    data.push(0);
    push_bytes(&mut data, text);
    assert(data@ =~= text_chunk_data(keyword@, text@));
    let mut chunk: Vec<u8> = Vec::new();
    push_u32_be(&mut chunk, data.len() as u32);
    let text_type = text_chunk_type_bytes();
    push_bytes(&mut chunk, text_type.as_slice());
    push_bytes(&mut chunk, data.as_slice());
    let mut crc_data = text_chunk_type_bytes();
    push_bytes(&mut crc_data, data.as_slice());
    let crc = crc32(crc_data.as_slice());
    push_u32_be(&mut chunk, crc);
    Ok(chunk)
}

/// `p` put in front of a successful result.
pub open spec fn prepend_ok(p: Seq<u8>, r: Result<Seq<u8>, ()>) -> Result<Seq<u8>, ()> {
    match r {
        Ok(rest) => Ok(p + rest),
        Err(e) => Err(e),
    }
}

proof fn lemma_prepend_ok_twice(a: Seq<u8>, b: Seq<u8>, r: Result<Seq<u8>, ()>)
    ensures
        prepend_ok(a, prepend_ok(b, r)) == prepend_ok(a + b, r),
{
    if let Ok(rest) = r {
        assert(a + (b + rest) =~= (a + b) + rest);
    }
}

proof fn lemma_description_keyword_valid()
    ensures
        valid_text_keyword(description_keyword()),
{
    let k = description_keyword();
    assert forall|j: int| 0 <= j < k.len() implies k[j] != 0 by {}
    lemma_zero_position(k, k.len() as int);
}

/// The chunks at the front of `s` with every Description tEXt chunk dropped and
/// `chunk` inserted before IEND; everything after IEND is dropped, and so is a
/// tail too short to hold a chunk. `Err` when a chunk overruns the data.
pub open spec fn png_rewrite_chunks(s: Seq<u8>, chunk: Seq<u8>) -> Result<Seq<u8>, ()>
    decreases s.len(),
{
    if s.len() >= 12 {
        if png_chunk_end(s) > s.len() {
            Err(())
        } else if png_chunk_type(s) == end_chunk_type() {
            Ok(chunk + s.take(png_chunk_end(s)))
        } else {
            prepend_ok(
                if is_description_chunk(s) {
                    Seq::empty()
                } else {
                    s.take(png_chunk_end(s))
                },
                png_rewrite_chunks(s.skip(png_chunk_end(s)), chunk),
            )
        }
    } else {
        Ok(Seq::empty())
    }
}

/// A PNG file whose Description text is replaced by `text`.
pub open spec fn png_with_description(bytes: Seq<u8>, text: Seq<u8>) -> Result<Seq<u8>, ()> {
    prepend_ok(
        png_signature(),
        png_rewrite_chunks(bytes.skip(8), text_chunk(description_keyword(), text)),
    )
}

/// Replaces the Description tEXt chunk of the PNG file held in `bytes` by one
/// holding `description`, and returns the new file.
pub fn rewrite_png_description(bytes: &[u8], description: &str) -> (res: Result<Vec<u8>, String>)
    ensures
        !is_png_start(bytes@) ==> (res matches Err(e) && e@ == "Output is not a valid PNG file"@),
        is_png_start(bytes@) ==> (res is Err <==> png_with_description(
            bytes@,
            encode_utf8(description@),
        ) is Err),
        is_png_start(bytes@) && res is Err ==> (res matches Err(e) && e@
            == "PNG metadata chunks are malformed"@),
        res matches Ok(out) ==> Ok::<Seq<u8>, ()>(out@) == png_with_description(
            bytes@,
            encode_utf8(description@),
        ),
{
    let signature = png_signature_bytes();
    if !bytes_start_with(bytes, signature.as_slice()) {
        return Err(String::from_str("Output is not a valid PNG file"));
    }
    let keyword = description_keyword_bytes();
    proof {
        lemma_description_keyword_valid();
    }
    let description_chunk = match png_text_chunk(keyword.as_slice(), description.as_bytes()) {
        Ok(c) => c,
        Err(e) => return Err(e),
    };
    let text_type = text_chunk_type_bytes();
    let end_type = end_chunk_type_bytes();
    let mut output = png_signature_bytes();
    let ghost c = description_chunk@;
    let mut cursor: usize = 8;
    let mut ended = false;
    while !ended && cursor <= bytes.len() && bytes.len() - cursor >= 12
        invariant
            8 <= cursor <= bytes.len(),
            is_png_start(bytes@),
            c == text_chunk(description_keyword(), encode_utf8(description@)),
            description_chunk@ == c,
            text_type@ == text_chunk_type(),
            end_type@ == end_chunk_type(),
            keyword@ == description_keyword(),
            output@.len() >= 8,
            output@.take(8) == png_signature(),
            !ended ==> png_rewrite_chunks(bytes@.skip(8), c) == prepend_ok(
                output@.skip(8),
                png_rewrite_chunks(bytes@.skip(cursor as int), c),
            ),
            ended ==> png_rewrite_chunks(bytes@.skip(8), c) == Ok::<Seq<u8>, ()>(output@.skip(8)),
        decreases bytes.len() - cursor, if ended { 0int } else { 1int },
    {
        let ghost s = bytes@.skip(cursor as int);
        let ghost before = output@;
        let length = read_u32(bytes, cursor, true).unwrap() as usize;
        assert(length == be32_at(s, 0));
        if length > bytes.len() - cursor - 12 {
            return Err(String::from_str("PNG metadata chunks are malformed"));
        }
        let chunk_end = cursor + 12 + length;
        let chunk_type = &bytes[cursor + 4..cursor + 8];
        let data = &bytes[cursor + 8..cursor + 8 + length];
        assert(chunk_type@ =~= png_chunk_type(s));
        assert(data@ =~= png_chunk_data(s));
        let is_description_text = bytes_equal(chunk_type, text_type.as_slice()) && bytes_equal(
            png_text_keyword(data),
            keyword.as_slice(),
        );
        let is_end = bytes_equal(chunk_type, end_type.as_slice());
        let whole = &bytes[cursor..chunk_end];
        assert(whole@ =~= s.take(png_chunk_end(s)));
        if is_end {
            push_bytes(&mut output, description_chunk.as_slice());
            push_bytes(&mut output, whole);
            assert(output@.skip(8) =~= before.skip(8) + (c + s.take(png_chunk_end(s))));
            ended = true;
        } else {
            if !is_description_text {
                push_bytes(&mut output, whole);
                assert(output@.skip(8) =~= before.skip(8) + s.take(png_chunk_end(s)));
                proof {
                    lemma_prepend_ok_twice(
                        before.skip(8),
                        s.take(png_chunk_end(s)),
                        png_rewrite_chunks(s.skip(png_chunk_end(s)), c),
                    );
                }
            } else {
                assert(output@.skip(8) =~= before.skip(8) + Seq::<u8>::empty());
                proof {
                    lemma_prepend_ok_twice(
                        before.skip(8),
                        Seq::empty(),
                        png_rewrite_chunks(s.skip(png_chunk_end(s)), c),
                    );
                }
            }
            assert(bytes@.skip(chunk_end as int) =~= s.skip(png_chunk_end(s)));
            cursor = chunk_end;
        }
        proof {
            assert(output@.take(8) =~= before.take(8));
        }
    }
    proof {
        if !ended {
            assert(output@.skip(8) + Seq::<u8>::empty() =~= output@.skip(8));
        }
        assert(output@ =~= png_signature() + output@.skip(8));
    }
    Ok(output)
}


/// `s` with every zero byte removed.
pub open spec fn without_nul(s: Seq<u8>) -> Seq<u8>
    decreases s.len(),
{
    if s.len() == 0 {
        s
    } else if s.last() == 0 {
        without_nul(s.drop_last())
    } else {
        without_nul(s.drop_last()).push(s.last())
    }
}

/// The ASCII value stored for a description: its bytes without zero bytes,
/// then a terminating zero.
pub open spec fn exif_ascii(description: Seq<u8>) -> Seq<u8> {
    without_nul(description).push(0)
}

/// A big-endian TIFF structure with one IFD holding one ImageDescription
/// entry whose value is `ascii`, inline when it has at most four bytes.
pub open spec fn exif_tiff(ascii: Seq<u8>) -> Seq<u8> {
    let n = ascii.len() as int;
    seq![0x4du8, 0x4du8] + be16_bytes(42) + be32_bytes(8) + be16_bytes(1) + be16_bytes(0x010e)
        + be16_bytes(2) + be32_bytes(n) + (if n <= 4 {
        ascii + Seq::new((4 - n) as nat, |i: int| 0u8)
    } else {
        be32_bytes(26)
    }) + be32_bytes(0) + (if n > 4 {
        ascii
    } else {
        Seq::empty()
    })
}

/// The EXIF payload (identifier and TIFF structure) for a description.
pub open spec fn exif_payload(description: Seq<u8>) -> Seq<u8> {
    exif_header() + exif_tiff(exif_ascii(description))
}

/// Whether the APP1 segment for a description fits a JPEG segment length.
pub open spec fn exif_segment_fits(description: Seq<u8>) -> bool {
    exif_payload(description).len() + 2 <= 65535
}

/// A JPEG APP1 segment holding the EXIF payload for a description.
pub open spec fn exif_segment(description: Seq<u8>) -> Seq<u8> {
    let payload = exif_payload(description);
    seq![0xffu8, 0xe1u8] + be16_bytes(payload.len() + 2int) + payload
}

proof fn lemma_exif_tiff_len(ascii: Seq<u8>)
    ensures
        exif_tiff(ascii).len() == 26 + (if ascii.len() > 4 {
            ascii.len() as int
        } else {
            0
        }),
{
}

/// Builds the JPEG APP1 EXIF segment that stores `description` as the
/// ImageDescription tag (zero bytes dropped, zero-terminated).
pub fn jpeg_exif_description_segment(description: &str) -> (res: Result<Vec<u8>, String>)
    ensures
        res is Ok <==> exif_segment_fits(encode_utf8(description@)),
        res matches Ok(seg) ==> seg@ == exif_segment(encode_utf8(description@)),
        res matches Err(e) ==> e@ == "Description metadata is too large for JPEG EXIF"@,
{
    let bytes = description.as_bytes();
    let ghost d = bytes@;
    let mut ascii: Vec<u8> = Vec::new();
    let mut i: usize = 0;
    while i < bytes.len()
        invariant
            i <= bytes.len(),
            d == bytes@,
            ascii@ == without_nul(d.take(i as int)),
        decreases bytes.len() - i,
    {
        assert(d.take(i + 1).drop_last() =~= d.take(i as int));
        if bytes[i] != 0 {
            ascii.push(bytes[i]);
        }
        i = i + 1;
    }
    assert(d.take(d.len() as int) =~= d);
    ascii.push(0);
    proof {
        lemma_exif_tiff_len(ascii@);
    }
    let n = ascii.len();
    if n > 4 && n > 65501 {
        return Err(String::from_str("Description metadata is too large for JPEG EXIF"));
    }
    let count = n as u32;
    let mut tiff: Vec<u8> = Vec::new();
    tiff.push(0x4d);
    tiff.push(0x4d);
    push_u16_be(&mut tiff, 42);
    push_u32_be(&mut tiff, 8);
    push_u16_be(&mut tiff, 1);
    push_u16_be(&mut tiff, 0x010e);
    push_u16_be(&mut tiff, 2);
    push_u32_be(&mut tiff, count);
    let ghost head = tiff@;
    if n <= 4 {
        push_bytes(&mut tiff, ascii.as_slice());
        let mut k: usize = n;
        while k < 4
            invariant
                n <= k <= 4,
                tiff@ == head + ascii@ + Seq::new((k - n) as nat, |i: int| 0u8),
            decreases 4 - k,
        {
            tiff.push(0);
            k = k + 1;
            assert(tiff@ =~= head + ascii@ + Seq::new((k - n) as nat, |i: int| 0u8));
        }
    } else {
        push_u32_be(&mut tiff, 26);
    }
    push_u32_be(&mut tiff, 0);
    if n > 4 {
        push_bytes(&mut tiff, ascii.as_slice());
    }
    proof {
        let a = ascii@;
        let na = a.len() as int;
        let pad = if na <= 4 {
            a + Seq::new((4 - na) as nat, |i: int| 0u8)
        } else {
            be32_bytes(26)
        };
        let tail = if na > 4 {
            a
        } else {
            Seq::empty()
        };
        assert(tiff@ =~= head + pad + be32_bytes(0) + tail);
        assert(tiff@ =~= exif_tiff(a));
    }
    let mut payload = exif_header_bytes();
    push_bytes(&mut payload, tiff.as_slice());
    let segment_length = payload.len() + 2;
    let mut segment: Vec<u8> = Vec::new();
    segment.push(0xff);
    segment.push(0xe1);
    push_u16_be(&mut segment, segment_length as u16);
    push_bytes(&mut segment, payload.as_slice());
    Ok(segment)
}

/// Whether the segment that begins `s` is an APP1 segment whose payload
/// starts with the EXIF identifier.
pub open spec fn jpeg_is_exif_segment(s: Seq<u8>) -> bool {
    s[1] == 0xe1 && s.len() >= 10 && s.subrange(4, 10) == exif_header()
}

/// The JPEG header segments at the front of `s` without the EXIF APP1
/// segments; the rest (from the first segment the walk stops at) is kept.
pub open spec fn jpeg_strip_exif(s: Seq<u8>) -> Seq<u8>
    decreases s.len(),
{
    if jpeg_segment_ok(s) {
        (if jpeg_is_exif_segment(s) {
            Seq::empty()
        } else {
            s.take(jpeg_segment_end(s))
        }) + jpeg_strip_exif(s.skip(jpeg_segment_end(s)))
    } else {
        s
    }
}

/// A JPEG file whose EXIF segments are replaced by one holding `description`,
/// placed right after the start-of-image marker.
pub open spec fn jpeg_with_description(bytes: Seq<u8>, description: Seq<u8>) -> Seq<u8> {
    bytes.take(2) + exif_segment(description) + jpeg_strip_exif(bytes.skip(2))
}

/// Replaces the EXIF segments of the JPEG file held in `bytes` by one storing
/// `description`, and returns the new file.
pub fn rewrite_jpeg_description(bytes: &[u8], description: &str) -> (res: Result<Vec<u8>, String>)
    ensures
        !is_jpeg_start(bytes@) ==> (res matches Err(e) && e@ == "Output is not a valid JPEG file"@),
        is_jpeg_start(bytes@) ==> (res is Ok <==> exif_segment_fits(encode_utf8(description@))),
        is_jpeg_start(bytes@) && res is Err ==> (res matches Err(e) && e@
            == "Description metadata is too large for JPEG EXIF"@),
        res matches Ok(out) ==> out@ == jpeg_with_description(bytes@, encode_utf8(description@)),
{
    if bytes.len() < 4 || bytes[0] != 0xff || bytes[1] != 0xd8 {
        return Err(String::from_str("Output is not a valid JPEG file"));
    }
    let app1 = match jpeg_exif_description_segment(description) {
        Ok(segment) => segment,
        Err(e) => return Err(e),
    };
    let header = exif_header_bytes();
    let mut output: Vec<u8> = Vec::new();
    push_bytes(&mut output, &bytes[0..2]);
    push_bytes(&mut output, app1.as_slice());
    let ghost prefix = output@;
    assert(prefix =~= bytes@.take(2) + app1@);
    let mut cursor: usize = 2;
    while cursor <= bytes.len() - 4 && bytes[cursor] == 0xff
        invariant
            2 <= cursor <= bytes.len(),
            bytes.len() >= 4,
            header@ == exif_header(),
            output@.len() >= prefix.len(),
            output@.take(prefix.len() as int) == prefix,
            jpeg_strip_exif(bytes@.skip(2)) == output@.skip(prefix.len() as int) + jpeg_strip_exif(
                bytes@.skip(cursor as int),
            ),
        ensures
            jpeg_strip_exif(bytes@.skip(cursor as int)) == bytes@.skip(cursor as int),
        decreases bytes.len() - cursor,
    {
        let ghost s = bytes@.skip(cursor as int);
        let ghost before = output@;
        let marker = bytes[cursor + 1];
        if marker == 0xda || marker == 0xd9 || (0xd0 <= marker && marker <= 0xd7) {
            break;
        }
        let length = read_u16(bytes, cursor + 2, true).unwrap() as usize;
        assert(length == be16_at(s, 2));
        if length < 2 || length > bytes.len() - cursor - 2 {
            break;
        }
        let segment_end = cursor + 2 + length;
        let payload_start = cursor + 4;
        let is_exif = marker == 0xe1 && payload_start <= bytes.len() && bytes.len() - payload_start
            >= 6 && bytes_equal(&bytes[payload_start..payload_start + 6], header.as_slice());
        proof {
            if s.len() >= 10 {
                assert(bytes@.subrange(payload_start as int, payload_start + 6) =~= s.subrange(4, 10));
            }
        }
        if !is_exif {
            push_bytes(&mut output, &bytes[cursor..segment_end]);
            assert(bytes@.subrange(cursor as int, segment_end as int) =~= s.take(jpeg_segment_end(s)));
            assert(output@.skip(prefix.len() as int) =~= before.skip(prefix.len() as int) + s.take(
                jpeg_segment_end(s),
            ));
        }
        proof {
            assert(output@.take(prefix.len() as int) =~= before.take(prefix.len() as int));
            assert(bytes@.skip(segment_end as int) =~= s.skip(jpeg_segment_end(s)));
            let piece = if jpeg_is_exif_segment(s) {
                Seq::<u8>::empty()
            } else {
                s.take(jpeg_segment_end(s))
            };
            assert(output@.skip(prefix.len() as int) =~= before.skip(prefix.len() as int) + piece);
            assert(before.skip(prefix.len() as int) + (piece + jpeg_strip_exif(
                s.skip(jpeg_segment_end(s)),
            )) =~= output@.skip(prefix.len() as int) + jpeg_strip_exif(
                s.skip(jpeg_segment_end(s)),
            ));
        }
        cursor = segment_end;
    }
    let ghost before = output@;
    push_bytes(&mut output, &bytes[cursor..bytes.len()]);
    proof {
        assert(bytes@.subrange(cursor as int, bytes@.len() as int) =~= bytes@.skip(cursor as int));
        assert(output@ =~= prefix + output@.skip(prefix.len() as int));
        assert(output@.skip(prefix.len() as int) =~= before.skip(prefix.len() as int) + bytes@.skip(
            cursor as int,
        ));
    }
    Ok(output)
}


/// Whether the chunk walk over `s` reaches an IEND chunk without overrunning.
pub open spec fn png_reaches_end(s: Seq<u8>) -> bool
    decreases s.len(),
{
    if s.len() >= 12 && png_chunk_end(s) <= s.len() {
        if png_chunk_type(s) == end_chunk_type() {
            true
        } else {
            png_reaches_end(s.skip(png_chunk_end(s)))
        }
    } else {
        false
    }
}

/// The chunk fields of `p + rest` are those of `p` when `p` holds a whole chunk.
proof fn lemma_chunk_prefix(p: Seq<u8>, rest: Seq<u8>)
    requires
        p.len() >= 12,
        png_chunk_end(p) == p.len(),
    ensures
        png_chunk_length(p + rest) == png_chunk_length(p),
        png_chunk_end(p + rest) == png_chunk_end(p),
        png_chunk_type(p + rest) == png_chunk_type(p),
        png_chunk_data(p + rest) == png_chunk_data(p),
        is_description_chunk(p + rest) == is_description_chunk(p),
        (p + rest).skip(png_chunk_end(p)) == rest,
{
    let q = p + rest;
    assert(png_chunk_type(q) =~= png_chunk_type(p));
    assert(png_chunk_data(q) =~= png_chunk_data(p));
    assert(q.skip(png_chunk_end(p)) =~= rest);
}

/// Reading back after the chunk rewrite finds the inserted chunk's text exactly
/// when the walk reaches IEND, and no Description otherwise.
proof fn lemma_png_rewrite_then_scan(s: Seq<u8>, c: Seq<u8>)
    requires
        c.len() >= 12,
        png_chunk_end(c) == c.len(),
        is_description_chunk(c),
        png_rewrite_chunks(s, c) is Ok,
    ensures
        png_scan_description(png_rewrite_chunks(s, c)->Ok_0) == (if png_reaches_end(s) {
            Ok::<Option<Seq<u8>>, ()>(Some(text_value(png_chunk_data(c))))
        } else {
            Ok::<Option<Seq<u8>>, ()>(None)
        }),
    decreases s.len(),
{
    if s.len() >= 12 {
        let end = png_chunk_end(s);
        if png_chunk_type(s) == end_chunk_type() {
            lemma_chunk_prefix(c, s.take(end));
        } else {
            let rest = png_rewrite_chunks(s.skip(end), c)->Ok_0;
            lemma_png_rewrite_then_scan(s.skip(end), c);
            if !is_description_chunk(s) {
                let piece = s.take(end);
                assert(png_chunk_type(piece) =~= png_chunk_type(s));
                assert(png_chunk_data(piece) =~= png_chunk_data(s));
                lemma_chunk_prefix(piece, rest);
            } else {
                assert(Seq::<u8>::empty() + rest =~= rest);
            }
        }
    }
}

/// Facts about the Description tEXt chunk built for `text`.
proof fn lemma_text_chunk_fields(text: Seq<u8>)
    requires
        text.len() + 12 < 0x1_0000_0000,
    ensures
        ({
            let c = text_chunk(description_keyword(), text);
            &&& c.len() >= 12
            &&& png_chunk_end(c) == c.len()
            &&& is_description_chunk(c)
            &&& text_value(png_chunk_data(c)) == text
        }),
{
    let k = description_keyword();
    let data = text_chunk_data(k, text);
    let c = text_chunk(k, text);
    let n = data.len() as int;
    assert((n as u32) as int == n);
    lemma_be32_roundtrip(n);
    assert(c.subrange(0, 4) =~= be32_bytes(n));
    assert(png_chunk_length(c) == n);
    assert(png_chunk_type(c) =~= text_chunk_type());
    assert(png_chunk_data(c) =~= data);
    assert forall|j: int| 0 <= j < 11 implies data[j] != 0 by {}
    lemma_zero_position(data, 11);
    assert(text_keyword(data) =~= k);
    assert(text_value(data) =~= text);
}

/// The chunk walk over a rewritten PNG file starts right after the signature.
proof fn lemma_png_with_description_start(bytes: Seq<u8>, text: Seq<u8>)
    requires
        png_with_description(bytes, text) is Ok,
    ensures
        is_png_start(png_with_description(bytes, text)->Ok_0),
        png_with_description(bytes, text)->Ok_0.skip(8) == png_rewrite_chunks(
            bytes.skip(8),
            text_chunk(description_keyword(), text),
        )->Ok_0,
{
    let out = png_with_description(bytes, text)->Ok_0;
    let r = png_rewrite_chunks(bytes.skip(8), text_chunk(description_keyword(), text))->Ok_0;
    assert(out =~= png_signature() + r);
    assert(out.take(8) =~= png_signature());
    assert(out.skip(8) =~= r);
}

/// Law: reading the Description of a PNG file after its Description was
/// rewritten gives the new text, provided the file's chunk walk reaches IEND
/// (a file without IEND gets no Description chunk at all).
pub proof fn lemma_png_description_roundtrip(bytes: Seq<u8>, text: Seq<u8>)
    requires
        is_png_start(bytes),
        text.len() + 12 < 0x1_0000_0000,
        png_with_description(bytes, text) is Ok,
    ensures
        png_description(png_with_description(bytes, text)->Ok_0) == (if png_reaches_end(
            bytes.skip(8),
        ) {
            Ok::<Option<Seq<u8>>, ()>(Some(text))
        } else {
            Ok::<Option<Seq<u8>>, ()>(None)
        }),
{
    let c = text_chunk(description_keyword(), text);
    lemma_text_chunk_fields(text);
    lemma_png_with_description_start(bytes, text);
    lemma_png_rewrite_then_scan(bytes.skip(8), c);
}


/// The first 18 bytes of a one-entry TIFF structure in the given byte order:
/// byte-order mark, 42, IFD offset 8, one entry, and that entry's tag
/// (ImageDescription), type (ASCII) and count `n`.
pub open spec fn single_entry_tiff_head(n: int, big_endian: bool) -> Seq<u8> {
    let order: Seq<u8> = if big_endian {
        seq![0x4du8, 0x4du8]
    } else {
        seq![0x49u8, 0x49u8]
    };
    order + u16_bytes(42, big_endian) + u32_bytes(8, big_endian) + u16_bytes(1, big_endian)
        + u16_bytes(0x010e, big_endian) + u16_bytes(2, big_endian) + u32_bytes(n, big_endian)
}

/// A TIFF structure in the given byte order (`MM` big-endian, `II`
/// little-endian) whose first IFD holds one ASCII ImageDescription entry with
/// value `ascii`: inline when it has at most four bytes, else at byte 26.
pub open spec fn single_entry_tiff(ascii: Seq<u8>, big_endian: bool) -> Seq<u8> {
    let n = ascii.len() as int;
    single_entry_tiff_head(n, big_endian) + (if n <= 4 {
        ascii + Seq::new((4 - n) as nat, |i: int| 0u8)
    } else {
        u32_bytes(26, big_endian)
    }) + u32_bytes(0, big_endian) + (if n > 4 {
        ascii
    } else {
        Seq::empty()
    })
}

proof fn lemma_u16_at_piece(t: Seq<u8>, off: int, piece: Seq<u8>, be: bool)
    requires
        0 <= off,
        off + 2 <= t.len(),
        piece.len() == 2,
        t.subrange(off, off + 2) == piece,
    ensures
        u16_at(t, off, be) == u16_at(piece, 0, be),
{
    assert(t[off] == t.subrange(off, off + 2)[0]);
    assert(t[off + 1] == t.subrange(off, off + 2)[1]);
}

proof fn lemma_u32_at_piece(t: Seq<u8>, off: int, piece: Seq<u8>, be: bool)
    requires
        0 <= off,
        off + 4 <= t.len(),
        piece.len() == 4,
        t.subrange(off, off + 4) == piece,
    ensures
        u32_at(t, off, be) == u32_at(piece, 0, be),
{
    assert(t[off] == t.subrange(off, off + 4)[0]);
    assert(t[off + 1] == t.subrange(off, off + 4)[1]);
    assert(t[off + 2] == t.subrange(off, off + 4)[2]);
    assert(t[off + 3] == t.subrange(off, off + 4)[3]);
}

proof fn lemma_single_entry_tiff_head(n: int, be: bool)
    requires
        0 <= n < 0x1_0000_0000,
    ensures
        ({
            let h = single_entry_tiff_head(n, be);
            &&& h.len() == 18
            &&& h[0] == h[1]
            &&& (h[0] == 0x4d || h[0] == 0x49)
            &&& (h[0] == 0x4d) == be
            &&& u16_at(h, 2, be) == 42
            &&& u32_at(h, 4, be) == 8
            &&& u16_at(h, 8, be) == 1
            &&& u16_at(h, 10, be) == 0x010e
            &&& u16_at(h, 12, be) == 2
            &&& u32_at(h, 14, be) == n
        }),
{
    let h = single_entry_tiff_head(n, be);
    lemma_u16_roundtrip(42, be);
    lemma_u32_roundtrip(8, be);
    lemma_u16_roundtrip(1, be);
    lemma_u16_roundtrip(0x010e, be);
    lemma_u16_roundtrip(2, be);
    lemma_u32_roundtrip(n, be);
    assert(h.subrange(2, 4) =~= u16_bytes(42, be));
    assert(h.subrange(4, 8) =~= u32_bytes(8, be));
    assert(h.subrange(8, 10) =~= u16_bytes(1, be));
    assert(h.subrange(10, 12) =~= u16_bytes(0x010e, be));
    assert(h.subrange(12, 14) =~= u16_bytes(2, be));
    assert(h.subrange(14, 18) =~= u32_bytes(n, be));
    lemma_u16_at_piece(h, 2, u16_bytes(42, be), be);
    lemma_u32_at_piece(h, 4, u32_bytes(8, be), be);
    lemma_u16_at_piece(h, 8, u16_bytes(1, be), be);
    lemma_u16_at_piece(h, 10, u16_bytes(0x010e, be), be);
    lemma_u16_at_piece(h, 12, u16_bytes(2, be), be);
    lemma_u32_at_piece(h, 14, u32_bytes(n, be), be);
}

/// Law: in either byte order, a TIFF structure whose first IFD holds one
/// ASCII ImageDescription entry gives that entry's text, without its
/// terminating zero, as its description.
pub proof fn lemma_single_entry_tiff_description(ascii: Seq<u8>, big_endian: bool)
    requires
        1 <= ascii.len() < 0x1_0000_0000,
        ascii.last() == 0,
    ensures
        exif_description(single_entry_tiff(ascii, big_endian)) == Some(ascii.drop_last()),
{
    let be = big_endian;
    let t = single_entry_tiff(ascii, be);
    let n = ascii.len() as int;
    let h = single_entry_tiff_head(n, be);
    lemma_single_entry_tiff_head(n, be);
    lemma_u32_roundtrip(26, be);
    lemma_u32_roundtrip(0, be);
    assert(t.len() >= 26);
    assert(t.subrange(0, 18) =~= h);
    assert forall|i: int| 0 <= i < 18 implies t[i] == h[i] by {
        assert(t.subrange(0, 18)[i] == t[i]);
    }
    assert(u16_at(t, 2, be) == u16_at(h, 2, be));
    assert(u32_at(t, 4, be) == u32_at(h, 4, be));
    assert(u16_at(t, 8, be) == u16_at(h, 8, be));
    assert(u16_at(t, 10, be) == u16_at(h, 10, be));
    assert(u16_at(t, 12, be) == u16_at(h, 12, be));
    assert(u32_at(t, 14, be) == u32_at(h, 14, be));
    assert(is_description_entry(t, 10, be));
    if n <= 4 {
        assert(t.subrange(18, 18 + n) =~= ascii);
    } else {
        assert(t.subrange(18, 22) =~= u32_bytes(26, be));
        lemma_u32_at_piece(t, 18, u32_bytes(26, be), be);
        assert(t.subrange(26, 26 + n) =~= ascii);
    }
    assert(exif_scan(t, be, 10, 0, 1) == Some(strip_trailing_nul(ascii)));
}

/// The TIFF structure built for `ascii` yields `ascii` (minus its terminator)
/// as its ImageDescription.
proof fn lemma_exif_tiff_description(ascii: Seq<u8>)
    requires
        1 <= ascii.len() < 65536,
        ascii.last() == 0,
    ensures
        exif_description(exif_tiff(ascii)) == Some(ascii.drop_last()),
{
    assert(exif_tiff(ascii) =~= single_entry_tiff(ascii, true));
    lemma_single_entry_tiff_description(ascii, true);
}

/// The EXIF segment built for a description, followed by anything, is read
/// back as that description without its zero bytes.
#[verifier::spinoff_prover]
#[verifier::rlimit(40)]
proof fn lemma_exif_segment_scan(description: Seq<u8>, rest: Seq<u8>)
    requires
        exif_segment_fits(description),
    ensures
        jpeg_scan_description(exif_segment(description) + rest) == Some(without_nul(description)),
{
    let ascii = exif_ascii(description);
    let payload = exif_payload(description);
    let seg = exif_segment(description);
    let s = seg + rest;
    lemma_exif_tiff_len(ascii);
    lemma_be16_roundtrip(payload.len() + 2int);
    assert(ascii.drop_last() =~= without_nul(description));
    assert(seg.subrange(2, 4) =~= be16_bytes(payload.len() + 2int));
    assert(be16_at(s, 2) == payload.len() + 2) by {
        assert(be16_at(s, 2) == be16_at(be16_bytes(payload.len() + 2int), 0));
    }
    assert(jpeg_segment_ok(s));
    assert(jpeg_segment_description(s) == Some(without_nul(description))) by {
        assert(s.subrange(4, jpeg_segment_end(s)) =~= payload);
        assert(payload.take(6) =~= exif_header());
        assert(payload.skip(6) =~= exif_tiff(ascii));
        lemma_exif_tiff_description(ascii);
    }
}

/// Law: reading the EXIF description of a JPEG file after it was rewritten
/// gives the new description's bytes without their zero bytes.
pub proof fn lemma_jpeg_description_roundtrip(bytes: Seq<u8>, description: Seq<u8>)
    requires
        is_jpeg_start(bytes),
        exif_segment_fits(description),
    ensures
        is_jpeg_start(jpeg_with_description(bytes, description)),
        jpeg_description(jpeg_with_description(bytes, description)) == Some(
            without_nul(description),
        ),
{
    let out = jpeg_with_description(bytes, description);
    let seg = exif_segment(description);
    let rest = jpeg_strip_exif(bytes.skip(2));
    lemma_exif_tiff_len(exif_ascii(description));
    assert(out.skip(2) =~= seg + rest);
    lemma_exif_segment_scan(description, rest);
    assert(out[0] == bytes[0] && out[1] == bytes[1]);
}


/// The image formats whose description metadata is handled.
#[derive(Debug, Clone, Copy, PartialEq, Eq, Structural)]
pub enum DescriptionFormat {
    Jpeg,
    Png,
}

/// The lowercased extension of a path, if it has one.
pub open spec fn normalized_extension_spec(path: Seq<char>) -> Option<Seq<char>> {
    match path_extension_spec(path) {
        Some(e) => Some(ascii_lower(e)),
        None => None,
    }
}

/// The description format a path's extension names: `jpg` and `jpeg` are
/// JPEG, `png` is PNG, in any letter case.
pub open spec fn format_for_path(path: Seq<char>) -> Option<DescriptionFormat> {
    match normalized_extension_spec(path) {
        Some(e) => if e == "jpg"@ || e == "jpeg"@ {
            Some(DescriptionFormat::Jpeg)
        } else if e == "png"@ {
            Some(DescriptionFormat::Png)
        } else {
            None
        },
        None => None,
    }
}

/// The lowercased extension of a path.
pub fn extension(path: &str) -> (res: Option<String>)
    ensures
        res matches Some(e) ==> normalized_extension_spec(path@) == Some(e@),
        res is None ==> normalized_extension_spec(path@) is None,
{
    match path_extension(path) {
        Some(e) => Some(to_ascii_lowercase(e.as_str())),
        None => None,
    }
}

/// The description format of a path, by its extension.
pub fn description_format(path: &str) -> (res: Option<DescriptionFormat>)
    ensures
        res == format_for_path(path@),
{
    match extension(path) {
        Some(e) => {
            if str_eq(e.as_str(), "jpg") || str_eq(e.as_str(), "jpeg") {
                Some(DescriptionFormat::Jpeg)
            } else if str_eq(e.as_str(), "png") {
                Some(DescriptionFormat::Png)
            } else {
                None
            }
        },
        None => None,
    }
}

/// What reading the description of a file gives: `None` when the file is not
/// of the format, else the description bytes found (`Some(None)` when there
/// is none).
pub open spec fn description_read(format: DescriptionFormat, bytes: Seq<u8>) -> Option<
    Option<Seq<u8>>,
> {
    match format {
        DescriptionFormat::Jpeg => if is_jpeg_start(bytes) {
            Some(jpeg_description(bytes))
        } else {
            None
        },
        DescriptionFormat::Png => if is_png_start(bytes) {
            match png_description(bytes) {
                Ok(d) => Some(d),
                Err(_) => None,
            }
        } else {
            None
        },
    }
}

/// What writing `description` into a file gives: the new file, or `None` when
/// the file is not of the format (or cannot take the description).
pub open spec fn description_written(
    format: DescriptionFormat,
    bytes: Seq<u8>,
    description: Seq<u8>,
) -> Option<Seq<u8>> {
    match format {
        DescriptionFormat::Jpeg => if is_jpeg_start(bytes) && exif_segment_fits(description) {
            Some(jpeg_with_description(bytes, description))
        } else {
            None
        },
        DescriptionFormat::Png => if is_png_start(bytes) {
            match png_with_description(bytes, description) {
                Ok(out) => Some(out),
                Err(_) => None,
            }
        } else {
            None
        },
    }
}

/// Reads the description metadata of a file of the given format held in
/// `bytes`.
pub fn read_image_description(format: DescriptionFormat, bytes: &[u8]) -> (res: Result<
    Option<String>,
    String,
>)
    ensures
        res is Ok <==> description_read(format, bytes@) is Some,
        res matches Ok(d) ==> (d is Some <==> description_read(format, bytes@) matches Some(
            Some(_),
        )),
        res matches Ok(Some(d)) ==> d@ == lossy_utf8(description_read(format, bytes@)->Some_0->Some_0),
        res matches Ok(Some(d)) ==> (vstd::utf8::valid_utf8(
            description_read(format, bytes@)->Some_0->Some_0,
        ) ==> d@ == vstd::utf8::decode_utf8(description_read(format, bytes@)->Some_0->Some_0)),
        res matches Err(e) ==> (format == DescriptionFormat::Jpeg ==> e@
            == "Source is not a valid JPEG file"@),
        res matches Err(e) ==> (format == DescriptionFormat::Png ==> (if is_png_start(bytes@) {
            e@ == "PNG metadata chunks are malformed"@
        } else {
            e@ == "Source is not a valid PNG file"@
        })),
{
    match format {
        DescriptionFormat::Jpeg => read_jpeg_description(bytes),
        DescriptionFormat::Png => read_png_description(bytes),
    }
}

/// Writes `description` into the description metadata of a file of the given
/// format held in `bytes`, and returns the new file.
pub fn write_description(format: DescriptionFormat, bytes: &[u8], description: &str) -> (res:
    Result<Vec<u8>, String>)
    ensures
        res is Ok <==> description_written(format, bytes@, encode_utf8(description@)) is Some,
        res matches Ok(out) ==> out@ == description_written(
            format,
            bytes@,
            encode_utf8(description@),
        )->Some_0,
        res matches Err(e) ==> (format == DescriptionFormat::Jpeg ==> (if is_jpeg_start(bytes@) {
            e@ == "Description metadata is too large for JPEG EXIF"@
        } else {
            e@ == "Output is not a valid JPEG file"@
        })),
        res matches Err(e) ==> (format == DescriptionFormat::Png ==> (if is_png_start(bytes@) {
            e@ == "PNG metadata chunks are malformed"@
        } else {
            e@ == "Output is not a valid PNG file"@
        })),
{
    match format {
        DescriptionFormat::Jpeg => rewrite_jpeg_description(bytes, description),
        DescriptionFormat::Png => rewrite_png_description(bytes, description),
    }
}

proof fn lemma_without_nul_identity(s: Seq<u8>)
    requires
        forall|i: int| 0 <= i < s.len() ==> s[i] != 0,
    ensures
        without_nul(s) == s,
    decreases s.len(),
{
    if s.len() > 0 {
        lemma_without_nul_identity(s.drop_last());
        assert(s.drop_last().push(s.last()) =~= s);
    }
}

proof fn lemma_without_nul_concat(a: Seq<u8>, b: Seq<u8>)
    ensures
        without_nul(a + b) == without_nul(a) + without_nul(b),
    decreases b.len(),
{
    if b.len() == 0 {
        assert(a + b =~= a);
        assert(without_nul(a) + without_nul(b) =~= without_nul(a));
    } else {
        assert((a + b).drop_last() =~= a + b.drop_last());
        assert((a + b).last() == b.last());
        lemma_without_nul_concat(a, b.drop_last());
        if b.last() != 0 {
            assert(without_nul(a) + without_nul(b.drop_last()).push(b.last()) =~= (without_nul(a)
                + without_nul(b.drop_last())).push(b.last()));
        }
    }
}

/// Dropping the zero bytes of UTF-8 text gives the encoding of the text
/// without its U+0000 characters.
proof fn lemma_without_nul_encode_utf8(s: Seq<char>)
    ensures
        without_nul(encode_utf8(s)) == encode_utf8(remove_nul(s)),
    decreases s.len(),
{
    reveal(Seq::filter);
    if s.len() > 0 {
        let c = s[0];
        let rest = s.drop_first();
        let pred = |ch: char| (ch as u32) != 0;
        vstd::utf8::char_is_scalar(c);
        assert(s =~= seq![c] + rest);
        Seq::filter_distributes_over_add(seq![c], rest, pred);
        assert(seq![c].drop_last() =~= Seq::<char>::empty());
        assert(Seq::<char>::empty().filter(pred) =~= Seq::<char>::empty());
        lemma_without_nul_concat(vstd::utf8::encode_scalar(c as u32), encode_utf8(rest));
        lemma_without_nul_encode_utf8(rest);
        if (c as u32) == 0 {
            assert(seq![c].filter(pred) =~= Seq::<char>::empty());
            assert(remove_nul(s) =~= remove_nul(rest));
            assert((0u32 & 0x7f) as u8 == 0) by (bit_vector);
            assert(vstd::utf8::encode_scalar(c as u32) =~= seq![0u8]);
            assert(without_nul(seq![0u8]) =~= Seq::<u8>::empty()) by {
                assert(seq![0u8].drop_last() =~= Seq::<u8>::empty());
                assert(seq![0u8].last() == 0);
                assert(without_nul(Seq::<u8>::empty()) == Seq::<u8>::empty());
            }
            assert(Seq::<u8>::empty() + encode_utf8(remove_nul(rest)) =~= encode_utf8(
                remove_nul(rest),
            ));
        } else {
            assert(seq![c].filter(pred) =~= seq![c]);
            let r = remove_nul(rest);
            assert(remove_nul(s) =~= seq![c] + r);
            assert((seq![c] + r).drop_first() =~= r);
            assert(has_no_nul(seq![c]));
            lemma_encode_utf8_no_zero(seq![c]);
            assert(seq![c].drop_first() =~= Seq::<char>::empty());
            assert(encode_utf8(Seq::<char>::empty()) =~= Seq::<u8>::empty());
            assert(seq![c][0] == c);
            assert(encode_utf8(seq![c]) =~= vstd::utf8::encode_scalar(c as u32) + encode_utf8(
                Seq::<char>::empty(),
            ));
            assert(encode_utf8(seq![c]) =~= vstd::utf8::encode_scalar(c as u32));
            lemma_without_nul_identity(vstd::utf8::encode_scalar(c as u32));
        }
    }
}

/// The text a description reads back as after it was written: JPEG EXIF
/// ASCII cannot hold U+0000, so those characters are dropped; PNG keeps the
/// text as it is.
pub open spec fn stored_description_text(format: DescriptionFormat, description: Seq<char>) -> Seq<
    char,
> {
    match format {
        DescriptionFormat::Jpeg => remove_nul(description),
        DescriptionFormat::Png => description,
    }
}

/// Law: writing a description into a file and reading the file's description
/// back gives the written text, minus its U+0000 characters for JPEG (EXIF
/// ASCII drops zero bytes), as valid UTF-8. A PNG file must reach its IEND
/// chunk (else no description chunk is written), and the chunk data must fit
/// its 32-bit length field.
pub proof fn lemma_description_roundtrip(
    format: DescriptionFormat,
    bytes: Seq<u8>,
    description: Seq<char>,
)
    requires
        format == DescriptionFormat::Png ==> encode_utf8(description).len() + 12 < 0x1_0000_0000,
        description_written(format, bytes, encode_utf8(description)) is Some,
        format == DescriptionFormat::Png ==> png_reaches_end(bytes.skip(8)),
    ensures
        ({
            let out = description_written(format, bytes, encode_utf8(description))->Some_0;
            let text = stored_description_text(format, description);
            &&& description_read(format, out) == Some(Some(encode_utf8(text)))
            &&& vstd::utf8::valid_utf8(encode_utf8(text))
            &&& vstd::utf8::decode_utf8(encode_utf8(text)) == text
        }),
{
    let d = encode_utf8(description);
    let text = stored_description_text(format, description);
    vstd::utf8::encode_utf8_decode_utf8(text);
    vstd::utf8::encode_utf8_valid_utf8(text);
    match format {
        DescriptionFormat::Jpeg => {
            lemma_without_nul_encode_utf8(description);
            lemma_jpeg_description_roundtrip(bytes, d);
        },
        DescriptionFormat::Png => {
            lemma_png_description_roundtrip(bytes, d);
            lemma_png_with_description_start(bytes, d);
        },
    }
}

/// Law: the TIFF structure inside the EXIF segment built for a description
/// (the segment from byte 10 on, after marker, length and `Exif\0\0`) gives
/// back as its ImageDescription the description without its U+0000
/// characters, as valid UTF-8.
pub proof fn lemma_exif_segment_description(description: Seq<char>)
    requires
        exif_segment_fits(encode_utf8(description)),
    ensures
        exif_description(exif_segment(encode_utf8(description)).skip(10)) == Some(
            encode_utf8(remove_nul(description)),
        ),
        vstd::utf8::valid_utf8(encode_utf8(remove_nul(description))),
        vstd::utf8::decode_utf8(encode_utf8(remove_nul(description))) == remove_nul(description),
{
    let d = encode_utf8(description);
    let ascii = exif_ascii(d);
    lemma_exif_tiff_len(ascii);
    assert(exif_segment(d).skip(10) =~= exif_tiff(ascii));
    lemma_exif_tiff_description(ascii);
    assert(ascii.drop_last() =~= without_nul(d));
    lemma_without_nul_encode_utf8(description);
    vstd::utf8::encode_utf8_decode_utf8(remove_nul(description));
    vstd::utf8::encode_utf8_valid_utf8(remove_nul(description));
}

/// A description to write into an exported file.
#[derive(Debug, Clone)]
pub struct DescriptionWrite {
    pub format: DescriptionFormat,
    pub text: String,
}

/// What the metadata policy writes into the file at `output_path`: `None`
/// when nothing is written, else the format and text.
pub open spec fn metadata_write_spec(
    output_path: Seq<char>,
    policy: MetadataPolicy,
    rules_description: Seq<char>,
    source_description: Option<Seq<char>>,
) -> Option<(DescriptionFormat, Seq<char>)> {
    let text = match policy {
        MetadataPolicy::ClearDescription => None,
        MetadataPolicy::Preserve => match source_description {
            Some(d) => if trim_spec(d).len() > 0 {
                Some(d)
            } else {
                None
            },
            None => None,
        },
        MetadataPolicy::RewriteDescription => Some(trim_spec(rules_description)),
    };
    match (text, format_for_path(output_path)) {
        (Some(t), Some(f)) => Some((f, t)),
        _ => None,
    }
}

/// Decides what description metadata the export writes into the file at
/// `output_path`: nothing for ClearDescription; the source description (when
/// not blank) for Preserve; the trimmed rule description for
/// RewriteDescription, which fails when that is blank. Only JPEG and PNG paths
/// get a description.
pub fn apply_metadata_policy(
    output_path: &str,
    output_rules: &OutputRules,
    source_description: Option<&str>,
) -> (res: Result<Option<DescriptionWrite>, String>)
    ensures
        res is Err <==> (output_rules.metadata_policy == MetadataPolicy::RewriteDescription
            && trim_spec(output_rules.description@).len() == 0),
        res matches Err(e) ==> e@ == "Description is required when metadata rewrite is selected"@,
        res matches Ok(w) ==> match w {
            Some(w) => metadata_write_spec(
                output_path@,
                output_rules.metadata_policy,
                output_rules.description@,
                match source_description {
                    Some(d) => Some(d@),
                    None => None,
                },
            ) == Some((w.format, w.text@)),
            None => metadata_write_spec(
                output_path@,
                output_rules.metadata_policy,
                output_rules.description@,
                match source_description {
                    Some(d) => Some(d@),
                    None => None,
                },
            ) is None,
        },
{
    let text: Option<String> = match output_rules.metadata_policy {
        MetadataPolicy::ClearDescription => None,
        MetadataPolicy::Preserve => match source_description {
            Some(d) => {
                if trim(d).is_empty() {
                    None
                } else {
                    Some(String::from_str(d))
                }
            },
            None => None,
        },
        MetadataPolicy::RewriteDescription => {
            let d = trim(output_rules.description.as_str());
            if d.is_empty() {
                return Err(
                    String::from_str("Description is required when metadata rewrite is selected"),
                );
            }
            Some(String::from_str(d))
        },
    };
    match text {
        Some(t) => match description_format(output_path) {
            Some(format) => Ok(Some(DescriptionWrite { format, text: t })),
            None => Ok(None),
        },
        None => Ok(None),
    }
}


/// Law: the ClearDescription policy never writes a description; the others
/// write the trimmed rule description (RewriteDescription) or the unchanged
/// source description (Preserve), and a written description is what reading
/// the exported file gives back, without U+0000 characters for JPEG (under
/// the conditions of `lemma_description_roundtrip`).
pub proof fn lemma_policy_roundtrip(
    output_path: Seq<char>,
    policy: MetadataPolicy,
    rules_description: Seq<char>,
    source_description: Option<Seq<char>>,
    bytes: Seq<u8>,
)
    requires
        metadata_write_spec(output_path, policy, rules_description, source_description) is Some,
        ({
            let (f, t) = metadata_write_spec(
                output_path,
                policy,
                rules_description,
                source_description,
            )->Some_0;
            &&& f == DescriptionFormat::Png ==> encode_utf8(t).len() + 12 < 0x1_0000_0000
            &&& description_written(f, bytes, encode_utf8(t)) is Some
            &&& f == DescriptionFormat::Png ==> png_reaches_end(bytes.skip(8))
        }),
    ensures
        policy != MetadataPolicy::ClearDescription,
        ({
            let (f, t) = metadata_write_spec(
                output_path,
                policy,
                rules_description,
                source_description,
            )->Some_0;
            let out = description_written(f, bytes, encode_utf8(t))->Some_0;
            &&& Some(f) == format_for_path(output_path)
            &&& policy == MetadataPolicy::RewriteDescription ==> t == trim_spec(rules_description)
            &&& policy == MetadataPolicy::Preserve ==> Some(t) == source_description
            &&& description_read(f, out) matches Some(Some(read))
            &&& vstd::utf8::valid_utf8(read)
            &&& vstd::utf8::decode_utf8(read) == stored_description_text(f, t)
        }),
{
    let (f, t) = metadata_write_spec(output_path, policy, rules_description, source_description)->Some_0;
    lemma_description_roundtrip(f, bytes, t);
}


proof fn lemma_prepend_ok_empty(r: Result<Seq<u8>, ()>)
    ensures
        prepend_ok(Seq::empty(), r) == r,
{
    if let Ok(x) = r {
        assert(Seq::<u8>::empty() + x =~= x);
    }
}

/// Rewriting the chunks twice keeps only the second inserted chunk.
proof fn lemma_png_rewrite_twice(s: Seq<u8>, c1: Seq<u8>, c2: Seq<u8>)
    requires
        c1.len() >= 12,
        png_chunk_end(c1) == c1.len(),
        is_description_chunk(c1),
        png_rewrite_chunks(s, c1) is Ok,
    ensures
        png_rewrite_chunks(png_rewrite_chunks(s, c1)->Ok_0, c2) == png_rewrite_chunks(s, c2),
    decreases s.len(),
{
    if s.len() >= 12 {
        let end = png_chunk_end(s);
        let piece = s.take(end);
        assert(png_chunk_type(piece) =~= png_chunk_type(s));
        assert(png_chunk_data(piece) =~= png_chunk_data(s));
        if png_chunk_type(s) == end_chunk_type() {
            lemma_chunk_prefix(c1, piece);
            assert(png_chunk_type(c1) != end_chunk_type()) by {
                assert(png_chunk_type(c1)[0] == text_chunk_type()[0]);
            }
            lemma_prepend_ok_empty(png_rewrite_chunks(piece, c2));
            assert(piece.take(end) =~= piece);
            assert(piece.skip(end) =~= Seq::<u8>::empty());
        } else {
            let rest = png_rewrite_chunks(s.skip(end), c1)->Ok_0;
            lemma_png_rewrite_twice(s.skip(end), c1, c2);
            if is_description_chunk(s) {
                assert(Seq::<u8>::empty() + rest =~= rest);
                lemma_prepend_ok_empty(png_rewrite_chunks(s.skip(end), c2));
            } else {
                lemma_chunk_prefix(piece, rest);
                assert((piece + rest).take(end) =~= piece);
            }
        }
    } else {
        assert(Seq::<u8>::empty().len() < 12);
    }
}

/// Law: rewriting a PNG file's Description twice gives the same file as
/// rewriting it once with the second text (the last write wins, and no earlier
/// Description chunk survives).
pub proof fn lemma_png_rewrite_last_wins(bytes: Seq<u8>, first: Seq<u8>, second: Seq<u8>)
    requires
        is_png_start(bytes),
        first.len() + 12 < 0x1_0000_0000,
        png_with_description(bytes, first) is Ok,
    ensures
        is_png_start(png_with_description(bytes, first)->Ok_0),
        png_with_description(png_with_description(bytes, first)->Ok_0, second)
            == png_with_description(bytes, second),
{
    let c1 = text_chunk(description_keyword(), first);
    let c2 = text_chunk(description_keyword(), second);
    lemma_text_chunk_fields(first);
    lemma_png_with_description_start(bytes, first);
    lemma_png_rewrite_twice(bytes.skip(8), c1, c2);
}


/// Rewriting twice drops the first EXIF segment: the header walk after the
/// new segment is the walk over the twice-stripped header.
proof fn lemma_jpeg_rewrite_twice(bytes: Seq<u8>, first: Seq<u8>, second: Seq<u8>)
    requires
        is_jpeg_start(bytes),
        exif_segment_fits(first),
    ensures
        jpeg_with_description(jpeg_with_description(bytes, first), second) == bytes.take(2)
            + exif_segment(second) + jpeg_strip_exif(jpeg_strip_exif(bytes.skip(2))),
{
    let out = jpeg_with_description(bytes, first);
    let seg = exif_segment(first);
    let rest = jpeg_strip_exif(bytes.skip(2));
    let payload = exif_payload(first);
    let s = seg + rest;
    lemma_exif_tiff_len(exif_ascii(first));
    lemma_be16_roundtrip(payload.len() + 2int);
    assert(out.take(2) =~= bytes.take(2));
    assert(out.skip(2) =~= s);
    assert(seg.subrange(2, 4) =~= be16_bytes(payload.len() + 2int));
    assert(be16_at(s, 2) == payload.len() + 2) by {
        assert(be16_at(s, 2) == be16_at(be16_bytes(payload.len() + 2int), 0));
    }
    assert(jpeg_segment_ok(s));
    assert(s.subrange(4, 10) =~= exif_header());
    assert(jpeg_is_exif_segment(s));
    assert(s.skip(jpeg_segment_end(s)) =~= rest);
    assert(Seq::<u8>::empty() + jpeg_strip_exif(rest) =~= jpeg_strip_exif(rest));
}

/// Whether every APP1 segment met by the header walk over `s` is long enough
/// to hold the six-byte EXIF identifier, so that telling EXIF segments apart
/// reads no byte past the segment.
pub open spec fn app1_segments_hold_identifier(s: Seq<u8>) -> bool
    decreases s.len(),
{
    if jpeg_segment_ok(s) {
        (s[1] == 0xe1 ==> jpeg_segment_end(s) >= 10) && app1_segments_hold_identifier(
            s.skip(jpeg_segment_end(s)),
        )
    } else {
        true
    }
}

/// Stripping EXIF segments a second time changes nothing when every APP1
/// segment holds the identifier.
proof fn lemma_jpeg_strip_idempotent(s: Seq<u8>)
    requires
        app1_segments_hold_identifier(s),
    ensures
        jpeg_strip_exif(jpeg_strip_exif(s)) == jpeg_strip_exif(s),
    decreases s.len(),
{
    if jpeg_segment_ok(s) {
        let end = jpeg_segment_end(s);
        let x = jpeg_strip_exif(s.skip(end));
        lemma_jpeg_strip_idempotent(s.skip(end));
        if !jpeg_is_exif_segment(s) {
            let piece = s.take(end);
            let q = piece + x;
            assert(q.subrange(0, 4) =~= s.subrange(0, 4));
            assert(q[0] == s[0] && q[1] == s[1] && q[2] == s[2] && q[3] == s[3]);
            assert(jpeg_segment_ok(q));
            assert(jpeg_segment_end(q) == end);
            if s[1] == 0xe1 {
                assert(q.subrange(4, 10) =~= s.subrange(4, 10));
            }
            assert(!jpeg_is_exif_segment(q));
            assert(q.take(end) =~= piece);
            assert(q.skip(end) =~= x);
        }
    }
}

/// Law: rewriting a JPEG file's description twice removes the first
/// description's segment entirely; the result is the file written with the
/// second description directly whenever stripping the header's EXIF segments
/// twice removes nothing more than once.
pub proof fn lemma_jpeg_rewrite_last_wins(bytes: Seq<u8>, first: Seq<u8>, second: Seq<u8>)
    requires
        is_jpeg_start(bytes),
        exif_segment_fits(first),
        jpeg_strip_exif(jpeg_strip_exif(bytes.skip(2))) == jpeg_strip_exif(bytes.skip(2)),
    ensures
        jpeg_with_description(jpeg_with_description(bytes, first), second)
            == jpeg_with_description(bytes, second),
{
    lemma_jpeg_rewrite_twice(bytes, first, second);
}

/// Law: when every APP1 segment of a JPEG header holds the EXIF identifier,
/// rewriting the description twice gives the file written with the second
/// description directly.
pub proof fn lemma_jpeg_rewrite_last_wins_when_app1_complete(
    bytes: Seq<u8>,
    first: Seq<u8>,
    second: Seq<u8>,
)
    requires
        is_jpeg_start(bytes),
        exif_segment_fits(first),
        app1_segments_hold_identifier(bytes.skip(2)),
    ensures
        jpeg_with_description(jpeg_with_description(bytes, first), second)
            == jpeg_with_description(bytes, second),
{
    lemma_jpeg_strip_idempotent(bytes.skip(2));
    lemma_jpeg_rewrite_last_wins(bytes, first, second);
}

} // verus!
