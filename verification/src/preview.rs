use vstd::prelude::*;

use crate::metadata::normalized_extension_spec;
use crate::text::string_of;

verus! {

/// The base64 alphabet character for a six-bit value.
pub open spec fn b64_char(v: int) -> char {
    if v < 26 {
        (65 + v) as char
    } else if v < 52 {
        (97 + v - 26) as char
    } else if v < 62 {
        (48 + v - 52) as char
    } else if v == 62 {
        '+'
    } else {
        '/'
    }
}

/// The four characters that encode one group of one to three bytes, padded
/// with `=`.
pub open spec fn b64_group(c: Seq<u8>) -> Seq<char> {
    let b0 = c[0] as int;
    let b1 = if c.len() > 1 {
        c[1] as int
    } else {
        0
    };
    let b2 = if c.len() > 2 {
        c[2] as int
    } else {
        0
    };
    let t = b0 * 65536 + b1 * 256 + b2;
    seq![
        b64_char((t / 262144) % 64),
        b64_char((t / 4096) % 64),
        if c.len() > 1 {
            b64_char((t / 64) % 64)
        } else {
            '='
        },
        if c.len() > 2 {
            b64_char(t % 64)
        } else {
            '='
        },
    ]
}

/// The standard padded base64 encoding of `bytes`.
pub open spec fn base64(bytes: Seq<u8>) -> Seq<char>
    decreases bytes.len(),
{
    if bytes.len() == 0 {
        Seq::empty()
    } else if bytes.len() <= 3 {
        b64_group(bytes)
    } else {
        b64_group(bytes.take(3)) + base64(bytes.skip(3))
    }
}

/// The length of a base64 encoding: four characters per started group of
/// three bytes.
pub proof fn lemma_base64_len(bytes: Seq<u8>)
    ensures
        base64(bytes).len() == 4 * ((bytes.len() + 2) / 3),
    decreases bytes.len(),
{
    if bytes.len() > 3 {
        lemma_base64_len(bytes.skip(3));
    }
}

/// Law: encoding two byte strings one after the other, where the first fills
/// whole groups of three, gives the two encodings one after the other.
pub proof fn lemma_base64_concat(a: Seq<u8>, b: Seq<u8>)
    requires
        a.len() % 3 == 0,
    ensures
        base64(a + b) == base64(a) + base64(b),
    decreases a.len(),
{
    if a.len() == 0 {
        assert(a + b =~= b);
        assert(base64(a) + base64(b) =~= base64(b));
    } else if b.len() == 0 {
        assert(a + b =~= a);
        assert(base64(a) + base64(b) =~= base64(a));
    } else {
        let ab = a + b;
        assert(ab.take(3) =~= a.take(3));
        assert(ab.skip(3) =~= a.skip(3) + b);
        lemma_base64_concat(a.skip(3), b);
        if a.len() == 3 {
            assert(a.take(3) =~= a);
            assert(a.skip(3) =~= Seq::<u8>::empty());
            assert(a.skip(3) + b =~= b);
        } else {
            assert(base64(a) == b64_group(a.take(3)) + base64(a.skip(3)));
        }
        assert(base64(ab) =~= base64(a) + base64(b));
    }
}

proof fn lemma_b64_char_not_pad(v: int)
    requires
        0 <= v < 64,
    ensures
        b64_char(v) != '=',
{
    if v < 26 {
        assert(((65 + v) as char) as u32 == 65 + v);
    } else if v < 52 {
        assert(((97 + v - 26) as char) as u32 == 97 + v - 26);
    } else if v < 62 {
        assert(((48 + v - 52) as char) as u32 == 48 + v - 52);
    }
}

/// Law: in an encoding, `=` fills exactly the last `(3 - n % 3) % 3`
/// positions, where `n` is the number of bytes encoded.
pub proof fn lemma_base64_padding(bytes: Seq<u8>)
    ensures
        forall|i: int|
            0 <= i < base64(bytes).len() ==> (#[trigger] base64(bytes)[i] == '=' <==> i >= base64(
                bytes,
            ).len() - (3 - bytes.len() % 3) % 3),
    decreases bytes.len(),
{
    if bytes.len() > 0 {
        let c = if bytes.len() <= 3 {
            bytes
        } else {
            bytes.take(3)
        };
        let b0 = c[0] as int;
        let b1 = if c.len() > 1 {
            c[1] as int
        } else {
            0
        };
        let b2 = if c.len() > 2 {
            c[2] as int
        } else {
            0
        };
        let t = b0 * 65536 + b1 * 256 + b2;
        assert(0 <= t);
        lemma_b64_char_not_pad((t / 262144) % 64);
        lemma_b64_char_not_pad((t / 4096) % 64);
        lemma_b64_char_not_pad((t / 64) % 64);
        lemma_b64_char_not_pad(t % 64);
        let g = b64_group(c);
        assert(g[0] != '=' && g[1] != '=');
        assert(g[2] == '=' <==> c.len() == 1);
        assert(g[3] == '=' <==> c.len() <= 2);
        if bytes.len() > 3 {
            let rest = bytes.skip(3);
            lemma_base64_padding(rest);
            lemma_base64_len(rest);
            lemma_base64_len(bytes);
            assert(base64(bytes) == g + base64(rest));
            assert((3 - bytes.len() % 3) % 3 == (3 - rest.len() % 3) % 3);
            assert forall|i: int| 0 <= i < base64(bytes).len() implies (#[trigger] base64(bytes)[i]
                == '=' <==> i >= base64(bytes).len() - (3 - bytes.len() % 3) % 3) by {
                if i >= 4 {
                    assert(base64(bytes)[i] == base64(rest)[i - 4]);
                } else {
                    assert(base64(bytes)[i] == g[i]);
                    assert(base64(rest).len() >= 4);
                }
            }
        }
    }
}

fn b64_alphabet(v: u32) -> (res: char)
    requires
        v < 64,
    ensures
        res == b64_char(v as int),
{
    if v < 26 {
        ((v as u8) + 65) as char
    } else if v < 52 {
        ((v as u8) + 71) as char
    } else if v < 62 {
        ((v as u8) - 4) as char
    } else if v == 62 {
        '+'
    } else {
        '/'
    }
}

/// Encodes bytes as padded base64.
pub fn encode_base64(bytes: &[u8]) -> (res: String)
    ensures
        res@ == base64(bytes@),
        res@.len() == 4 * ((bytes@.len() + 2) / 3),
{
    let mut out: Vec<char> = Vec::new();
    let mut i: usize = 0;
    assert(bytes@.skip(0) =~= bytes@);
    assert(out@ + base64(bytes@) =~= base64(bytes@));
    while i < bytes.len()
        invariant
            i <= bytes.len(),
            base64(bytes@) == out@ + base64(bytes@.skip(i as int)),
        decreases bytes.len() - i,
    {
        let ghost rest = bytes@.skip(i as int);
        let remaining = bytes.len() - i;
        let b0 = bytes[i] as u32;
        let b1 = if remaining > 1 { bytes[i + 1] as u32 } else { 0 };
        let b2 = if remaining > 2 { bytes[i + 2] as u32 } else { 0 };
        let triple = b0 * 65536 + b1 * 256 + b2;
        let ghost group = if remaining <= 3 { rest } else { rest.take(3) };
        assert(group.len() == if remaining < 3 { remaining as int } else { 3 });
        let c0 = b64_alphabet((triple / 262144) % 64);
        let c1 = b64_alphabet((triple / 4096) % 64);
        let c2 = if remaining > 1 { b64_alphabet((triple / 64) % 64) } else { '=' };
        let c3 = if remaining > 2 { b64_alphabet(triple % 64) } else { '=' };
        let ghost before = out@;
        out.push(c0);
        out.push(c1);
        out.push(c2);
        out.push(c3);
        assert(out@ =~= before + b64_group(group));
        if remaining <= 3 {
            assert(bytes@.skip(bytes@.len() as int) =~= Seq::<u8>::empty());
            assert(base64(rest) == b64_group(group));
            i = bytes.len();
        } else {
            assert(rest.skip(3) =~= bytes@.skip(i + 3));
            i = i + 3;
        }
    }
    assert(out@ + Seq::<char>::empty() =~= out@);
    proof {
        lemma_base64_len(bytes@);
    }
    string_of(out.as_slice())
}

/// The media type of a preview: PNG for a `.png` path, JPEG otherwise.
pub open spec fn preview_mime_spec(path: Seq<char>) -> Seq<char> {
    if normalized_extension_spec(path) == Some("png"@) {
        "image/png"@
    } else {
        "image/jpeg"@
    }
}

/// The media type of a preview for the image at `path`.
pub fn preview_mime_type(path: &str) -> (res: &'static str)
    ensures
        res@ == preview_mime_spec(path@),
{
    match crate::metadata::extension(path) {
        Some(e) => if crate::text::str_eq(e.as_str(), "png") {
            "image/png"
        } else {
            "image/jpeg"
        },
        None => "image/jpeg",
    }
}

/// A `data:` URL holding `bytes` in base64 under the media type `mime`.
pub fn data_url(mime: &str, bytes: &[u8]) -> (res: String)
    ensures
        res@ == "data:"@ + mime@ + ";base64,"@ + base64(bytes@),
{
    let encoded = encode_base64(bytes);
    let mut url = String::from_str("data:");
    url.append(mime);
    url.append(";base64,");
    url.append(encoded.as_str());
    url
}

/// The `data:` URL of an unmodified preview of the image at `path`.
pub fn preview_data_url(path: &str, bytes: &[u8]) -> (res: String)
    ensures
        res@ == "data:"@ + preview_mime_spec(path@) + ";base64,"@ + base64(bytes@),
{
    let mime = preview_mime_type(path);
    data_url(mime, bytes)
}

/// The bytes that `image`'s PNG encoder (default settings) writes for an
/// 8-bit RGBA image of the given size.
pub uninterp spec fn png_rgba8_encoding(raw: Seq<u8>, width: u32, height: u32) -> Seq<u8>;

#[verifier::external_type_specification]
#[verifier::external_body]
pub struct ExImageError(image::ImageError);

/// Calls `PngEncoder::write_image` with `ExtendedColorType::Rgba8` into a
/// vector. Trusted: the buffer length it asserts is `width * height * 4`; the
/// `png` writer refuses a zero width or height and, writing into memory,
/// fails on nothing else; a success gives the encoder's bytes for these
/// arguments.
#[verifier::external_body]
fn encode_png_rgba8(raw: &[u8], width: u32, height: u32) -> (res: Result<
    Vec<u8>,
    image::ImageError,
>)
    requires
        raw@.len() == width as int * height as int * 4,
    ensures
        res is Ok <==> (width > 0 && height > 0),
        res matches Ok(v) ==> v@ == png_rgba8_encoding(raw@, width, height),
{
    let mut bytes: Vec<u8> = Vec::new();
    let encoder = image::codecs::png::PngEncoder::new(std::io::Cursor::new(&mut bytes));
    match image::ImageEncoder::write_image(
        encoder,
        raw,
        width,
        height,
        image::ExtendedColorType::Rgba8,
    ) {
        Ok(()) => Ok(bytes),
        Err(e) => Err(e),
    }
}

/// Calls `ToString::to_string` on an `image` error. Nothing is said of the
/// text.
#[verifier::external_body]
fn image_error_text(error: &image::ImageError) -> String {
    error.to_string()
}

/// Encodes a rendered 8-bit RGBA preview as PNG and wraps it in a `data:` URL.
/// An image with no pixels cannot be encoded.
pub fn rendered_preview_data_url(raw: &[u8], width: u32, height: u32) -> (res: Result<
    String,
    String,
>)
    requires
        raw@.len() == width as int * height as int * 4,
    ensures
        res is Ok <==> (width > 0 && height > 0),
        res matches Ok(url) ==> url@ == "data:image/png;base64,"@ + base64(
            png_rgba8_encoding(raw@, width, height),
        ),
        res matches Err(e) ==> e@.len() >= 32 && e@.take(32) == "Could not encode preview image: "@,
{
    match encode_png_rgba8(raw, width, height) {
        Ok(png) => {
            let url = data_url("image/png", png.as_slice());
            proof {
                reveal_strlit("data:");
                reveal_strlit("image/png");
                reveal_strlit(";base64,");
                reveal_strlit("data:image/png;base64,");
                assert("data:"@ + "image/png"@ + ";base64,"@ =~= "data:image/png;base64,"@);
            }
            Ok(url)
        },
        Err(e) => {
            let mut message = String::from_str("Could not encode preview image: ");
            let text = image_error_text(&e);
            message.append(text.as_str());
            proof {
                reveal_strlit("Could not encode preview image: ");
                assert(message@.take(32) =~= "Could not encode preview image: "@);
            }
            Err(message)
        },
    }
}

} // verus!
