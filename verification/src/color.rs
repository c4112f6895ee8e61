use vstd::prelude::*;

use crate::text::{to_ascii_lowercase, trim, trim_spec, ascii_lower, str_eq};
use vstd::utf8::{decode_utf8, encode_utf8, valid_utf8};

verus! {

/// `s` without its leading `#` characters.
pub open spec fn strip_hashes(s: Seq<char>) -> Seq<char>
    decreases s.len(),
{
    if s.len() > 0 && s[0] == '#' {
        strip_hashes(s.drop_first())
    } else {
        s
    }
}

/// Calls `str::trim_start_matches('#')`. Trusted: every leading `#` is
/// removed, as its documentation says.
#[verifier::external_body]
fn trim_start_hashes(s: &str) -> (res: &str)
    ensures
        res@ == strip_hashes(s@),
{
    s.trim_start_matches('#')
}

/// Calls `std::str::from_utf8`. Trusted: it succeeds exactly on valid UTF-8
/// and then holds the decoded text.
#[verifier::external_body]
fn str_from_utf8(bytes: &[u8]) -> (res: Option<&str>)
    ensures
        res is Some <==> valid_utf8(bytes@),
        res matches Some(s) ==> s@ == decode_utf8(bytes@),
{
    match std::str::from_utf8(bytes) {
        Ok(s) => Some(s),
        Err(_) => None,
    }
}

/// Whether `c` is a hexadecimal digit.
pub open spec fn is_hex_digit(c: char) -> bool {
    ('0' <= c && c <= '9') || ('a' <= c && c <= 'f') || ('A' <= c && c <= 'F')
}

/// The value of a hexadecimal digit.
pub open spec fn hex_value(c: char) -> int {
    if '0' <= c && c <= '9' {
        c as int - 48
    } else if 'a' <= c && c <= 'f' {
        c as int - 87
    } else {
        c as int - 55
    }
}

/// What `u8::from_str_radix(_, 16)` accepts of one or two characters: an
/// optional `+` followed by digits.
pub open spec fn hex_text_ok(p: Seq<char>) -> bool {
    if p.len() == 1 {
        is_hex_digit(p[0])
    } else {
        p.len() == 2 && (is_hex_digit(p[0]) || p[0] == '+') && is_hex_digit(p[1])
    }
}

/// The value of one or two hexadecimal characters accepted by `hex_text_ok`.
pub open spec fn hex_text_value(p: Seq<char>) -> int {
    if p.len() == 1 || p[0] == '+' {
        hex_value(p.last())
    } else {
        hex_value(p[0]) * 16 + hex_value(p[1])
    }
}

/// Calls `u8::from_str_radix(_, 16)` and renders its error as text. Trusted:
/// for one or two characters it succeeds exactly on an optional `+` followed
/// by hexadecimal digits, with their value, as its documentation says. The
/// error text is left unsaid.
#[verifier::external_body]
fn u8_from_hex(s: &str) -> (res: Result<u8, String>)
    requires
        1 <= s@.len() <= 2,
    ensures
        res is Ok <==> hex_text_ok(s@),
        res matches Ok(v) ==> v == hex_text_value(s@),
{
    match u8::from_str_radix(s, 16) {
        Ok(v) => Ok(v),
        Err(e) => Err(e.to_string()),
    }
}

/// The UTF-8 bytes of the colour digits of `value`: trimmed, leading `#`
/// removed.
pub open spec fn color_digits(value: Seq<char>) -> Seq<u8> {
    encode_utf8(strip_hashes(trim_spec(value)))
}

/// Whether the byte offsets 2 and 4 of six colour digit bytes fall between
/// characters (else slicing the digits panics).
pub open spec fn color_slices_ok(value: Seq<char>) -> bool {
    let b = color_digits(value);
    b.len() == 6 ==> valid_utf8(b.subrange(0, 2)) && valid_utf8(b.subrange(2, 4)) && valid_utf8(
        b.subrange(4, 6),
    )
}

/// The text of the colour channel at byte offset `start`.
pub open spec fn channel_text(value: Seq<char>, start: int) -> Seq<char> {
    decode_utf8(color_digits(value).subrange(start, start + 2))
}

/// Whether `value` is a colour `#RRGGBB` (any number of leading `#`, digits
/// with an optional `+` each, surrounding white space allowed).
pub open spec fn color_ok(value: Seq<char>) -> bool {
    &&& color_digits(value).len() == 6
    &&& hex_text_ok(channel_text(value, 0))
    &&& hex_text_ok(channel_text(value, 2))
    &&& hex_text_ok(channel_text(value, 4))
}

proof fn lemma_channel_len(b: Seq<u8>)
    requires
        b.len() == 2,
        valid_utf8(b),
    ensures
        1 <= decode_utf8(b).len() <= 2,
{
    vstd::utf8::decode_utf8_encode_utf8(b);
    let d = decode_utf8(b);
    if d.len() > 2 {
        lemma_encode_len_at_least(d);
    }
    if d.len() == 0 {
        assert(encode_utf8(d) =~= Seq::<u8>::empty());
    }
}

proof fn lemma_encode_len_at_least(d: Seq<char>)
    ensures
        encode_utf8(d).len() >= d.len(),
    decreases d.len(),
{
    if d.len() > 0 {
        lemma_encode_len_at_least(d.drop_first());
    }
}

/// Parses a colour `#RRGGBB` into its red, green and blue values.
pub fn parse_hex_color(value: &str) -> (res: Result<[u8; 3], String>)
    requires
        color_slices_ok(value@),
    ensures
        res is Ok <==> color_ok(value@),
        res matches Ok(c) ==> c[0] == hex_text_value(channel_text(value@, 0)) && c[1]
            == hex_text_value(channel_text(value@, 2)) && c[2] == hex_text_value(
            channel_text(value@, 4),
        ),
        color_digits(value@).len() != 6 ==> (res matches Err(e) && e@ == "Invalid color '"@
            + value@ + "'. Expected #RRGGBB."@),
{
    let hex = trim_start_hashes(trim(value));
    let bytes = hex.as_bytes();
    if bytes.len() != 6 {
        let mut message = String::from_str("Invalid color '");
        message.append(value);
        message.append("'. Expected #RRGGBB.");
        return Err(message);
    }
    let mut channels: [u8; 3] = [0, 0, 0];
    let mut k: usize = 0;
    while k < 3
        invariant
            k <= 3,
            bytes@ == color_digits(value@),
            bytes@.len() == 6,
            color_slices_ok(value@),
            forall|j: int|
                0 <= j < k ==> hex_text_ok(channel_text(value@, 2 * j)) && channels[j]
                    == hex_text_value(#[trigger] channel_text(value@, 2 * j)),
        decreases 3 - k,
    {
        let piece = &bytes[2 * k..2 * k + 2];
        assert(piece@ == color_digits(value@).subrange(2 * k, 2 * k + 2));
        let text = str_from_utf8(piece).unwrap();
        proof {
            lemma_channel_len(piece@);
        }
        match u8_from_hex(text) {
            Ok(v) => {
                channels[k] = v;
            },
            Err(e) => {
                return Err(e);
            },
        }
        k = k + 1;
    }
    assert(channel_text(value@, 2 * 0int) == channel_text(value@, 0));
    assert(channel_text(value@, 2 * 1int) == channel_text(value@, 2));
    assert(channel_text(value@, 2 * 2int) == channel_text(value@, 4));
    Ok(channels)
}


/// The font files tried for a family (its lowercased, trimmed name), before
/// the default fonts.
pub open spec fn family_fonts(requested: Seq<char>) -> Seq<Seq<char>> {
    if requested == "snell roundhand"@ {
        seq!["/System/Library/Fonts/Supplemental/SnellRoundhand.ttc"@]
    } else if requested == "brush script mt"@ {
        seq![
            "/System/Library/Fonts/Supplemental/Brush Script.ttf"@,
            "C:\\Windows\\Fonts\\brushsci.ttf"@,
        ]
    } else if requested == "zapfino"@ {
        seq!["/System/Library/Fonts/Supplemental/Zapfino.ttf"@]
    } else if requested == "georgia"@ {
        seq![
            "/System/Library/Fonts/Supplemental/Georgia.ttf"@,
            "/Library/Fonts/Georgia.ttf"@,
            "C:\\Windows\\Fonts\\georgia.ttf"@,
            "/usr/share/fonts/truetype/msttcorefonts/Georgia.ttf"@,
        ]
    } else if requested == "baskerville"@ {
        seq!["/System/Library/Fonts/Supplemental/Baskerville.ttc"@]
    } else if requested == "didot"@ {
        seq!["/System/Library/Fonts/Supplemental/Didot.ttc"@]
    } else if requested == "hoefler text"@ {
        seq!["/System/Library/Fonts/Supplemental/Hoefler Text.ttc"@]
    } else if requested == "palatino"@ {
        seq!["/System/Library/Fonts/Palatino.ttc"@, "C:\\Windows\\Fonts\\pala.ttf"@]
    } else if requested == "optima"@ {
        seq!["/System/Library/Fonts/Optima.ttc"@]
    } else if requested == "futura"@ {
        seq!["/System/Library/Fonts/Supplemental/Futura.ttc"@]
    } else if requested == "copperplate"@ {
        seq!["/System/Library/Fonts/Supplemental/Copperplate.ttc"@]
    } else if requested == "times new roman"@ {
        seq![
            "/System/Library/Fonts/Supplemental/Times New Roman.ttf"@,
            "/Library/Fonts/Times New Roman.ttf"@,
            "C:\\Windows\\Fonts\\times.ttf"@,
            "/usr/share/fonts/truetype/msttcorefonts/Times_New_Roman.ttf"@,
        ]
    } else if requested == "courier new"@ {
        seq![
            "/System/Library/Fonts/Supplemental/Courier New.ttf"@,
            "/Library/Fonts/Courier New.ttf"@,
            "C:\\Windows\\Fonts\\cour.ttf"@,
            "/usr/share/fonts/truetype/msttcorefonts/Courier_New.ttf"@,
        ]
    } else if requested == "verdana"@ {
        seq![
            "/System/Library/Fonts/Supplemental/Verdana.ttf"@,
            "/Library/Fonts/Verdana.ttf"@,
            "C:\\Windows\\Fonts\\verdana.ttf"@,
            "/usr/share/fonts/truetype/msttcorefonts/Verdana.ttf"@,
        ]
    } else if requested == "trebuchet ms"@ {
        seq![
            "/System/Library/Fonts/Supplemental/Trebuchet MS.ttf"@,
            "/Library/Fonts/Trebuchet MS.ttf"@,
            "C:\\Windows\\Fonts\\trebuc.ttf"@,
            "/usr/share/fonts/truetype/msttcorefonts/Trebuchet_MS.ttf"@,
        ]
    } else if requested == "comic sans ms"@ {
        seq![
            "/System/Library/Fonts/Supplemental/Comic Sans MS.ttf"@,
            "/Library/Fonts/Comic Sans MS.ttf"@,
            "C:\\Windows\\Fonts\\comic.ttf"@,
            "/usr/share/fonts/truetype/msttcorefonts/Comic_Sans_MS.ttf"@,
        ]
    } else if requested == "noteworthy"@ {
        seq!["/System/Library/Fonts/Noteworthy.ttc"@]
    } else if requested == "marker felt"@ {
        seq!["/System/Library/Fonts/MarkerFelt.ttc"@]
    } else if requested == "chalkduster"@ {
        seq!["/System/Library/Fonts/Supplemental/Chalkduster.ttf"@]
    } else if requested == "papyrus"@ {
        seq!["/System/Library/Fonts/Supplemental/Papyrus.ttc"@, "C:\\Windows\\Fonts\\papyrus.ttf"@]
    } else {
        Seq::empty()
    }
}

/// Law: each offered font family has its own font files first: the number
/// of them and the first file tried, family by family; after them come five
/// default fonts, Arial first and DejaVu Sans last.
pub proof fn lemma_family_fonts_first()
    ensures
        default_fonts().len() == 5,
        default_fonts()[0] == "/System/Library/Fonts/Supplemental/Arial.ttf"@,
        default_fonts()[4] == "/usr/share/fonts/truetype/dejavu/DejaVuSans.ttf"@,
        family_fonts("snell roundhand"@).len() == 1,
        family_fonts("snell roundhand"@)[0] == "/System/Library/Fonts/Supplemental/SnellRoundhand.ttc"@,
        family_fonts("brush script mt"@).len() == 2,
        family_fonts("brush script mt"@)[0] == "/System/Library/Fonts/Supplemental/Brush Script.ttf"@,
        family_fonts("zapfino"@).len() == 1,
        family_fonts("zapfino"@)[0] == "/System/Library/Fonts/Supplemental/Zapfino.ttf"@,
        family_fonts("georgia"@).len() == 4,
        family_fonts("georgia"@)[0] == "/System/Library/Fonts/Supplemental/Georgia.ttf"@,
        family_fonts("baskerville"@).len() == 1,
        family_fonts("baskerville"@)[0] == "/System/Library/Fonts/Supplemental/Baskerville.ttc"@,
        family_fonts("didot"@).len() == 1,
        family_fonts("didot"@)[0] == "/System/Library/Fonts/Supplemental/Didot.ttc"@,
        family_fonts("hoefler text"@).len() == 1,
        family_fonts("hoefler text"@)[0] == "/System/Library/Fonts/Supplemental/Hoefler Text.ttc"@,
        family_fonts("palatino"@).len() == 2,
        family_fonts("palatino"@)[0] == "/System/Library/Fonts/Palatino.ttc"@,
        family_fonts("optima"@).len() == 1,
        family_fonts("optima"@)[0] == "/System/Library/Fonts/Optima.ttc"@,
        family_fonts("futura"@).len() == 1,
        family_fonts("futura"@)[0] == "/System/Library/Fonts/Supplemental/Futura.ttc"@,
        family_fonts("copperplate"@).len() == 1,
        family_fonts("copperplate"@)[0] == "/System/Library/Fonts/Supplemental/Copperplate.ttc"@,
        family_fonts("times new roman"@).len() == 4,
        family_fonts("times new roman"@)[0] == "/System/Library/Fonts/Supplemental/Times New Roman.ttf"@,
        family_fonts("courier new"@).len() == 4,
        family_fonts("courier new"@)[0] == "/System/Library/Fonts/Supplemental/Courier New.ttf"@,
        family_fonts("verdana"@).len() == 4,
        family_fonts("verdana"@)[0] == "/System/Library/Fonts/Supplemental/Verdana.ttf"@,
        family_fonts("trebuchet ms"@).len() == 4,
        family_fonts("trebuchet ms"@)[0] == "/System/Library/Fonts/Supplemental/Trebuchet MS.ttf"@,
        family_fonts("comic sans ms"@).len() == 4,
        family_fonts("comic sans ms"@)[0] == "/System/Library/Fonts/Supplemental/Comic Sans MS.ttf"@,
        family_fonts("noteworthy"@).len() == 1,
        family_fonts("noteworthy"@)[0] == "/System/Library/Fonts/Noteworthy.ttc"@,
        family_fonts("marker felt"@).len() == 1,
        family_fonts("marker felt"@)[0] == "/System/Library/Fonts/MarkerFelt.ttc"@,
        family_fonts("chalkduster"@).len() == 1,
        family_fonts("chalkduster"@)[0] == "/System/Library/Fonts/Supplemental/Chalkduster.ttf"@,
        family_fonts("papyrus"@).len() == 2,
        family_fonts("papyrus"@)[0] == "/System/Library/Fonts/Supplemental/Papyrus.ttc"@,
{
    reveal_strlit("snell roundhand");
    reveal_strlit("brush script mt");
    reveal_strlit("zapfino");
    reveal_strlit("georgia");
    reveal_strlit("baskerville");
    reveal_strlit("didot");
    reveal_strlit("hoefler text");
    reveal_strlit("palatino");
    reveal_strlit("optima");
    reveal_strlit("futura");
    reveal_strlit("copperplate");
    reveal_strlit("times new roman");
    reveal_strlit("courier new");
    reveal_strlit("verdana");
    reveal_strlit("trebuchet ms");
    reveal_strlit("comic sans ms");
    reveal_strlit("noteworthy");
    reveal_strlit("marker felt");
    reveal_strlit("chalkduster");
    reveal_strlit("papyrus");
    assert(family_fonts("snell roundhand"@).len() == 1 && family_fonts("snell roundhand"@)[0] == "/System/Library/Fonts/Supplemental/SnellRoundhand.ttc"@) by {
    }
    assert(family_fonts("brush script mt"@).len() == 2 && family_fonts("brush script mt"@)[0] == "/System/Library/Fonts/Supplemental/Brush Script.ttf"@) by {
        assert("brush script mt"@[0] != "snell roundhand"@[0]);
    }
    assert(family_fonts("zapfino"@).len() == 1 && family_fonts("zapfino"@)[0] == "/System/Library/Fonts/Supplemental/Zapfino.ttf"@) by {
        assert("zapfino"@.len() != "snell roundhand"@.len());
        assert("zapfino"@.len() != "brush script mt"@.len());
    }
    assert(family_fonts("georgia"@).len() == 4 && family_fonts("georgia"@)[0] == "/System/Library/Fonts/Supplemental/Georgia.ttf"@) by {
        assert("georgia"@.len() != "snell roundhand"@.len());
        assert("georgia"@.len() != "brush script mt"@.len());
        assert("georgia"@[0] != "zapfino"@[0]);
    }
    assert(family_fonts("baskerville"@).len() == 1 && family_fonts("baskerville"@)[0] == "/System/Library/Fonts/Supplemental/Baskerville.ttc"@) by {
        assert("baskerville"@.len() != "snell roundhand"@.len());
        assert("baskerville"@.len() != "brush script mt"@.len());
        assert("baskerville"@.len() != "zapfino"@.len());
        assert("baskerville"@.len() != "georgia"@.len());
    }
    assert(family_fonts("didot"@).len() == 1 && family_fonts("didot"@)[0] == "/System/Library/Fonts/Supplemental/Didot.ttc"@) by {
        assert("didot"@.len() != "snell roundhand"@.len());
        assert("didot"@.len() != "brush script mt"@.len());
        assert("didot"@.len() != "zapfino"@.len());
        assert("didot"@.len() != "georgia"@.len());
        assert("didot"@.len() != "baskerville"@.len());
    }
    assert(family_fonts("hoefler text"@).len() == 1 && family_fonts("hoefler text"@)[0] == "/System/Library/Fonts/Supplemental/Hoefler Text.ttc"@) by {
        assert("hoefler text"@.len() != "snell roundhand"@.len());
        assert("hoefler text"@.len() != "brush script mt"@.len());
        assert("hoefler text"@.len() != "zapfino"@.len());
        assert("hoefler text"@.len() != "georgia"@.len());
        assert("hoefler text"@.len() != "baskerville"@.len());
        assert("hoefler text"@.len() != "didot"@.len());
    }
    assert(family_fonts("palatino"@).len() == 2 && family_fonts("palatino"@)[0] == "/System/Library/Fonts/Palatino.ttc"@) by {
        assert("palatino"@.len() != "snell roundhand"@.len());
        assert("palatino"@.len() != "brush script mt"@.len());
        assert("palatino"@.len() != "zapfino"@.len());
        assert("palatino"@.len() != "georgia"@.len());
        assert("palatino"@.len() != "baskerville"@.len());
        assert("palatino"@.len() != "didot"@.len());
        assert("palatino"@.len() != "hoefler text"@.len());
    }
    assert(family_fonts("optima"@).len() == 1 && family_fonts("optima"@)[0] == "/System/Library/Fonts/Optima.ttc"@) by {
        assert("optima"@.len() != "snell roundhand"@.len());
        assert("optima"@.len() != "brush script mt"@.len());
        assert("optima"@.len() != "zapfino"@.len());
        assert("optima"@.len() != "georgia"@.len());
        assert("optima"@.len() != "baskerville"@.len());
        assert("optima"@.len() != "didot"@.len());
        assert("optima"@.len() != "hoefler text"@.len());
        assert("optima"@.len() != "palatino"@.len());
    }
    assert(family_fonts("futura"@).len() == 1 && family_fonts("futura"@)[0] == "/System/Library/Fonts/Supplemental/Futura.ttc"@) by {
        assert("futura"@.len() != "snell roundhand"@.len());
        assert("futura"@.len() != "brush script mt"@.len());
        assert("futura"@.len() != "zapfino"@.len());
        assert("futura"@.len() != "georgia"@.len());
        assert("futura"@.len() != "baskerville"@.len());
        assert("futura"@.len() != "didot"@.len());
        assert("futura"@.len() != "hoefler text"@.len());
        assert("futura"@.len() != "palatino"@.len());
        assert("futura"@[0] != "optima"@[0]);
    }
    assert(family_fonts("copperplate"@).len() == 1 && family_fonts("copperplate"@)[0] == "/System/Library/Fonts/Supplemental/Copperplate.ttc"@) by {
        assert("copperplate"@.len() != "snell roundhand"@.len());
        assert("copperplate"@.len() != "brush script mt"@.len());
        assert("copperplate"@.len() != "zapfino"@.len());
        assert("copperplate"@.len() != "georgia"@.len());
        assert("copperplate"@[0] != "baskerville"@[0]);
        assert("copperplate"@.len() != "didot"@.len());
        assert("copperplate"@.len() != "hoefler text"@.len());
        assert("copperplate"@.len() != "palatino"@.len());
        assert("copperplate"@.len() != "optima"@.len());
        assert("copperplate"@.len() != "futura"@.len());
    }
    assert(family_fonts("times new roman"@).len() == 4 && family_fonts("times new roman"@)[0] == "/System/Library/Fonts/Supplemental/Times New Roman.ttf"@) by {
        assert("times new roman"@[0] != "snell roundhand"@[0]);
        assert("times new roman"@[0] != "brush script mt"@[0]);
        assert("times new roman"@.len() != "zapfino"@.len());
        assert("times new roman"@.len() != "georgia"@.len());
        assert("times new roman"@.len() != "baskerville"@.len());
        assert("times new roman"@.len() != "didot"@.len());
        assert("times new roman"@.len() != "hoefler text"@.len());
        assert("times new roman"@.len() != "palatino"@.len());
        assert("times new roman"@.len() != "optima"@.len());
        assert("times new roman"@.len() != "futura"@.len());
        assert("times new roman"@.len() != "copperplate"@.len());
    }
    assert(family_fonts("courier new"@).len() == 4 && family_fonts("courier new"@)[0] == "/System/Library/Fonts/Supplemental/Courier New.ttf"@) by {
        assert("courier new"@.len() != "snell roundhand"@.len());
        assert("courier new"@.len() != "brush script mt"@.len());
        assert("courier new"@.len() != "zapfino"@.len());
        assert("courier new"@.len() != "georgia"@.len());
        assert("courier new"@[0] != "baskerville"@[0]);
        assert("courier new"@.len() != "didot"@.len());
        assert("courier new"@.len() != "hoefler text"@.len());
        assert("courier new"@.len() != "palatino"@.len());
        assert("courier new"@.len() != "optima"@.len());
        assert("courier new"@.len() != "futura"@.len());
        assert("courier new"@[2] != "copperplate"@[2]);
        assert("courier new"@.len() != "times new roman"@.len());
    }
    assert(family_fonts("verdana"@).len() == 4 && family_fonts("verdana"@)[0] == "/System/Library/Fonts/Supplemental/Verdana.ttf"@) by {
        assert("verdana"@.len() != "snell roundhand"@.len());
        assert("verdana"@.len() != "brush script mt"@.len());
        assert("verdana"@[0] != "zapfino"@[0]);
        assert("verdana"@[0] != "georgia"@[0]);
        assert("verdana"@.len() != "baskerville"@.len());
        assert("verdana"@.len() != "didot"@.len());
        assert("verdana"@.len() != "hoefler text"@.len());
        assert("verdana"@.len() != "palatino"@.len());
        assert("verdana"@.len() != "optima"@.len());
        assert("verdana"@.len() != "futura"@.len());
        assert("verdana"@.len() != "copperplate"@.len());
        assert("verdana"@.len() != "times new roman"@.len());
        assert("verdana"@.len() != "courier new"@.len());
    }
    assert(family_fonts("trebuchet ms"@).len() == 4 && family_fonts("trebuchet ms"@)[0] == "/System/Library/Fonts/Supplemental/Trebuchet MS.ttf"@) by {
        assert("trebuchet ms"@.len() != "snell roundhand"@.len());
        assert("trebuchet ms"@.len() != "brush script mt"@.len());
        assert("trebuchet ms"@.len() != "zapfino"@.len());
        assert("trebuchet ms"@.len() != "georgia"@.len());
        assert("trebuchet ms"@.len() != "baskerville"@.len());
        assert("trebuchet ms"@.len() != "didot"@.len());
        assert("trebuchet ms"@[0] != "hoefler text"@[0]);
        assert("trebuchet ms"@.len() != "palatino"@.len());
        assert("trebuchet ms"@.len() != "optima"@.len());
        assert("trebuchet ms"@.len() != "futura"@.len());
        assert("trebuchet ms"@.len() != "copperplate"@.len());
        assert("trebuchet ms"@.len() != "times new roman"@.len());
        assert("trebuchet ms"@.len() != "courier new"@.len());
        assert("trebuchet ms"@.len() != "verdana"@.len());
    }
    assert(family_fonts("comic sans ms"@).len() == 4 && family_fonts("comic sans ms"@)[0] == "/System/Library/Fonts/Supplemental/Comic Sans MS.ttf"@) by {
        assert("comic sans ms"@.len() != "snell roundhand"@.len());
        assert("comic sans ms"@.len() != "brush script mt"@.len());
        assert("comic sans ms"@.len() != "zapfino"@.len());
        assert("comic sans ms"@.len() != "georgia"@.len());
        assert("comic sans ms"@.len() != "baskerville"@.len());
        assert("comic sans ms"@.len() != "didot"@.len());
        assert("comic sans ms"@.len() != "hoefler text"@.len());
        assert("comic sans ms"@.len() != "palatino"@.len());
        assert("comic sans ms"@.len() != "optima"@.len());
        assert("comic sans ms"@.len() != "futura"@.len());
        assert("comic sans ms"@.len() != "copperplate"@.len());
        assert("comic sans ms"@.len() != "times new roman"@.len());
        assert("comic sans ms"@.len() != "courier new"@.len());
        assert("comic sans ms"@.len() != "verdana"@.len());
        assert("comic sans ms"@.len() != "trebuchet ms"@.len());
    }
    assert(family_fonts("noteworthy"@).len() == 1 && family_fonts("noteworthy"@)[0] == "/System/Library/Fonts/Noteworthy.ttc"@) by {
        assert("noteworthy"@.len() != "snell roundhand"@.len());
        assert("noteworthy"@.len() != "brush script mt"@.len());
        assert("noteworthy"@.len() != "zapfino"@.len());
        assert("noteworthy"@.len() != "georgia"@.len());
        assert("noteworthy"@.len() != "baskerville"@.len());
        assert("noteworthy"@.len() != "didot"@.len());
        assert("noteworthy"@.len() != "hoefler text"@.len());
        assert("noteworthy"@.len() != "palatino"@.len());
        assert("noteworthy"@.len() != "optima"@.len());
        assert("noteworthy"@.len() != "futura"@.len());
        assert("noteworthy"@.len() != "copperplate"@.len());
        assert("noteworthy"@.len() != "times new roman"@.len());
        assert("noteworthy"@.len() != "courier new"@.len());
        assert("noteworthy"@.len() != "verdana"@.len());
        assert("noteworthy"@.len() != "trebuchet ms"@.len());
        assert("noteworthy"@.len() != "comic sans ms"@.len());
    }
    assert(family_fonts("marker felt"@).len() == 1 && family_fonts("marker felt"@)[0] == "/System/Library/Fonts/MarkerFelt.ttc"@) by {
        assert("marker felt"@.len() != "snell roundhand"@.len());
        assert("marker felt"@.len() != "brush script mt"@.len());
        assert("marker felt"@.len() != "zapfino"@.len());
        assert("marker felt"@.len() != "georgia"@.len());
        assert("marker felt"@[0] != "baskerville"@[0]);
        assert("marker felt"@.len() != "didot"@.len());
        assert("marker felt"@.len() != "hoefler text"@.len());
        assert("marker felt"@.len() != "palatino"@.len());
        assert("marker felt"@.len() != "optima"@.len());
        assert("marker felt"@.len() != "futura"@.len());
        assert("marker felt"@[0] != "copperplate"@[0]);
        assert("marker felt"@.len() != "times new roman"@.len());
        assert("marker felt"@[0] != "courier new"@[0]);
        assert("marker felt"@.len() != "verdana"@.len());
        assert("marker felt"@.len() != "trebuchet ms"@.len());
        assert("marker felt"@.len() != "comic sans ms"@.len());
        assert("marker felt"@.len() != "noteworthy"@.len());
    }
    assert(family_fonts("chalkduster"@).len() == 1 && family_fonts("chalkduster"@)[0] == "/System/Library/Fonts/Supplemental/Chalkduster.ttf"@) by {
        assert("chalkduster"@.len() != "snell roundhand"@.len());
        assert("chalkduster"@.len() != "brush script mt"@.len());
        assert("chalkduster"@.len() != "zapfino"@.len());
        assert("chalkduster"@.len() != "georgia"@.len());
        assert("chalkduster"@[0] != "baskerville"@[0]);
        assert("chalkduster"@.len() != "didot"@.len());
        assert("chalkduster"@.len() != "hoefler text"@.len());
        assert("chalkduster"@.len() != "palatino"@.len());
        assert("chalkduster"@.len() != "optima"@.len());
        assert("chalkduster"@.len() != "futura"@.len());
        assert("chalkduster"@[1] != "copperplate"@[1]);
        assert("chalkduster"@.len() != "times new roman"@.len());
        assert("chalkduster"@[1] != "courier new"@[1]);
        assert("chalkduster"@.len() != "verdana"@.len());
        assert("chalkduster"@.len() != "trebuchet ms"@.len());
        assert("chalkduster"@.len() != "comic sans ms"@.len());
        assert("chalkduster"@.len() != "noteworthy"@.len());
        assert("chalkduster"@[0] != "marker felt"@[0]);
    }
    assert(family_fonts("papyrus"@).len() == 2 && family_fonts("papyrus"@)[0] == "/System/Library/Fonts/Supplemental/Papyrus.ttc"@) by {
        assert("papyrus"@.len() != "snell roundhand"@.len());
        assert("papyrus"@.len() != "brush script mt"@.len());
        assert("papyrus"@[0] != "zapfino"@[0]);
        assert("papyrus"@[0] != "georgia"@[0]);
        assert("papyrus"@.len() != "baskerville"@.len());
        assert("papyrus"@.len() != "didot"@.len());
        assert("papyrus"@.len() != "hoefler text"@.len());
        assert("papyrus"@.len() != "palatino"@.len());
        assert("papyrus"@.len() != "optima"@.len());
        assert("papyrus"@.len() != "futura"@.len());
        assert("papyrus"@.len() != "copperplate"@.len());
        assert("papyrus"@.len() != "times new roman"@.len());
        assert("papyrus"@.len() != "courier new"@.len());
        assert("papyrus"@[0] != "verdana"@[0]);
        assert("papyrus"@.len() != "trebuchet ms"@.len());
        assert("papyrus"@.len() != "comic sans ms"@.len());
        assert("papyrus"@.len() != "noteworthy"@.len());
        assert("papyrus"@.len() != "marker felt"@.len());
        assert("papyrus"@.len() != "chalkduster"@.len());
    }
}

/// The font files tried after those of the requested family.
pub open spec fn default_fonts() -> Seq<Seq<char>> {
    seq![
        "/System/Library/Fonts/Supplemental/Arial.ttf"@,
        "/System/Library/Fonts/Supplemental/Arial Unicode.ttf"@,
        "/Library/Fonts/Arial.ttf"@,
        "C:\\Windows\\Fonts\\arial.ttf"@,
        "/usr/share/fonts/truetype/dejavu/DejaVuSans.ttf"@,
    ]
}

fn family_font_list(requested: &str) -> (res: Vec<&'static str>)
    ensures
        res@.map_values(|s: &str| s@) == family_fonts(requested@),
{
    let list: Vec<&'static str> = if str_eq(requested, "snell roundhand") {
        vec!["/System/Library/Fonts/Supplemental/SnellRoundhand.ttc"]
    } else if str_eq(requested, "brush script mt") {
        vec![
            "/System/Library/Fonts/Supplemental/Brush Script.ttf",
            "C:\\Windows\\Fonts\\brushsci.ttf",
        ]
    } else if str_eq(requested, "zapfino") {
        vec!["/System/Library/Fonts/Supplemental/Zapfino.ttf"]
    } else if str_eq(requested, "georgia") {
        vec![
            "/System/Library/Fonts/Supplemental/Georgia.ttf",
            "/Library/Fonts/Georgia.ttf",
            "C:\\Windows\\Fonts\\georgia.ttf",
            "/usr/share/fonts/truetype/msttcorefonts/Georgia.ttf",
        ]
    } else if str_eq(requested, "baskerville") {
        vec!["/System/Library/Fonts/Supplemental/Baskerville.ttc"]
    } else if str_eq(requested, "didot") {
        vec!["/System/Library/Fonts/Supplemental/Didot.ttc"]
    } else if str_eq(requested, "hoefler text") {
        vec!["/System/Library/Fonts/Supplemental/Hoefler Text.ttc"]
    } else if str_eq(requested, "palatino") {
        vec!["/System/Library/Fonts/Palatino.ttc", "C:\\Windows\\Fonts\\pala.ttf"]
    } else if str_eq(requested, "optima") {
        vec!["/System/Library/Fonts/Optima.ttc"]
    } else if str_eq(requested, "futura") {
        vec!["/System/Library/Fonts/Supplemental/Futura.ttc"]
    } else if str_eq(requested, "copperplate") {
        vec!["/System/Library/Fonts/Supplemental/Copperplate.ttc"]
    } else if str_eq(requested, "times new roman") {
        vec![
            "/System/Library/Fonts/Supplemental/Times New Roman.ttf",
            "/Library/Fonts/Times New Roman.ttf",
            "C:\\Windows\\Fonts\\times.ttf",
            "/usr/share/fonts/truetype/msttcorefonts/Times_New_Roman.ttf",
        ]
    } else if str_eq(requested, "courier new") {
        vec![
            "/System/Library/Fonts/Supplemental/Courier New.ttf",
            "/Library/Fonts/Courier New.ttf",
            "C:\\Windows\\Fonts\\cour.ttf",
            "/usr/share/fonts/truetype/msttcorefonts/Courier_New.ttf",
        ]
    } else if str_eq(requested, "verdana") {
        vec![
            "/System/Library/Fonts/Supplemental/Verdana.ttf",
            "/Library/Fonts/Verdana.ttf",
            "C:\\Windows\\Fonts\\verdana.ttf",
            "/usr/share/fonts/truetype/msttcorefonts/Verdana.ttf",
        ]
    } else if str_eq(requested, "trebuchet ms") {
        vec![
            "/System/Library/Fonts/Supplemental/Trebuchet MS.ttf",
            "/Library/Fonts/Trebuchet MS.ttf",
            "C:\\Windows\\Fonts\\trebuc.ttf",
            "/usr/share/fonts/truetype/msttcorefonts/Trebuchet_MS.ttf",
        ]
    } else if str_eq(requested, "comic sans ms") {
        vec![
            "/System/Library/Fonts/Supplemental/Comic Sans MS.ttf",
            "/Library/Fonts/Comic Sans MS.ttf",
            "C:\\Windows\\Fonts\\comic.ttf",
            "/usr/share/fonts/truetype/msttcorefonts/Comic_Sans_MS.ttf",
        ]
    } else if str_eq(requested, "noteworthy") {
        vec!["/System/Library/Fonts/Noteworthy.ttc"]
    } else if str_eq(requested, "marker felt") {
        vec!["/System/Library/Fonts/MarkerFelt.ttc"]
    } else if str_eq(requested, "chalkduster") {
        vec!["/System/Library/Fonts/Supplemental/Chalkduster.ttf"]
    } else if str_eq(requested, "papyrus") {
        vec!["/System/Library/Fonts/Supplemental/Papyrus.ttc", "C:\\Windows\\Fonts\\papyrus.ttf"]
    } else {
        Vec::new()
    };
    assert(list@.map_values(|s: &str| s@) =~= family_fonts(requested@));
    list
}

/// The font files tried for a font family: those of the family (matched on
/// its trimmed, ASCII-lowercased name), then the default fonts.
pub fn font_candidates(font_family: &str) -> (res: Vec<&'static str>)
    ensures
        res@.map_values(|s: &str| s@) == family_fonts(ascii_lower(trim_spec(font_family@)))
            + default_fonts(),
{
    let requested = to_ascii_lowercase(trim(font_family));
    let mut candidates = family_font_list(requested.as_str());
    let defaults: Vec<&'static str> = vec![
        "/System/Library/Fonts/Supplemental/Arial.ttf",
        "/System/Library/Fonts/Supplemental/Arial Unicode.ttf",
        "/Library/Fonts/Arial.ttf",
        "C:\\Windows\\Fonts\\arial.ttf",
        "/usr/share/fonts/truetype/dejavu/DejaVuSans.ttf",
    ];
    assert(defaults@.map_values(|s: &str| s@) =~= default_fonts());
    let ghost start = candidates@;
    let mut i: usize = 0;
    while i < defaults.len()
        invariant
            i <= defaults.len(),
            candidates@ == start + defaults@.take(i as int),
        decreases defaults.len() - i,
    {
        candidates.push(defaults[i]);
        i = i + 1;
        assert(candidates@ =~= start + defaults@.take(i as int));
    }
    assert(defaults@.take(defaults@.len() as int) =~= defaults@);
    assert(candidates@.map_values(|s: &str| s@) =~= start.map_values(|s: &str| s@)
        + defaults@.map_values(|s: &str| s@));
    candidates
}


/// Writes a text colour into a pixel of the text layer, keeping the stronger
/// of the pixel's alpha and `alpha` (where glyphs overlap).
pub fn write_text_layer_pixel(pixel: &mut [u8; 4], color: [u8; 3], alpha: u8)
    ensures
        final(pixel)[0] == color[0],
        final(pixel)[1] == color[1],
        final(pixel)[2] == color[2],
        final(pixel)[3] == if old(pixel)[3] >= alpha {
            old(pixel)[3]
        } else {
            alpha
        },
{
    let strongest = if pixel[3] >= alpha { pixel[3] } else { alpha };
    *pixel = [color[0], color[1], color[2], strongest];
}

} // verus!
