use vstd::prelude::*;

verus! {

/// What `String::from_utf8_lossy` makes of `bytes`: the decoded text, with each
/// invalid sequence replaced by U+FFFD.
pub uninterp spec fn lossy_utf8(bytes: Seq<u8>) -> Seq<char>;

/// Calls `String::from_utf8_lossy`. Trusted: the result is a function of the
/// bytes, and equals the decoded text when the bytes are valid UTF-8. What it
/// gives for invalid input is left unsaid.
#[verifier::external_body]
pub(crate) fn utf8_lossy(bytes: &[u8]) -> (res: String)
    ensures
        res@ == lossy_utf8(bytes@),
        vstd::utf8::valid_utf8(bytes@) ==> res@ == vstd::utf8::decode_utf8(bytes@),
{
    String::from_utf8_lossy(bytes).to_string()
}


/// Whether `c` has the Unicode White_Space property.
pub open spec fn is_white_space(c: char) -> bool {
    let u = c as u32;
    (0x09 <= u && u <= 0x0d) || u == 0x20 || u == 0x85 || u == 0xa0 || u == 0x1680 || (0x2000
        <= u && u <= 0x200a) || u == 0x2028 || u == 0x2029 || u == 0x202f || u == 0x205f || u
        == 0x3000
}

/// `s` without its leading white space.
pub open spec fn trim_start_spec(s: Seq<char>) -> Seq<char>
    decreases s.len(),
{
    if s.len() > 0 && is_white_space(s[0]) {
        trim_start_spec(s.drop_first())
    } else {
        s
    }
}

/// `s` without its trailing white space.
pub open spec fn trim_end_spec(s: Seq<char>) -> Seq<char>
    decreases s.len(),
{
    if s.len() > 0 && is_white_space(s.last()) {
        trim_end_spec(s.drop_last())
    } else {
        s
    }
}

/// `s` without leading and trailing white space.
pub open spec fn trim_spec(s: Seq<char>) -> Seq<char> {
    trim_end_spec(trim_start_spec(s))
}

/// Calls `str::trim`. Trusted: it removes leading and trailing characters with
/// the Unicode White_Space property, as its documentation says.
#[verifier::external_body]
pub(crate) fn trim(s: &str) -> (res: &str)
    ensures
        res@ == trim_spec(s@),
{
    s.trim()
}

/// Calls `String::push`. Trusted: the character is appended, as its
/// documentation says.
#[verifier::external_body]
fn push_char(s: &mut String, c: char)
    ensures
        final(s)@ == old(s)@.push(c),
{
    s.push(c)
}

/// The characters of `s`, in order.
pub fn chars_of(s: &str) -> (res: Vec<char>)
    ensures
        res@ == s@,
{
    let mut out: Vec<char> = Vec::new();
    for c in it: s.chars()
        invariant
            it.seq() == s@,
            out@ == it.seq().take(it.index() as int),
    {
        out.push(c);
        assert(out@ =~= it.seq().take(it.index() + 1));
    }
    assert(s@.take(s@.len() as int) =~= s@);
    out
}

/// A `String` holding exactly these characters in order.
pub fn string_of(chars: &[char]) -> (res: String)
    ensures
        res@ == chars@,
{
    let mut out = String::new();
    let mut i: usize = 0;
    while i < chars.len()
        invariant
            i <= chars.len(),
            out@ == chars@.take(i as int),
        decreases chars.len() - i,
    {
        push_char(&mut out, chars[i]);
        i = i + 1;
        assert(out@ =~= chars@.take(i as int));
    }
    assert(chars@.take(chars@.len() as int) =~= chars@);
    out
}

/// The ASCII lowercase form of a character.
pub open spec fn ascii_lower_char(c: char) -> char {
    if 'A' <= c && c <= 'Z' {
        ((c as u32) + 32) as char
    } else {
        c
    }
}

/// `s` with ASCII capitals lowered, other characters unchanged.
pub open spec fn ascii_lower(s: Seq<char>) -> Seq<char> {
    s.map_values(|c: char| ascii_lower_char(c))
}

/// The ASCII lowercase form of `s`.
pub fn to_ascii_lowercase(s: &str) -> (res: String)
    ensures
        res@ == ascii_lower(s@),
{
    let chars = chars_of(s);
    let mut out: Vec<char> = Vec::new();
    let mut i: usize = 0;
    while i < chars.len()
        invariant
            i <= chars.len(),
            chars@ == s@,
            out@ == ascii_lower(s@.take(i as int)),
        decreases chars.len() - i,
    {
        let c = chars[i];
        let lower = if 'A' <= c && c <= 'Z' {
            ((c as u32) + 32) as u8 as char
        } else {
            c
        };
        out.push(lower);
        i = i + 1;
        assert(out@ =~= ascii_lower(s@.take(i as int)));
    }
    assert(s@.take(s@.len() as int) =~= s@);
    string_of(out.as_slice())
}

/// Whether two character sequences are equal.
pub fn str_eq(a: &str, b: &str) -> (res: bool)
    ensures
        res == (a@ == b@),
{
    let x = chars_of(a);
    let y = chars_of(b);
    if x.len() != y.len() {
        return false;
    }
    let mut i: usize = 0;
    while i < x.len()
        invariant
            i <= x.len() == y.len(),
            x@ == a@,
            y@ == b@,
            forall|j: int| 0 <= j < i ==> x@[j] == y@[j],
        decreases x.len() - i,
    {
        if x[i] != y[i] {
            return false;
        }
        i = i + 1;
    }
    assert(a@ =~= b@);
    true
}

/// The extension of the last component of a path (the part after its final
/// dot, per `Path::extension` under the path syntax of the target platform),
/// if it has one.
pub uninterp spec fn path_extension_spec(path: Seq<char>) -> Option<Seq<char>>;

/// The file stem of the last component of a path (per `Path::file_stem` under
/// the path syntax of the target platform).
pub uninterp spec fn path_file_stem_spec(path: Seq<char>) -> Option<Seq<char>>;

/// The last component of a path (per `Path::file_name` under the path syntax
/// of the target platform).
pub uninterp spec fn path_file_name_spec(path: Seq<char>) -> Option<Seq<char>>;

/// `name` joined onto `base` (per `Path::join` under the path syntax of the
/// target platform), as text.
pub uninterp spec fn path_join_spec(base: Seq<char>, name: Seq<char>) -> Seq<char>;

/// Calls `Path::extension`. Trusted: the result is a function of the path
/// text; which part of the text it is, is left to the name.
#[verifier::external_body]
pub(crate) fn path_extension(path: &str) -> (res: Option<String>)
    ensures
        res matches Some(e) ==> path_extension_spec(path@) == Some(e@),
        res is None ==> path_extension_spec(path@) is None,
{
    match std::path::Path::new(path).extension() {
        Some(e) => match e.to_str() {
            Some(t) => Some(t.to_string()),
            None => None,
        },
        None => None,
    }
}

/// Calls `Path::file_stem`. Trusted: the result is a function of the path
/// text; which part of the text it is, is left to the name.
#[verifier::external_body]
pub(crate) fn path_file_stem(path: &str) -> (res: Option<String>)
    ensures
        res matches Some(e) ==> path_file_stem_spec(path@) == Some(e@),
        res is None ==> path_file_stem_spec(path@) is None,
{
    match std::path::Path::new(path).file_stem() {
        Some(e) => match e.to_str() {
            Some(t) => Some(t.to_string()),
            None => None,
        },
        None => None,
    }
}

/// Calls `Path::file_name`. Trusted: the result is a function of the path
/// text; which part of the text it is, is left to the name.
#[verifier::external_body]
pub(crate) fn path_file_name(path: &str) -> (res: Option<String>)
    ensures
        res matches Some(e) ==> path_file_name_spec(path@) == Some(e@),
        res is None ==> path_file_name_spec(path@) is None,
{
    match std::path::Path::new(path).file_name() {
        Some(e) => match e.to_str() {
            Some(t) => Some(t.to_string()),
            None => None,
        },
        None => None,
    }
}

/// Calls `Path::join` and renders the result as text. Trusted: the result is a
/// function of the two texts.
#[verifier::external_body]
pub(crate) fn path_join(base: &str, name: &str) -> (res: String)
    ensures
        res@ == path_join_spec(base@, name@),
{
    std::path::Path::new(base).join(name).to_string_lossy().to_string()
}


/// Whether no character of `s` is U+0000.
pub open spec fn has_no_nul(s: Seq<char>) -> bool {
    forall|i: int| 0 <= i < s.len() ==> (s[i] as u32) != 0
}

/// `s` with every U+0000 character removed.
pub open spec fn remove_nul(s: Seq<char>) -> Seq<char> {
    s.filter(|c: char| (c as u32) != 0)
}

proof fn lemma_encode_scalar_nonzero(v: u32)
    requires
        vstd::utf8::is_scalar(v),
        v != 0,
    ensures
        forall|i: int|
            0 <= i < vstd::utf8::encode_scalar(v).len() ==> vstd::utf8::encode_scalar(v)[i] != 0,
{
    if vstd::utf8::has_width_1_encoding(v) {
        assert(v != 0 && v <= 0x7f ==> (v & 0x7f) as u8 != 0) by (bit_vector);
    } else {
        assert((0xC0u8 | ((v >> 6) & 0x1F) as u8) != 0) by (bit_vector);
        assert((0xE0u8 | ((v >> 12) & 0x0F) as u8) != 0) by (bit_vector);
        assert((0xF0u8 | ((v >> 18) & 0x7) as u8) != 0) by (bit_vector);
        assert((0x80u8 | (v & 0x3F) as u8) != 0) by (bit_vector);
        assert((0x80u8 | ((v >> 6) & 0x3F) as u8) != 0) by (bit_vector);
        assert((0x80u8 | ((v >> 12) & 0x3F) as u8) != 0) by (bit_vector);
    }
}

/// The UTF-8 encoding of text without U+0000 has no zero byte.
pub proof fn lemma_encode_utf8_no_zero(s: Seq<char>)
    requires
        has_no_nul(s),
    ensures
        forall|i: int|
            0 <= i < vstd::utf8::encode_utf8(s).len() ==> vstd::utf8::encode_utf8(s)[i] != 0,
    decreases s.len(),
{
    if s.len() > 0 {
        let head = vstd::utf8::encode_scalar(s[0] as u32);
        let rest = vstd::utf8::encode_utf8(s.drop_first());
        vstd::utf8::char_is_scalar(s[0]);
        lemma_encode_scalar_nonzero(s[0] as u32);
        lemma_encode_utf8_no_zero(s.drop_first());
        assert(vstd::utf8::encode_utf8(s) == head + rest);
        assert forall|i: int| 0 <= i < (head + rest).len() implies (head + rest)[i] != 0 by {
            if i >= head.len() {
                assert((head + rest)[i] == rest[i - head.len()]);
            }
        }
    }
}

} // verus!
