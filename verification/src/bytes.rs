use vstd::prelude::*;

verus! {

/// One round of the reflected CRC-32 shift register (polynomial 0xEDB88320).
pub open spec fn crc_shift(crc: u32) -> u32 {
    if crc & 1 == 1 {
        (crc >> 1) ^ 0xedb8_8320u32
    } else {
        crc >> 1
    }
}

/// `k` rounds of the shift register.
pub open spec fn crc_shifts(crc: u32, k: nat) -> u32
    decreases k,
{
    if k == 0 {
        crc
    } else {
        crc_shifts(crc_shift(crc), (k - 1) as nat)
    }
}

/// The CRC register after absorbing `bytes`, starting from all ones.
pub open spec fn crc_register(bytes: Seq<u8>) -> u32
    decreases bytes.len(),
{
    if bytes.len() == 0 {
        0xffff_ffffu32
    } else {
        crc_shifts(crc_register(bytes.drop_last()) ^ (bytes.last() as u32), 8)
    }
}

/// The CRC-32 checksum (as used by PNG chunks) of `bytes`.
pub open spec fn spec_crc32(bytes: Seq<u8>) -> u32 {
    !crc_register(bytes)
}

/// CRC-32 of a byte slice.
pub fn crc32(bytes: &[u8]) -> (res: u32)
    ensures
        res == spec_crc32(bytes@),
{
    let mut crc: u32 = 0xffff_ffff;
    let mut i: usize = 0;
    while i < bytes.len()
        invariant
            i <= bytes.len(),
            crc == crc_register(bytes@.take(i as int)),
        decreases bytes.len() - i,
    {
        assert(bytes@.take(i + 1).drop_last() =~= bytes@.take(i as int));
        crc = crc ^ (bytes[i] as u32);
        let mut k: usize = 0;
        let ghost start = crc;
        while k < 8
            invariant
                k <= 8,
                crc_shifts(start, 8) == crc_shifts(crc, (8 - k) as nat),
            decreases 8 - k,
        {
            let mask: u32 = if crc & 1 == 1 { 0xffff_ffff } else { 0 };
            let next = (crc >> 1) ^ (0xedb8_8320 & mask);
            assert(next == crc_shift(crc)) by {
                let c = crc;
                assert(c & 1 == 1 ==> (c >> 1) ^ (0xedb8_8320u32 & 0xffff_ffffu32) == (c >> 1)
                    ^ 0xedb8_8320u32) by (bit_vector);
                assert((c >> 1) ^ (0xedb8_8320u32 & 0u32) == c >> 1) by (bit_vector);
            }
            crc = next;
            k = k + 1;
        }
        i = i + 1;
    }
    assert(bytes@.take(bytes@.len() as int) =~= bytes@);
    !crc
}

} // verus!

verus! {

/// Big-endian value of the two bytes at `off`.
pub open spec fn be16_at(s: Seq<u8>, off: int) -> int {
    s[off] * 256 + s[off + 1]
}

/// Little-endian value of the two bytes at `off`.
pub open spec fn le16_at(s: Seq<u8>, off: int) -> int {
    s[off] + s[off + 1] * 256
}

/// Big-endian value of the four bytes at `off`.
pub open spec fn be32_at(s: Seq<u8>, off: int) -> int {
    s[off] * 16777216 + s[off + 1] * 65536 + s[off + 2] * 256 + s[off + 3]
}

/// Little-endian value of the four bytes at `off`.
pub open spec fn le32_at(s: Seq<u8>, off: int) -> int {
    s[off] + s[off + 1] * 256 + s[off + 2] * 65536 + s[off + 3] * 16777216
}

/// Two-byte value at `off` in the given byte order.
pub open spec fn u16_at(s: Seq<u8>, off: int, big_endian: bool) -> int {
    if big_endian {
        be16_at(s, off)
    } else {
        le16_at(s, off)
    }
}

/// Four-byte value at `off` in the given byte order.
pub open spec fn u32_at(s: Seq<u8>, off: int, big_endian: bool) -> int {
    if big_endian {
        be32_at(s, off)
    } else {
        le32_at(s, off)
    }
}

/// The big-endian encoding of a 16-bit value.
pub open spec fn be16_bytes(v: int) -> Seq<u8> {
    seq![(v / 256) as u8, (v % 256) as u8]
}

/// The big-endian encoding of a 32-bit value.
pub open spec fn be32_bytes(v: int) -> Seq<u8> {
    seq![
        (v / 16777216) as u8,
        ((v / 65536) % 256) as u8,
        ((v / 256) % 256) as u8,
        (v % 256) as u8,
    ]
}

/// Reading back a big-endian 16-bit encoding gives the value.
pub proof fn lemma_be16_roundtrip(v: int)
    requires
        0 <= v < 65536,
    ensures
        be16_bytes(v).len() == 2,
        be16_at(be16_bytes(v), 0) == v,
{
}

/// Reading back a big-endian 32-bit encoding gives the value.
pub proof fn lemma_be32_roundtrip(v: int)
    requires
        0 <= v < 0x1_0000_0000,
    ensures
        be32_bytes(v).len() == 4,
        be32_at(be32_bytes(v), 0) == v,
{
}

/// The little-endian encoding of a 16-bit value.
pub open spec fn le16_bytes(v: int) -> Seq<u8> {
    seq![(v % 256) as u8, (v / 256) as u8]
}

/// The little-endian encoding of a 32-bit value.
pub open spec fn le32_bytes(v: int) -> Seq<u8> {
    seq![
        (v % 256) as u8,
        ((v / 256) % 256) as u8,
        ((v / 65536) % 256) as u8,
        (v / 16777216) as u8,
    ]
}

/// The encoding of a 16-bit value in the given byte order.
pub open spec fn u16_bytes(v: int, big_endian: bool) -> Seq<u8> {
    if big_endian {
        be16_bytes(v)
    } else {
        le16_bytes(v)
    }
}

/// The encoding of a 32-bit value in the given byte order.
pub open spec fn u32_bytes(v: int, big_endian: bool) -> Seq<u8> {
    if big_endian {
        be32_bytes(v)
    } else {
        le32_bytes(v)
    }
}

/// Reading back a 16-bit encoding in either byte order gives the value.
pub proof fn lemma_u16_roundtrip(v: int, big_endian: bool)
    requires
        0 <= v < 65536,
    ensures
        u16_bytes(v, big_endian).len() == 2,
        u16_at(u16_bytes(v, big_endian), 0, big_endian) == v,
{
}

/// Reading back a 32-bit encoding in either byte order gives the value.
pub proof fn lemma_u32_roundtrip(v: int, big_endian: bool)
    requires
        0 <= v < 0x1_0000_0000,
    ensures
        u32_bytes(v, big_endian).len() == 4,
        u32_at(u32_bytes(v, big_endian), 0, big_endian) == v,
{
}

/// Reads a 16-bit value at `offset`, or `None` when it does not fit.
pub fn read_u16(bytes: &[u8], offset: usize, big_endian: bool) -> (res: Option<u16>)
    ensures
        res == (if offset + 2 <= bytes@.len() {
            Some(u16_at(bytes@, offset as int, big_endian) as u16)
        } else {
            None
        }),
        res matches Some(v) ==> v == u16_at(bytes@, offset as int, big_endian),
{
    if offset > bytes.len() || bytes.len() - offset < 2 {
        return None;
    }
    let b0 = bytes[offset] as u16;
    let b1 = bytes[offset + 1] as u16;
    if big_endian {
        Some(b0 * 256 + b1)
    } else {
        Some(b0 + b1 * 256)
    }
}

/// Reads a 32-bit value at `offset`, or `None` when it does not fit.
pub fn read_u32(bytes: &[u8], offset: usize, big_endian: bool) -> (res: Option<u32>)
    ensures
        res == (if offset + 4 <= bytes@.len() {
            Some(u32_at(bytes@, offset as int, big_endian) as u32)
        } else {
            None
        }),
        res matches Some(v) ==> v == u32_at(bytes@, offset as int, big_endian),
{
    if offset > bytes.len() || bytes.len() - offset < 4 {
        return None;
    }
    let b0 = bytes[offset] as u32;
    let b1 = bytes[offset + 1] as u32;
    let b2 = bytes[offset + 2] as u32;
    let b3 = bytes[offset + 3] as u32;
    if big_endian {
        Some(b0 * 16777216 + b1 * 65536 + b2 * 256 + b3)
    } else {
        Some(b0 + b1 * 256 + b2 * 65536 + b3 * 16777216)
    }
}

/// Appends the big-endian encoding of `v`.
pub fn push_u16_be(out: &mut Vec<u8>, v: u16)
    ensures
        final(out)@ == old(out)@ + be16_bytes(v as int),
{
    out.push((v / 256) as u8);
    out.push((v % 256) as u8);
    assert(final(out)@ =~= old(out)@ + be16_bytes(v as int));
}

/// Appends the big-endian encoding of `v`.
pub fn push_u32_be(out: &mut Vec<u8>, v: u32)
    ensures
        final(out)@ == old(out)@ + be32_bytes(v as int),
{
    out.push((v / 16777216) as u8);
    out.push(((v / 65536) % 256) as u8);
    out.push(((v / 256) % 256) as u8);
    out.push((v % 256) as u8);
    assert(final(out)@ =~= old(out)@ + be32_bytes(v as int));
}

/// Appends every byte of `src`.
pub fn push_bytes(out: &mut Vec<u8>, src: &[u8])
    ensures
        final(out)@ == old(out)@ + src@,
{
    let ghost start = out@;
    let mut i: usize = 0;
    while i < src.len()
        invariant
            i <= src.len(),
            out@ == start + src@.take(i as int),
        decreases src.len() - i,
    {
        out.push(src[i]);
        i = i + 1;
        assert(out@ =~= start + src@.take(i as int));
    }
    assert(src@.take(src@.len() as int) =~= src@);
}

/// Whether `s` begins with `prefix`.
pub open spec fn starts_with(s: Seq<u8>, prefix: Seq<u8>) -> bool {
    prefix.len() <= s.len() && s.take(prefix.len() as int) == prefix
}

/// Whether `s` begins with `prefix`.
pub fn bytes_start_with(s: &[u8], prefix: &[u8]) -> (res: bool)
    ensures
        res == starts_with(s@, prefix@),
{
    if prefix.len() > s.len() {
        return false;
    }
    let mut i: usize = 0;
    while i < prefix.len()
        invariant
            i <= prefix.len() <= s.len(),
            forall|j: int| 0 <= j < i ==> s@[j] == prefix@[j],
        decreases prefix.len() - i,
    {
        if s[i] != prefix[i] {
            assert(s@.take(prefix@.len() as int)[i as int] != prefix@[i as int]);
            return false;
        }
        i = i + 1;
    }
    assert(s@.take(prefix@.len() as int) =~= prefix@);
    true
}

/// Position of the first zero byte in `s`, if any.
pub open spec fn zero_position(s: Seq<u8>) -> Option<int>
    decreases s.len(),
{
    if s.len() == 0 {
        None
    } else if s[0] == 0 {
        Some(0)
    } else {
        match zero_position(s.drop_first()) {
            Some(p) => Some(p + 1),
            None => None,
        }
    }
}

/// `zero_position` agrees with a left-to-right search.
pub proof fn lemma_zero_position(s: Seq<u8>, i: int)
    requires
        0 <= i <= s.len(),
        forall|j: int| 0 <= j < i ==> s[j] != 0,
    ensures
        i < s.len() && s[i] == 0 ==> zero_position(s) == Some(i),
        i == s.len() ==> zero_position(s) is None,
    decreases i,
{
    if i > 0 {
        lemma_zero_position(s.drop_first(), i - 1);
    } else if s.len() > 0 {
    }
}

/// Finds the first zero byte of `s`.
pub fn find_zero(s: &[u8]) -> (res: Option<usize>)
    ensures
        res matches Some(p) ==> zero_position(s@) == Some(p as int) && p < s@.len() && s@[p as int]
            == 0,
        res is None ==> zero_position(s@) is None,
{
    let mut i: usize = 0;
    while i < s.len()
        invariant
            i <= s.len(),
            forall|j: int| 0 <= j < i ==> s@[j] != 0,
        decreases s.len() - i,
    {
        if s[i] == 0 {
            proof {
                lemma_zero_position(s@, i as int);
            }
            return Some(i);
        }
        i = i + 1;
    }
    proof {
        lemma_zero_position(s@, i as int);
    }
    None
}

/// Whether two byte slices are equal.
pub fn bytes_equal(a: &[u8], b: &[u8]) -> (res: bool)
    ensures
        res == (a@ == b@),
{
    if a.len() != b.len() {
        return false;
    }
    let res = bytes_start_with(a, b);
    proof {
        if res {
            assert(a@ =~= a@.take(b@.len() as int));
        } else if a@ == b@ {
            assert(a@.take(b@.len() as int) =~= b@);
        }
    }
    res
}

} // verus!
