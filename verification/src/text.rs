//! Reading scalars out of UTF-8.
use vstd::prelude::*;
use vstd::utf8::*;
use crate::compare::{common_prefix, lemma_common_prefix_found, scalar_less};

verus! {

/// `char::from_u32` of the standard library. It is documented to give the
/// character for every Unicode scalar value and nothing for any other
/// number; this is taken on trust.
pub assume_specification[ char::from_u32 ](i: u32) -> (r: Option<char>)
    ensures
        is_scalar(i) ==> r == Some(i as char),
        !is_scalar(i) ==> r is None,
;

/// The error of the standard library's UTF-8 check, carried through unread.
#[verifier::external_type_specification]
#[verifier::external_body]
pub struct ExUtf8Error(core::str::Utf8Error);

/// `core::str::from_utf8` of the standard library. It is documented to accept
/// a slice exactly when its bytes are well-formed UTF-8, and then to give the
/// string that those bytes encode; this is taken on trust.
pub assume_specification[ core::str::from_utf8 ](v: &[u8]) -> (r: Result<
    &str,
    core::str::Utf8Error,
>)
    ensures
        r is Ok <==> valid_utf8(v@),
        r is Ok ==> r->Ok_0@ == decode_utf8(v@),
;

/// The first index from `index` on at which a scalar starts, or the length of
/// `bytes` if none does.
pub open spec fn next_boundary(bytes: Seq<u8>, index: int) -> int
    decreases bytes.len() - index,
{
    if index < 0 || index >= bytes.len() {
        bytes.len() as int
    } else if !is_continuation_byte(bytes[index]) {
        index
    } else {
        next_boundary(bytes, index + 1)
    }
}

/// The scalar that starts at `index` or, where `index` lies inside a scalar,
/// the next one; none where no scalar starts from `index` on.
pub open spec fn scalar_from(bytes: Seq<u8>, index: int) -> Option<char> {
    let start = next_boundary(bytes, index);
    if 0 <= index && start < bytes.len() {
        Some(decode_first_scalar(bytes.subrange(start, bytes.len() as int)) as char)
    } else {
        None
    }
}

/// In well-formed UTF-8, `next_boundary` finds the least character boundary
/// from `index` on.
pub proof fn lemma_next_boundary(bytes: Seq<u8>, index: int)
    requires
        valid_utf8(bytes),
        0 <= index <= bytes.len(),
    ensures
        index <= next_boundary(bytes, index) <= bytes.len(),
        is_char_boundary(bytes, next_boundary(bytes, index)),
        forall|k: int| index <= k < next_boundary(bytes, index) ==> !is_char_boundary(bytes, k),
    decreases bytes.len() - index,
{
    if index >= bytes.len() {
        is_char_boundary_start_end_of_seq(bytes);
    } else {
        is_char_boundary_iff_not_is_continuation_byte(bytes, index);
        if is_continuation_byte(bytes[index]) {
            lemma_next_boundary(bytes, index + 1);
        }
    }
}

/// Decodes the scalar that starts at `at`, and tells how many bytes it takes.
pub fn decode_scalar(bytes: &[u8], at: usize) -> (r: (char, usize))
    requires
        at < bytes@.len(),
        valid_first_scalar(bytes@.subrange(at as int, bytes@.len() as int)),
    ensures
        r.0 == decode_first_scalar(bytes@.subrange(at as int, bytes@.len() as int)) as char,
        r.1 == length_of_first_scalar(bytes@.subrange(at as int, bytes@.len() as int)),
        at + r.1 <= bytes@.len(),
{
    let ghost rest = bytes@.subrange(at as int, bytes@.len() as int);
    let b0: u8 = bytes[at];
    assert(b0 == rest[0]);
    let (point, width): (u32, usize) = if b0 <= 0x7f {
        assert((b0 & 0x7f) as u32 <= 0x7f) by (bit_vector);
        ((b0 & 0x7f) as u32, 1)
    } else if b0 <= 0xdf {
        let b1: u8 = bytes[at + 1];
        assert(b1 == rest[1]);
        assert((((b0 & 0x1f) as u32) << 6) | ((b1 & 0x3f) as u32) <= 0x7ff) by (bit_vector);
        ((((b0 & 0x1f) as u32) << 6) | ((b1 & 0x3f) as u32), 2)
    } else if b0 <= 0xef {
        let b1: u8 = bytes[at + 1];
        let b2: u8 = bytes[at + 2];
        assert(b1 == rest[1] && b2 == rest[2]);
        assert((((b0 & 0x0f) as u32) << 12) | (((b1 & 0x3f) as u32) << 6) | ((b2 & 0x3f) as u32)
            <= 0xffff) by (bit_vector);
        ((((b0 & 0x0f) as u32) << 12) | (((b1 & 0x3f) as u32) << 6) | ((b2 & 0x3f) as u32), 3)
    } else {
        let b1: u8 = bytes[at + 1];
        let b2: u8 = bytes[at + 2];
        let b3: u8 = bytes[at + 3];
        assert(b1 == rest[1] && b2 == rest[2] && b3 == rest[3]);
        (
            (((b0 & 0x07) as u32) << 18) | (((b1 & 0x3f) as u32) << 12) | (((b2 & 0x3f) as u32)
                << 6) | ((b3 & 0x3f) as u32),
            4,
        )
    };
    assert(point == decode_first_scalar(rest));
    assert(is_scalar(point));
    match char::from_u32(point) {
        Some(c) => (c, width),
        None => ('\0', width),
    }
}

/// The scalar that starts at `index` or, where `index` lies inside a scalar,
/// the next one.
pub fn scalar_at(bytes: &[u8], index: usize) -> (r: Option<char>)
    requires
        valid_utf8(bytes@),
    ensures
        r == scalar_from(bytes@, index as int),
{
    let n: usize = bytes.len();
    let mut start: usize = index;
    while start < n && 0x80 <= bytes[start] && bytes[start] <= 0xbf
        invariant
            n == bytes@.len(),
            index <= start,
            next_boundary(bytes@, index as int) == next_boundary(bytes@, start as int),
        decreases n - start,
    {
        start += 1;
    }
    if start < n {
        proof {
            lemma_next_boundary(bytes@, start as int);
            valid_utf8_split(bytes@, start as int);
        }
        let (c, _) = decode_scalar(bytes, start);
        Some(c)
    } else {
        None
    }
}

/// The UTF-8 of one character.
pub open spec fn code_of(c: char) -> Seq<u8> {
    encode_scalar(c as u32)
}

/// The UTF-8 of a sequence of characters starts with that of its first.
pub proof fn lemma_code_first(chars: Seq<char>)
    requires
        chars.len() > 0,
    ensures
        encode_utf8(chars) == code_of(chars[0]) + encode_utf8(chars.drop_first()),
        1 <= code_of(chars[0]).len() <= 4,
{
}

/// Of two different characters one has the lesser scalar value.
pub proof fn lemma_scalars_differ(c: char, d: char)
    requires
        c != d,
    ensures
        scalar_less(c, d) || scalar_less(d, c),
{
    char_u32_cast(c, c as u32);
    char_u32_cast(d, d as u32);
}

/// The UTF-8 of two characters is ordered as the characters are: where the
/// first is the lesser, the two codes differ before either ends, and in the
/// first byte in which they differ that of the first is the lesser.
pub proof fn lemma_codes_differ(c: char, d: char)
    requires
        scalar_less(c, d),
    ensures
        ({
            let k = common_prefix(code_of(c), code_of(d));
            &&& 0 <= k < code_of(c).len()
            &&& k < code_of(d).len()
            &&& code_of(c)[k] < code_of(d)[k]
        }),
{
    let s = c as u32;
    let t = d as u32;
    char_is_scalar(c);
    char_is_scalar(d);
    let x = code_of(c);
    let y = code_of(d);
    let (s0, t0) = (x[0], y[0]);
    assert(((s & 0x7F) as u8) <= 0x7f && 0xc0 <= (0xC0u8 | ((s >> 6) & 0x1F) as u8) <= 0xdf && 0xe0
        <= (0xE0u8 | ((s >> 12) & 0x0F) as u8) <= 0xef && 0xf0 <= (0xF0u8 | ((s >> 18) & 0x7) as u8)
        <= 0xf7) by (bit_vector);
    assert(((t & 0x7F) as u8) <= 0x7f && 0xc0 <= (0xC0u8 | ((t >> 6) & 0x1F) as u8) <= 0xdf && 0xe0
        <= (0xE0u8 | ((t >> 12) & 0x0F) as u8) <= 0xef && 0xf0 <= (0xF0u8 | ((t >> 18) & 0x7) as u8)
        <= 0xf7) by (bit_vector);
    if has_width_1_encoding(t) {
        assert(((s & 0x7F) as u8) < ((t & 0x7F) as u8)) by (bit_vector)
            requires
                s < t <= 0x7f,
        ;
        lemma_common_prefix_found(x, y, 0);
    } else if has_width_2_encoding(t) {
        if has_width_2_encoding(s) {
            let (s1, t1) = (x[1], y[1]);
            assert(s0 < t0 || (s0 == t0 && s1 < t1)) by (bit_vector)
                requires
                    s < t <= 0x7ff,
                    s0 == 0xC0u8 | ((s >> 6) & 0x1F) as u8,
                    t0 == 0xC0u8 | ((t >> 6) & 0x1F) as u8,
                    s1 == 0x80u8 | (s & 0x3F) as u8,
                    t1 == 0x80u8 | (t & 0x3F) as u8,
            ;
            if s0 == t0 {
                lemma_common_prefix_found(x, y, 1);
            } else {
                lemma_common_prefix_found(x, y, 0);
            }
        } else {
            lemma_common_prefix_found(x, y, 0);
        }
    } else if has_width_3_encoding(t) {
        if has_width_3_encoding(s) {
            let (s1, t1) = (x[1], y[1]);
            let (s2, t2) = (x[2], y[2]);
            assert(s0 < t0 || (s0 == t0 && (s1 < t1 || (s1 == t1 && s2 < t2)))) by (bit_vector)
                requires
                    s < t <= 0xffff,
                    s0 == 0xE0u8 | ((s >> 12) & 0x0F) as u8,
                    t0 == 0xE0u8 | ((t >> 12) & 0x0F) as u8,
                    s1 == 0x80u8 | ((s >> 6) & 0x3F) as u8,
                    t1 == 0x80u8 | ((t >> 6) & 0x3F) as u8,
                    s2 == 0x80u8 | (s & 0x3F) as u8,
                    t2 == 0x80u8 | (t & 0x3F) as u8,
            ;
            if s0 != t0 {
                lemma_common_prefix_found(x, y, 0);
            } else if s1 != t1 {
                lemma_common_prefix_found(x, y, 1);
            } else {
                lemma_common_prefix_found(x, y, 2);
            }
        } else {
            lemma_common_prefix_found(x, y, 0);
        }
    } else {
        if has_width_4_encoding(s) {
            let (s1, t1) = (x[1], y[1]);
            let (s2, t2) = (x[2], y[2]);
            let (s3, t3) = (x[3], y[3]);
            assert(s0 < t0 || (s0 == t0 && (s1 < t1 || (s1 == t1 && (s2 < t2 || (s2 == t2 && s3
                < t3)))))) by (bit_vector)
                requires
                    s < t <= 0x10ffff,
                    s0 == 0xF0u8 | ((s >> 18) & 0x7) as u8,
                    t0 == 0xF0u8 | ((t >> 18) & 0x7) as u8,
                    s1 == 0x80u8 | ((s >> 12) & 0x3F) as u8,
                    t1 == 0x80u8 | ((t >> 12) & 0x3F) as u8,
                    s2 == 0x80u8 | ((s >> 6) & 0x3F) as u8,
                    t2 == 0x80u8 | ((t >> 6) & 0x3F) as u8,
                    s3 == 0x80u8 | (s & 0x3F) as u8,
                    t3 == 0x80u8 | (t & 0x3F) as u8,
            ;
            if s0 != t0 {
                lemma_common_prefix_found(x, y, 0);
            } else if s1 != t1 {
                lemma_common_prefix_found(x, y, 1);
            } else if s2 != t2 {
                lemma_common_prefix_found(x, y, 2);
            } else {
                lemma_common_prefix_found(x, y, 3);
            }
        } else {
            lemma_common_prefix_found(x, y, 0);
        }
    }
}

} // verus!
