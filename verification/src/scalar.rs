//! The scalar decoder: reads one Unicode scalar value from the head of a byte
//! buffer, trying the widths 1 to 4 in order and accepting the first one whose
//! bytes form a well-formed encoding.  Specified against `vstd::utf8`.

use vstd::prelude::*;

verus! {

use vstd::slice::slice_index_get;
use vstd::utf8::decode_first_scalar;
use vstd::utf8::encode_scalar;
use vstd::utf8::is_continuation_byte;
use vstd::utf8::is_leading_byte_width_1;
use vstd::utf8::is_leading_byte_width_2;
use vstd::utf8::is_leading_byte_width_3;
use vstd::utf8::is_leading_byte_width_4;
use vstd::utf8::is_scalar;
use vstd::utf8::length_of_first_scalar;
use vstd::utf8::valid_first_scalar;

/// Decode the shortest well-formed scalar encoding at the head of `s`.
///
/// Returns the width in bytes together with the decoded scalar value, or
/// `None` when no width between 1 and 4 yields a well-formed encoding (an
/// empty buffer, a stray continuation byte, a truncated or overlong encoding,
/// or a surrogate value).
pub fn head(s: &[u8]) -> (r: Option<(usize, u32)>)
    ensures
        r is Some <==> valid_first_scalar(s@),
        r matches Some((len, v)) ==> {
            &&& len == length_of_first_scalar(s@)
            &&& v == decode_first_scalar(s@)
            &&& 1 <= len <= s@.len()
            &&& is_scalar(v)
        },
{
    if s.len() == 0 {
        return None;
    }
    let b0: u8 = *slice_index_get(s, 0);
    if b0 <= 0x7f {
        Some((1, (b0 & 0x7f) as u32))
    } else if 0xc0 <= b0 && b0 <= 0xdf {
        if s.len() < 2 {
            return None;
        }
        let b1: u8 = *slice_index_get(s, 1);
        if b1 < 0x80 || 0xbf < b1 {
            return None;
        }
        let v: u32 = (((b0 & 0x1f) as u32) << 6) | ((b1 & 0x3f) as u32);
        if v < 0x80 {
            return None;
        }
        proof {
            assert((((b0 & 0x1f) as u32) << 6) | ((b1 & 0x3f) as u32) <= 0x7ff) by (bit_vector);
        }
        Some((2, v))
    } else if 0xe0 <= b0 && b0 <= 0xef {
        if s.len() < 3 {
            return None;
        }
        let b1: u8 = *slice_index_get(s, 1);
        let b2: u8 = *slice_index_get(s, 2);
        if b1 < 0x80 || 0xbf < b1 || b2 < 0x80 || 0xbf < b2 {
            return None;
        }
        let v: u32 = (((b0 & 0x0f) as u32) << 12) | (((b1 & 0x3f) as u32) << 6) | ((b2
            & 0x3f) as u32);
        if v < 0x800 {
            return None;
        }
        if 0xd800 <= v && v <= 0xdfff {
            return None;
        }
        proof {
            assert((((b0 & 0x0f) as u32) << 12) | (((b1 & 0x3f) as u32) << 6) | ((b2
                & 0x3f) as u32) <= 0xffff) by (bit_vector);
        }
        Some((3, v))
    } else if 0xf0 <= b0 && b0 <= 0xf7 {
        if s.len() < 4 {
            return None;
        }
        let b1: u8 = *slice_index_get(s, 1);
        let b2: u8 = *slice_index_get(s, 2);
        let b3: u8 = *slice_index_get(s, 3);
        if b1 < 0x80 || 0xbf < b1 || b2 < 0x80 || 0xbf < b2 || b3 < 0x80 || 0xbf < b3 {
            return None;
        }
        let v: u32 = (((b0 & 0x07) as u32) << 18) | (((b1 & 0x3f) as u32) << 12) | (((b2
            & 0x3f) as u32) << 6) | ((b3 & 0x3f) as u32);
        if v < 0x10000 || 0x10ffff < v {
            return None;
        }
        Some((4, v))
    } else {
        None
    }
}

/// Encode one Unicode scalar value as UTF-8 bytes.
pub fn scalar_to_bytes(v: u32) -> (r: Vec<u8>)
    requires
        is_scalar(v),
    ensures
        r@ == encode_scalar(v),
        1 <= r@.len() <= 4,
{
    let mut out: Vec<u8> = Vec::new();
    if v <= 0x7f {
        out.push((v & 0x7f) as u8);
        proof {
            assert(out@ =~= encode_scalar(v));
        }
    } else if v <= 0x7ff {
        out.push(0xc0 | (((v >> 6) & 0x1f) as u8));
        out.push(0x80 | ((v & 0x3f) as u8));
        proof {
            assert(out@ =~= encode_scalar(v));
        }
    } else if v <= 0xffff {
        out.push(0xe0 | (((v >> 12) & 0x0f) as u8));
        out.push(0x80 | (((v >> 6) & 0x3f) as u8));
        out.push(0x80 | ((v & 0x3f) as u8));
        proof {
            assert(out@ =~= encode_scalar(v));
        }
    } else {
        out.push(0xf0 | (((v >> 18) & 0x07) as u8));
        out.push(0x80 | (((v >> 12) & 0x3f) as u8));
        out.push(0x80 | (((v >> 6) & 0x3f) as u8));
        out.push(0x80 | ((v & 0x3f) as u8));
        proof {
            assert(out@ =~= encode_scalar(v));
        }
    }
    out
}

/// A well-formed leading scalar stays well-formed, with the same width and
/// value, when bytes are appended.
pub proof fn lemma_valid_first_scalar_extend(s: Seq<u8>, ext: Seq<u8>)
    requires
        valid_first_scalar(s),
    ensures
        valid_first_scalar(s + ext),
        length_of_first_scalar(s + ext) == length_of_first_scalar(s),
        decode_first_scalar(s + ext) == decode_first_scalar(s),
{
    let u = s + ext;
    assert(u[0] == s[0]);
    if 2 <= s.len() {
        assert(u[1] == s[1]);
    }
    if 3 <= s.len() {
        assert(u[2] == s[2]);
    }
    if 4 <= s.len() {
        assert(u[3] == s[3]);
    }
}

/// When no scalar decodes at the head of `s` but one does with more bytes
/// appended, the whole of `s` is a truncated encoding: a multi-byte leading
/// byte followed only by continuation bytes.
pub proof fn lemma_invalid_head_truncated(s: Seq<u8>, ext: Seq<u8>)
    requires
        s.len() > 0,
        !valid_first_scalar(s),
        valid_first_scalar(s + ext),
    ensures
        0xc0 <= s[0] <= 0xf7,
        s.len() <= 3,
        forall|k: int| 1 <= k < s.len() ==> is_continuation_byte(#[trigger] s[k]),
{
    let u = s + ext;
    let b = s[0];
    assert(u[0] == b);
    if 2 <= s.len() {
        assert(u[1] == s[1]);
    }
    if 3 <= s.len() {
        assert(u[2] == s[2]);
    }
    if 4 <= s.len() {
        assert(u[3] == s[3]);
    }
    if is_leading_byte_width_1(b) {
        assert(((b & 0x7f) as u32) < 0xd800) by (bit_vector);
        assert(valid_first_scalar(s));
        assert(false);
    } else if is_leading_byte_width_2(b) {
        if 2 <= s.len() {
            assert(valid_first_scalar(s));
            assert(false);
        }
    } else if is_leading_byte_width_3(b) {
        if 3 <= s.len() {
            assert(valid_first_scalar(s));
            assert(false);
        }
    } else if is_leading_byte_width_4(b) {
        if 4 <= s.len() {
            assert(valid_first_scalar(s));
            assert(false);
        }
    } else {
        assert(!valid_first_scalar(u));
        assert(false);
    }
}

} // verus!
