//! Little-endian byte-cursor primitives shared by every parser in the crate.

use vstd::prelude::*;
use vstd::bytes::{spec_u16_from_le_bytes, spec_u32_from_le_bytes, spec_u64_from_le_bytes};
use vstd::bytes::{u16_from_le_bytes, u32_from_le_bytes, u64_from_le_bytes};
use vstd::slice::slice_subrange;
use vstd::string::StrSliceExecFns;

verus! {

/// The `u16` encoded little-endian at byte offset `i` of `b`.
pub open spec fn le16_at(b: Seq<u8>, i: int) -> u16 {
    spec_u16_from_le_bytes(b.subrange(i, i + 2))
}

/// The `u32` encoded little-endian at byte offset `i` of `b`.
pub open spec fn le32_at(b: Seq<u8>, i: int) -> u32 {
    spec_u32_from_le_bytes(b.subrange(i, i + 4))
}

/// The `u64` encoded little-endian at byte offset `i` of `b`.
pub open spec fn le64_at(b: Seq<u8>, i: int) -> u64 {
    spec_u64_from_le_bytes(b.subrange(i, i + 8))
}

/// Reads one byte at the cursor and advances it; fails exactly when the
/// input is exhausted.
pub fn parse_u8(bytes: &[u8], pos: &mut usize) -> (r: Result<u8, ()>)
    ensures
        r is Ok <==> *old(pos) + 1 <= bytes@.len(),
        r matches Ok(x) ==> x == bytes@[*old(pos) as int] && *final(pos) == *old(pos) + 1,
        r is Err ==> *final(pos) == *old(pos),
{
    if *pos < bytes.len() {
        let b = bytes[*pos];
        *pos = *pos + 1;
        Ok(b)
    } else {
        Err(())
    }
}

/// Reads a little-endian `u16` at the cursor and advances it by two;
/// fails exactly when fewer than two bytes remain.
pub fn parse_u16(bytes: &[u8], pos: &mut usize) -> (r: Result<u16, ()>)
    ensures
        r is Ok <==> *old(pos) + 2 <= bytes@.len(),
        r matches Ok(x) ==> x == le16_at(bytes@, *old(pos) as int) && *final(pos) == *old(pos)
            + 2,
        r is Err ==> *final(pos) == *old(pos),
{
    if bytes.len() >= 2 && *pos <= bytes.len() - 2 {
        let s = slice_subrange(bytes, *pos, *pos + 2);
        let x = u16_from_le_bytes(s);
        *pos = *pos + 2;
        Ok(x)
    } else {
        Err(())
    }
}

/// Reads a little-endian `u32` at the cursor and advances it by four;
/// fails exactly when fewer than four bytes remain.
pub fn parse_u32(bytes: &[u8], pos: &mut usize) -> (r: Result<u32, ()>)
    ensures
        r is Ok <==> *old(pos) + 4 <= bytes@.len(),
        r matches Ok(x) ==> x == le32_at(bytes@, *old(pos) as int) && *final(pos) == *old(pos)
            + 4,
        r is Err ==> *final(pos) == *old(pos),
{
    if bytes.len() >= 4 && *pos <= bytes.len() - 4 {
        let s = slice_subrange(bytes, *pos, *pos + 4);
        let x = u32_from_le_bytes(s);
        *pos = *pos + 4;
        Ok(x)
    } else {
        Err(())
    }
}

/// Reads a little-endian `u64` at the cursor and advances it by eight;
/// fails exactly when fewer than eight bytes remain.
pub fn parse_u64(bytes: &[u8], pos: &mut usize) -> (r: Result<u64, ()>)
    ensures
        r is Ok <==> *old(pos) + 8 <= bytes@.len(),
        r matches Ok(x) ==> x == le64_at(bytes@, *old(pos) as int) && *final(pos) == *old(pos)
            + 8,
        r is Err ==> *final(pos) == *old(pos),
{
    if bytes.len() >= 8 && *pos <= bytes.len() - 8 {
        let s = slice_subrange(bytes, *pos, *pos + 8);
        let x = u64_from_le_bytes(s);
        *pos = *pos + 8;
        Ok(x)
    } else {
        Err(())
    }
}

/// Tests whether the given bit of `value` is set.
pub fn bit_test(value: u32, bit: u8) -> (r: bool)
    requires
        bit < 32,
    ensures
        r == (value & (1u32 << bit) != 0),
{
    value & (1u32 << bit) != 0
}

/// The low `bits` bits of `num` reinterpreted as a signed two's-complement
/// number of that width.
pub open spec fn spec_sign_extend(num: i16, bits: u32) -> int
    recommends
        1 <= bits <= 16,
{
    let p = (1u32 << bits) as int;
    let h = (1u32 << (bits - 1) as u32) as int;
    let m = ((num as u16) as int) % p;
    if m >= h {
        m - p
    } else {
        m
    }
}

/// Sign-extends the low `bits` bits of `num` to a full `i16`.
pub fn sign_extend(num: i16, bits: u32) -> (r: i16)
    requires
        1 <= bits <= 16,
    ensures
        r as int == spec_sign_extend(num, bits),
{
    if bits == 16 {
        proof {
            assert(num as int == {
                let p = (1u32 << 16u32) as int;
                let h = (1u32 << 15u32) as int;
                let m = ((num as u16) as int) % p;
                if m >= h {
                    m - p
                } else {
                    m
                }
            }) by (bit_vector);
        }
        return num;
    }
    let b: u16 = bits as u16;
    proof {
        assert(1u16 << b >= 1) by (bit_vector)
            requires
                b < 16,
        ;
    }
    let mask: u16 = (1u16 << b) - 1;
    let m: u16 = (num as u16) & mask;
    let sign_bit: u16 = 1u16 << (b - 1);
    let r_u: u16 = if m & sign_bit != 0 {
        m | !mask
    } else {
        m
    };
    proof {
        assert(({
            let mask2: u16 = ((1u16 << (bits as u16)) - 1) as u16;
            let m2: u16 = (num as u16) & mask2;
            let r2: u16 = if m2 & (1u16 << (((bits as u16) - 1) as u16)) != 0 {
                m2 | !mask2
            } else {
                m2
            };
            (r2 as i16) as int
        }) == {
            let p = (1u32 << bits) as int;
            let h = (1u32 << (bits - 1) as u32) as int;
            let q = ((num as u16) as int) % p;
            if q >= h {
                q - p
            } else {
                q
            }
        }) by (bit_vector)
            requires
                1 <= bits < 16,
        ;
    }
    r_u as i16
}

/// Compares two strings by their characters.
pub fn str_eq_chars(a: &str, b: &str) -> (r: bool)
    ensures
        r == (a@ == b@),
{
    let la = a.unicode_len();
    let lb = b.unicode_len();
    if la != lb {
        return false;
    }
    let mut i: usize = 0;
    while i < la
        invariant
            i <= la,
            la == a@.len(),
            la == b@.len(),
            forall|j: int| 0 <= j < i ==> a@[j] == b@[j],
        decreases la - i,
    {
        if a.get_char(i) != b.get_char(i) {
            return false;
        }
        i = i + 1;
    }
    proof {
        assert(a@ =~= b@);
    }
    true
}

/// `n` occurs as a contiguous run inside `h`.
pub open spec fn spec_contains_seq(h: Seq<char>, n: Seq<char>) -> bool {
    exists|i: int|
        0 <= i && i + n.len() <= h.len() && #[trigger] h.subrange(i, i + n.len()) == n
}

/// Whether `needle` matches `h` at position `i`.
fn str_match_at(h: &str, needle: &str, i: usize, hl: usize, nl: usize) -> (r: bool)
    requires
        hl == h@.len(),
        nl == needle@.len(),
        i + nl <= hl,
    ensures
        r == (h@.subrange(i as int, i + nl) == needle@),
{
    let mut j: usize = 0;
    while j < nl
        invariant
            j <= nl,
            hl == h@.len(),
            nl == needle@.len(),
            i + nl <= hl,
            forall|k: int| 0 <= k < j ==> h@[i + k] == needle@[k],
        decreases nl - j,
    {
        if h.get_char(i + j) != needle.get_char(j) {
            proof {
                assert(h@.subrange(i as int, i + nl)[j as int] != needle@[j as int]);
            }
            return false;
        }
        j = j + 1;
    }
    proof {
        assert(h@.subrange(i as int, i + nl) =~= needle@);
    }
    true
}

/// Searches for `needle` anywhere inside `h`.
pub fn str_contains_chars(h: &str, needle: &str) -> (r: bool)
    ensures
        r == spec_contains_seq(h@, needle@),
{
    let hl = h.unicode_len();
    let nl = needle.unicode_len();
    if nl > hl {
        return false;
    }
    if nl == 0 {
        proof {
            assert(h@.subrange(0, 0 + needle@.len() as int) =~= needle@);
        }
        return true;
    }
    let mut i: usize = 0;
    while i <= hl - nl
        invariant
            1 <= nl <= hl,
            hl == h@.len(),
            nl == needle@.len(),
            i <= hl - nl + 1,
            forall|k: int| 0 <= k < i ==> #[trigger] h@.subrange(k, k + nl as int) != needle@,
        decreases hl - nl + 1 - i,
    {
        if str_match_at(h, needle, i, hl, nl) {
            return true;
        }
        i = i + 1;
    }
    false
}

/// Relies on `String::from_utf8`: succeeds exactly on valid UTF-8 and
/// decodes those bytes.
#[verifier::external_body]
pub fn string_from_utf8(v: Vec<u8>) -> (r: Option<String>)
    ensures
        match r {
            Some(s) => vstd::utf8::valid_utf8(v@) && s@ == vstd::utf8::decode_utf8(v@),
            None => !vstd::utf8::valid_utf8(v@),
        },
{
    String::from_utf8(v).ok()
}

/// Adds a delta to a millisecond counter, saturating at the largest `u32`.
pub fn sat_add_u32(a: u32, b: u32) -> (r: u32)
    ensures
        r == spec_sat_add_u32(a, b),
{
    if a <= u32::MAX - b {
        a + b
    } else {
        u32::MAX
    }
}

/// `a + b` clamped to the `u32` range.
pub open spec fn spec_sat_add_u32(a: u32, b: u32) -> u32 {
    if a + b <= u32::MAX {
        (a + b) as u32
    } else {
        u32::MAX
    }
}

} // verus!
