//! The order of names, read on their code points.
//!
//! The library compares names by the bytes of their UTF-8 encodings.  This
//! module shows that the same order results from comparing the names one
//! code point after the other.

use crate::order::{
    bytes_before, decided_at, lemma_bytes_before_asymmetric, lemma_bytes_before_irreflexive,
    name_before,
};
use vstd::prelude::*;
use vstd::utf8::{
    encode_scalar, encode_utf8, has_width_1_encoding, has_width_2_encoding, has_width_3_encoding,
    has_width_4_encoding, is_scalar, last_continuation_byte, leading_byte_width_1,
    leading_byte_width_2, leading_byte_width_3, leading_byte_width_4,
    second_last_continuation_byte, third_last_continuation_byte,
};

verus! {

/// Index `k` is where `a` is found to sort before `b` by code points: they
/// hold the same characters below `k`, and there `a` has ended while `b`
/// goes on, or `a` holds the smaller code point.
pub open spec fn code_points_decided_at(a: Seq<char>, b: Seq<char>, k: int) -> bool {
    &&& 0 <= k <= a.len()
    &&& k < b.len()
    &&& forall|i: int| 0 <= i < k ==> a[i] == b[i]
    &&& (k == a.len() || (a[k] as u32) < (b[k] as u32))
}

/// Strict lexicographic order on names by code point.
pub open spec fn code_points_before(a: Seq<char>, b: Seq<char>) -> bool {
    exists|k: int| code_points_decided_at(a, b, k)
}

/// The first byte of an encoding tells its width: the ranges of the first
/// bytes of the four widths lie one above the other.
proof fn lemma_leading_byte_ranges(c: u32)
    by (bit_vector)
    ensures
        leading_byte_width_1(c) <= 0x7F,
        0xC0 <= leading_byte_width_2(c) <= 0xDF,
        0xE0 <= leading_byte_width_3(c) <= 0xEF,
        0xF0 <= leading_byte_width_4(c) <= 0xF7,
{
}

/// Of two scalars of one byte, the smaller has the smaller byte.
proof fn lemma_order_width_1(c: u32, d: u32)
    by (bit_vector)
    requires
        c < d,
        d <= 0x7F,
    ensures
        leading_byte_width_1(c) < leading_byte_width_1(d),
{
}

/// Of two scalars of two bytes, the smaller has the smaller byte where
/// their encodings first differ.
proof fn lemma_order_width_2(c: u32, d: u32)
    by (bit_vector)
    requires
        c < d,
        d <= 0x7FF,
    ensures
        leading_byte_width_2(c) < leading_byte_width_2(d) || (leading_byte_width_2(c)
            == leading_byte_width_2(d) && last_continuation_byte(c) < last_continuation_byte(d)),
{
}

/// Of two scalars of three bytes, the smaller has the smaller byte where
/// their encodings first differ.
proof fn lemma_order_width_3(c: u32, d: u32)
    by (bit_vector)
    requires
        c < d,
        d <= 0xFFFF,
    ensures
        leading_byte_width_3(c) < leading_byte_width_3(d) || (leading_byte_width_3(c)
            == leading_byte_width_3(d) && (second_last_continuation_byte(c)
            < second_last_continuation_byte(d) || (second_last_continuation_byte(c)
            == second_last_continuation_byte(d) && last_continuation_byte(c)
            < last_continuation_byte(d)))),
{
}

/// Of two scalars of four bytes, the smaller has the smaller byte where
/// their encodings first differ.
proof fn lemma_order_width_4(c: u32, d: u32)
    by (bit_vector)
    requires
        c < d,
        d <= 0x10FFFF,
    ensures
        leading_byte_width_4(c) < leading_byte_width_4(d) || (leading_byte_width_4(c)
            == leading_byte_width_4(d) && (third_last_continuation_byte(c)
            < third_last_continuation_byte(d) || (third_last_continuation_byte(c)
            == third_last_continuation_byte(d) && (second_last_continuation_byte(c)
            < second_last_continuation_byte(d) || (second_last_continuation_byte(c)
            == second_last_continuation_byte(d) && last_continuation_byte(c)
            < last_continuation_byte(d)))))),
{
}

/// The encodings of two scalars differ inside both of them, and where they
/// first differ the smaller scalar has the smaller byte.  The result is
/// that index.
proof fn lemma_scalar_order(c: u32, d: u32) -> (j: int)
    requires
        is_scalar(c),
        is_scalar(d),
        c < d,
    ensures
        0 <= j < encode_scalar(c).len(),
        j < encode_scalar(d).len(),
        forall|i: int| 0 <= i < j ==> encode_scalar(c)[i] == encode_scalar(d)[i],
        encode_scalar(c)[j] < encode_scalar(d)[j],
{
    lemma_leading_byte_ranges(c);
    lemma_leading_byte_ranges(d);
    let x = encode_scalar(c);
    let y = encode_scalar(d);
    if has_width_1_encoding(d) {
        lemma_order_width_1(c, d);
        0
    } else if has_width_2_encoding(d) {
        if has_width_2_encoding(c) {
            lemma_order_width_2(c, d);
            if x[0] < y[0] {
                0
            } else {
                1
            }
        } else {
            0
        }
    } else if has_width_3_encoding(d) {
        if has_width_3_encoding(c) {
            lemma_order_width_3(c, d);
            if x[0] < y[0] {
                0
            } else if x[1] < y[1] {
                1
            } else {
                2
            }
        } else {
            0
        }
    } else {
        if has_width_4_encoding(c) {
            lemma_order_width_4(c, d);
            if x[0] < y[0] {
                0
            } else if x[1] < y[1] {
                1
            } else if x[2] < y[2] {
                2
            } else {
                3
            }
        } else {
            0
        }
    }
}

/// A name that sorts before another by code points sorts before it by
/// bytes.
proof fn lemma_code_points_to_bytes(a: Seq<char>, b: Seq<char>, k: int)
    requires
        code_points_decided_at(a, b, k),
    ensures
        bytes_before(encode_utf8(a), encode_utf8(b)),
    decreases k,
{
    // Each encoding is that of the first character followed by that of the
    // rest.
    let x = encode_utf8(a);
    let y = encode_utf8(b);
    vstd::utf8::char_is_scalar(b[0]);
    if a.len() == 0 {
        assert(decided_at(x, y, 0));
    } else {
        vstd::utf8::char_is_scalar(a[0]);
        if k == 0 {
            // The first characters differ: so do their encodings, and the
            // rest does not matter.
            let j = lemma_scalar_order(a[0] as u32, b[0] as u32);
            assert(decided_at(x, y, j));
        } else {
            // The first characters are the same: the rest decides, behind
            // the encoding of the first.
            let a_rest = a.drop_first();
            let b_rest = b.drop_first();
            assert(code_points_decided_at(a_rest, b_rest, k - 1));
            lemma_code_points_to_bytes(a_rest, b_rest, k - 1);
            let m = choose|m: int| decided_at(encode_utf8(a_rest), encode_utf8(b_rest), m);
            assert(decided_at(x, y, encode_scalar(a[0] as u32).len() + m));
        }
    }
}

/// Of two different names one sorts before the other by code points.
proof fn lemma_code_points_total(a: Seq<char>, b: Seq<char>, k: int)
    requires
        0 <= k <= a.len(),
        k <= b.len(),
        forall|i: int| 0 <= i < k ==> a[i] == b[i],
    ensures
        code_points_before(a, b) || code_points_before(b, a) || a == b,
    decreases a.len() - k,
{
    if k == a.len() && k == b.len() {
        assert(a =~= b);
    } else if k == a.len() || (k < b.len() && (a[k] as u32) < (b[k] as u32)) {
        assert(code_points_decided_at(a, b, k));
    } else if k == b.len() || (b[k] as u32) < (a[k] as u32) {
        assert(code_points_decided_at(b, a, k));
    } else {
        vstd::utf8::char_u32_cast(a[k], a[k] as u32);
        vstd::utf8::char_u32_cast(b[k], b[k] as u32);
        lemma_code_points_total(a, b, k + 1);
    }
}

/// Byte order is code point order: one name sorts before another by the
/// bytes of their UTF-8 encodings exactly when it does so by its code
/// points.
pub proof fn lemma_name_order_is_code_point_order(a: Seq<char>, b: Seq<char>)
    ensures
        name_before(a, b) <==> code_points_before(a, b),
{
    if code_points_before(a, b) {
        let k = choose|k: int| code_points_decided_at(a, b, k);
        lemma_code_points_to_bytes(a, b, k);
    }
    if name_before(a, b) && !code_points_before(a, b) {
        lemma_code_points_total(a, b, 0);
        if a == b {
            lemma_bytes_before_irreflexive(encode_utf8(a));
        } else {
            let k = choose|k: int| code_points_decided_at(b, a, k);
            lemma_code_points_to_bytes(b, a, k);
            lemma_bytes_before_asymmetric(encode_utf8(a), encode_utf8(b));
        }
    }
}

} // verus!
