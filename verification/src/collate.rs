//! The order of strings.
//!
//! Strings are compared by the bytes of their UTF-8. That is the order of
//! their characters: UTF-8 keeps the order of scalar values.
use vstd::prelude::*;
use vstd::utf8::{decode_utf8, decode_utf8_encode_utf8, encode_utf8};
use std::cmp::Ordering;
use crate::compare::{
    byte_order, common_prefix, holds_text, lemma_common_prefix, lemma_common_prefix_found, order,
    scalar_less,
};
use crate::datamodel::Value;
use crate::heap::Store;
use crate::text::{code_of, lemma_code_first, lemma_codes_differ, lemma_scalars_differ};

verus! {

/// The order of two sequences of characters: that of the first characters in
/// which they differ, by their scalar values, and where one is the start of
/// the other, the shorter is less.
pub open spec fn text_order(a: Seq<char>, b: Seq<char>) -> Ordering {
    let k = common_prefix(a, b);
    if k < a.len() && k < b.len() {
        if scalar_less(a[k], b[k]) {
            Ordering::Less
        } else {
            Ordering::Greater
        }
    } else if k < b.len() {
        Ordering::Less
    } else if k < a.len() {
        Ordering::Greater
    } else {
        Ordering::Equal
    }
}

/// Two sequences of bytes that start alike are ordered as what follows the
/// common start in each.
pub proof fn lemma_byte_order_after(p: Seq<u8>, x: Seq<u8>, y: Seq<u8>)
    ensures
        byte_order(p + x, p + y) == byte_order(x, y),
{
    let k = common_prefix(x, y);
    lemma_common_prefix(x, y);
    assert forall|j: int| 0 <= j < p.len() + k implies (p + x)[j] == (p + y)[j] by {
        if j >= p.len() {
            assert(x[j - p.len()] == y[j - p.len()]);
        }
    }
    lemma_common_prefix_found(p + x, p + y, p.len() + k);
}

/// Two sequences of bytes whose starts differ before either start ends are
/// ordered as the starts.
pub proof fn lemma_byte_order_before(p: Seq<u8>, q: Seq<u8>, x: Seq<u8>, y: Seq<u8>)
    requires
        common_prefix(p, q) < p.len(),
        common_prefix(p, q) < q.len(),
    ensures
        byte_order(p + x, q + y) == byte_order(p, q),
        byte_order(p, q) != Ordering::Equal,
{
    let k = common_prefix(p, q);
    lemma_common_prefix(p, q);
    assert forall|j: int| 0 <= j < k implies (p + x)[j] == (q + y)[j] by {
        assert(p[j] == q[j]);
    }
    assert((p + x)[k] == p[k] && (q + y)[k] == q[k]);
    lemma_common_prefix_found(p + x, q + y, k);
}

/// The bytes of the UTF-8 of two sequences of characters are ordered as the
/// characters are.
pub proof fn law_text_order(a: Seq<char>, b: Seq<char>)
    ensures
        byte_order(encode_utf8(a), encode_utf8(b)) == text_order(a, b),
    decreases a.len(),
{
    let x = encode_utf8(a);
    let y = encode_utf8(b);
    if a.len() == 0 || b.len() == 0 {
        if a.len() > 0 {
            lemma_code_first(a);
        }
        if b.len() > 0 {
            lemma_code_first(b);
        }
        lemma_common_prefix(x, y);
        lemma_common_prefix(a, b);
    } else {
        lemma_code_first(a);
        lemma_code_first(b);
        let c = a[0];
        let d = b[0];
        let rest_a = a.drop_first();
        let rest_b = b.drop_first();
        if c == d {
            lemma_byte_order_after(code_of(c), encode_utf8(rest_a), encode_utf8(rest_b));
            law_text_order(rest_a, rest_b);
            let k = common_prefix(rest_a, rest_b);
            lemma_common_prefix(rest_a, rest_b);
            if k < rest_a.len() {
                assert(rest_a[k] == a[k + 1]);
            }
            if k < rest_b.len() {
                assert(rest_b[k] == b[k + 1]);
            }
        } else {
            lemma_scalars_differ(c, d);
            if scalar_less(c, d) {
                lemma_codes_differ(c, d);
            } else {
                lemma_codes_differ(d, c);
                lemma_common_prefix(code_of(d), code_of(c));
                lemma_common_prefix(code_of(c), code_of(d));
            }
            lemma_byte_order_before(code_of(c), code_of(d), encode_utf8(rest_a), encode_utf8(rest_b));
        }
    }
}

/// The characters of a string or a string buffer.
pub open spec fn characters(store: Store, v: Value) -> Seq<char> {
    match v {
        Value::StringValue(h) => decode_utf8(store.string_of(h)),
        Value::StringBuffer(h) => store.text_of(h),
        _ => Seq::empty(),
    }
}

/// A string and a string buffer, or two of either, are ordered as their
/// characters are.
pub proof fn law_order_of_texts(store: Store, a: Value, b: Value)
    requires
        store.wf(),
        store.admits(a),
        store.admits(b),
        holds_text(a),
        holds_text(b),
    ensures
        order(store, a, b) == Some(text_order(characters(store, a), characters(store, b))),
{
    match a {
        Value::StringValue(h) => {
            decode_utf8_encode_utf8(store.string_of(h));
        },
        _ => {},
    }
    match b {
        Value::StringValue(h) => {
            decode_utf8_encode_utf8(store.string_of(h));
        },
        _ => {},
    }
    law_text_order(characters(store, a), characters(store, b));
}

} // verus!
