//! The order of values.
//!
//! Two values of one tag compare by what they hold: scalars by their natural
//! order, byte arrays and strings by their bytes, and the objects that have
//! nothing but an identity (lists, functions, objects of the host) only as
//! equal or not comparable. Two values of different tags compare as their
//! tags rank, except that a byte array and a byte buffer compare by their
//! bytes, and so do a string and a string buffer.
use vstd::prelude::*;
use vstd::utf8::encode_utf8;
use std::cmp::Ordering;
use crate::datamodel::{Handle, Value, ValueType};
use crate::heap::{Heap, Store};
use crate::number::{real_order, real_partial_order};

verus! {

/// The number of items that two sequences have in common at their start.
pub open spec fn common_prefix<T>(a: Seq<T>, b: Seq<T>) -> int
    decreases a.len(),
{
    if a.len() == 0 || b.len() == 0 || a[0] != b[0] {
        0
    } else {
        1 + common_prefix(a.drop_first(), b.drop_first())
    }
}

/// The common start of two sequences lies within both, they agree on it, and
/// where both go on after it they differ there.
pub proof fn lemma_common_prefix<T>(a: Seq<T>, b: Seq<T>)
    ensures
        0 <= common_prefix(a, b) <= a.len(),
        common_prefix(a, b) <= b.len(),
        common_prefix(a, b) == common_prefix(b, a),
        forall|j: int| 0 <= j < common_prefix(a, b) ==> a[j] == b[j],
        common_prefix(a, b) < a.len() && common_prefix(a, b) < b.len() ==> a[common_prefix(a, b)]
            != b[common_prefix(a, b)],
        a == b ==> common_prefix(a, b) == a.len(),
    decreases a.len(),
{
    if a.len() == 0 || b.len() == 0 || a[0] != b[0] {
    } else {
        lemma_common_prefix(a.drop_first(), b.drop_first());
        let k = common_prefix(a.drop_first(), b.drop_first());
        assert forall|j: int| 0 <= j < k + 1 implies a[j] == b[j] by {
            if j > 0 {
                assert(a.drop_first()[j - 1] == b.drop_first()[j - 1]);
            }
        }
        if k < a.len() - 1 && k < b.len() - 1 {
            assert(a.drop_first()[k] == a[k + 1]);
            assert(b.drop_first()[k] == b[k + 1]);
        }
    }
}

/// The common start of two sequences is the one length up to which they
/// agree and at which they differ or one of them ends.
pub proof fn lemma_common_prefix_found<T>(a: Seq<T>, b: Seq<T>, k: int)
    requires
        0 <= k <= a.len(),
        k <= b.len(),
        forall|j: int| 0 <= j < k ==> a[j] == b[j],
        k < a.len() && k < b.len() ==> a[k] != b[k],
    ensures
        common_prefix(a, b) == k,
    decreases k,
{
    if k > 0 {
        assert(a[0] == b[0]);
        assert forall|j: int| 0 <= j < k - 1 implies a.drop_first()[j] == b.drop_first()[j] by {
            assert(a[j + 1] == b[j + 1]);
        }
        lemma_common_prefix_found(a.drop_first(), b.drop_first(), k - 1);
    }
}

/// The number of bytes that two slices have in common at their start.
fn mismatch(a: &[u8], b: &[u8]) -> (k: usize)
    ensures
        k == common_prefix(a@, b@),
{
    let mut i: usize = 0;
    assert(a@.skip(0) =~= a@ && b@.skip(0) =~= b@);
    while i < a.len() && i < b.len() && a[i] == b[i]
        invariant
            i <= a@.len(),
            i <= b@.len(),
            common_prefix(a@, b@) == i + common_prefix(a@.skip(i as int), b@.skip(i as int)),
        decreases a@.len() - i,
    {
        assert(a@.skip(i as int).drop_first() =~= a@.skip(i + 1));
        assert(b@.skip(i as int).drop_first() =~= b@.skip(i + 1));
        i += 1;
    }
    i
}

/// The order of two sequences of bytes: that of the first bytes in which they
/// differ, and where one is the start of the other, the shorter is less.
pub open spec fn byte_order(a: Seq<u8>, b: Seq<u8>) -> Ordering {
    let k = common_prefix(a, b);
    if k < a.len() && k < b.len() {
        if a[k] < b[k] {
            Ordering::Less
        } else {
            Ordering::Greater
        }
    } else if k < b.len() {
        Ordering::Less
    } else if k < a.len() {
        Ordering::Greater
    } else {
        Ordering::Equal
    }
}

/// An order seen from the other side.
pub open spec fn reversed(o: Ordering) -> Ordering {
    match o {
        Ordering::Less => Ordering::Greater,
        Ordering::Equal => Ordering::Equal,
        Ordering::Greater => Ordering::Less,
    }
}

/// An order, if there is one, seen from the other side.
pub open spec fn reversed_option(o: Option<Ordering>) -> Option<Ordering> {
    match o {
        Some(o) => Some(reversed(o)),
        None => None,
    }
}

/// The order of two booleans: false before true.
pub open spec fn bool_order(a: bool, b: bool) -> Ordering {
    if a == b {
        Ordering::Equal
    } else if b {
        Ordering::Less
    } else {
        Ordering::Greater
    }
}

/// The order of two integers.
pub open spec fn integer_order(a: i64, b: i64) -> Ordering {
    if a < b {
        Ordering::Less
    } else if a == b {
        Ordering::Equal
    } else {
        Ordering::Greater
    }
}

/// The order of two characters: that of their scalar values.
pub open spec fn char_order(a: char, b: char) -> Ordering {
    if scalar_less(a, b) {
        Ordering::Less
    } else if a == b {
        Ordering::Equal
    } else {
        Ordering::Greater
    }
}

/// The order of two addresses.
pub open spec fn address_order(a: usize, b: usize) -> Ordering {
    if a < b {
        Ordering::Less
    } else if a == b {
        Ordering::Equal
    } else {
        Ordering::Greater
    }
}

/// The order of two objects that have nothing but an identity.
pub open spec fn identity_order(a: Handle, b: Handle) -> Option<Ordering> {
    if a == b {
        Some(Ordering::Equal)
    } else {
        None
    }
}

/// The order of two tags of different rank.
pub open spec fn rank_order(a: ValueType, b: ValueType) -> Ordering {
    if a.rank() < b.rank() {
        Ordering::Less
    } else {
        Ordering::Greater
    }
}

/// Whether the scalar value of `a` is below that of `b`.
pub open spec fn scalar_less(a: char, b: char) -> bool {
    (a as u32) < (b as u32)
}

/// Whether the scalar value of `a` is below that of `b`.
fn is_scalar_less(a: char, b: char) -> (r: bool)
    ensures
        r == scalar_less(a, b),
{
    (a as u32) < (b as u32)
}

/// The bytes by which a value is compared, where it is compared by bytes:
/// those of a byte array or buffer, and the UTF-8 of a string or string
/// buffer.
pub open spec fn content(store: Store, v: Value) -> Seq<u8> {
    match v {
        Value::Bytes(h) => store.bytes_of(h),
        Value::BytesBuffer(h) => store.buffer_of(h),
        Value::StringValue(h) => store.string_of(h),
        Value::StringBuffer(h) => encode_utf8(store.text_of(h)),
        _ => Seq::empty(),
    }
}

/// Whether the value is a byte array or a byte buffer.
pub open spec fn holds_bytes(v: Value) -> bool {
    v is Bytes || v is BytesBuffer
}

/// Whether the value is a string or a string buffer.
pub open spec fn holds_text(v: Value) -> bool {
    v is StringValue || v is StringBuffer
}

/// The order of two values; none where they are not comparable.
pub open spec fn order(store: Store, a: Value, b: Value) -> Option<Ordering> {
    if (holds_bytes(a) && holds_bytes(b)) || (holds_text(a) && holds_text(b)) {
        Some(byte_order(content(store, a), content(store, b)))
    } else if a.type_of() != b.type_of() {
        Some(rank_order(a.type_of(), b.type_of()))
    } else {
        match (a, b) {
            (Value::Nil, Value::Nil) => Some(Ordering::Equal),
            (Value::Bool(x), Value::Bool(y)) => Some(bool_order(x, y)),
            (Value::Integer(x), Value::Integer(y)) => Some(integer_order(x, y)),
            (Value::Real(x), Value::Real(y)) => real_order(x, y),
            (Value::Char(x), Value::Char(y)) => Some(char_order(x, y)),
            (Value::List(x), Value::List(y)) => identity_order(x, y),
            (Value::ListWeak(x), Value::ListWeak(y)) => identity_order(x, y),
            (Value::Function(x), Value::Function(y)) => identity_order(x, y),
            (Value::NativeFn(x), Value::NativeFn(y)) => Some(address_order(x.address, y.address)),
            (Value::Unknown(x), Value::Unknown(y)) => identity_order(x, y),
            _ => None,
        }
    }
}

/// Compares two slices byte by byte.
pub fn compare_bytes(a: &[u8], b: &[u8]) -> (r: Ordering)
    ensures
        r == byte_order(a@, b@),
{
    let k: usize = mismatch(a, b);
    if k < a.len() && k < b.len() {
        if a[k] < b[k] {
            Ordering::Less
        } else {
            Ordering::Greater
        }
    } else if k < b.len() {
        Ordering::Less
    } else if k < a.len() {
        Ordering::Greater
    } else {
        Ordering::Equal
    }
}

impl Heap {
    /// The bytes by which `v` is compared, where it is compared by bytes.
    fn content_of<'a>(&'a self, v: &Value) -> (r: &'a [u8])
        requires
            self@.admits(*v),
            holds_bytes(*v) || holds_text(*v),
        ensures
            r@ == content(self@, *v),
    {
        match v {
            Value::Bytes(h) => self.bytes[h.index].0.as_slice(),
            Value::BytesBuffer(h) => self.buffers[h.index].0.as_slice(),
            Value::StringValue(h) => self.strings[h.index].as_bytes().0.as_slice(),
            Value::StringBuffer(h) => self.texts[h.index].0.as_str().as_bytes(),
            _ => self.bytes[0].0.as_slice(),
        }
    }
}

/// Whether the value is a byte array or a byte buffer.
pub fn is_bytes_like(v: &Value) -> (r: bool)
    ensures
        r == holds_bytes(*v),
{
    match v {
        Value::Bytes(_) => true,
        Value::BytesBuffer(_) => true,
        _ => false,
    }
}

/// Whether the value is a string or a string buffer.
pub fn is_text_like(v: &Value) -> (r: bool)
    ensures
        r == holds_text(*v),
{
    match v {
        Value::StringValue(_) => true,
        Value::StringBuffer(_) => true,
        _ => false,
    }
}

impl Value {
    /// Compares two values of the heap.
    pub fn cmp(&self, other: &Value, heap: &Heap) -> (r: Option<Ordering>)
        requires
            heap@.admits(*self),
            heap@.admits(*other),
        ensures
            r == order(heap@, *self, *other),
    {
        if (is_bytes_like(self) && is_bytes_like(other)) || (is_text_like(self) && is_text_like(
            other,
        )) {
            return Some(compare_bytes(heap.content_of(self), heap.content_of(other)));
        }
        let left: u8 = self.get_type().ordinal();
        let right: u8 = other.get_type().ordinal();
        if left < right {
            return Some(Ordering::Less);
        }
        if left > right {
            return Some(Ordering::Greater);
        }
        match (self, other) {
            (Value::Nil, Value::Nil) => Some(Ordering::Equal),
            (Value::Bool(x), Value::Bool(y)) => {
                if *x == *y {
                    Some(Ordering::Equal)
                } else if *y {
                    Some(Ordering::Less)
                } else {
                    Some(Ordering::Greater)
                }
            },
            (Value::Integer(x), Value::Integer(y)) => {
                if *x < *y {
                    Some(Ordering::Less)
                } else if *x == *y {
                    Some(Ordering::Equal)
                } else {
                    Some(Ordering::Greater)
                }
            },
            (Value::Real(x), Value::Real(y)) => real_partial_order(x, y),
            (Value::Char(x), Value::Char(y)) => {
                if is_scalar_less(*x, *y) {
                    Some(Ordering::Less)
                } else if *x == *y {
                    Some(Ordering::Equal)
                } else {
                    Some(Ordering::Greater)
                }
            },
            (Value::List(x), Value::List(y)) => same_object(x, y),
            (Value::ListWeak(x), Value::ListWeak(y)) => same_object(x, y),
            (Value::Function(x), Value::Function(y)) => same_object(x, y),
            (Value::NativeFn(x), Value::NativeFn(y)) => {
                if x.address < y.address {
                    Some(Ordering::Less)
                } else if x.address == y.address {
                    Some(Ordering::Equal)
                } else {
                    Some(Ordering::Greater)
                }
            },
            (Value::Unknown(x), Value::Unknown(y)) => same_object(x, y),
            _ => None,
        }
    }
}

/// Compares two objects that have nothing but an identity.
fn same_object(a: &Handle, b: &Handle) -> (r: Option<Ordering>)
    ensures
        r == identity_order(*a, *b),
{
    if a.index == b.index {
        Some(Ordering::Equal)
    } else {
        None
    }
}

/// Seen from the other side, two sequences of bytes are in the reversed
/// order.
pub proof fn lemma_byte_order_reversal(a: Seq<u8>, b: Seq<u8>)
    ensures
        byte_order(b, a) == reversed(byte_order(a, b)),
        a == b ==> byte_order(a, b) == Ordering::Equal,
{
    lemma_common_prefix(a, b);
}

/// Seen from the other side, two values are in the reversed order, and not
/// comparable if they were not.
pub proof fn law_order_reversal(store: Store, a: Value, b: Value)
    ensures
        order(store, b, a) == reversed_option(order(store, a, b)),
{
    lemma_byte_order_reversal(content(store, a), content(store, b));
}

/// One value is less than another exactly when the other is greater than it.
pub proof fn law_order_symmetry(store: Store, a: Value, b: Value)
    ensures
        order(store, a, b) == Some(Ordering::Less) <==> order(store, b, a) == Some(
            Ordering::Greater,
        ),
{
    law_order_reversal(store, a, b);
}

/// A value is equal to itself or not comparable with itself, and the second
/// only where it is a real that is not a number.
pub proof fn law_order_reflexive(store: Store, a: Value)
    ensures
        order(store, a, a) == Some(Ordering::Equal) || order(store, a, a) is None,
        order(store, a, a) is None <==> (a is Real && a->Real_0.nan()),
{
    lemma_byte_order_reversal(content(store, a), content(store, a));
}

/// Two values of different tags are ordered as their tags rank, unless they
/// are a byte array and a byte buffer, or a string and a string buffer.
pub proof fn law_order_of_tags(store: Store, a: Value, b: Value)
    requires
        a.type_of() != b.type_of(),
        !(holds_bytes(a) && holds_bytes(b)),
        !(holds_text(a) && holds_text(b)),
    ensures
        order(store, a, b) == Some(Ordering::Less) <==> a.type_of().rank() < b.type_of().rank(),
        order(store, a, b) == Some(Ordering::Greater) <==> a.type_of().rank() > b.type_of().rank(),
{
}

} // verus!
