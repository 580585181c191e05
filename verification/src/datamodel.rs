//! The values of the machine and the containers that they refer to.
//!
//! A value is a small tagged datum. The variants that stand for shared
//! objects hold a [`Handle`]: the place of the object in the machine's
//! [`crate::heap::Heap`]. Copying such a value copies the handle, never the
//! object, so every copy observes what is done through any of them. The
//! containers themselves, defined here, own their contents and know nothing
//! of sharing.
use vstd::prelude::*;
use vstd::string::StringExecFns;
use vstd::utf8::{decode_utf8, encode_utf8, valid_utf8, pop_first_scalar, encode_utf8_valid_utf8, encode_utf8_decode_utf8};
use core::str::Utf8Error;
use crate::number::Real;
use crate::text::{decode_scalar, scalar_at, scalar_from};

verus! {

/// The tag of a value. The variants are declared in the order in which the
/// tags are ranked.
#[derive(Clone, Copy, Debug, PartialEq, Eq, Structural)]
pub enum ValueType {
    Nil,
    Bool,
    Integer,
    Real,
    Char,
    List,
    ListWeak,
    Bytes,
    BytesBuffer,
    StringValue,
    StringBuffer,
    Function,
    NativeFn,
    Unknown,
}

impl ValueType {
    /// The place of the tag in the fixed order of tags, from 0.
    pub open spec fn rank(self) -> nat {
        match self {
            ValueType::Nil => 0,
            ValueType::Bool => 1,
            ValueType::Integer => 2,
            ValueType::Real => 3,
            ValueType::Char => 4,
            ValueType::List => 5,
            ValueType::ListWeak => 6,
            ValueType::Bytes => 7,
            ValueType::BytesBuffer => 8,
            ValueType::StringValue => 9,
            ValueType::StringBuffer => 10,
            ValueType::Function => 11,
            ValueType::NativeFn => 12,
            ValueType::Unknown => 13,
        }
    }

    /// The rank of the tag.
    pub fn ordinal(&self) -> (r: u8)
        ensures
            r == self.rank(),
    {
        match self {
            ValueType::Nil => 0,
            ValueType::Bool => 1,
            ValueType::Integer => 2,
            ValueType::Real => 3,
            ValueType::Char => 4,
            ValueType::List => 5,
            ValueType::ListWeak => 6,
            ValueType::Bytes => 7,
            ValueType::BytesBuffer => 8,
            ValueType::StringValue => 9,
            ValueType::StringBuffer => 10,
            ValueType::Function => 11,
            ValueType::NativeFn => 12,
            ValueType::Unknown => 13,
        }
    }
}

/// The place of a shared object in the heap. Which of the heap's tables it
/// points into is told by the variant of the value that holds it.
#[derive(Clone, Copy, Debug, PartialEq, Eq, Structural)]
pub struct Handle {
    pub index: usize,
}

/// A function of the host, known to the machine by its address alone.
#[derive(Clone, Copy, Debug, PartialEq, Eq, Structural)]
pub struct NativeFn {
    pub address: usize,
}

/// A runtime value.
#[derive(Clone, Copy, Debug, PartialEq, Eq, Structural)]
pub enum Value {
    Nil,
    Bool(bool),
    Integer(i64),
    Real(Real),
    Char(char),
    /// A strong handle to a list.
    List(Handle),
    /// A weak handle to a list: it does not keep the list alive.
    ListWeak(Handle),
    /// A handle to an immutable byte array.
    Bytes(Handle),
    /// A handle to a byte buffer.
    BytesBuffer(Handle),
    /// A handle to an immutable string.
    StringValue(Handle),
    /// A handle to a string buffer.
    StringBuffer(Handle),
    /// A handle to a function of the machine.
    Function(Handle),
    NativeFn(NativeFn),
    /// An object of the host, told apart from others by its handle alone.
    Unknown(Handle),
}

impl Value {
    /// The tag of the value.
    pub open spec fn type_of(self) -> ValueType {
        match self {
            Value::Nil => ValueType::Nil,
            Value::Bool(_) => ValueType::Bool,
            Value::Integer(_) => ValueType::Integer,
            Value::Real(_) => ValueType::Real,
            Value::Char(_) => ValueType::Char,
            Value::List(_) => ValueType::List,
            Value::ListWeak(_) => ValueType::ListWeak,
            Value::Bytes(_) => ValueType::Bytes,
            Value::BytesBuffer(_) => ValueType::BytesBuffer,
            Value::StringValue(_) => ValueType::StringValue,
            Value::StringBuffer(_) => ValueType::StringBuffer,
            Value::Function(_) => ValueType::Function,
            Value::NativeFn(_) => ValueType::NativeFn,
            Value::Unknown(_) => ValueType::Unknown,
        }
    }

    pub fn get_type(&self) -> (r: ValueType)
        ensures
            r == self.type_of(),
    {
        match self {
            Value::Nil => ValueType::Nil,
            Value::Bool(_) => ValueType::Bool,
            Value::Integer(_) => ValueType::Integer,
            Value::Real(_) => ValueType::Real,
            Value::Char(_) => ValueType::Char,
            Value::List(_) => ValueType::List,
            Value::ListWeak(_) => ValueType::ListWeak,
            Value::Bytes(_) => ValueType::Bytes,
            Value::BytesBuffer(_) => ValueType::BytesBuffer,
            Value::StringValue(_) => ValueType::StringValue,
            Value::StringBuffer(_) => ValueType::StringBuffer,
            Value::Function(_) => ValueType::Function,
            Value::NativeFn(_) => ValueType::NativeFn,
            Value::Unknown(_) => ValueType::Unknown,
        }
    }
}

/// A function of the machine: the list that is its module, and its bytecode.
#[derive(Clone, Copy, Debug, PartialEq, Eq, Structural)]
pub struct Function {
    /// A strong handle to the module list.
    pub module: Handle,
    /// A handle to the byte array that holds the code.
    pub bytecode: Handle,
}

/// Whether `a..b` is a range within a sequence of `len` items.
pub open spec fn range_within(a: int, b: int, len: int) -> bool {
    0 <= a <= b <= len
}

/// Whether `count` items from `offset` on lie within a sequence of `len` items.
pub open spec fn span_within(offset: int, count: int, len: int) -> bool {
    0 <= offset && 0 <= count && offset + count <= len
}

/// A sequence with the `src.len()` items from `offset` on replaced by `src`.
pub open spec fn overwrite<T>(dst: Seq<T>, offset: int, src: Seq<T>) -> Seq<T>
    recommends
        span_within(offset, src.len() as int, dst.len() as int),
{
    Seq::new(
        dst.len(),
        |i: int|
            if offset <= i < offset + src.len() {
                src[i - offset]
            } else {
                dst[i]
            },
    )
}

/// A sequence cut or padded with `fill` to `len` items.
pub open spec fn resized<T>(s: Seq<T>, len: nat, fill: T) -> Seq<T> {
    Seq::new(
        len,
        |i: int|
            if i < s.len() {
                s[i]
            } else {
                fill
            },
    )
}

/// A copy of the bytes `a..b` of a slice.
fn copy_of_range(src: &[u8], a: usize, b: usize) -> (r: Vec<u8>)
    requires
        a <= b <= src@.len(),
    ensures
        r@ == src@.subrange(a as int, b as int),
{
    let mut out: Vec<u8> = Vec::new();
    let mut i: usize = a;
    while i < b
        invariant
            a <= i <= b <= src@.len(),
            out@ == src@.subrange(a as int, i as int),
        decreases b - i,
    {
        out.push(src[i]);
        i += 1;
        assert(out@ =~= src@.subrange(a as int, i as int));
    }
    out
}

/// An immutable byte array.
#[derive(Debug)]
pub struct Bytes(pub Vec<u8>);

impl View for Bytes {
    type V = Seq<u8>;

    open spec fn view(&self) -> Seq<u8> {
        self.0@
    }
}

impl Bytes {
    pub fn len(&self) -> (r: usize)
        ensures
            r == self@.len(),
    {
        self.0.len()
    }

    /// The byte at `index`, as an integer.
    pub fn get(&self, index: usize) -> (r: Option<Value>)
        ensures
            r == if index < self@.len() {
                Some(Value::Integer(self@[index as int] as i64))
            } else {
                None
            },
    {
        if index < self.0.len() {
            Some(Value::Integer(self.0[index] as i64))
        } else {
            None
        }
    }

    /// A buffer that holds a copy of the bytes `a..b`.
    pub fn get_slice(&self, a: usize, b: usize) -> (r: Option<BytesBuffer>)
        ensures
            range_within(a as int, b as int, self@.len() as int) <==> r is Some,
            r is Some ==> r.unwrap()@ == self@.subrange(a as int, b as int),
    {
        if a <= b && b <= self.0.len() {
            Some(BytesBuffer(copy_of_range(self.0.as_slice(), a, b)))
        } else {
            None
        }
    }
}

/// A byte array that can be written and resized.
#[derive(Debug)]
pub struct BytesBuffer(pub Vec<u8>);

impl View for BytesBuffer {
    type V = Seq<u8>;

    open spec fn view(&self) -> Seq<u8> {
        self.0@
    }
}

impl BytesBuffer {
    pub fn from_vec(vec: Vec<u8>) -> (r: BytesBuffer)
        ensures
            r@ == vec@,
    {
        BytesBuffer(vec)
    }

    pub fn len(&self) -> (r: usize)
        ensures
            r == self@.len(),
    {
        self.0.len()
    }

    /// Cuts the buffer to `len` bytes, or pads it with zeros.
    pub fn resize(&mut self, len: usize)
        ensures
            final(self)@ == resized(old(self)@, len as nat, 0u8),
    {
        self.0.truncate(len);
        while self.0.len() < len
            invariant
                self.0@.len() <= len,
                self.0@.len() >= old(self)@.len() || self.0@.len() == len,
                self.0@ =~= resized(old(self)@, self.0@.len(), 0u8),
            decreases len - self.0@.len(),
        {
            self.0.push(0);
            assert(self.0@ =~= resized(old(self)@, self.0@.len(), 0u8));
        }
        assert(self.0@ =~= resized(old(self)@, len as nat, 0u8));
    }

    /// The byte at `index`, as an integer.
    pub fn get(&self, index: usize) -> (r: Option<Value>)
        ensures
            r == if index < self@.len() {
                Some(Value::Integer(self@[index as int] as i64))
            } else {
                None
            },
    {
        if index < self.0.len() {
            Some(Value::Integer(self.0[index] as i64))
        } else {
            None
        }
    }

    /// Writes `value` at `index` and returns the byte that stood there, as an
    /// integer.
    pub fn set(&mut self, index: usize, value: u8) -> (r: Option<Value>)
        ensures
            index < old(self)@.len() ==> r == Some(Value::Integer(old(self)@[index as int] as i64))
                && final(self)@ == old(self)@.update(index as int, value),
            index >= old(self)@.len() ==> r is None && final(self)@ == old(self)@,
    {
        if index < self.0.len() {
            let before: u8 = self.0[index];
            self.0[index] = value;
            Some(Value::Integer(before as i64))
        } else {
            None
        }
    }

    /// A new buffer that holds a copy of the bytes `a..b`.
    pub fn get_slice(&self, a: usize, b: usize) -> (r: Option<BytesBuffer>)
        ensures
            range_within(a as int, b as int, self@.len() as int) <==> r is Some,
            r is Some ==> r.unwrap()@ == self@.subrange(a as int, b as int),
    {
        if a <= b && b <= self.0.len() {
            Some(BytesBuffer(copy_of_range(self.0.as_slice(), a, b)))
        } else {
            None
        }
    }

    /// Writes `src` over the bytes from `offset` on, if they all lie within the
    /// buffer; else nothing is written.
    pub fn set_slice(&mut self, src: &[u8], offset: usize) -> (r: Option<()>)
        ensures
            span_within(offset as int, src@.len() as int, old(self)@.len() as int) <==> r is Some,
            r is Some ==> final(self)@ == overwrite(old(self)@, offset as int, src@),
            r is None ==> final(self)@ == old(self)@,
    {
        let n: usize = src.len();
        if n > self.0.len() || offset > self.0.len() - n {
            return None;
        }
        let mut i: usize = 0;
        while i < n
            invariant
                n == src@.len(),
                i <= n,
                offset + n <= self.0.len(),
                self.0@.len() == old(self)@.len(),
                self.0@ == overwrite(old(self)@, offset as int, src@.subrange(0, i as int)),
            decreases n - i,
        {
            self.0[offset + i] = src[i];
            i += 1;
            assert(self.0@ =~= overwrite(old(self)@, offset as int, src@.subrange(0, i as int)));
        }
        assert(src@.subrange(0, n as int) =~= src@);
        Some(())
    }

    /// Copies `len` bytes from `src_offset` on to `offset` on, as if through a
    /// copy of the source, so that the two ranges may overlap. Nothing is
    /// written unless both ranges lie within the buffer.
    pub fn copy_within(&mut self, src_offset: usize, offset: usize, len: usize) -> (r: Option<()>)
        ensures
            (span_within(src_offset as int, len as int, old(self)@.len() as int) && span_within(
                offset as int,
                len as int,
                old(self)@.len() as int,
            )) <==> r is Some,
            r is Some ==> final(self)@ == overwrite(
                old(self)@,
                offset as int,
                old(self)@.subrange(src_offset as int, src_offset + len),
            ),
            r is None ==> final(self)@ == old(self)@,
    {
        let total: usize = self.0.len();
        if len > total || src_offset > total - len || offset > total - len {
            return None;
        }
        let source: Vec<u8> = copy_of_range(self.0.as_slice(), src_offset, src_offset + len);
        self.set_slice(source.as_slice(), offset)
    }

    /// Adds the bytes of `t` at the end.
    pub fn append(&mut self, t: &[u8])
        ensures
            final(self)@ == old(self)@ + t@,
    {
        let n: usize = t.len();
        let mut i: usize = 0;
        while i < n
            invariant
                n == t@.len(),
                i <= n,
                self.0@ == old(self)@ + t@.subrange(0, i as int),
            decreases n - i,
        {
            self.0.push(t[i]);
            i += 1;
            assert(self.0@ =~= old(self)@ + t@.subrange(0, i as int));
        }
        assert(t@.subrange(0, n as int) =~= t@);
    }
}

/// An ordered sequence of values that can be written and resized.
#[derive(Debug)]
pub struct List(pub Vec<Value>);

impl View for List {
    type V = Seq<Value>;

    open spec fn view(&self) -> Seq<Value> {
        self.0@
    }
}

impl List {
    pub fn from_vec(vec: Vec<Value>) -> (r: List)
        ensures
            r@ == vec@,
    {
        List(vec)
    }

    pub fn len(&self) -> (r: usize)
        ensures
            r == self@.len(),
    {
        self.0.len()
    }

    /// Cuts the list to `len` items, or pads it with `Nil`.
    pub fn resize(&mut self, len: usize)
        ensures
            final(self)@ == resized(old(self)@, len as nat, Value::Nil),
    {
        self.0.truncate(len);
        while self.0.len() < len
            invariant
                self.0@.len() <= len,
                self.0@.len() >= old(self)@.len() || self.0@.len() == len,
                self.0@ =~= resized(old(self)@, self.0@.len(), Value::Nil),
            decreases len - self.0@.len(),
        {
            self.0.push(Value::Nil);
            assert(self.0@ =~= resized(old(self)@, self.0@.len(), Value::Nil));
        }
        assert(self.0@ =~= resized(old(self)@, len as nat, Value::Nil));
    }

    /// The item at `index`.
    pub fn get(&self, index: usize) -> (r: Option<Value>)
        ensures
            r == if index < self@.len() {
                Some(self@[index as int])
            } else {
                None
            },
    {
        if index < self.0.len() {
            Some(self.0[index])
        } else {
            None
        }
    }

    /// Writes `value` at `index` and returns the item that stood there.
    pub fn set(&mut self, index: usize, value: Value) -> (r: Option<Value>)
        ensures
            index < old(self)@.len() ==> r == Some(old(self)@[index as int]) && final(self)@ == old(
                self,
            )@.update(index as int, value),
            index >= old(self)@.len() ==> r is None && final(self)@ == old(self)@,
    {
        if index < self.0.len() {
            let before: Value = self.0[index];
            self.0[index] = value;
            Some(before)
        } else {
            None
        }
    }

    /// A new list that holds the items `a..b`.
    pub fn get_slice(&self, a: usize, b: usize) -> (r: Option<List>)
        ensures
            range_within(a as int, b as int, self@.len() as int) <==> r is Some,
            r is Some ==> r.unwrap()@ == self@.subrange(a as int, b as int),
    {
        if a <= b && b <= self.0.len() {
            let mut out: Vec<Value> = Vec::new();
            let mut i: usize = a;
            while i < b
                invariant
                    a <= i <= b <= self.0@.len(),
                    out@ == self.0@.subrange(a as int, i as int),
                decreases b - i,
            {
                out.push(self.0[i]);
                i += 1;
                assert(out@ =~= self.0@.subrange(a as int, i as int));
            }
            Some(List(out))
        } else {
            None
        }
    }

    /// Writes `src` over the items from `offset` on, if they all lie within the
    /// list; else nothing is written.
    pub fn set_slice(&mut self, src: &[Value], offset: usize) -> (r: Option<()>)
        ensures
            span_within(offset as int, src@.len() as int, old(self)@.len() as int) <==> r is Some,
            r is Some ==> final(self)@ == overwrite(old(self)@, offset as int, src@),
            r is None ==> final(self)@ == old(self)@,
    {
        let n: usize = src.len();
        if n > self.0.len() || offset > self.0.len() - n {
            return None;
        }
        let mut i: usize = 0;
        while i < n
            invariant
                n == src@.len(),
                i <= n,
                offset + n <= self.0.len(),
                self.0@.len() == old(self)@.len(),
                self.0@ == overwrite(old(self)@, offset as int, src@.subrange(0, i as int)),
            decreases n - i,
        {
            self.0[offset + i] = src[i];
            i += 1;
            assert(self.0@ =~= overwrite(old(self)@, offset as int, src@.subrange(0, i as int)));
        }
        assert(src@.subrange(0, n as int) =~= src@);
        Some(())
    }

    pub fn push(&mut self, value: Value)
        ensures
            final(self)@ == old(self)@.push(value),
    {
        self.0.push(value);
    }

    /// Takes the last item off the list.
    pub fn pop(&mut self) -> (r: Option<Value>)
        ensures
            old(self)@.len() > 0 ==> r == Some(old(self)@.last()) && final(self)@ == old(
                self,
            )@.drop_last(),
            old(self)@.len() == 0 ==> r is None && final(self)@ == old(self)@,
    {
        self.0.pop()
    }

    /// Adds the items of `t` at the end.
    pub fn append(&mut self, t: Vec<Value>)
        ensures
            final(self)@ == old(self)@ + t@,
    {
        let mut t = t;
        self.0.append(&mut t);
    }
}

/// The value that stands for a character.
pub open spec fn char_value(c: char) -> Value {
    Value::Char(c)
}

/// The values that stand for the characters of `chars`, in order.
pub open spec fn char_values(chars: Seq<char>) -> Seq<Value> {
    Seq::new(chars.len(), |i: int| char_value(chars[i]))
}

/// A list of the characters that the bytes encode.
fn list_of_chars(bytes: &[u8]) -> (r: List)
    requires
        valid_utf8(bytes@),
    ensures
        r@ == char_values(decode_utf8(bytes@)),
{
    let n: usize = bytes.len();
    let mut out: Vec<Value> = Vec::new();
    let mut at: usize = 0;
    assert(bytes@.subrange(0, n as int) =~= bytes@);
    while at < n
        invariant
            n == bytes@.len(),
            at <= n,
            valid_utf8(bytes@.subrange(at as int, n as int)),
            out@.len() + decode_utf8(bytes@.subrange(at as int, n as int)).len() == decode_utf8(
                bytes@,
            ).len(),
            forall|k: int| 0 <= k < out@.len() ==> out@[k] == Value::Char(decode_utf8(bytes@)[k]),
            forall|k: int|
                0 <= k < decode_utf8(bytes@.subrange(at as int, n as int)).len() ==> decode_utf8(
                    bytes@,
                )[out@.len() + k] == #[trigger] decode_utf8(bytes@.subrange(at as int, n as int))[k],
        decreases n - at,
    {
        let ghost rest = bytes@.subrange(at as int, n as int);
        let ghost done = out@.len();
        let (c, width) = decode_scalar(bytes, at);
        proof {
            assert(pop_first_scalar(rest) =~= bytes@.subrange(at + width, n as int));
            assert(decode_utf8(rest) == seq![c] + decode_utf8(pop_first_scalar(rest)));
            assert(decode_utf8(rest)[0] == c);
            assert forall|k: int| 0 <= k < decode_utf8(pop_first_scalar(rest)).len() implies decode_utf8(
                bytes@,
            )[done + 1 + k] == #[trigger] decode_utf8(pop_first_scalar(rest))[k] by {
                assert(decode_utf8(rest)[k + 1] == decode_utf8(pop_first_scalar(rest))[k]);
            }
        }
        out.push(Value::Char(c));
        at += width;
    }
    assert(decode_utf8(bytes@.subrange(n as int, n as int)).len() == 0);
    assert(out@ =~= char_values(decode_utf8(bytes@)));
    List(out)
}

/// An immutable string: a byte array that is well-formed UTF-8, and stays so.
#[derive(Debug)]
pub struct StringValue(Bytes);

impl StringValue {
    #[verifier::type_invariant]
    spec fn well_formed(self) -> bool {
        valid_utf8(self.0@)
    }

    /// The bytes of the string.
    pub closed spec fn bytes(self) -> Seq<u8> {
        self.0@
    }

    /// The characters of the string.
    pub open spec fn chars(self) -> Seq<char> {
        decode_utf8(self.bytes())
    }

    /// Makes a string of a byte array, if the bytes are well-formed UTF-8.
    pub fn from_bytes(bytes: Bytes) -> (r: Result<StringValue, Utf8Error>)
        ensures
            r is Ok <==> valid_utf8(bytes@),
            r is Ok ==> r->Ok_0.bytes() == bytes@,
    {
        match core::str::from_utf8(bytes.0.as_slice()) {
            Ok(_) => Ok(StringValue(bytes)),
            Err(e) => Err(e),
        }
    }

    pub fn as_str(&self) -> (r: &str)
        ensures
            r@ == self.chars(),
    {
        proof {
            use_type_invariant(self);
        }
        match core::str::from_utf8(self.0.0.as_slice()) {
            Ok(s) => s,
            Err(_) => "",
        }
    }

    pub fn as_bytes(&self) -> (r: &Bytes)
        ensures
            r@ == self.bytes(),
            valid_utf8(r@),
    {
        proof {
            use_type_invariant(self);
        }
        &self.0
    }

    /// The character that starts at the byte `index` or, where `index` lies
    /// inside a character, the next one.
    pub fn get_char_at(&self, index: usize) -> (r: Option<char>)
        ensures
            r == scalar_from(self.bytes(), index as int),
    {
        proof {
            use_type_invariant(self);
        }
        scalar_at(self.0.0.as_slice(), index)
    }

    /// A new list of the characters of the string.
    pub fn get_chars(&self) -> (r: List)
        ensures
            r@ == char_values(self.chars()),
    {
        proof {
            use_type_invariant(self);
        }
        list_of_chars(self.0.0.as_slice())
    }
}

/// A string that can be cleared and added to.
#[derive(Debug)]
pub struct StringBuffer(pub String);

impl View for StringBuffer {
    type V = Seq<char>;

    open spec fn view(&self) -> Seq<char> {
        self.0@
    }
}

impl StringBuffer {
    pub fn from_string(string: String) -> (r: StringBuffer)
        ensures
            r@ == string@,
    {
        StringBuffer(string)
    }

    pub fn clear(&mut self)
        ensures
            final(self)@ == Seq::<char>::empty(),
    {
        self.0 = String::new();
    }

    /// The length of the string in bytes of UTF-8.
    pub fn len(&self) -> (r: usize)
        ensures
            r == encode_utf8(self@).len(),
    {
        self.0.as_str().as_bytes().len()
    }

    pub fn append(&mut self, t: &str)
        ensures
            final(self)@ == old(self)@ + t@,
    {
        self.0.append(t);
    }

    /// The character that starts at the byte `index` of the string's UTF-8
    /// or, where `index` lies inside a character, the next one.
    pub fn get_char_at(&self, index: usize) -> (r: Option<char>)
        ensures
            r == scalar_from(encode_utf8(self@), index as int),
    {
        proof {
            encode_utf8_valid_utf8(self@);
        }
        scalar_at(self.0.as_str().as_bytes(), index)
    }

    /// A new list of the characters of the string.
    pub fn get_chars(&self) -> (r: List)
        ensures
            r@ == char_values(self@),
    {
        proof {
            encode_utf8_valid_utf8(self@);
            encode_utf8_decode_utf8(self@);
        }
        list_of_chars(self.0.as_str().as_bytes())
    }
}

} // verus!

