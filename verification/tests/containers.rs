use std::cmp::Ordering;
use vm::compare::compare_bytes;
use vm::datamodel::{
    Bytes, BytesBuffer, Function, Handle, List, NativeFn, StringBuffer, StringValue, Value,
    ValueType,
};
use vm::heap::Heap;
use vm::machine::CallFrame;
use vm::number::Real;
use vm::text::scalar_at;

#[test]
fn bytes_are_read() {
    let bytes = Bytes(vec![5, 6, 7]);
    assert_eq!(bytes.len(), 3);
    assert_eq!(bytes.get(0), Some(Value::Integer(5)));
    assert_eq!(bytes.get(2), Some(Value::Integer(7)));
    assert_eq!(bytes.get(3), None);
    assert_eq!(bytes.get_slice(1, 3).unwrap().0, vec![6, 7]);
    assert_eq!(bytes.get_slice(3, 3).unwrap().0, vec![]);
    assert!(bytes.get_slice(2, 1).is_none());
    assert!(bytes.get_slice(0, 4).is_none());
    assert_eq!(Bytes(vec![255]).get(0), Some(Value::Integer(255)));
}

#[test]
fn byte_buffer_is_read_and_written() {
    let mut buffer = BytesBuffer::from_vec(vec![1, 2, 3, 4, 5]);
    assert_eq!(buffer.len(), 5);
    assert_eq!(buffer.get(4), Some(Value::Integer(5)));
    assert_eq!(buffer.get(5), None);
    assert_eq!(buffer.set(0, 9), Some(Value::Integer(1)));
    assert_eq!(buffer.set(5, 9), None);
    assert_eq!(buffer.0, vec![9, 2, 3, 4, 5]);
    assert_eq!(buffer.get_slice(1, 2).unwrap().0, vec![2]);
    assert!(buffer.get_slice(4, 6).is_none());
    assert_eq!(buffer.set_slice(&[7, 8], 3), Some(()));
    assert_eq!(buffer.0, vec![9, 2, 3, 7, 8]);
    assert_eq!(buffer.set_slice(&[7, 8], 4), None);
    assert_eq!(buffer.set_slice(&[], 5), Some(()));
    assert_eq!(buffer.set_slice(&[], 6), None);
    assert_eq!(buffer.set_slice(&[1], usize::MAX), None);
    assert_eq!(buffer.0, vec![9, 2, 3, 7, 8]);
    buffer.append(&[1, 1]);
    assert_eq!(buffer.0, vec![9, 2, 3, 7, 8, 1, 1]);
    buffer.resize(2);
    assert_eq!(buffer.0, vec![9, 2]);
    buffer.resize(4);
    assert_eq!(buffer.0, vec![9, 2, 0, 0]);
}

#[test]
fn copy_within_copies_as_if_through_a_copy() {
    let mut buffer = BytesBuffer::from_vec(vec![1, 2, 3, 4, 5]);
    assert_eq!(buffer.copy_within(0, 2, 3), Some(()));
    assert_eq!(buffer.0, vec![1, 2, 1, 2, 3]);
    let mut buffer = BytesBuffer::from_vec(vec![1, 2, 3, 4, 5]);
    assert_eq!(buffer.copy_within(2, 0, 3), Some(()));
    assert_eq!(buffer.0, vec![3, 4, 5, 4, 5]);
    assert_eq!(buffer.copy_within(3, 0, 3), None);
    assert_eq!(buffer.copy_within(0, 3, 3), None);
    assert_eq!(buffer.copy_within(usize::MAX, 0, 2), None);
    assert_eq!(buffer.copy_within(5, 5, 0), Some(()));
    assert_eq!(buffer.0, vec![3, 4, 5, 4, 5]);
}

#[test]
fn list_is_read_and_written() {
    let mut list = List::from_vec(vec![Value::Integer(1), Value::Bool(true)]);
    assert_eq!(list.len(), 2);
    assert_eq!(list.get(1), Some(Value::Bool(true)));
    assert_eq!(list.get(2), None);
    assert_eq!(list.set(0, Value::Nil), Some(Value::Integer(1)));
    assert_eq!(list.set(2, Value::Nil), None);
    list.push(Value::Integer(3));
    assert_eq!(list.0, vec![Value::Nil, Value::Bool(true), Value::Integer(3)]);
    assert_eq!(list.get_slice(1, 3).unwrap().0, vec![Value::Bool(true), Value::Integer(3)]);
    assert!(list.get_slice(2, 4).is_none());
    assert_eq!(list.set_slice(&[Value::Integer(8), Value::Integer(9)], 1), Some(()));
    assert_eq!(list.set_slice(&[Value::Integer(8), Value::Integer(9)], 2), None);
    assert_eq!(list.0, vec![Value::Nil, Value::Integer(8), Value::Integer(9)]);
    assert_eq!(list.pop(), Some(Value::Integer(9)));
    list.append(vec![Value::Char('x')]);
    assert_eq!(list.0, vec![Value::Nil, Value::Integer(8), Value::Char('x')]);
    list.resize(1);
    assert_eq!(list.0, vec![Value::Nil]);
    list.resize(3);
    assert_eq!(list.0, vec![Value::Nil, Value::Nil, Value::Nil]);
    let mut empty = List::from_vec(vec![]);
    assert_eq!(empty.pop(), None);
}

#[test]
fn string_value_takes_only_utf8() {
    assert!(StringValue::from_bytes(Bytes(vec![0xff])).is_err());
    assert!(StringValue::from_bytes(Bytes(vec![0xc3])).is_err());
    assert!(StringValue::from_bytes(Bytes(vec![0xed, 0xa0, 0x80])).is_err());
    assert!(StringValue::from_bytes(Bytes(vec![0xc0, 0x80])).is_err());
    let string = StringValue::from_bytes(Bytes("h\u{e9}\u{20ac}\u{1f600}".as_bytes().to_vec())).unwrap();
    assert_eq!(string.as_str(), "h\u{e9}\u{20ac}\u{1f600}");
    assert_eq!(string.as_bytes().0, "h\u{e9}\u{20ac}\u{1f600}".as_bytes().to_vec());
    assert_eq!(
        string.get_chars().0,
        vec![
            Value::Char('h'),
            Value::Char('\u{e9}'),
            Value::Char('\u{20ac}'),
            Value::Char('\u{1f600}')
        ]
    );
    assert_eq!(StringValue::from_bytes(Bytes(vec![])).unwrap().get_chars().0, vec![]);
}

#[test]
fn char_at_a_byte_gives_the_scalar_at_or_after_it() {
    // h: 0, e-acute: 1..3, euro: 3..6, face: 6..10
    let string = StringValue::from_bytes(Bytes("h\u{e9}\u{20ac}\u{1f600}".as_bytes().to_vec())).unwrap();
    assert_eq!(string.get_char_at(0), Some('h'));
    assert_eq!(string.get_char_at(1), Some('\u{e9}'));
    assert_eq!(string.get_char_at(2), Some('\u{20ac}'));
    assert_eq!(string.get_char_at(3), Some('\u{20ac}'));
    assert_eq!(string.get_char_at(4), Some('\u{1f600}'));
    assert_eq!(string.get_char_at(6), Some('\u{1f600}'));
    assert_eq!(string.get_char_at(7), None);
    assert_eq!(string.get_char_at(9), None);
    assert_eq!(string.get_char_at(10), None);
    assert_eq!(string.get_char_at(usize::MAX), None);
    assert_eq!(scalar_at("\u{10ffff}\u{7f}\u{7ff}\u{ffff}".as_bytes(), 5), Some('\u{7ff}'));
    assert_eq!(scalar_at("\u{10ffff}\u{7f}\u{7ff}\u{ffff}".as_bytes(), 1), Some('\u{7f}'));
    assert_eq!(scalar_at("\u{10ffff}\u{7f}\u{7ff}\u{ffff}".as_bytes(), 0), Some('\u{10ffff}'));
    assert_eq!(scalar_at("\u{10ffff}\u{7f}\u{7ff}\u{ffff}".as_bytes(), 6), Some('\u{ffff}'));
}

#[test]
fn string_buffer_grows_and_clears() {
    let mut text = StringBuffer::from_string("a\u{e9}".to_string());
    assert_eq!(text.len(), 3);
    text.append("b\u{20ac}");
    assert_eq!(text.0, "a\u{e9}b\u{20ac}");
    assert_eq!(text.len(), 7);
    assert_eq!(text.get_char_at(2), Some('b'));
    assert_eq!(text.get_char_at(5), None);
    assert_eq!(
        text.get_chars().0,
        vec![Value::Char('a'), Value::Char('\u{e9}'), Value::Char('b'), Value::Char('\u{20ac}')]
    );
    text.clear();
    assert_eq!(text.len(), 0);
    assert_eq!(text.get_char_at(0), None);
    assert_eq!(text.get_chars().0, vec![]);
}

#[test]
fn tags_are_ranked_in_their_fixed_order() {
    let values = vec![
        Value::Nil,
        Value::Bool(false),
        Value::Integer(0),
        Value::Real(Real::from_bits(0)),
        Value::Char('a'),
        Value::List(Handle { index: 0 }),
        Value::ListWeak(Handle { index: 0 }),
        Value::Bytes(Handle { index: 0 }),
        Value::BytesBuffer(Handle { index: 0 }),
        Value::StringValue(Handle { index: 0 }),
        Value::StringBuffer(Handle { index: 0 }),
        Value::Function(Handle { index: 0 }),
        Value::NativeFn(NativeFn { address: 0 }),
        Value::Unknown(Handle { index: 0 }),
    ];
    let tags: Vec<ValueType> = values.iter().map(|v| v.get_type()).collect();
    assert_eq!(
        tags,
        vec![
            ValueType::Nil,
            ValueType::Bool,
            ValueType::Integer,
            ValueType::Real,
            ValueType::Char,
            ValueType::List,
            ValueType::ListWeak,
            ValueType::Bytes,
            ValueType::BytesBuffer,
            ValueType::StringValue,
            ValueType::StringBuffer,
            ValueType::Function,
            ValueType::NativeFn,
            ValueType::Unknown,
        ]
    );
    let ranks: Vec<u8> = tags.iter().map(|t| t.ordinal()).collect();
    assert_eq!(ranks, vec![0, 1, 2, 3, 4, 5, 6, 7, 8, 9, 10, 11, 12, 13]);
}

fn a_heap() -> (Heap, Vec<Value>) {
    let mut heap = Heap::new();
    let list = heap.alloc_list(List::from_vec(vec![]));
    let other = heap.alloc_list(List::from_vec(vec![]));
    let bytes = heap.alloc_bytes(Bytes(vec![1, 2]));
    let longer = heap.alloc_bytes(Bytes(vec![1, 2, 0]));
    let buffer = heap.alloc_buffer(BytesBuffer::from_vec(vec![1, 2]));
    let greater = heap.alloc_buffer(BytesBuffer::from_vec(vec![1, 3]));
    let string = heap.alloc_string(StringValue::from_bytes(Bytes("ab".as_bytes().to_vec())).unwrap());
    let text = heap.alloc_text(StringBuffer::from_string("ab".to_string()));
    let accented = heap.alloc_text(StringBuffer::from_string("a\u{e9}".to_string()));
    let function = heap.alloc_function(Function { module: list, bytecode: bytes });
    let values = vec![
        Value::Nil,
        Value::Bool(false),
        Value::Bool(true),
        Value::Integer(-3),
        Value::Integer(4),
        Value::Real(Real::from_bits((-0.5f64).to_bits())),
        Value::Real(Real::from_bits(f64::NAN.to_bits())),
        Value::Char('a'),
        Value::Char('\u{1f600}'),
        Value::List(list),
        Value::List(other),
        Value::ListWeak(list),
        Value::ListWeak(other),
        Value::Bytes(bytes),
        Value::Bytes(longer),
        Value::BytesBuffer(buffer),
        Value::BytesBuffer(greater),
        Value::StringValue(string),
        Value::StringBuffer(text),
        Value::StringBuffer(accented),
        Value::Function(function),
        Value::NativeFn(NativeFn { address: 16 }),
        Value::NativeFn(NativeFn { address: 32 }),
        Value::Unknown(Handle { index: 1 }),
        Value::Unknown(Handle { index: 2 }),
    ];
    (heap, values)
}

#[test]
fn comparison_seen_from_the_other_side_is_reversed() {
    let (heap, values) = a_heap();
    for a in values.iter() {
        for b in values.iter() {
            assert_eq!(
                a.cmp(b, &heap),
                b.cmp(a, &heap).map(|o| o.reverse()),
                "for {:?} and {:?}",
                a,
                b
            );
        }
    }
}

#[test]
fn a_value_is_equal_to_itself_unless_it_is_not_a_number() {
    let (heap, values) = a_heap();
    for a in values.iter() {
        let expected = if *a == Value::Real(Real::from_bits(f64::NAN.to_bits())) {
            None
        } else {
            Some(Ordering::Equal)
        };
        assert_eq!(a.cmp(a, &heap), expected, "for {:?}", a);
    }
}

#[test]
fn values_of_different_tags_are_ordered_as_their_tags() {
    let (heap, values) = a_heap();
    for a in values.iter() {
        for b in values.iter() {
            let (ta, tb) = (a.get_type(), b.get_type());
            let bytes = |t: ValueType| t == ValueType::Bytes || t == ValueType::BytesBuffer;
            let text = |t: ValueType| t == ValueType::StringValue || t == ValueType::StringBuffer;
            if ta == tb || (bytes(ta) && bytes(tb)) || (text(ta) && text(tb)) {
                continue;
            }
            assert_eq!(
                a.cmp(b, &heap),
                Some(ta.ordinal().cmp(&tb.ordinal())),
                "for {:?} and {:?}",
                a,
                b
            );
        }
    }
}

#[test]
fn values_of_one_tag_compare_by_what_they_hold() {
    let (heap, v) = a_heap();
    let order = |a: usize, b: usize| v[a].cmp(&v[b], &heap);
    assert_eq!(order(0, 0), Some(Ordering::Equal));
    assert_eq!(order(1, 2), Some(Ordering::Less));
    assert_eq!(order(4, 3), Some(Ordering::Greater));
    assert_eq!(order(5, 5), Some(Ordering::Equal));
    assert_eq!(order(5, 6), None);
    assert_eq!(order(7, 8), Some(Ordering::Less));
    assert_eq!(order(9, 10), None);
    assert_eq!(order(9, 9), Some(Ordering::Equal));
    assert_eq!(order(11, 12), None);
    assert_eq!(order(13, 14), Some(Ordering::Less));
    assert_eq!(order(13, 15), Some(Ordering::Equal));
    assert_eq!(order(15, 13), Some(Ordering::Equal));
    assert_eq!(order(16, 14), Some(Ordering::Greater));
    assert_eq!(order(13, 16), Some(Ordering::Less));
    assert_eq!(order(17, 18), Some(Ordering::Equal));
    assert_eq!(order(17, 19), Some(Ordering::Less));
    assert_eq!(order(19, 18), Some(Ordering::Greater));
    assert_eq!(order(20, 20), Some(Ordering::Equal));
    assert_eq!(order(21, 22), Some(Ordering::Less));
    assert_eq!(order(23, 24), None);
    assert_eq!(order(23, 23), Some(Ordering::Equal));
}

#[test]
fn bytes_compare_by_their_first_difference() {
    assert_eq!(compare_bytes(&[], &[]), Ordering::Equal);
    assert_eq!(compare_bytes(&[], &[0]), Ordering::Less);
    assert_eq!(compare_bytes(&[0], &[]), Ordering::Greater);
    assert_eq!(compare_bytes(&[1, 2, 3], &[1, 2, 3]), Ordering::Equal);
    assert_eq!(compare_bytes(&[1, 2, 3], &[1, 3]), Ordering::Less);
    assert_eq!(compare_bytes(&[1, 2, 3], &[1, 2]), Ordering::Greater);
    assert_eq!(compare_bytes(&[200], &[100, 1]), Ordering::Greater);
}

#[test]
fn heap_lists_are_written_through_their_handles() {
    let mut heap = Heap::new();
    let list = heap.alloc_list(List::from_vec(vec![Value::Integer(1)]));
    heap.list_push(list, Value::Integer(2));
    assert_eq!(heap.list_set(list, 0, Value::Integer(5)), Some(Value::Integer(1)));
    assert_eq!(heap.list_set(list, 2, Value::Integer(5)), None);
    heap.list_append(list, vec![Value::Integer(7), Value::Integer(8)]);
    assert_eq!(heap.list_set_slice(list, &[Value::Nil, Value::Nil], 2), Some(()));
    assert_eq!(heap.list_set_slice(list, &[Value::Nil, Value::Nil], 3), None);
    assert_eq!(
        heap.lists[list.index].items.0,
        vec![Value::Integer(5), Value::Integer(2), Value::Nil, Value::Nil]
    );
    assert_eq!(heap.list_pop(list), Some(Value::Nil));
    heap.list_resize(list, 1);
    assert_eq!(heap.lists[list.index].items.0, vec![Value::Integer(5)]);
    assert_eq!(heap.lists[list.index].strong, 1);
    let buffer = heap.alloc_buffer(BytesBuffer::from_vec(vec![1, 2, 3]));
    assert_eq!(heap.buffer_set(buffer, 1, 9), Some(Value::Integer(2)));
    assert_eq!(heap.buffer_set(buffer, 3, 9), None);
    assert_eq!(heap.buffer_set_slice(buffer, &[4, 4], 1), Some(()));
    assert_eq!(heap.buffer_set_slice(buffer, &[4, 4], 2), None);
    heap.buffer_append(buffer, &[6]);
    heap.buffer_resize(buffer, 5);
    assert_eq!(heap.buffers[buffer.index].0, vec![1, 4, 4, 6, 0]);
}

#[test]
fn retain_counts_only_strong_handles_to_living_lists() {
    let mut heap = Heap::new();
    let list = heap.alloc_list(List::from_vec(vec![]));
    heap.retain(Value::ListWeak(list));
    heap.retain(Value::Integer(1));
    assert_eq!(heap.lists[list.index].strong, 1);
    heap.retain_all(&[Value::List(list), Value::Nil, Value::List(list)]);
    assert_eq!(heap.lists[list.index].strong, 3);
    heap.lists[list.index].strong = usize::MAX;
    heap.retain(Value::List(list));
    heap.release(Value::List(list));
    assert_eq!(heap.lists[list.index].strong, usize::MAX);
    heap.release(Value::List(Handle { index: 9 }));
    heap.retain(Value::List(Handle { index: 9 }));
    assert_eq!(heap.upgrade(Handle { index: 9 }), None);
}

#[test]
fn strings_compare_as_their_characters() {
    let mut heap = Heap::new();
    let texts = ["", "a", "ab", "b", "z", "\u{7f}", "\u{80}", "\u{e9}", "\u{7ff}", "\u{800}",
        "\u{d7ff}", "\u{e000}", "\u{ffff}", "\u{10000}", "\u{10ffff}", "a\u{e9}", "a\u{e9}b",
        "a\u{20ac}", "\u{1f600}a", "\u{1f600}"];
    let mut values = vec![];
    for text in texts.iter() {
        let string = StringValue::from_bytes(Bytes(text.as_bytes().to_vec())).unwrap();
        values.push((Value::StringValue(heap.alloc_string(string)), *text));
        let buffer = StringBuffer::from_string(text.to_string());
        values.push((Value::StringBuffer(heap.alloc_text(buffer)), *text));
    }
    for (a, text_a) in values.iter() {
        for (b, text_b) in values.iter() {
            let by_chars = text_a.chars().cmp(text_b.chars());
            assert_eq!(a.cmp(b, &heap), Some(by_chars), "for {:?} and {:?}", text_a, text_b);
        }
    }
}

#[test]
fn a_heap_knows_what_it_holds() {
    let mut heap = Heap::new();
    assert!(heap.is_sound());
    let list = heap.alloc_list(List::from_vec(vec![Value::Integer(1)]));
    let bytes = heap.alloc_bytes(Bytes(vec![]));
    assert!(heap.holds(&Value::List(list)));
    assert!(heap.holds(&Value::ListWeak(list)));
    assert!(heap.holds(&Value::Bytes(bytes)));
    assert!(heap.holds(&Value::Integer(5)));
    assert!(heap.holds(&Value::Unknown(Handle { index: 77 })));
    assert!(heap.holds(&Value::NativeFn(NativeFn { address: 77 })));
    assert!(!heap.holds(&Value::List(Handle { index: 1 })));
    assert!(!heap.holds(&Value::BytesBuffer(Handle { index: 0 })));
    assert!(!heap.holds(&Value::StringValue(Handle { index: 0 })));
    assert!(!heap.holds(&Value::StringBuffer(Handle { index: 0 })));
    assert!(!heap.holds(&Value::Function(Handle { index: 0 })));
    assert!(heap.holds_all(&[Value::List(list), Value::Nil]));
    assert!(!heap.holds_all(&[Value::List(list), Value::Function(Handle { index: 3 })]));
    assert!(heap.holds_all(&[]));
    let function = heap.alloc_function(Function { module: list, bytecode: bytes });
    assert!(heap.is_sound());
    let mut frame = CallFrame::new(&heap.functions[function.index].clone(), &mut heap);
    assert!(frame.is_sound(&heap));
    frame.push(Value::BytesBuffer(Handle { index: 4 }));
    assert!(!frame.is_sound(&heap));
    assert_eq!(frame.pop(), Ok(Value::BytesBuffer(Handle { index: 4 })));
    frame.store(3, Value::StringBuffer(Handle { index: 0 }));
    assert!(!frame.is_sound(&heap));
    heap.list_push(list, Value::List(Handle { index: 9 }));
    assert!(!heap.is_sound());
    assert_eq!(heap.list_pop(list), Some(Value::List(Handle { index: 9 })));
    assert!(heap.is_sound());
    heap.alloc_function(Function { module: list, bytecode: Handle { index: 5 } });
    assert!(!heap.is_sound());
}

#[test]
fn a_discarded_frame_lets_go_of_what_it_holds() {
    let mut heap = Heap::new();
    let module = heap.alloc_list(List::from_vec(vec![]));
    let bytecode = heap.alloc_bytes(Bytes(vec![]));
    let function = Function { module, bytecode };
    let kept = heap.alloc_list(List::from_vec(vec![]));
    let lost = heap.alloc_list(List::from_vec(vec![Value::List(kept)]));
    heap.retain(Value::List(kept));
    let mut frame = CallFrame::new(&function, &mut heap);
    assert_eq!(heap.lists[module.index].strong, 2);
    frame.push(Value::List(lost));
    frame.store(2, Value::List(kept));
    frame.discard(&mut heap);
    assert_eq!(heap.lists[module.index].strong, 1);
    assert_eq!(heap.lists[lost.index].strong, 0);
    assert_eq!(heap.lists[kept.index].strong, 0);
}
