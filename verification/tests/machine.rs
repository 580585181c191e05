use vm::datamodel::{Bytes, Function, Handle, List, NativeFn, Value, ValueType};
use vm::heap::Heap;
use vm::machine::CallFrame;
use vm::number::Real;
use vm::op::parse_and_run;
use vm::operation::{assemble, Operation};
use vm::{RealRequest, VmAction, VmError};

fn number(x: f64) -> Real {
    Real::from_bits(x.to_bits())
}

fn answer(request: RealRequest) -> Real {
    let f = |r: Real| f64::from_bits(r.to_bits());
    match request {
        RealRequest::Add(a, b) => number(f(a) + f(b)),
        RealRequest::Sub(a, b) => number(f(a) - f(b)),
        RealRequest::Mul(a, b) => number(f(a) * f(b)),
        RealRequest::Div(a, b) => number(f(a) / f(b)),
        RealRequest::Rem(a, b) => number(f(a) % f(b)),
    }
}

fn start(code: Vec<u8>) -> (CallFrame, Heap) {
    let mut heap = Heap::new();
    let module = heap.alloc_list(List::from_vec(vec![]));
    let bytecode = heap.alloc_bytes(Bytes(code));
    let function = Function { module, bytecode };
    let frame = CallFrame::new(&function, &mut heap);
    (frame, heap)
}

fn drive(frame: &mut CallFrame, heap: &mut Heap) -> Result<Value, VmError> {
    for _ in 0..10_000 {
        match parse_and_run(frame, heap)? {
            VmAction::Continue => {},
            VmAction::Jump(delta) => {
                assert!(frame.jump(delta).is_some());
            },
            VmAction::Real(request) => frame.push(Value::Real(answer(request))),
            VmAction::Return(v) => return Ok(v),
            VmAction::Call(_, _) => panic!("no calls in these programs"),
            VmAction::CallNative(_, _) => panic!("no calls in these programs"),
        }
    }
    panic!("the program did not return");
}

fn run_code(code: Vec<u8>) -> (Result<Value, VmError>, CallFrame, Heap) {
    let (mut frame, mut heap) = start(code);
    let result = drive(&mut frame, &mut heap);
    (result, frame, heap)
}

fn run(ops: &[Operation]) -> Result<Value, VmError> {
    run_code(assemble(ops).expect("the program assembles")).0
}

fn steps(ops: &[Operation], n: usize) -> (Vec<Result<VmAction, VmError>>, CallFrame, Heap) {
    let (mut frame, mut heap) = start(assemble(ops).expect("the program assembles"));
    let mut out = vec![];
    for _ in 0..n {
        out.push(parse_and_run(&mut frame, &mut heap));
    }
    (out, frame, heap)
}

#[test]
fn it_works() {
    assert_eq!(2 + 2, 4);
}

#[test]
fn adds_two_integers() {
    let program = [
        Operation::LiteralInteger(2),
        Operation::LiteralInteger(3),
        Operation::Add,
        Operation::Return,
    ];
    assert_eq!(run(&program), Ok(Value::Integer(5)));
}

#[test]
fn subtracts_two_reals() {
    let program = [
        Operation::LiteralReal(number(1.5)),
        Operation::LiteralReal(number(0.5)),
        Operation::Sub,
        Operation::Return,
    ];
    assert_eq!(run(&program), Ok(Value::Real(number(1.0))));
}

#[test]
fn division_by_zero_is_an_error() {
    let program = [
        Operation::LiteralInteger(10),
        Operation::LiteralInteger(0),
        Operation::Div,
        Operation::Return,
    ];
    assert_eq!(run(&program), Err(VmError::DivByZero));
}

#[test]
fn compares_two_integers() {
    let program = [
        Operation::LiteralInteger(1),
        Operation::LiteralInteger(2),
        Operation::Cmp,
        Operation::Return,
    ];
    assert_eq!(run(&program), Ok(Value::Integer(-1)));
}

#[test]
fn push_through_a_copy_is_seen_through_the_other_handle() {
    let program = [
        Operation::ListCreate,
        Operation::FrameStackCopy,
        Operation::LiteralInteger(7),
        Operation::ListPush,
        Operation::SeqLen,
        Operation::Return,
    ];
    assert_eq!(run(&program), Ok(Value::Integer(1)));
}

#[test]
fn jump_zero_moves_the_cursor_by_its_distance() {
    // LIT_INT 0; JUMP_ZERO +L; LIT_INT 1; RETURN; L: LIT_INT 2; RETURN
    // The jump stands at offset 9 and its operand ends at 14; L is offset 24.
    let mut code = vec![33, 0, 0, 0, 0, 0, 0, 0, 0];
    code.push(23);
    code.extend_from_slice(&10i32.to_be_bytes());
    code.extend_from_slice(&[33, 0, 0, 0, 0, 0, 0, 0, 1, 21]);
    code.extend_from_slice(&[33, 0, 0, 0, 0, 0, 0, 0, 2, 21]);
    let (result, _, _) = run_code(code);
    assert_eq!(result, Ok(Value::Integer(2)));
}

#[test]
fn jump_zero_not_taken_goes_on() {
    let mut code = vec![33, 0, 0, 0, 0, 0, 0, 0, 5];
    code.push(23);
    code.extend_from_slice(&10i32.to_be_bytes());
    code.extend_from_slice(&[33, 0, 0, 0, 0, 0, 0, 0, 1, 21]);
    code.extend_from_slice(&[33, 0, 0, 0, 0, 0, 0, 0, 2, 21]);
    let (result, _, _) = run_code(code);
    assert_eq!(result, Ok(Value::Integer(1)));
}

#[test]
fn jump_step_reports_the_distance_and_moves_past_the_instruction() {
    let mut code = vec![22];
    code.extend_from_slice(&(-7i32).to_be_bytes());
    let (mut frame, mut heap) = start(code);
    assert_eq!(parse_and_run(&mut frame, &mut heap), Ok(VmAction::Jump(-7)));
    assert_eq!(frame.get_cursor(), 5);
}

#[test]
fn jump_predicates_follow_their_types() {
    let zero = |v: Operation| {
        steps(&[v, Operation::JumpZero(0)], 2).0.pop().unwrap()
    };
    let neg = |v: Operation| {
        steps(&[v, Operation::JumpNeg(0)], 2).0.pop().unwrap()
    };
    let taken_zero = zero(Operation::LiteralFalse);
    assert!(matches!(taken_zero, Ok(VmAction::Jump(_))));
    assert_eq!(zero(Operation::LiteralTrue), Ok(VmAction::Continue));
    assert!(matches!(zero(Operation::LiteralInteger(0)), Ok(VmAction::Jump(_))));
    assert_eq!(zero(Operation::LiteralInteger(3)), Ok(VmAction::Continue));
    assert!(matches!(zero(Operation::LiteralReal(number(0.0))), Ok(VmAction::Jump(_))));
    assert!(matches!(zero(Operation::LiteralReal(number(-0.0))), Ok(VmAction::Jump(_))));
    assert_eq!(zero(Operation::LiteralReal(number(0.25))), Ok(VmAction::Continue));
    assert_eq!(zero(Operation::LiteralReal(number(f64::NAN))), Ok(VmAction::Continue));
    assert_eq!(zero(Operation::LiteralNone), Err(VmError::Type(ValueType::Nil, 0)));
    assert!(matches!(neg(Operation::LiteralNone), Ok(VmAction::Jump(_))));
    assert!(matches!(neg(Operation::LiteralInteger(-1)), Ok(VmAction::Jump(_))));
    assert_eq!(neg(Operation::LiteralInteger(0)), Ok(VmAction::Continue));
    assert!(matches!(neg(Operation::LiteralReal(number(-0.5))), Ok(VmAction::Jump(_))));
    assert_eq!(neg(Operation::LiteralReal(number(-0.0))), Ok(VmAction::Continue));
    assert_eq!(neg(Operation::LiteralReal(number(f64::NAN))), Ok(VmAction::Continue));
    assert_eq!(neg(Operation::LiteralTrue), Err(VmError::Type(ValueType::Bool, 0)));
}

#[test]
fn integer_arithmetic_wraps() {
    let binary = |a: i64, b: i64, op: Operation| {
        run(&[Operation::LiteralInteger(a), Operation::LiteralInteger(b), op, Operation::Return])
    };
    assert_eq!(binary(i64::MAX, 1, Operation::Add), Ok(Value::Integer(i64::MIN)));
    assert_eq!(binary(i64::MIN, 1, Operation::Sub), Ok(Value::Integer(i64::MAX)));
    assert_eq!(binary(i64::MAX, 2, Operation::Mul), Ok(Value::Integer(-2)));
    assert_eq!(binary(7, 2, Operation::Div), Ok(Value::Integer(3)));
    assert_eq!(binary(-7, 2, Operation::Div), Ok(Value::Integer(-3)));
    assert_eq!(binary(-7, 2, Operation::Rem), Ok(Value::Integer(-1)));
    assert_eq!(binary(7, -2, Operation::Rem), Ok(Value::Integer(1)));
    assert_eq!(binary(7, 0, Operation::Rem), Err(VmError::DivByZero));
    assert_eq!(binary(i64::MIN, -1, Operation::Div), Err(VmError::DivByZero));
    assert_eq!(binary(i64::MIN, -1, Operation::Rem), Err(VmError::DivByZero));
    assert_eq!(binary(1, 4, Operation::Shl), Ok(Value::Integer(16)));
    assert_eq!(binary(1, 65, Operation::Shl), Ok(Value::Integer(2)));
    assert_eq!(binary(-16, 2, Operation::Shr), Ok(Value::Integer(-4)));
    assert_eq!(binary(12, 10, Operation::And), Ok(Value::Integer(8)));
    assert_eq!(binary(12, 10, Operation::Or), Ok(Value::Integer(14)));
    assert_eq!(binary(12, 10, Operation::Xor), Ok(Value::Integer(6)));
}

#[test]
fn unary_operations() {
    let unary = |v: Operation, op: Operation| run(&[v, op, Operation::Return]);
    assert_eq!(unary(Operation::LiteralInteger(5), Operation::Neg), Ok(Value::Integer(-5)));
    assert_eq!(
        unary(Operation::LiteralInteger(i64::MIN), Operation::Neg),
        Ok(Value::Integer(i64::MIN))
    );
    assert_eq!(
        unary(Operation::LiteralReal(number(1.5)), Operation::Neg),
        Ok(Value::Real(number(-1.5)))
    );
    assert_eq!(unary(Operation::LiteralInteger(0), Operation::Not), Ok(Value::Integer(-1)));
    assert_eq!(unary(Operation::LiteralInteger(5), Operation::Not), Ok(Value::Integer(!5)));
    assert_eq!(
        unary(Operation::LiteralInteger(3), Operation::IntToReal),
        Ok(Value::Real(number(3.0)))
    );
    assert_eq!(
        unary(Operation::LiteralReal(number(3.5)), Operation::IntToReal),
        Ok(Value::Real(number(3.5)))
    );
    assert_eq!(
        unary(Operation::LiteralReal(number(-3.9)), Operation::RealToInt),
        Ok(Value::Integer(-3))
    );
    assert_eq!(unary(Operation::LiteralInteger(9), Operation::RealToInt), Ok(Value::Integer(9)));
    assert_eq!(
        unary(Operation::LiteralTrue, Operation::Neg),
        Err(VmError::Type(ValueType::Bool, 0))
    );
    assert_eq!(
        unary(Operation::LiteralReal(number(1.0)), Operation::Not),
        Err(VmError::Type(ValueType::Real, 0))
    );
}

#[test]
fn real_arithmetic_is_asked_of_the_host() {
    let program = [
        Operation::LiteralReal(number(6.0)),
        Operation::LiteralReal(number(4.0)),
        Operation::Div,
    ];
    let (mut results, frame, _) = steps(&program, 3);
    assert_eq!(
        results.pop().unwrap(),
        Ok(VmAction::Real(RealRequest::Div(number(6.0), number(4.0))))
    );
    assert_eq!(frame.get_cursor(), 19);
    let with_host = |op: Operation| {
        run(&[
            Operation::LiteralReal(number(7.5)),
            Operation::LiteralReal(number(2.0)),
            op,
            Operation::Return,
        ])
    };
    assert_eq!(with_host(Operation::Add), Ok(Value::Real(number(9.5))));
    assert_eq!(with_host(Operation::Mul), Ok(Value::Real(number(15.0))));
    assert_eq!(with_host(Operation::Div), Ok(Value::Real(number(3.75))));
    assert_eq!(with_host(Operation::Rem), Ok(Value::Real(number(1.5))));
}

#[test]
fn mixed_arithmetic_is_a_type_error() {
    let program = [Operation::LiteralInteger(1), Operation::LiteralReal(number(1.0)), Operation::Add];
    assert_eq!(steps(&program, 3).0.pop().unwrap(), Err(VmError::Type(ValueType::Real, 0)));
    let program = [Operation::LiteralReal(number(1.0)), Operation::LiteralInteger(1), Operation::Add];
    assert_eq!(steps(&program, 3).0.pop().unwrap(), Err(VmError::Type(ValueType::Integer, 0)));
    let program = [Operation::LiteralTrue, Operation::LiteralInteger(1), Operation::Add];
    assert_eq!(steps(&program, 3).0.pop().unwrap(), Err(VmError::Type(ValueType::Bool, 1)));
    let program = [Operation::LiteralReal(number(1.0)), Operation::LiteralReal(number(1.0)), Operation::And];
    assert_eq!(steps(&program, 3).0.pop().unwrap(), Err(VmError::Type(ValueType::Real, 1)));
}

#[test]
fn a_failed_step_leaves_the_cursor_and_keeps_its_pops() {
    let program = [Operation::LiteralInteger(1), Operation::LiteralTrue, Operation::Add];
    let (mut results, mut frame, _) = steps(&program, 3);
    assert_eq!(results.pop().unwrap(), Err(VmError::Type(ValueType::Bool, 0)));
    assert_eq!(frame.get_cursor(), 10);
    assert_eq!(frame.pop(), Err(VmError::StackEmpty));
}

#[test]
fn empty_stack_is_an_error() {
    assert_eq!(run(&[Operation::Return]), Err(VmError::StackEmpty));
    assert_eq!(run(&[Operation::Add]), Err(VmError::StackEmpty));
    assert_eq!(run(&[Operation::LiteralInteger(1), Operation::Add]), Err(VmError::StackEmpty));
    assert_eq!(run(&[Operation::FrameStackPop]), Err(VmError::StackEmpty));
}

#[test]
fn bytecode_errors_tell_where() {
    let (mut frame, mut heap) = start(vec![]);
    assert_eq!(parse_and_run(&mut frame, &mut heap), Err(VmError::BytecodeRead(0)));
    let (mut frame, mut heap) = start(vec![200]);
    assert_eq!(parse_and_run(&mut frame, &mut heap), Err(VmError::BytecodeRead(1)));
    assert_eq!(frame.get_cursor(), 0);
    let (mut frame, mut heap) = start(vec![33, 0, 0]);
    assert_eq!(parse_and_run(&mut frame, &mut heap), Err(VmError::BytecodeRead(1)));
    let (mut frame, mut heap) = start(vec![1, 22, 0, 0, 0]);
    assert_eq!(parse_and_run(&mut frame, &mut heap), Ok(VmAction::Continue));
    assert_eq!(parse_and_run(&mut frame, &mut heap), Err(VmError::BytecodeRead(2)));
    assert_eq!(frame.get_cursor(), 1);
    let (mut frame, mut heap) = start(vec![1]);
    assert_eq!(parse_and_run(&mut frame, &mut heap), Ok(VmAction::Continue));
    assert_eq!(parse_and_run(&mut frame, &mut heap), Err(VmError::BytecodeRead(1)));
}

#[test]
fn literals_are_pushed() {
    assert_eq!(run(&[Operation::LiteralNone, Operation::Return]), Ok(Value::Nil));
    assert_eq!(run(&[Operation::LiteralTrue, Operation::Return]), Ok(Value::Bool(true)));
    assert_eq!(run(&[Operation::LiteralFalse, Operation::Return]), Ok(Value::Bool(false)));
    assert_eq!(
        run(&[Operation::LiteralInteger(-123456789012), Operation::Return]),
        Ok(Value::Integer(-123456789012))
    );
    assert_eq!(
        run(&[Operation::LiteralReal(number(-2.5e-3)), Operation::Return]),
        Ok(Value::Real(number(-2.5e-3)))
    );
    assert_eq!(run(&[Operation::Nop, Operation::LiteralTrue, Operation::Return]), Ok(Value::Bool(true)));
}

#[test]
fn frame_of_a_function_starts_with_its_module() {
    let (frame, heap) = start(vec![]);
    assert_eq!(frame.get_cursor(), 0);
    assert_eq!(frame.load(0), Ok(&Value::List(Handle { index: 0 })));
    assert_eq!(frame.load(1), Err(VmError::FrameRead(1)));
    assert_eq!(heap.lists[0].strong, 2);
    assert_eq!(frame.get_bytecode(&heap), &[] as &[u8]);
}

#[test]
fn locals_are_stored_loaded_and_swapped() {
    let program = [
        Operation::LiteralInteger(4),
        Operation::FrameLocalStore(3),
        Operation::FrameLocalLoad(3),
        Operation::Return,
    ];
    assert_eq!(run(&program), Ok(Value::Integer(4)));
    let program = [
        Operation::LiteralInteger(4),
        Operation::FrameLocalStore(3),
        Operation::FrameLocalLoad(2),
        Operation::Return,
    ];
    assert_eq!(run(&program), Ok(Value::Nil));
    let program = [Operation::FrameLocalLoad(9), Operation::Return];
    assert_eq!(run(&program), Err(VmError::FrameRead(9)));
    let program = [
        Operation::LiteralInteger(4),
        Operation::FrameLocalStore(1),
        Operation::LiteralInteger(5),
        Operation::FrameLocalSwap(1),
        Operation::FrameLocalLoad(1),
        Operation::Add,
        Operation::Return,
    ];
    assert_eq!(run(&program), Ok(Value::Integer(9)));
    let program = [Operation::LiteralInteger(5), Operation::FrameLocalSwap(7), Operation::Return];
    assert_eq!(run(&program), Ok(Value::Nil));
}

#[test]
fn frame_store_and_swap_grow_the_slots() {
    let (mut frame, _) = start(vec![]);
    assert_eq!(frame.store(2, Value::Integer(1)), Value::Nil);
    assert_eq!(frame.load(1), Ok(&Value::Nil));
    assert_eq!(frame.load(2), Ok(&Value::Integer(1)));
    assert_eq!(frame.load(3), Err(VmError::FrameRead(3)));
    assert_eq!(frame.store(2, Value::Integer(2)), Value::Integer(1));
    let mut held = Value::Bool(true);
    frame.swap(4, &mut held);
    assert_eq!(held, Value::Nil);
    assert_eq!(frame.load(4), Ok(&Value::Bool(true)));
    frame.swap(2, &mut held);
    assert_eq!(held, Value::Integer(2));
    frame.push(Value::Integer(8));
    assert_eq!(frame.pop(), Ok(Value::Integer(8)));
    assert_eq!(frame.pop(), Err(VmError::StackEmpty));
    frame.set_cursor(12);
    assert_eq!(frame.get_cursor(), 12);
}

#[test]
fn stack_copy_and_pop() {
    let program = [
        Operation::LiteralInteger(4),
        Operation::FrameStackCopy,
        Operation::Mul,
        Operation::Return,
    ];
    assert_eq!(run(&program), Ok(Value::Integer(16)));
    let program = [
        Operation::LiteralInteger(4),
        Operation::LiteralInteger(5),
        Operation::FrameStackPop,
        Operation::Return,
    ];
    assert_eq!(run(&program), Ok(Value::Integer(4)));
}

#[test]
fn call_hands_over_the_arguments_in_pop_order() {
    let (mut frame, mut heap) = start(vec![20, 2]);
    frame.push(Value::Integer(1));
    frame.push(Value::Integer(2));
    frame.push(Value::Integer(3));
    frame.push(Value::NativeFn(NativeFn { address: 77 }));
    assert_eq!(
        parse_and_run(&mut frame, &mut heap),
        Ok(VmAction::CallNative(
            NativeFn { address: 77 },
            vec![Value::Integer(3), Value::Integer(2)]
        ))
    );
    assert_eq!(frame.get_cursor(), 2);
    assert_eq!(frame.pop(), Ok(Value::Integer(1)));

    let (mut frame, mut heap) = start(vec![20, 0]);
    let function = heap.alloc_function(Function {
        module: Handle { index: 0 },
        bytecode: Handle { index: 0 },
    });
    frame.push(Value::Function(function));
    assert_eq!(parse_and_run(&mut frame, &mut heap), Ok(VmAction::Call(function, vec![])));

    let (mut frame, mut heap) = start(vec![20, 1]);
    frame.push(Value::Integer(1));
    frame.push(Value::Integer(2));
    assert_eq!(parse_and_run(&mut frame, &mut heap), Err(VmError::Type(ValueType::Integer, 0)));
    assert_eq!(frame.pop(), Err(VmError::StackEmpty));

    let (mut frame, mut heap) = start(vec![20, 3]);
    frame.push(Value::Integer(1));
    frame.push(Value::NativeFn(NativeFn { address: 77 }));
    assert_eq!(parse_and_run(&mut frame, &mut heap), Err(VmError::StackEmpty));
    assert_eq!(frame.get_cursor(), 0);
    assert_eq!(frame.pop(), Err(VmError::StackEmpty));
}

#[test]
fn compare_pushes_the_order_or_nothing() {
    let compare = |a: Operation, b: Operation| run(&[a, b, Operation::Cmp, Operation::Return]);
    assert_eq!(
        compare(Operation::LiteralInteger(2), Operation::LiteralInteger(2)),
        Ok(Value::Integer(0))
    );
    assert_eq!(
        compare(Operation::LiteralInteger(3), Operation::LiteralInteger(2)),
        Ok(Value::Integer(1))
    );
    assert_eq!(
        compare(Operation::LiteralReal(number(f64::NAN)), Operation::LiteralReal(number(1.0))),
        Ok(Value::Nil)
    );
    assert_eq!(
        compare(Operation::LiteralInteger(3), Operation::LiteralReal(number(1.0))),
        Ok(Value::Integer(-1))
    );
    assert_eq!(compare(Operation::ListCreate, Operation::ListCreate), Ok(Value::Nil));
    assert_eq!(
        run(&[Operation::ListCreate, Operation::FrameStackCopy, Operation::Cmp, Operation::Return]),
        Ok(Value::Integer(0))
    );
}

#[test]
fn list_push_and_pop() {
    let program = [
        Operation::ListCreate,
        Operation::FrameStackCopy,
        Operation::FrameStackCopy,
        Operation::LiteralInteger(7),
        Operation::ListPush,
        Operation::LiteralInteger(8),
        Operation::ListPush,
        Operation::ListPop,
        Operation::Return,
    ];
    assert_eq!(run(&program), Ok(Value::Integer(8)));
    assert_eq!(
        run(&[Operation::ListCreate, Operation::ListPop, Operation::Return]),
        Err(VmError::IndexRead(0))
    );
    assert_eq!(
        run(&[Operation::LiteralTrue, Operation::ListPop, Operation::Return]),
        Err(VmError::Type(ValueType::Bool, 0))
    );
    assert_eq!(
        run(&[Operation::LiteralTrue, Operation::LiteralInteger(1), Operation::ListPush]),
        Err(VmError::Type(ValueType::Bool, 1))
    );
}

#[test]
fn a_list_is_freed_with_its_last_strong_handle() {
    // LIST_CREATE; LIST_DOWNGRADE; LIST_UPGRADE: no strong handle is left.
    let program = [
        Operation::ListCreate,
        Operation::ListDowngrade,
        Operation::ListUpgrade,
        Operation::Return,
    ];
    assert_eq!(run(&program), Ok(Value::Nil));
    // With a strong handle kept in a local slot the list comes back.
    let program = [
        Operation::ListCreate,
        Operation::FrameStackCopy,
        Operation::FrameLocalStore(1),
        Operation::ListDowngrade,
        Operation::ListUpgrade,
        Operation::FrameLocalLoad(1),
        Operation::Cmp,
        Operation::Return,
    ];
    assert_eq!(run(&program), Ok(Value::Integer(0)));
    // Once the slot is overwritten the list is gone.
    let program = [
        Operation::ListCreate,
        Operation::FrameStackCopy,
        Operation::FrameLocalStore(1),
        Operation::ListDowngrade,
        Operation::LiteralNone,
        Operation::FrameLocalStore(1),
        Operation::ListUpgrade,
        Operation::Return,
    ];
    assert_eq!(run(&program), Ok(Value::Nil));
    assert_eq!(
        run(&[Operation::LiteralTrue, Operation::ListUpgrade]),
        Err(VmError::Type(ValueType::Bool, 0))
    );
    assert_eq!(
        run(&[Operation::LiteralTrue, Operation::ListDowngrade]),
        Err(VmError::Type(ValueType::Bool, 0))
    );
}

#[test]
fn freeing_a_list_lets_go_of_its_items() {
    let mut heap = Heap::new();
    let inner = heap.alloc_list(List::from_vec(vec![Value::Integer(1)]));
    let outer = heap.alloc_list(List::from_vec(vec![Value::List(inner)]));
    heap.retain(Value::List(inner));
    assert_eq!(heap.lists[inner.index].strong, 2);
    heap.release(Value::List(outer));
    assert_eq!(heap.lists[outer.index].strong, 0);
    assert_eq!(heap.lists[outer.index].items.len(), 0);
    assert_eq!(heap.lists[inner.index].strong, 1);
    assert_eq!(heap.upgrade(outer), None);
    assert_eq!(heap.upgrade(inner), Some(inner));
    assert_eq!(heap.lists[inner.index].strong, 2);
    heap.release_all(vec![Value::List(inner), Value::Integer(3), Value::List(inner)]);
    assert_eq!(heap.lists[inner.index].strong, 0);
    assert_eq!(heap.lists[inner.index].items.len(), 0);
    heap.release(Value::List(inner));
    heap.retain(Value::List(inner));
    assert_eq!(heap.lists[inner.index].strong, 0);
}

#[test]
fn sequence_get_and_set() {
    let program = [
        Operation::ListCreate,
        Operation::FrameLocalStore(1),
        Operation::FrameLocalLoad(1),
        Operation::LiteralInteger(3),
        Operation::SeqResize,
        Operation::FrameLocalLoad(1),
        Operation::LiteralInteger(1),
        Operation::LiteralInteger(42),
        Operation::SeqSet,
        Operation::FrameLocalLoad(1),
        Operation::LiteralInteger(1),
        Operation::SeqGet,
        Operation::Return,
    ];
    assert_eq!(run(&program), Ok(Value::Integer(42)));
    let program = [Operation::ListCreate, Operation::LiteralInteger(0), Operation::SeqGet];
    assert_eq!(run(&program), Err(VmError::IndexRead(0)));
    let program = [Operation::ListCreate, Operation::LiteralInteger(-1), Operation::SeqGet];
    assert_eq!(run(&program), Err(VmError::IndexRead(-1)));
    let program = [
        Operation::ListCreate,
        Operation::LiteralInteger(2),
        Operation::LiteralTrue,
        Operation::SeqSet,
    ];
    assert_eq!(run(&program), Err(VmError::IndexWrite(2)));
    let program = [Operation::ListCreate, Operation::LiteralTrue, Operation::SeqGet];
    assert_eq!(run(&program), Err(VmError::Type(ValueType::Bool, 0)));
    let program = [Operation::LiteralNone, Operation::LiteralInteger(0), Operation::SeqGet];
    assert_eq!(run(&program), Err(VmError::Type(ValueType::Nil, 1)));
    let program = [
        Operation::ListCreate,
        Operation::LiteralTrue,
        Operation::LiteralInteger(0),
        Operation::SeqSet,
    ];
    assert_eq!(run(&program), Err(VmError::Type(ValueType::Bool, 1)));
    let program = [
        Operation::LiteralNone,
        Operation::LiteralInteger(0),
        Operation::LiteralInteger(0),
        Operation::SeqSet,
    ];
    assert_eq!(run(&program), Err(VmError::Type(ValueType::Nil, 2)));
}

#[test]
fn byte_buffer_takes_the_low_eight_bits() {
    let program = [
        Operation::BytesBufferCreate,
        Operation::FrameLocalStore(1),
        Operation::FrameLocalLoad(1),
        Operation::LiteralInteger(2),
        Operation::SeqResize,
        Operation::FrameLocalLoad(1),
        Operation::LiteralInteger(1),
        Operation::LiteralInteger(0x1ff),
        Operation::SeqSet,
        Operation::FrameLocalLoad(1),
        Operation::LiteralInteger(1),
        Operation::SeqGet,
        Operation::Return,
    ];
    assert_eq!(run(&program), Ok(Value::Integer(255)));
    let program = [
        Operation::BytesBufferCreate,
        Operation::LiteralInteger(0),
        Operation::LiteralTrue,
        Operation::SeqSet,
    ];
    assert_eq!(run(&program), Err(VmError::Type(ValueType::Bool, 0)));
    let program = [
        Operation::BytesBufferCreate,
        Operation::LiteralInteger(0),
        Operation::LiteralInteger(1),
        Operation::SeqSet,
    ];
    assert_eq!(run(&program), Err(VmError::IndexWrite(0)));
}

#[test]
fn sequence_length_counts_items_and_bytes() {
    let (mut frame, mut heap) = start(vec![75, 75, 75, 75, 75, 75]);
    let list = heap.alloc_list(List::from_vec(vec![Value::Nil, Value::Nil]));
    let bytes = heap.alloc_bytes(Bytes(vec![1, 2, 3]));
    let buffer = heap.alloc_buffer(vm::datamodel::BytesBuffer::from_vec(vec![1]));
    let string = heap.alloc_string(
        vm::datamodel::StringValue::from_bytes(Bytes("h\u{e9}llo".as_bytes().to_vec())).unwrap(),
    );
    let text = heap.alloc_text(vm::datamodel::StringBuffer::from_string("\u{1f600}".to_string()));
    frame.push(Value::Bool(true));
    frame.push(Value::StringBuffer(text));
    frame.push(Value::StringValue(string));
    frame.push(Value::BytesBuffer(buffer));
    frame.push(Value::Bytes(bytes));
    frame.push(Value::List(list));
    let mut lengths = vec![];
    for _ in 0..5 {
        assert_eq!(parse_and_run(&mut frame, &mut heap), Ok(VmAction::Continue));
        lengths.push(frame.pop().unwrap());
    }
    assert_eq!(
        lengths,
        vec![
            Value::Integer(2),
            Value::Integer(3),
            Value::Integer(1),
            Value::Integer(6),
            Value::Integer(4)
        ]
    );
    assert_eq!(parse_and_run(&mut frame, &mut heap), Err(VmError::Type(ValueType::Bool, 0)));
    assert_eq!(heap.lists[list.index].strong, 0);
}

#[test]
fn sequence_slices() {
    let (mut frame, mut heap) = start(vec![72, 72, 72, 72]);
    let list = heap.alloc_list(List::from_vec(vec![
        Value::Integer(10),
        Value::Integer(11),
        Value::Integer(12),
    ]));
    let bytes = heap.alloc_bytes(Bytes(vec![1, 2, 3, 4]));
    frame.push(Value::Bytes(bytes));
    frame.push(Value::Integer(3));
    frame.push(Value::Integer(2));
    frame.push(Value::Bytes(bytes));
    frame.push(Value::Integer(1));
    frame.push(Value::Integer(3));
    frame.push(Value::List(list));
    frame.push(Value::Integer(1));
    frame.push(Value::Integer(3));
    assert_eq!(parse_and_run(&mut frame, &mut heap), Ok(VmAction::Continue));
    let made = match frame.pop() {
        Ok(Value::List(h)) => h,
        other => panic!("a list was expected, not {:?}", other),
    };
    assert_eq!(heap.lists[made.index].items.0, vec![Value::Integer(11), Value::Integer(12)]);
    assert_eq!(heap.lists[made.index].strong, 1);
    assert_eq!(parse_and_run(&mut frame, &mut heap), Ok(VmAction::Continue));
    let made = match frame.pop() {
        Ok(Value::BytesBuffer(h)) => h,
        other => panic!("a byte buffer was expected, not {:?}", other),
    };
    assert_eq!(heap.buffers[made.index].0, vec![2, 3]);
    assert_eq!(parse_and_run(&mut frame, &mut heap), Err(VmError::SliceRead(3, 2)));
    assert_eq!(frame.pop(), Err(VmError::StackEmpty));
    frame.push(Value::Integer(0));
    frame.push(Value::Integer(0));
    frame.push(Value::Integer(0));
    assert_eq!(parse_and_run(&mut frame, &mut heap), Err(VmError::Type(ValueType::Integer, 2)));
}

#[test]
fn slicing_a_list_counts_the_copies_of_its_items() {
    let (mut frame, mut heap) = start(vec![72]);
    let inner = heap.alloc_list(List::from_vec(vec![]));
    let list = heap.alloc_list(List::from_vec(vec![Value::List(inner)]));
    heap.retain(Value::List(list));
    frame.push(Value::List(list));
    frame.push(Value::Integer(0));
    frame.push(Value::Integer(1));
    assert_eq!(parse_and_run(&mut frame, &mut heap), Ok(VmAction::Continue));
    assert_eq!(heap.lists[inner.index].strong, 2);
    assert_eq!(heap.lists[list.index].strong, 1);
}

#[test]
fn sequence_resize() {
    let (mut frame, mut heap) = start(vec![76, 76, 76, 76]);
    let inner = heap.alloc_list(List::from_vec(vec![]));
    let list = heap.alloc_list(List::from_vec(vec![Value::Integer(1), Value::List(inner)]));
    heap.retain(Value::List(list));
    heap.retain(Value::List(list));
    heap.retain(Value::List(list));
    let buffer = heap.alloc_buffer(vm::datamodel::BytesBuffer::from_vec(vec![9, 8, 7]));
    frame.push(Value::List(list));
    frame.push(Value::Integer(-1));
    frame.push(Value::BytesBuffer(buffer));
    frame.push(Value::Integer(5));
    frame.push(Value::List(list));
    frame.push(Value::Integer(3));
    frame.push(Value::List(list));
    frame.push(Value::Integer(1));
    assert_eq!(parse_and_run(&mut frame, &mut heap), Ok(VmAction::Continue));
    assert_eq!(heap.lists[list.index].items.0, vec![Value::Integer(1)]);
    assert_eq!(heap.lists[inner.index].strong, 0);
    assert_eq!(parse_and_run(&mut frame, &mut heap), Ok(VmAction::Continue));
    assert_eq!(heap.lists[list.index].items.0, vec![Value::Integer(1), Value::Nil, Value::Nil]);
    assert_eq!(parse_and_run(&mut frame, &mut heap), Ok(VmAction::Continue));
    assert_eq!(heap.buffers[buffer.index].0, vec![9, 8, 7, 0, 0]);
    assert_eq!(parse_and_run(&mut frame, &mut heap), Err(VmError::IndexWrite(-1)));
    assert_eq!(heap.lists[list.index].strong, 1);
}

#[test]
fn sequence_append_and_set_slice() {
    let (mut frame, mut heap) = start(vec![74, 73, 73, 74, 73, 74]);
    let inner = heap.alloc_list(List::from_vec(vec![]));
    let source = heap.alloc_list(List::from_vec(vec![Value::List(inner), Value::Integer(5)]));
    let target = heap.alloc_list(List::from_vec(vec![Value::Integer(1)]));
    for _ in 0..3 {
        heap.retain(Value::List(source));
        heap.retain(Value::List(target));
    }
    let buffer = heap.alloc_buffer(vm::datamodel::BytesBuffer::from_vec(vec![1, 2, 3]));
    let bytes = heap.alloc_bytes(Bytes(vec![7, 8]));
    // the last step: a byte array cannot grow
    frame.push(Value::Bytes(bytes));
    frame.push(Value::Bytes(bytes));
    // the step before: bytes written into a buffer
    frame.push(Value::BytesBuffer(buffer));
    frame.push(Value::Bytes(bytes));
    frame.push(Value::Integer(1));
    // a buffer grows by its own bytes
    frame.push(Value::BytesBuffer(buffer));
    frame.push(Value::BytesBuffer(buffer));
    // a slice that does not fit
    frame.push(Value::List(target));
    frame.push(Value::List(source));
    frame.push(Value::Integer(2));
    // a slice that fits
    frame.push(Value::List(target));
    frame.push(Value::List(source));
    frame.push(Value::Integer(1));
    // the first step: a list grows by the items of another
    frame.push(Value::List(target));
    frame.push(Value::List(source));
    assert_eq!(parse_and_run(&mut frame, &mut heap), Ok(VmAction::Continue));
    assert_eq!(
        heap.lists[target.index].items.0,
        vec![Value::Integer(1), Value::List(inner), Value::Integer(5)]
    );
    assert_eq!(heap.lists[inner.index].strong, 2);
    assert_eq!(parse_and_run(&mut frame, &mut heap), Ok(VmAction::Continue));
    assert_eq!(
        heap.lists[target.index].items.0,
        vec![Value::Integer(1), Value::List(inner), Value::Integer(5)]
    );
    assert_eq!(heap.lists[inner.index].strong, 2);
    assert_eq!(parse_and_run(&mut frame, &mut heap), Err(VmError::IndexWrite(2)));
    assert_eq!(frame.get_cursor(), 2);
    frame.set_cursor(3);
    assert_eq!(parse_and_run(&mut frame, &mut heap), Ok(VmAction::Continue));
    assert_eq!(heap.buffers[buffer.index].0, vec![1, 2, 3, 1, 2, 3]);
    assert_eq!(parse_and_run(&mut frame, &mut heap), Ok(VmAction::Continue));
    assert_eq!(heap.buffers[buffer.index].0, vec![1, 7, 8, 1, 2, 3]);
    assert_eq!(parse_and_run(&mut frame, &mut heap), Err(VmError::Type(ValueType::Bytes, 1)));
}

#[test]
fn string_operations() {
    let (mut frame, mut heap) = start(vec![61, 61, 61, 62, 61, 60, 62]);
    let string = heap.alloc_string(
        vm::datamodel::StringValue::from_bytes(Bytes("a\u{e9}b".as_bytes().to_vec())).unwrap(),
    );
    let text = heap.alloc_text(vm::datamodel::StringBuffer::from_string("xy".to_string()));
    frame.push(Value::Integer(0));
    frame.push(Value::Integer(0));
    frame.push(Value::StringValue(string));
    frame.push(Value::StringBuffer(text));
    frame.push(Value::Integer(1));
    frame.push(Value::StringValue(string));
    frame.push(Value::Integer(-1));
    frame.push(Value::StringValue(string));
    frame.push(Value::Integer(2));
    assert_eq!(parse_and_run(&mut frame, &mut heap), Ok(VmAction::Continue));
    assert_eq!(frame.pop(), Ok(Value::Char('b')));
    assert_eq!(parse_and_run(&mut frame, &mut heap), Ok(VmAction::Continue));
    assert_eq!(frame.pop(), Ok(Value::Nil));
    assert_eq!(parse_and_run(&mut frame, &mut heap), Ok(VmAction::Continue));
    assert_eq!(frame.pop(), Ok(Value::Char('y')));
    assert_eq!(parse_and_run(&mut frame, &mut heap), Ok(VmAction::Continue));
    let chars = match frame.pop() {
        Ok(Value::List(h)) => h,
        other => panic!("a list was expected, not {:?}", other),
    };
    assert_eq!(
        heap.lists[chars.index].items.0,
        vec![Value::Char('a'), Value::Char('\u{e9}'), Value::Char('b')]
    );
    assert_eq!(parse_and_run(&mut frame, &mut heap), Err(VmError::Type(ValueType::Integer, 1)));
    frame.set_cursor(5);
    assert_eq!(parse_and_run(&mut frame, &mut heap), Ok(VmAction::Continue));
    assert_eq!(parse_and_run(&mut frame, &mut heap), Ok(VmAction::Continue));
    let chars = match frame.pop() {
        Ok(Value::List(h)) => h,
        other => panic!("a list was expected, not {:?}", other),
    };
    assert_eq!(heap.lists[chars.index].items.0, vec![]);
}

#[test]
fn creation_makes_new_objects() {
    let (mut frame, mut heap) = start(vec![50, 55, 60]);
    assert_eq!(parse_and_run(&mut frame, &mut heap), Ok(VmAction::Continue));
    assert_eq!(parse_and_run(&mut frame, &mut heap), Ok(VmAction::Continue));
    assert_eq!(parse_and_run(&mut frame, &mut heap), Ok(VmAction::Continue));
    assert_eq!(frame.pop(), Ok(Value::StringBuffer(Handle { index: 0 })));
    assert_eq!(frame.pop(), Ok(Value::BytesBuffer(Handle { index: 0 })));
    assert_eq!(frame.pop(), Ok(Value::List(Handle { index: 1 })));
    assert_eq!(heap.lists[1].strong, 1);
    assert_eq!(heap.texts[0].len(), 0);
    assert_eq!(heap.buffers[0].len(), 0);
}

#[test]
fn a_frame_jumps_within_memory() {
    let (mut frame, _) = start(vec![]);
    assert_eq!(frame.jump(5), Some(5));
    assert_eq!(frame.jump(-2), Some(3));
    assert_eq!(frame.get_cursor(), 3);
    assert_eq!(frame.jump(-4), None);
    assert_eq!(frame.get_cursor(), 3);
    assert_eq!(frame.jump(i32::MIN), None);
    assert_eq!(frame.jump(-3), Some(0));
    assert_eq!(frame.jump(i32::MAX), Some(i32::MAX as usize));
    frame.set_cursor(usize::MAX - 1);
    assert_eq!(frame.jump(2), None);
    assert_eq!(frame.jump(1), Some(usize::MAX));
    assert_eq!(frame.jump(0), Some(usize::MAX));
}
