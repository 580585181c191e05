//! One step of the machine.
//!
//! A step reads the instruction under the cursor of a frame, does what it
//! says to the frame and the heap, and tells the host what to do next. Where
//! it succeeds the cursor stands after the instruction. Where it fails the
//! cursor has not moved, but what the instruction had done before it failed
//! stays done: operands that were popped are gone, and the handles among
//! them were let go.
use vstd::prelude::*;
use vstd::utf8::encode_utf8;
use std::cmp::Ordering;
use crate::collate::characters;
use crate::compare::{content, holds_bytes, is_bytes_like, order};
use crate::datamodel::{
    char_value, char_values, overwrite, range_within, resized, span_within, BytesBuffer, Handle,
    List, StringBuffer, Value,
};
use crate::heap::{Heap, Store};
use crate::machine::{CallFrame, Frame};
use crate::number::Real;
use crate::operation::{decode_at, fetch, Fetched, Operation};
use crate::text::scalar_from;
use crate::{Action, RealRequest, VmAction, VmError};

verus! {

/// The state in which a step leaves frame and heap, and what it returns.
pub struct Outcome {
    pub frame: Frame,
    pub store: Store,
    pub result: Result<Action, VmError>,
}

/// A step that failed.
pub open spec fn fail(frame: Frame, store: Store, error: VmError) -> Outcome {
    Outcome { frame, store, result: Err(error) }
}

/// A step after which the host has nothing to do.
pub open spec fn done(frame: Frame, store: Store) -> Outcome {
    Outcome { frame, store, result: Ok(Action::Continue) }
}

/// A step that asks something of the host.
pub open spec fn ask(frame: Frame, store: Store, action: Action) -> Outcome {
    Outcome { frame, store, result: Ok(action) }
}

impl Frame {
    /// The top of the operand stack.
    pub open spec fn top(self) -> Value {
        self.stack.last()
    }

    /// The frame without the top of its operand stack.
    pub open spec fn popped(self) -> Frame {
        self.with_stack(self.stack.drop_last())
    }

    /// The frame with `v` on top of its operand stack.
    pub open spec fn pushed(self, v: Value) -> Frame {
        self.with_stack(self.stack.push(v))
    }
}

/// The result of an operation on two integers; none where it is a division
/// without a result: by zero, or of the least integer by -1.
pub open spec fn integer_result(op: Operation, a: i64, b: i64) -> Option<i64> {
    match op {
        Operation::Add => Some(a.wrapping_add(b)),
        Operation::Sub => Some(a.wrapping_sub(b)),
        Operation::Mul => Some(a.wrapping_mul(b)),
        Operation::Div => a.checked_div(b),
        Operation::Rem => a.checked_rem(b),
        Operation::Shl => Some(a.wrapping_shl(b as u32)),
        Operation::Shr => Some(a.wrapping_shr(b as u32)),
        Operation::And => Some(a & b),
        Operation::Or => Some(a | b),
        _ => Some(a ^ b),
    }
}

/// Whether the operation takes two reals as well as two integers.
pub open spec fn takes_reals(op: Operation) -> bool {
    op is Add || op is Sub || op is Mul || op is Div || op is Rem
}

/// What the host is asked to compute for an operation on two reals.
pub open spec fn real_request(op: Operation, a: Real, b: Real) -> RealRequest {
    match op {
        Operation::Add => RealRequest::Add(a, b),
        Operation::Sub => RealRequest::Sub(a, b),
        Operation::Mul => RealRequest::Mul(a, b),
        Operation::Div => RealRequest::Div(a, b),
        _ => RealRequest::Rem(a, b),
    }
}

/// An operation on two numbers: the top of the stack is the second one.
pub open spec fn binary(op: Operation, frame: Frame, store: Store) -> Outcome {
    if frame.stack.len() == 0 {
        fail(frame, store, VmError::StackEmpty)
    } else if frame.stack.len() == 1 {
        fail(frame.popped(), store.release(frame.top()), VmError::StackEmpty)
    } else {
        let rhs = frame.top();
        let lhs = frame.popped().top();
        let rest = frame.popped().popped();
        let dropped = store.drain(seq![rhs, lhs]);
        match lhs {
            Value::Integer(a) => match rhs {
                Value::Integer(b) => match integer_result(op, a, b) {
                    Some(x) => done(rest.pushed(Value::Integer(x)), store),
                    None => fail(rest, store, VmError::DivByZero),
                },
                _ => fail(rest, dropped, VmError::Type(rhs.type_of(), 0)),
            },
            Value::Real(a) => if takes_reals(op) {
                match rhs {
                    Value::Real(b) => ask(rest, store, Action::Real(real_request(op, a, b))),
                    _ => fail(rest, dropped, VmError::Type(rhs.type_of(), 0)),
                }
            } else {
                fail(rest, dropped, VmError::Type(lhs.type_of(), 1))
            },
            _ => fail(rest, dropped, VmError::Type(lhs.type_of(), 1)),
        }
    }
}

/// Computes on two integers.
fn integer_operation(op: &Operation, a: i64, b: i64) -> (r: Option<i64>)
    ensures
        r == integer_result(*op, a, b),
{
    match op {
        Operation::Add => Some(a.wrapping_add(b)),
        Operation::Sub => Some(a.wrapping_sub(b)),
        Operation::Mul => Some(a.wrapping_mul(b)),
        Operation::Div => a.checked_div(b),
        Operation::Rem => a.checked_rem(b),
        Operation::Shl => Some(a.wrapping_shl(#[verifier::truncate] (b as u32))),
        Operation::Shr => Some(a.wrapping_shr(#[verifier::truncate] (b as u32))),
        Operation::And => Some(a & b),
        Operation::Or => Some(a | b),
        _ => Some(a ^ b),
    }
}

/// What the host is asked to compute for an operation on two reals.
fn request_for(op: &Operation, a: Real, b: Real) -> (r: RealRequest)
    ensures
        r == real_request(*op, a, b),
{
    match op {
        Operation::Add => RealRequest::Add(a, b),
        Operation::Sub => RealRequest::Sub(a, b),
        Operation::Mul => RealRequest::Mul(a, b),
        Operation::Div => RealRequest::Div(a, b),
        _ => RealRequest::Rem(a, b),
    }
}

/// Whether the operation takes two reals as well as two integers.
fn is_for_reals(op: &Operation) -> (r: bool)
    ensures
        r == takes_reals(*op),
{
    match op {
        Operation::Add => true,
        Operation::Sub => true,
        Operation::Mul => true,
        Operation::Div => true,
        Operation::Rem => true,
        _ => false,
    }
}

/// Lets go of two values, the second one first.
fn release_two(heap: &mut Heap, first: Value, second: Value)
    ensures
        final(heap)@ == old(heap)@.drain(seq![first, second]),
        old(heap).wf() ==> final(heap).wf(),
        final(heap)@.keeps_tables(old(heap)@),
{
    let mut values: Vec<Value> = Vec::new();
    values.push(first);
    values.push(second);
    assert(values@ =~= seq![first, second]);
    heap.release_all(values);
}

/// Whether frame and heap are as the outcome says, and the result is the
/// one that it holds.
pub open spec fn is_outcome(
    frame: &CallFrame,
    heap: &Heap,
    r: Result<VmAction, VmError>,
    o: Outcome,
) -> bool {
    &&& frame@ == o.frame
    &&& heap@ == o.store
    &&& match r {
        Ok(action) => o.result == Ok::<Action, VmError>(action@),
        Err(e) => o.result == Err::<Action, VmError>(e),
    }
}

/// Whether no handle in frame, heap or result points outside the heap.
pub open spec fn is_sound(frame: &CallFrame, heap: &Heap, r: Result<VmAction, VmError>) -> bool {
    &&& heap.wf()
    &&& frame.wf(heap)
    &&& match r {
        Ok(VmAction::Call(f, args)) => f.index < heap@.functions.len() && heap@.admits_all(args@),
        Ok(VmAction::CallNative(_, args)) => heap@.admits_all(args@),
        Ok(VmAction::Return(v)) => heap@.admits(v),
        _ => true,
    }
}

/// Does to frame and heap what [`binary`] says.
fn run_binary(op: &Operation, frame: &mut CallFrame, heap: &mut Heap) -> (r: Result<
    VmAction,
    VmError,
>)
    requires
        old(heap).wf(),
        old(frame).wf(old(heap)),
    ensures
        is_outcome(final(frame), final(heap), r, binary(*op, old(frame)@, old(heap)@)),
        is_sound(final(frame), final(heap), r),
{
    let rhs: Value = match frame.pop() {
        Ok(v) => v,
        Err(e) => {
            return Err(e);
        },
    };
    let lhs: Value = match frame.pop() {
        Ok(v) => v,
        Err(e) => {
            heap.release(rhs);
            return Err(e);
        },
    };
    match lhs {
        Value::Integer(a) => match rhs {
            Value::Integer(b) => match integer_operation(op, a, b) {
                Some(x) => {
                    frame.push(Value::Integer(x));
                    Ok(VmAction::Continue)
                },
                None => Err(VmError::DivByZero),
            },
            _ => {
                release_two(heap, rhs, lhs);
                Err(VmError::Type(rhs.get_type(), 0))
            },
        },
        Value::Real(a) => {
            if is_for_reals(op) {
                match rhs {
                    Value::Real(b) => Ok(VmAction::Real(request_for(op, a, b))),
                    _ => {
                        release_two(heap, rhs, lhs);
                        Err(VmError::Type(rhs.get_type(), 0))
                    },
                }
            } else {
                release_two(heap, rhs, lhs);
                Err(VmError::Type(lhs.get_type(), 1))
            }
        },
        _ => {
            release_two(heap, rhs, lhs);
            Err(VmError::Type(lhs.get_type(), 1))
        },
    }
}

/// An operation on one number.
pub open spec fn unary(op: Operation, frame: Frame, store: Store) -> Outcome {
    if frame.stack.len() == 0 {
        fail(frame, store, VmError::StackEmpty)
    } else {
        let t = frame.top();
        let rest = frame.popped();
        let refused = fail(rest, store.release(t), VmError::Type(t.type_of(), 0));
        match op {
            Operation::Neg => match t {
                Value::Integer(a) => done(rest.pushed(Value::Integer(0i64.wrapping_sub(a))), store),
                Value::Real(a) => done(rest.pushed(Value::Real(a.negated())), store),
                _ => refused,
            },
            Operation::Not => match t {
                Value::Integer(a) => done(rest.pushed(Value::Integer((-1 - a) as i64)), store),
                _ => refused,
            },
            Operation::IntToReal => match t {
                Value::Integer(a) => done(rest.pushed(Value::Real(Real::of_integer(a))), store),
                Value::Real(_) => done(rest.pushed(t), store),
                _ => refused,
            },
            _ => match t {
                Value::Integer(_) => done(rest.pushed(t), store),
                Value::Real(a) => done(rest.pushed(Value::Integer(a.truncated())), store),
                _ => refused,
            },
        }
    }
}

/// Does to frame and heap what [`unary`] says.
fn run_unary(op: &Operation, frame: &mut CallFrame, heap: &mut Heap) -> (r: Result<
    VmAction,
    VmError,
>)
    requires
        old(heap).wf(),
        old(frame).wf(old(heap)),
    ensures
        is_outcome(final(frame), final(heap), r, unary(*op, old(frame)@, old(heap)@)),
        is_sound(final(frame), final(heap), r),
{
    let t: Value = match frame.pop() {
        Ok(v) => v,
        Err(e) => {
            return Err(e);
        },
    };
    let out: Option<Value> = match op {
        Operation::Neg => match t {
            Value::Integer(a) => Some(Value::Integer(0i64.wrapping_sub(a))),
            Value::Real(a) => Some(Value::Real(a.negate())),
            _ => None,
        },
        Operation::Not => match t {
            Value::Integer(a) => Some(Value::Integer(-1 - a)),
            _ => None,
        },
        Operation::IntToReal => match t {
            Value::Integer(a) => Some(Value::Real(Real::from_integer(a))),
            Value::Real(_) => Some(t),
            _ => None,
        },
        _ => match t {
            Value::Integer(_) => Some(t),
            Value::Real(a) => Some(Value::Integer(a.truncate())),
            _ => None,
        },
    };
    match out {
        Some(v) => {
            frame.push(v);
            Ok(VmAction::Continue)
        },
        None => {
            heap.release(t);
            Err(VmError::Type(t.get_type(), 0))
        },
    }
}

/// The top `k` values of the operand stack, in the order in which they are
/// popped.
pub open spec fn taken(stack: Seq<Value>, k: int) -> Seq<Value> {
    Seq::new(k as nat, |i: int| stack[stack.len() - 1 - i])
}

/// A call with `n` arguments: the function is on top of the stack, the
/// arguments below it.
pub open spec fn call(n: u8, frame: Frame, store: Store) -> Outcome {
    let depth = frame.stack.len() as int;
    if depth == 0 {
        fail(frame, store, VmError::StackEmpty)
    } else if depth < n + 1 {
        fail(
            frame.with_stack(Seq::empty()),
            store.drain(taken(frame.stack, depth)),
            VmError::StackEmpty,
        )
    } else {
        let target = frame.top();
        let args = taken(frame.stack, n + 1).skip(1);
        let rest = frame.with_stack(frame.stack.take(depth - n - 1));
        match target {
            Value::Function(f) => ask(rest, store, Action::Call(f, args)),
            Value::NativeFn(f) => ask(rest, store, Action::CallNative(f, args)),
            _ => fail(
                rest,
                store.drain(taken(frame.stack, n + 1)),
                VmError::Type(target.type_of(), 0),
            ),
        }
    }
}

/// Does to frame and heap what [`call`] says.
fn run_call(n: u8, frame: &mut CallFrame, heap: &mut Heap) -> (r: Result<VmAction, VmError>)
    requires
        old(heap).wf(),
        old(frame).wf(old(heap)),
    ensures
        is_outcome(final(frame), final(heap), r, call(n, old(frame)@, old(heap)@)),
        is_sound(final(frame), final(heap), r),
{
    let ghost stack = frame@.stack;
    let target: Value = match frame.pop() {
        Ok(v) => v,
        Err(e) => {
            return Err(e);
        },
    };
    let mut all: Vec<Value> = Vec::new();
    all.push(target);
    let mut args: Vec<Value> = Vec::new();
    let mut i: u8 = 0;
    while i < n
        invariant
            i <= n,
            i + 1 <= stack.len(),
            stack == old(frame)@.stack,
            frame@ == old(frame)@.with_stack(stack.take(stack.len() - i - 1)),
            all@ == taken(stack, i + 1),
            args@ == all@.skip(1),
            heap@ == old(heap)@,
            heap.wf(),
            old(frame).wf(old(heap)),
            heap@.admits_all(stack),
        decreases n - i,
    {
        match frame.pop() {
            Ok(v) => {
                all.push(v);
                args.push(v);
                i += 1;
                assert(all@ =~= taken(stack, i + 1));
                assert(args@ =~= all@.skip(1));
                assert(frame@.stack =~= stack.take(stack.len() - i - 1));
            },
            Err(e) => {
                assert(stack.len() == i + 1);
                assert(frame@.stack =~= Seq::<Value>::empty());
                heap.release_all(all);
                return Err(e);
            },
        }
    }
    match target {
        Value::Function(f) => Ok(VmAction::Call(f, args)),
        Value::NativeFn(f) => Ok(VmAction::CallNative(f, args)),
        _ => {
            heap.release_all(all);
            Err(VmError::Type(target.get_type(), 0))
        },
    }
}

/// Whether a conditional jump is taken on the value `v`; none where the
/// value is of a type that the jump does not take.
pub open spec fn jump_taken(op: Operation, v: Value) -> Option<bool> {
    match op {
        Operation::JumpZero(_) => match v {
            Value::Bool(t) => Some(!t),
            Value::Integer(x) => Some(x == 0),
            Value::Real(x) => Some(x.zero()),
            _ => None,
        },
        _ => match v {
            Value::Nil => Some(true),
            Value::Integer(x) => Some(x < 0),
            Value::Real(x) => Some(x.negative()),
            _ => None,
        },
    }
}

/// A conditional jump by `delta` bytes.
pub open spec fn branch(op: Operation, delta: i32, frame: Frame, store: Store) -> Outcome {
    if frame.stack.len() == 0 {
        fail(frame, store, VmError::StackEmpty)
    } else {
        let t = frame.top();
        let rest = frame.popped();
        match jump_taken(op, t) {
            Some(true) => ask(rest, store, Action::Jump(delta)),
            Some(false) => done(rest, store),
            None => fail(rest, store.release(t), VmError::Type(t.type_of(), 0)),
        }
    }
}

/// Does to frame and heap what [`branch`] says.
fn run_branch(op: &Operation, delta: i32, frame: &mut CallFrame, heap: &mut Heap) -> (r: Result<
    VmAction,
    VmError,
>)
    requires
        old(heap).wf(),
        old(frame).wf(old(heap)),
    ensures
        is_outcome(final(frame), final(heap), r, branch(*op, delta, old(frame)@, old(heap)@)),
        is_sound(final(frame), final(heap), r),
{
    let t: Value = match frame.pop() {
        Ok(v) => v,
        Err(e) => {
            return Err(e);
        },
    };
    let taken: Option<bool> = match op {
        Operation::JumpZero(_) => match t {
            Value::Bool(t) => Some(!t),
            Value::Integer(x) => Some(x == 0),
            Value::Real(x) => Some(x.is_zero()),
            _ => None,
        },
        _ => match t {
            Value::Nil => Some(true),
            Value::Integer(x) => Some(x < 0),
            Value::Real(x) => Some(x.is_negative()),
            _ => None,
        },
    };
    match taken {
        Some(true) => Ok(VmAction::Jump(delta)),
        Some(false) => Ok(VmAction::Continue),
        None => {
            heap.release(t);
            Err(VmError::Type(t.get_type(), 0))
        },
    }
}

/// The end of the call: the top of the stack is its result.
pub open spec fn finish(frame: Frame, store: Store) -> Outcome {
    if frame.stack.len() == 0 {
        fail(frame, store, VmError::StackEmpty)
    } else {
        ask(frame.popped(), store, Action::Return(frame.top()))
    }
}

/// A copy of the local slot `index` is put on the stack.
pub open spec fn local_load(index: u8, frame: Frame, store: Store) -> Outcome {
    if index < frame.local.len() {
        done(frame.pushed(frame.local[index as int]), store.retain(frame.local[index as int]))
    } else {
        fail(frame, store, VmError::FrameRead(index))
    }
}

/// The top of the stack is moved to the local slot `index`; what the slot
/// held is let go.
pub open spec fn local_store(index: u8, frame: Frame, store: Store) -> Outcome {
    if frame.stack.len() == 0 {
        fail(frame, store, VmError::StackEmpty)
    } else {
        let rest = frame.popped();
        done(
            rest.with_local(rest.written(index, frame.top())),
            store.release(rest.slot(index)),
        )
    }
}

/// The top of the stack and the local slot `index` change places.
pub open spec fn local_swap(index: u8, frame: Frame, store: Store) -> Outcome {
    if frame.stack.len() == 0 {
        fail(frame, store, VmError::StackEmpty)
    } else {
        let rest = frame.popped();
        done(rest.with_local(rest.written(index, frame.top())).pushed(rest.slot(index)), store)
    }
}

/// A copy of the top of the stack is put on the stack.
pub open spec fn stack_copy(frame: Frame, store: Store) -> Outcome {
    if frame.stack.len() == 0 {
        fail(frame, store, VmError::StackEmpty)
    } else {
        done(frame.pushed(frame.top()), store.retain(frame.top()))
    }
}

/// The top of the stack is taken off and let go.
pub open spec fn stack_pop(frame: Frame, store: Store) -> Outcome {
    if frame.stack.len() == 0 {
        fail(frame, store, VmError::StackEmpty)
    } else {
        done(frame.popped(), store.release(frame.top()))
    }
}

/// Does to frame and heap what [`finish`] says.
fn run_finish(frame: &mut CallFrame, heap: &mut Heap) -> (r: Result<VmAction, VmError>)
    requires
        old(heap).wf(),
        old(frame).wf(old(heap)),
    ensures
        is_outcome(final(frame), final(heap), r, finish(old(frame)@, old(heap)@)),
        is_sound(final(frame), final(heap), r),
{
    match frame.pop() {
        Ok(v) => Ok(VmAction::Return(v)),
        Err(e) => Err(e),
    }
}

/// Puts a value on the operand stack.
fn run_literal(v: Value, frame: &mut CallFrame, heap: &mut Heap) -> (r: Result<VmAction, VmError>)
    requires
        old(heap).wf(),
        old(frame).wf(old(heap)),
        old(heap)@.admits(v),
    ensures
        is_outcome(final(frame), final(heap), r, done(old(frame)@.pushed(v), old(heap)@)),
        is_sound(final(frame), final(heap), r),
{
    frame.push(v);
    Ok(VmAction::Continue)
}

/// Does to frame and heap what [`local_load`] says.
fn run_local_load(index: u8, frame: &mut CallFrame, heap: &mut Heap) -> (r: Result<
    VmAction,
    VmError,
>)
    requires
        old(heap).wf(),
        old(frame).wf(old(heap)),
    ensures
        is_outcome(final(frame), final(heap), r, local_load(index, old(frame)@, old(heap)@)),
        is_sound(final(frame), final(heap), r),
{
    let v: Value = match frame.load(index) {
        Ok(v) => *v,
        Err(e) => {
            return Err(e);
        },
    };
    heap.retain(v);
    frame.push(v);
    Ok(VmAction::Continue)
}

/// Does to frame and heap what [`local_store`] says.
fn run_local_store(index: u8, frame: &mut CallFrame, heap: &mut Heap) -> (r: Result<
    VmAction,
    VmError,
>)
    requires
        old(heap).wf(),
        old(frame).wf(old(heap)),
    ensures
        is_outcome(final(frame), final(heap), r, local_store(index, old(frame)@, old(heap)@)),
        is_sound(final(frame), final(heap), r),
{
    let t: Value = match frame.pop() {
        Ok(v) => v,
        Err(e) => {
            return Err(e);
        },
    };
    let before: Value = frame.store(index, t);
    heap.release(before);
    Ok(VmAction::Continue)
}

/// Does to frame and heap what [`local_swap`] says.
fn run_local_swap(index: u8, frame: &mut CallFrame, heap: &mut Heap) -> (r: Result<
    VmAction,
    VmError,
>)
    requires
        old(heap).wf(),
        old(frame).wf(old(heap)),
    ensures
        is_outcome(final(frame), final(heap), r, local_swap(index, old(frame)@, old(heap)@)),
        is_sound(final(frame), final(heap), r),
{
    let mut t: Value = match frame.pop() {
        Ok(v) => v,
        Err(e) => {
            return Err(e);
        },
    };
    frame.swap(index, &mut t);
    frame.push(t);
    Ok(VmAction::Continue)
}

/// Does to frame and heap what [`stack_copy`] says.
fn run_stack_copy(frame: &mut CallFrame, heap: &mut Heap) -> (r: Result<VmAction, VmError>)
    requires
        old(heap).wf(),
        old(frame).wf(old(heap)),
    ensures
        is_outcome(final(frame), final(heap), r, stack_copy(old(frame)@, old(heap)@)),
        is_sound(final(frame), final(heap), r),
{
    let t: Value = match frame.pop() {
        Ok(v) => v,
        Err(e) => {
            return Err(e);
        },
    };
    heap.retain(t);
    frame.push(t);
    frame.push(t);
    assert(frame@.stack =~= old(frame)@.stack.push(t));
    Ok(VmAction::Continue)
}

/// Does to frame and heap what [`stack_pop`] says.
fn run_stack_pop(frame: &mut CallFrame, heap: &mut Heap) -> (r: Result<VmAction, VmError>)
    requires
        old(heap).wf(),
        old(frame).wf(old(heap)),
    ensures
        is_outcome(final(frame), final(heap), r, stack_pop(old(frame)@, old(heap)@)),
        is_sound(final(frame), final(heap), r),
{
    let t: Value = match frame.pop() {
        Ok(v) => v,
        Err(e) => {
            return Err(e);
        },
    };
    heap.release(t);
    Ok(VmAction::Continue)
}

/// The value that stands for the result of a comparison.
pub open spec fn order_value(o: Option<Ordering>) -> Value {
    match o {
        Some(Ordering::Less) => Value::Integer(-1i64),
        Some(Ordering::Equal) => Value::Integer(0i64),
        Some(Ordering::Greater) => Value::Integer(1i64),
        None => Value::Nil,
    }
}

/// The comparison of the two values on top of the stack: the top one is the
/// second.
pub open spec fn compare(frame: Frame, store: Store) -> Outcome {
    if frame.stack.len() == 0 {
        fail(frame, store, VmError::StackEmpty)
    } else if frame.stack.len() == 1 {
        fail(frame.popped(), store.release(frame.top()), VmError::StackEmpty)
    } else {
        let rhs = frame.top();
        let lhs = frame.popped().top();
        let rest = frame.popped().popped();
        done(rest.pushed(order_value(order(store, lhs, rhs))), store.drain(seq![rhs, lhs]))
    }
}

/// Does to frame and heap what [`compare`] says.
fn run_compare(frame: &mut CallFrame, heap: &mut Heap) -> (r: Result<VmAction, VmError>)
    requires
        old(heap).wf(),
        old(frame).wf(old(heap)),
    ensures
        is_outcome(final(frame), final(heap), r, compare(old(frame)@, old(heap)@)),
        is_sound(final(frame), final(heap), r),
{
    let rhs: Value = match frame.pop() {
        Ok(v) => v,
        Err(e) => {
            return Err(e);
        },
    };
    let lhs: Value = match frame.pop() {
        Ok(v) => v,
        Err(e) => {
            heap.release(rhs);
            return Err(e);
        },
    };
    let out: Value = match lhs.cmp(&rhs, heap) {
        Some(Ordering::Less) => Value::Integer(-1),
        Some(Ordering::Equal) => Value::Integer(0),
        Some(Ordering::Greater) => Value::Integer(1),
        None => Value::Nil,
    };
    frame.push(out);
    release_two(heap, rhs, lhs);
    Ok(VmAction::Continue)
}

/// The handle of the object that the next allocation in a table of `len`
/// objects makes.
pub open spec fn fresh(len: nat) -> Handle {
    Handle { index: len as usize }
}

/// A new empty list is put on the stack.
pub open spec fn list_create(frame: Frame, store: Store) -> Outcome {
    done(
        frame.pushed(Value::List(fresh(store.lists.len()))),
        store.with_new_list(Seq::empty()),
    )
}

/// A new empty byte buffer is put on the stack.
pub open spec fn bytes_create(frame: Frame, store: Store) -> Outcome {
    done(
        frame.pushed(Value::BytesBuffer(fresh(store.buffers.len()))),
        store.with_new_buffer(Seq::empty()),
    )
}

/// A new empty string buffer is put on the stack.
pub open spec fn string_create(frame: Frame, store: Store) -> Outcome {
    done(
        frame.pushed(Value::StringBuffer(fresh(store.texts.len()))),
        Store { texts: store.texts.push(Seq::empty()), ..store },
    )
}

/// The top of the stack is added at the end of the list below it.
pub open spec fn list_push(frame: Frame, store: Store) -> Outcome {
    if frame.stack.len() == 0 {
        fail(frame, store, VmError::StackEmpty)
    } else if frame.stack.len() == 1 {
        fail(frame.popped(), store.release(frame.top()), VmError::StackEmpty)
    } else {
        let item = frame.top();
        let target = frame.popped().top();
        let rest = frame.popped().popped();
        match target {
            Value::List(h) => done(
                rest,
                store.with_items(h, store.list_of(h).push(item)).release(target),
            ),
            _ => fail(
                rest,
                store.drain(seq![item, target]),
                VmError::Type(target.type_of(), 1),
            ),
        }
    }
}

/// The last item of the list on top of the stack takes the place of the
/// list.
pub open spec fn list_pop(frame: Frame, store: Store) -> Outcome {
    if frame.stack.len() == 0 {
        fail(frame, store, VmError::StackEmpty)
    } else {
        let target = frame.top();
        let rest = frame.popped();
        match target {
            Value::List(h) => if store.list_of(h).len() == 0 {
                fail(rest, store.release(target), VmError::IndexRead(0))
            } else {
                done(
                    rest.pushed(store.list_of(h).last()),
                    store.with_items(h, store.list_of(h).drop_last()).release(target),
                )
            },
            _ => fail(rest, store.release(target), VmError::Type(target.type_of(), 0)),
        }
    }
}

/// A weak handle takes the place of the strong handle on top of the stack,
/// which is let go.
pub open spec fn list_downgrade(frame: Frame, store: Store) -> Outcome {
    if frame.stack.len() == 0 {
        fail(frame, store, VmError::StackEmpty)
    } else {
        let target = frame.top();
        let rest = frame.popped();
        match target {
            Value::List(h) => done(rest.pushed(Value::ListWeak(h)), store.release(target)),
            _ => fail(rest, store.release(target), VmError::Type(target.type_of(), 0)),
        }
    }
}

/// A strong handle takes the place of the weak handle on top of the stack,
/// if the list is alive, and `Nil` if it is not.
pub open spec fn list_upgrade(frame: Frame, store: Store) -> Outcome {
    if frame.stack.len() == 0 {
        fail(frame, store, VmError::StackEmpty)
    } else {
        let target = frame.top();
        let rest = frame.popped();
        match target {
            Value::ListWeak(h) => if store.alive(h) {
                done(rest.pushed(Value::List(h)), store.retain(Value::List(h)))
            } else {
                done(rest.pushed(Value::Nil), store)
            },
            _ => fail(rest, store.release(target), VmError::Type(target.type_of(), 0)),
        }
    }
}

/// The value that stands for a character, or for none.
pub open spec fn char_or_nil(c: Option<char>) -> Value {
    match c {
        Some(c) => char_value(c),
        None => Value::Nil,
    }
}

/// The character at a byte index: the index is on top of the stack, the
/// string below it.
pub open spec fn string_char_at(frame: Frame, store: Store) -> Outcome {
    if frame.stack.len() == 0 {
        fail(frame, store, VmError::StackEmpty)
    } else {
        let index = frame.top();
        match index {
            Value::Integer(i) => if frame.stack.len() == 1 {
                fail(frame.popped(), store, VmError::StackEmpty)
            } else {
                let target = frame.popped().top();
                let rest = frame.popped().popped();
                if target is StringValue || target is StringBuffer {
                    done(
                        rest.pushed(char_or_nil(scalar_from(content(store, target), i as int))),
                        store,
                    )
                } else {
                    fail(rest, store.release(target), VmError::Type(target.type_of(), 1))
                }
            },
            _ => fail(frame.popped(), store.release(index), VmError::Type(index.type_of(), 0)),
        }
    }
}

/// A new list of the characters of the string on top of the stack takes
/// its place.
pub open spec fn string_chars(frame: Frame, store: Store) -> Outcome {
    if frame.stack.len() == 0 {
        fail(frame, store, VmError::StackEmpty)
    } else {
        let target = frame.top();
        let rest = frame.popped();
        if target is StringValue || target is StringBuffer {
            done(
                rest.pushed(Value::List(fresh(store.lists.len()))),
                store.with_new_list(char_values(characters(store, target))),
            )
        } else {
            fail(rest, store.release(target), VmError::Type(target.type_of(), 0))
        }
    }
}

/// Does to frame and heap what [`list_create`] says.
fn run_list_create(frame: &mut CallFrame, heap: &mut Heap) -> (r: Result<VmAction, VmError>)
    requires
        old(heap).wf(),
        old(frame).wf(old(heap)),
    ensures
        is_outcome(final(frame), final(heap), r, list_create(old(frame)@, old(heap)@)),
        is_sound(final(frame), final(heap), r),
{
    let h: Handle = heap.alloc_list(List::from_vec(Vec::new()));
    frame.push(Value::List(h));
    Ok(VmAction::Continue)
}

/// Does to frame and heap what [`bytes_create`] says.
fn run_bytes_create(frame: &mut CallFrame, heap: &mut Heap) -> (r: Result<VmAction, VmError>)
    requires
        old(heap).wf(),
        old(frame).wf(old(heap)),
    ensures
        is_outcome(final(frame), final(heap), r, bytes_create(old(frame)@, old(heap)@)),
        is_sound(final(frame), final(heap), r),
{
    let h: Handle = heap.alloc_buffer(BytesBuffer::from_vec(Vec::new()));
    frame.push(Value::BytesBuffer(h));
    Ok(VmAction::Continue)
}

/// Does to frame and heap what [`string_create`] says.
fn run_string_create(frame: &mut CallFrame, heap: &mut Heap) -> (r: Result<VmAction, VmError>)
    requires
        old(heap).wf(),
        old(frame).wf(old(heap)),
    ensures
        is_outcome(final(frame), final(heap), r, string_create(old(frame)@, old(heap)@)),
        is_sound(final(frame), final(heap), r),
{
    let h: Handle = heap.alloc_text(StringBuffer::from_string(String::new()));
    frame.push(Value::StringBuffer(h));
    Ok(VmAction::Continue)
}

/// Does to frame and heap what [`list_push`] says.
fn run_list_push(frame: &mut CallFrame, heap: &mut Heap) -> (r: Result<VmAction, VmError>)
    requires
        old(heap).wf(),
        old(frame).wf(old(heap)),
    ensures
        is_outcome(final(frame), final(heap), r, list_push(old(frame)@, old(heap)@)),
        is_sound(final(frame), final(heap), r),
{
    let item: Value = match frame.pop() {
        Ok(v) => v,
        Err(e) => {
            return Err(e);
        },
    };
    let target: Value = match frame.pop() {
        Ok(v) => v,
        Err(e) => {
            heap.release(item);
            return Err(e);
        },
    };
    match target {
        Value::List(h) => {
            heap.list_push(h, item);
            heap.release(target);
            Ok(VmAction::Continue)
        },
        _ => {
            release_two(heap, item, target);
            Err(VmError::Type(target.get_type(), 1))
        },
    }
}

/// Does to frame and heap what [`list_pop`] says.
fn run_list_pop(frame: &mut CallFrame, heap: &mut Heap) -> (r: Result<VmAction, VmError>)
    requires
        old(heap).wf(),
        old(frame).wf(old(heap)),
    ensures
        is_outcome(final(frame), final(heap), r, list_pop(old(frame)@, old(heap)@)),
        is_sound(final(frame), final(heap), r),
{
    let target: Value = match frame.pop() {
        Ok(v) => v,
        Err(e) => {
            return Err(e);
        },
    };
    match target {
        Value::List(h) => match heap.list_pop(h) {
            Some(item) => {
                frame.push(item);
                heap.release(target);
                Ok(VmAction::Continue)
            },
            None => {
                heap.release(target);
                Err(VmError::IndexRead(0))
            },
        },
        _ => {
            heap.release(target);
            Err(VmError::Type(target.get_type(), 0))
        },
    }
}

/// Does to frame and heap what [`list_downgrade`] says.
fn run_list_downgrade(frame: &mut CallFrame, heap: &mut Heap) -> (r: Result<VmAction, VmError>)
    requires
        old(heap).wf(),
        old(frame).wf(old(heap)),
    ensures
        is_outcome(final(frame), final(heap), r, list_downgrade(old(frame)@, old(heap)@)),
        is_sound(final(frame), final(heap), r),
{
    let target: Value = match frame.pop() {
        Ok(v) => v,
        Err(e) => {
            return Err(e);
        },
    };
    match target {
        Value::List(h) => {
            frame.push(Value::ListWeak(h));
            heap.release(target);
            Ok(VmAction::Continue)
        },
        _ => {
            heap.release(target);
            Err(VmError::Type(target.get_type(), 0))
        },
    }
}

/// Does to frame and heap what [`list_upgrade`] says.
fn run_list_upgrade(frame: &mut CallFrame, heap: &mut Heap) -> (r: Result<VmAction, VmError>)
    requires
        old(heap).wf(),
        old(frame).wf(old(heap)),
    ensures
        is_outcome(final(frame), final(heap), r, list_upgrade(old(frame)@, old(heap)@)),
        is_sound(final(frame), final(heap), r),
{
    let target: Value = match frame.pop() {
        Ok(v) => v,
        Err(e) => {
            return Err(e);
        },
    };
    match target {
        Value::ListWeak(h) => {
            match heap.upgrade(h) {
                Some(strong) => {
                    frame.push(Value::List(strong));
                },
                None => {
                    frame.push(Value::Nil);
                },
            }
            Ok(VmAction::Continue)
        },
        _ => {
            heap.release(target);
            Err(VmError::Type(target.get_type(), 0))
        },
    }
}

/// Does to frame and heap what [`string_char_at`] says.
fn run_string_char_at(frame: &mut CallFrame, heap: &mut Heap) -> (r: Result<VmAction, VmError>)
    requires
        old(heap).wf(),
        old(frame).wf(old(heap)),
    ensures
        is_outcome(final(frame), final(heap), r, string_char_at(old(frame)@, old(heap)@)),
        is_sound(final(frame), final(heap), r),
{
    let index: Value = match frame.pop() {
        Ok(v) => v,
        Err(e) => {
            return Err(e);
        },
    };
    let i: i64 = match index {
        Value::Integer(i) => i,
        _ => {
            heap.release(index);
            return Err(VmError::Type(index.get_type(), 0));
        },
    };
    let target: Value = match frame.pop() {
        Ok(v) => v,
        Err(e) => {
            return Err(e);
        },
    };
    let found: Option<char> = match target {
        Value::StringValue(h) => {
            let length: usize = heap.strings[h.index].as_bytes().len();
            match index_within(i, length) {
                Some(at) => heap.strings[h.index].get_char_at(at),
                None => None,
            }
        },
        Value::StringBuffer(h) => {
            let length: usize = heap.texts[h.index].len();
            match index_within(i, length) {
                Some(at) => heap.texts[h.index].get_char_at(at),
                None => None,
            }
        },
        _ => {
            heap.release(target);
            return Err(VmError::Type(target.get_type(), 1));
        },
    };
    match found {
        Some(c) => {
            frame.push(Value::Char(c));
        },
        None => {
            frame.push(Value::Nil);
        },
    }
    Ok(VmAction::Continue)
}

/// Does to frame and heap what [`string_chars`] says.
fn run_string_chars(frame: &mut CallFrame, heap: &mut Heap) -> (r: Result<VmAction, VmError>)
    requires
        old(heap).wf(),
        old(frame).wf(old(heap)),
    ensures
        is_outcome(final(frame), final(heap), r, string_chars(old(frame)@, old(heap)@)),
        is_sound(final(frame), final(heap), r),
{
    let target: Value = match frame.pop() {
        Ok(v) => v,
        Err(e) => {
            return Err(e);
        },
    };
    let chars: List = match target {
        Value::StringValue(h) => heap.strings[h.index].get_chars(),
        Value::StringBuffer(h) => heap.texts[h.index].get_chars(),
        _ => {
            heap.release(target);
            return Err(VmError::Type(target.get_type(), 0));
        },
    };
    let h: Handle = heap.alloc_list(chars);
    frame.push(Value::List(h));
    Ok(VmAction::Continue)
}

/// An integer of the machine as an index into a sequence of `len` items.
pub fn index_within(i: i64, len: usize) -> (r: Option<usize>)
    ensures
        r is Some <==> 0 <= i < len,
        r is Some ==> r.unwrap() == i,
{
    if i < 0 || (i as u64) >= (len as u64) {
        None
    } else {
        Some(i as usize)
    }
}

/// An integer of the machine as a length in memory; none where it is
/// negative or beyond what memory can hold.
pub open spec fn length_of(i: i64) -> Option<usize> {
    if 0 <= i <= usize::MAX {
        Some(i as usize)
    } else {
        None
    }
}

/// An integer of the machine as a length in memory.
pub fn to_length(i: i64) -> (r: Option<usize>)
    ensures
        r == length_of(i),
{
    if i < 0 || (i as u64) > (usize::MAX as u64) {
        None
    } else {
        Some(i as usize)
    }
}

/// The item at an index: the index is on top of the stack, the sequence
/// below it.
pub open spec fn seq_get(frame: Frame, store: Store) -> Outcome {
    if frame.stack.len() == 0 {
        fail(frame, store, VmError::StackEmpty)
    } else {
        let index = frame.top();
        match index {
            Value::Integer(i) => if frame.stack.len() == 1 {
                fail(frame.popped(), store, VmError::StackEmpty)
            } else {
                let target = frame.popped().top();
                let rest = frame.popped().popped();
                match target {
                    Value::List(h) => if 0 <= i < store.list_of(h).len() {
                        let item = store.list_of(h)[i as int];
                        done(rest.pushed(item), store.retain(item).release(target))
                    } else {
                        fail(rest, store.release(target), VmError::IndexRead(i))
                    },
                    _ => if holds_bytes(target) {
                        if 0 <= i < content(store, target).len() {
                            done(
                                rest.pushed(Value::Integer(content(store, target)[i as int] as i64)),
                                store,
                            )
                        } else {
                            fail(rest, store, VmError::IndexRead(i))
                        }
                    } else {
                        fail(rest, store.release(target), VmError::Type(target.type_of(), 1))
                    },
                }
            },
            _ => fail(frame.popped(), store.release(index), VmError::Type(index.type_of(), 0)),
        }
    }
}

/// Does to frame and heap what [`seq_get`] says.
fn run_seq_get(frame: &mut CallFrame, heap: &mut Heap) -> (r: Result<VmAction, VmError>)
    requires
        old(heap).wf(),
        old(frame).wf(old(heap)),
    ensures
        is_outcome(final(frame), final(heap), r, seq_get(old(frame)@, old(heap)@)),
        is_sound(final(frame), final(heap), r),
{
    let index: Value = match frame.pop() {
        Ok(v) => v,
        Err(e) => {
            return Err(e);
        },
    };
    let i: i64 = match index {
        Value::Integer(i) => i,
        _ => {
            heap.release(index);
            return Err(VmError::Type(index.get_type(), 0));
        },
    };
    let target: Value = match frame.pop() {
        Ok(v) => v,
        Err(e) => {
            return Err(e);
        },
    };
    match target {
        Value::List(h) => {
            let found: Option<Value> = match index_within(i, heap.lists[h.index].items.len()) {
                Some(at) => heap.lists[h.index].items.get(at),
                None => None,
            };
            match found {
                Some(item) => {
                    assert(heap@.admits_all(heap@.lists[h.index as int].items));
                    heap.retain(item);
                    frame.push(item);
                    heap.release(target);
                    Ok(VmAction::Continue)
                },
                None => {
                    heap.release(target);
                    Err(VmError::IndexRead(i))
                },
            }
        },
        Value::Bytes(h) => {
            let found: Option<Value> = match index_within(i, heap.bytes[h.index].len()) {
                Some(at) => heap.bytes[h.index].get(at),
                None => None,
            };
            match found {
                Some(item) => {
                    frame.push(item);
                    Ok(VmAction::Continue)
                },
                None => Err(VmError::IndexRead(i)),
            }
        },
        Value::BytesBuffer(h) => {
            let found: Option<Value> = match index_within(i, heap.buffers[h.index].len()) {
                Some(at) => heap.buffers[h.index].get(at),
                None => None,
            };
            match found {
                Some(item) => {
                    frame.push(item);
                    Ok(VmAction::Continue)
                },
                None => Err(VmError::IndexRead(i)),
            }
        },
        _ => {
            heap.release(target);
            Err(VmError::Type(target.get_type(), 1))
        },
    }
}

/// A value is written at an index: the value is on top of the stack, the
/// index below it, the sequence below that. What stood at the index of a
/// list is let go. A byte buffer takes the low eight bits of an integer.
pub open spec fn seq_set(frame: Frame, store: Store) -> Outcome {
    if frame.stack.len() == 0 {
        fail(frame, store, VmError::StackEmpty)
    } else if frame.stack.len() == 1 {
        fail(frame.popped(), store.release(frame.top()), VmError::StackEmpty)
    } else {
        let v = frame.top();
        let index = frame.popped().top();
        match index {
            Value::Integer(i) => if frame.stack.len() == 2 {
                fail(frame.popped().popped(), store.release(v), VmError::StackEmpty)
            } else {
                let target = frame.popped().popped().top();
                let rest = frame.popped().popped().popped();
                match target {
                    Value::List(h) => if 0 <= i < store.list_of(h).len() {
                        done(
                            rest,
                            store.with_items(h, store.list_of(h).update(i as int, v)).release(
                                store.list_of(h)[i as int],
                            ).release(target),
                        )
                    } else {
                        fail(rest, store.release(v).release(target), VmError::IndexWrite(i))
                    },
                    Value::BytesBuffer(h) => match v {
                        Value::Integer(x) => if 0 <= i < store.buffer_of(h).len() {
                            done(
                                rest,
                                store.with_buffer(h, store.buffer_of(h).update(i as int, x as u8)),
                            )
                        } else {
                            fail(rest, store, VmError::IndexWrite(i))
                        },
                        _ => fail(rest, store.release(v), VmError::Type(v.type_of(), 0)),
                    },
                    _ => fail(
                        rest,
                        store.release(v).release(target),
                        VmError::Type(target.type_of(), 2),
                    ),
                }
            },
            _ => fail(
                frame.popped().popped(),
                store.drain(seq![v, index]),
                VmError::Type(index.type_of(), 1),
            ),
        }
    }
}

/// Does to frame and heap what [`seq_set`] says.
fn run_seq_set(frame: &mut CallFrame, heap: &mut Heap) -> (r: Result<VmAction, VmError>)
    requires
        old(heap).wf(),
        old(frame).wf(old(heap)),
    ensures
        is_outcome(final(frame), final(heap), r, seq_set(old(frame)@, old(heap)@)),
        is_sound(final(frame), final(heap), r),
{
    let v: Value = match frame.pop() {
        Ok(v) => v,
        Err(e) => {
            return Err(e);
        },
    };
    let index: Value = match frame.pop() {
        Ok(v) => v,
        Err(e) => {
            heap.release(v);
            return Err(e);
        },
    };
    let i: i64 = match index {
        Value::Integer(i) => i,
        _ => {
            release_two(heap, v, index);
            return Err(VmError::Type(index.get_type(), 1));
        },
    };
    let target: Value = match frame.pop() {
        Ok(v) => v,
        Err(e) => {
            heap.release(v);
            return Err(e);
        },
    };
    match target {
        Value::List(h) => match index_within(i, heap.lists[h.index].items.len()) {
            Some(at) => {
                match heap.list_set(h, at, v) {
                    Some(before) => {
                        heap.release(before);
                    },
                    None => {},
                }
                heap.release(target);
                Ok(VmAction::Continue)
            },
            None => {
                heap.release(v);
                heap.release(target);
                Err(VmError::IndexWrite(i))
            },
        },
        Value::BytesBuffer(h) => match v {
            Value::Integer(x) => match index_within(i, heap.buffers[h.index].len()) {
                Some(at) => {
                    heap.buffer_set(h, at, #[verifier::truncate] (x as u8));
                    Ok(VmAction::Continue)
                },
                None => Err(VmError::IndexWrite(i)),
            },
            _ => {
                heap.release(v);
                Err(VmError::Type(v.get_type(), 0))
            },
        },
        _ => {
            heap.release(v);
            heap.release(target);
            Err(VmError::Type(target.get_type(), 2))
        },
    }
}

/// A new sequence of the items from a start to an end: the end is on top of
/// the stack, the start below it, the sequence below that. A list gives a
/// list, a byte array or buffer a new buffer.
pub open spec fn seq_get_slice(frame: Frame, store: Store) -> Outcome {
    if frame.stack.len() == 0 {
        fail(frame, store, VmError::StackEmpty)
    } else {
        let end = frame.top();
        match end {
            Value::Integer(b) => if frame.stack.len() == 1 {
                fail(frame.popped(), store, VmError::StackEmpty)
            } else {
                let start = frame.popped().top();
                match start {
                    Value::Integer(a) => if frame.stack.len() == 2 {
                        fail(frame.popped().popped(), store, VmError::StackEmpty)
                    } else {
                        let target = frame.popped().popped().top();
                        let rest = frame.popped().popped().popped();
                        match target {
                            Value::List(h) => if range_within(
                                a as int,
                                b as int,
                                store.list_of(h).len() as int,
                            ) {
                                let items = store.list_of(h).subrange(a as int, b as int);
                                done(
                                    rest.pushed(Value::List(fresh(store.lists.len()))),
                                    store.retain_all(items).with_new_list(items).release(target),
                                )
                            } else {
                                fail(rest, store.release(target), VmError::SliceRead(a, b))
                            },
                            _ => if holds_bytes(target) {
                                if range_within(
                                    a as int,
                                    b as int,
                                    content(store, target).len() as int,
                                ) {
                                    done(
                                        rest.pushed(
                                            Value::BytesBuffer(fresh(store.buffers.len())),
                                        ),
                                        store.with_new_buffer(
                                            content(store, target).subrange(a as int, b as int),
                                        ),
                                    )
                                } else {
                                    fail(rest, store, VmError::SliceRead(a, b))
                                }
                            } else {
                                fail(
                                    rest,
                                    store.release(target),
                                    VmError::Type(target.type_of(), 2),
                                )
                            },
                        }
                    },
                    _ => fail(
                        frame.popped().popped(),
                        store.release(start),
                        VmError::Type(start.type_of(), 1),
                    ),
                }
            },
            _ => fail(frame.popped(), store.release(end), VmError::Type(end.type_of(), 0)),
        }
    }
}

/// Two integers of the machine as a range within a sequence of `len` items.
fn range_in(a: i64, b: i64, len: usize) -> (r: Option<(usize, usize)>)
    ensures
        r is Some <==> range_within(a as int, b as int, len as int),
        r is Some ==> r.unwrap().0 == a && r.unwrap().1 == b,
{
    if a < 0 || b < a || (b as u64) > (len as u64) {
        None
    } else {
        Some((a as usize, b as usize))
    }
}

/// Does to frame and heap what [`seq_get_slice`] says.
fn run_seq_get_slice(frame: &mut CallFrame, heap: &mut Heap) -> (r: Result<VmAction, VmError>)
    requires
        old(heap).wf(),
        old(frame).wf(old(heap)),
    ensures
        is_outcome(final(frame), final(heap), r, seq_get_slice(old(frame)@, old(heap)@)),
        is_sound(final(frame), final(heap), r),
{
    let end: Value = match frame.pop() {
        Ok(v) => v,
        Err(e) => {
            return Err(e);
        },
    };
    let b: i64 = match end {
        Value::Integer(i) => i,
        _ => {
            heap.release(end);
            return Err(VmError::Type(end.get_type(), 0));
        },
    };
    let start: Value = match frame.pop() {
        Ok(v) => v,
        Err(e) => {
            return Err(e);
        },
    };
    let a: i64 = match start {
        Value::Integer(i) => i,
        _ => {
            heap.release(start);
            return Err(VmError::Type(start.get_type(), 1));
        },
    };
    let target: Value = match frame.pop() {
        Ok(v) => v,
        Err(e) => {
            return Err(e);
        },
    };
    match target {
        Value::List(h) => {
            let found: Option<List> = match range_in(a, b, heap.lists[h.index].items.len()) {
                Some((from, to)) => heap.lists[h.index].items.get_slice(from, to),
                None => None,
            };
            match found {
                Some(items) => {
                    assert(heap@.admits_all(heap@.lists[h.index as int].items));
                    heap.retain_all(items.0.as_slice());
                    let made: Handle = heap.alloc_list(items);
                    frame.push(Value::List(made));
                    heap.release(target);
                    Ok(VmAction::Continue)
                },
                None => {
                    heap.release(target);
                    Err(VmError::SliceRead(a, b))
                },
            }
        },
        Value::Bytes(h) => {
            let found: Option<BytesBuffer> = match range_in(a, b, heap.bytes[h.index].len()) {
                Some((from, to)) => heap.bytes[h.index].get_slice(from, to),
                None => None,
            };
            match found {
                Some(bytes) => {
                    let made: Handle = heap.alloc_buffer(bytes);
                    frame.push(Value::BytesBuffer(made));
                    Ok(VmAction::Continue)
                },
                None => Err(VmError::SliceRead(a, b)),
            }
        },
        Value::BytesBuffer(h) => {
            let found: Option<BytesBuffer> = match range_in(a, b, heap.buffers[h.index].len()) {
                Some((from, to)) => heap.buffers[h.index].get_slice(from, to),
                None => None,
            };
            match found {
                Some(bytes) => {
                    let made: Handle = heap.alloc_buffer(bytes);
                    frame.push(Value::BytesBuffer(made));
                    Ok(VmAction::Continue)
                },
                None => Err(VmError::SliceRead(a, b)),
            }
        },
        _ => {
            heap.release(target);
            Err(VmError::Type(target.get_type(), 2))
        },
    }
}

/// The number of items of a sequence, or of bytes of a string.
pub open spec fn length(store: Store, v: Value) -> Option<nat> {
    match v {
        Value::List(h) => Some(store.list_of(h).len()),
        Value::Bytes(h) => Some(store.bytes_of(h).len()),
        Value::BytesBuffer(h) => Some(store.buffer_of(h).len()),
        Value::StringValue(h) => Some(store.string_of(h).len()),
        Value::StringBuffer(h) => Some(encode_utf8(store.text_of(h)).len()),
        _ => None,
    }
}

/// The length of the sequence on top of the stack takes its place.
pub open spec fn seq_len(frame: Frame, store: Store) -> Outcome {
    if frame.stack.len() == 0 {
        fail(frame, store, VmError::StackEmpty)
    } else {
        let target = frame.top();
        let rest = frame.popped();
        match length(store, target) {
            Some(n) => done(rest.pushed(Value::Integer(n as i64)), store.release(target)),
            None => fail(rest, store.release(target), VmError::Type(target.type_of(), 0)),
        }
    }
}

/// Does to frame and heap what [`seq_len`] says.
fn run_seq_len(frame: &mut CallFrame, heap: &mut Heap) -> (r: Result<VmAction, VmError>)
    requires
        old(heap).wf(),
        old(frame).wf(old(heap)),
    ensures
        is_outcome(final(frame), final(heap), r, seq_len(old(frame)@, old(heap)@)),
        is_sound(final(frame), final(heap), r),
{
    let target: Value = match frame.pop() {
        Ok(v) => v,
        Err(e) => {
            return Err(e);
        },
    };
    let n: usize = match target {
        Value::List(h) => heap.lists[h.index].items.len(),
        Value::Bytes(h) => heap.bytes[h.index].len(),
        Value::BytesBuffer(h) => heap.buffers[h.index].len(),
        Value::StringValue(h) => heap.strings[h.index].as_bytes().len(),
        Value::StringBuffer(h) => heap.texts[h.index].len(),
        _ => {
            heap.release(target);
            return Err(VmError::Type(target.get_type(), 0));
        },
    };
    frame.push(Value::Integer(#[verifier::truncate] (n as i64)));
    heap.release(target);
    Ok(VmAction::Continue)
}

/// A sequence is cut or padded to a length: the length is on top of the
/// stack, the sequence below it. The items that a list loses are let go, the
/// last one first.
pub open spec fn seq_resize(frame: Frame, store: Store) -> Outcome {
    if frame.stack.len() == 0 {
        fail(frame, store, VmError::StackEmpty)
    } else {
        let size = frame.top();
        match size {
            Value::Integer(n) => if frame.stack.len() == 1 {
                fail(frame.popped(), store, VmError::StackEmpty)
            } else {
                let target = frame.popped().top();
                let rest = frame.popped().popped();
                match target {
                    Value::List(h) => match length_of(n) {
                        Some(len) => {
                            let items = store.list_of(h);
                            let lost = if len < items.len() {
                                items.skip(len as int)
                            } else {
                                Seq::empty()
                            };
                            done(
                                rest,
                                store.with_items(h, resized(items, len as nat, Value::Nil)).drain(
                                    lost,
                                ).release(target),
                            )
                        },
                        None => fail(rest, store.release(target), VmError::IndexWrite(n)),
                    },
                    Value::BytesBuffer(h) => match length_of(n) {
                        Some(len) => done(
                            rest,
                            store.with_buffer(h, resized(store.buffer_of(h), len as nat, 0u8)),
                        ),
                        None => fail(rest, store, VmError::IndexWrite(n)),
                    },
                    _ => fail(rest, store.release(target), VmError::Type(target.type_of(), 1)),
                }
            },
            _ => fail(frame.popped(), store.release(size), VmError::Type(size.type_of(), 0)),
        }
    }
}

/// Does to frame and heap what [`seq_resize`] says.
fn run_seq_resize(frame: &mut CallFrame, heap: &mut Heap) -> (r: Result<VmAction, VmError>)
    requires
        old(heap).wf(),
        old(frame).wf(old(heap)),
    ensures
        is_outcome(final(frame), final(heap), r, seq_resize(old(frame)@, old(heap)@)),
        is_sound(final(frame), final(heap), r),
{
    let size: Value = match frame.pop() {
        Ok(v) => v,
        Err(e) => {
            return Err(e);
        },
    };
    let n: i64 = match size {
        Value::Integer(i) => i,
        _ => {
            heap.release(size);
            return Err(VmError::Type(size.get_type(), 0));
        },
    };
    let target: Value = match frame.pop() {
        Ok(v) => v,
        Err(e) => {
            return Err(e);
        },
    };
    match target {
        Value::List(h) => match to_length(n) {
            Some(len) => {
                let before: usize = heap.lists[h.index].items.len();
                let lost: Vec<Value> = if len < before {
                    match heap.lists[h.index].items.get_slice(len, before) {
                        Some(tail) => tail.0,
                        None => Vec::new(),
                    }
                } else {
                    Vec::new()
                };
                heap.list_resize(h, len);
                heap.release_all(lost);
                heap.release(target);
                Ok(VmAction::Continue)
            },
            None => {
                heap.release(target);
                Err(VmError::IndexWrite(n))
            },
        },
        Value::BytesBuffer(h) => match to_length(n) {
            Some(len) => {
                heap.buffer_resize(h, len);
                Ok(VmAction::Continue)
            },
            None => Err(VmError::IndexWrite(n)),
        },
        _ => {
            heap.release(target);
            Err(VmError::Type(target.get_type(), 1))
        },
    }
}

/// The items of one sequence are added at the end of another: the source
/// is on top of the stack, the sequence that grows below it. A list takes
/// copies of the items of a list, a byte buffer the bytes of a byte array
/// or buffer.
pub open spec fn seq_append(frame: Frame, store: Store) -> Outcome {
    if frame.stack.len() == 0 {
        fail(frame, store, VmError::StackEmpty)
    } else if frame.stack.len() == 1 {
        fail(frame.popped(), store.release(frame.top()), VmError::StackEmpty)
    } else {
        let src = frame.top();
        let dst = frame.popped().top();
        let rest = frame.popped().popped();
        let refused = store.release(src).release(dst);
        match dst {
            Value::List(hd) => match src {
                Value::List(hs) => {
                    let items = store.list_of(hs);
                    done(
                        rest,
                        store.with_items(hd, store.list_of(hd) + items).retain_all(items).release(
                            src,
                        ).release(dst),
                    )
                },
                _ => fail(rest, refused, VmError::Type(src.type_of(), 0)),
            },
            Value::BytesBuffer(hd) => if holds_bytes(src) {
                done(rest, store.with_buffer(hd, store.buffer_of(hd) + content(store, src)))
            } else {
                fail(rest, store.release(src), VmError::Type(src.type_of(), 0))
            },
            _ => fail(rest, refused, VmError::Type(dst.type_of(), 1)),
        }
    }
}

/// A copy of the bytes of a byte array or buffer.
fn bytes_of(heap: &Heap, v: &Value) -> (r: Vec<u8>)
    requires
        heap@.admits(*v),
        holds_bytes(*v),
    ensures
        r@ == content(heap@, *v),
{
    let found: Option<BytesBuffer> = match v {
        Value::Bytes(h) => heap.bytes[h.index].get_slice(0, heap.bytes[h.index].len()),
        Value::BytesBuffer(h) => heap.buffers[h.index].get_slice(0, heap.buffers[h.index].len()),
        _ => None,
    };
    match found {
        Some(copy) => {
            assert(copy@ =~= content(heap@, *v));
            copy.0
        },
        None => Vec::new(),
    }
}

/// A copy of the items of a list.
fn items_of(heap: &Heap, h: Handle) -> (r: Vec<Value>)
    requires
        h.index < heap@.lists.len(),
    ensures
        r@ == heap@.list_of(h),
{
    match heap.lists[h.index].items.get_slice(0, heap.lists[h.index].items.len()) {
        Some(copy) => {
            assert(copy@ =~= heap@.list_of(h));
            copy.0
        },
        None => Vec::new(),
    }
}

/// Does to frame and heap what [`seq_append`] says.
fn run_seq_append(frame: &mut CallFrame, heap: &mut Heap) -> (r: Result<VmAction, VmError>)
    requires
        old(heap).wf(),
        old(frame).wf(old(heap)),
    ensures
        is_outcome(final(frame), final(heap), r, seq_append(old(frame)@, old(heap)@)),
        is_sound(final(frame), final(heap), r),
{
    let src: Value = match frame.pop() {
        Ok(v) => v,
        Err(e) => {
            return Err(e);
        },
    };
    let dst: Value = match frame.pop() {
        Ok(v) => v,
        Err(e) => {
            heap.release(src);
            return Err(e);
        },
    };
    match dst {
        Value::List(hd) => match src {
            Value::List(hs) => {
                let items: Vec<Value> = items_of(heap, hs);
                let copies: Vec<Value> = items_of(heap, hs);
                assert(heap@.admits_all(heap@.lists[hs.index as int].items));
                heap.list_append(hd, items);
                heap.retain_all(copies.as_slice());
                heap.release(src);
                heap.release(dst);
                Ok(VmAction::Continue)
            },
            _ => {
                heap.release(src);
                heap.release(dst);
                Err(VmError::Type(src.get_type(), 0))
            },
        },
        Value::BytesBuffer(hd) => {
            if is_bytes_like(&src) {
                let bytes: Vec<u8> = bytes_of(heap, &src);
                heap.buffer_append(hd, bytes.as_slice());
                Ok(VmAction::Continue)
            } else {
                heap.release(src);
                Err(VmError::Type(src.get_type(), 0))
            }
        },
        _ => {
            heap.release(src);
            heap.release(dst);
            Err(VmError::Type(dst.get_type(), 1))
        },
    }
}

/// The items of one sequence are written over those of another from an
/// offset on: the offset is on top of the stack, the source below it, the
/// sequence that is written below that. A list takes copies of the items of
/// a list, and what they replace is let go, the last one first; a byte
/// buffer takes the bytes of a byte array or buffer.
pub open spec fn seq_set_slice(frame: Frame, store: Store) -> Outcome {
    if frame.stack.len() == 0 {
        fail(frame, store, VmError::StackEmpty)
    } else {
        let offset = frame.top();
        match offset {
            Value::Integer(o) => if frame.stack.len() == 1 {
                fail(frame.popped(), store, VmError::StackEmpty)
            } else if frame.stack.len() == 2 {
                fail(
                    frame.popped().popped(),
                    store.release(frame.popped().top()),
                    VmError::StackEmpty,
                )
            } else {
                let src = frame.popped().top();
                let dst = frame.popped().popped().top();
                let rest = frame.popped().popped().popped();
                let refused = store.release(src).release(dst);
                match dst {
                    Value::List(hd) => match src {
                        Value::List(hs) => {
                            let items = store.list_of(hs);
                            let before = store.list_of(hd);
                            if span_within(o as int, items.len() as int, before.len() as int) {
                                done(
                                    rest,
                                    store.with_items(hd, overwrite(before, o as int, items)).retain_all(
                                        items,
                                    ).drain(before.subrange(o as int, o + items.len())).release(
                                        src,
                                    ).release(dst),
                                )
                            } else {
                                fail(rest, refused, VmError::IndexWrite(o))
                            }
                        },
                        _ => fail(rest, refused, VmError::Type(src.type_of(), 1)),
                    },
                    Value::BytesBuffer(hd) => if holds_bytes(src) {
                        let bytes = content(store, src);
                        if span_within(
                            o as int,
                            bytes.len() as int,
                            store.buffer_of(hd).len() as int,
                        ) {
                            done(
                                rest,
                                store.with_buffer(
                                    hd,
                                    overwrite(store.buffer_of(hd), o as int, bytes),
                                ),
                            )
                        } else {
                            fail(rest, store, VmError::IndexWrite(o))
                        }
                    } else {
                        fail(rest, store.release(src), VmError::Type(src.type_of(), 1))
                    },
                    _ => fail(rest, refused, VmError::Type(dst.type_of(), 2)),
                }
            },
            _ => fail(frame.popped(), store.release(offset), VmError::Type(offset.type_of(), 0)),
        }
    }
}

/// An integer of the machine as the offset of `count` items within a
/// sequence of `len` items.
fn span_in(o: i64, count: usize, len: usize) -> (r: Option<usize>)
    ensures
        r is Some <==> span_within(o as int, count as int, len as int),
        r is Some ==> r.unwrap() == o,
{
    if count > len || o < 0 || (o as u64) > ((len - count) as u64) {
        None
    } else {
        Some(o as usize)
    }
}

/// Does to frame and heap what [`seq_set_slice`] says.
fn run_seq_set_slice(frame: &mut CallFrame, heap: &mut Heap) -> (r: Result<VmAction, VmError>)
    requires
        old(heap).wf(),
        old(frame).wf(old(heap)),
    ensures
        is_outcome(final(frame), final(heap), r, seq_set_slice(old(frame)@, old(heap)@)),
        is_sound(final(frame), final(heap), r),
{
    let offset: Value = match frame.pop() {
        Ok(v) => v,
        Err(e) => {
            return Err(e);
        },
    };
    let o: i64 = match offset {
        Value::Integer(i) => i,
        _ => {
            heap.release(offset);
            return Err(VmError::Type(offset.get_type(), 0));
        },
    };
    let src: Value = match frame.pop() {
        Ok(v) => v,
        Err(e) => {
            return Err(e);
        },
    };
    let dst: Value = match frame.pop() {
        Ok(v) => v,
        Err(e) => {
            heap.release(src);
            return Err(e);
        },
    };
    match dst {
        Value::List(hd) => match src {
            Value::List(hs) => {
                let items: Vec<Value> = items_of(heap, hs);
                assert(heap@.admits_all(heap@.lists[hs.index as int].items));
                match span_in(o, items.len(), heap.lists[hd.index].items.len()) {
                    Some(at) => {
                        let lost: Vec<Value> = match heap.lists[hd.index].items.get_slice(
                            at,
                            at + items.len(),
                        ) {
                            Some(part) => part.0,
                            None => Vec::new(),
                        };
                        heap.list_set_slice(hd, items.as_slice(), at);
                        heap.retain_all(items.as_slice());
                        heap.release_all(lost);
                        heap.release(src);
                        heap.release(dst);
                        Ok(VmAction::Continue)
                    },
                    None => {
                        heap.release(src);
                        heap.release(dst);
                        Err(VmError::IndexWrite(o))
                    },
                }
            },
            _ => {
                heap.release(src);
                heap.release(dst);
                Err(VmError::Type(src.get_type(), 1))
            },
        },
        Value::BytesBuffer(hd) => {
            if is_bytes_like(&src) {
                let bytes: Vec<u8> = bytes_of(heap, &src);
                match span_in(o, bytes.len(), heap.buffers[hd.index].len()) {
                    Some(at) => {
                        heap.buffer_set_slice(hd, bytes.as_slice(), at);
                        Ok(VmAction::Continue)
                    },
                    None => Err(VmError::IndexWrite(o)),
                }
            } else {
                heap.release(src);
                Err(VmError::Type(src.get_type(), 1))
            }
        },
        _ => {
            heap.release(src);
            heap.release(dst);
            Err(VmError::Type(dst.get_type(), 2))
        },
    }
}

/// What an instruction does to frame and heap, and what it asks of the
/// host, the cursor left aside. `delta` is the distance that a jump carries.
pub open spec fn execute(op: Operation, delta: i32, frame: Frame, store: Store) -> Outcome {
    match op {
        Operation::Nop => done(frame, store),
        Operation::Add => binary(op, frame, store),
        Operation::Sub => binary(op, frame, store),
        Operation::Mul => binary(op, frame, store),
        Operation::Div => binary(op, frame, store),
        Operation::Rem => binary(op, frame, store),
        Operation::Neg => unary(op, frame, store),
        Operation::Shl => binary(op, frame, store),
        Operation::Shr => binary(op, frame, store),
        Operation::And => binary(op, frame, store),
        Operation::Or => binary(op, frame, store),
        Operation::Xor => binary(op, frame, store),
        Operation::Not => unary(op, frame, store),
        Operation::IntToReal => unary(op, frame, store),
        Operation::RealToInt => unary(op, frame, store),
        Operation::Cmp => compare(frame, store),
        Operation::Call(n) => call(n, frame, store),
        Operation::Return => finish(frame, store),
        Operation::Jump(_) => ask(frame, store, Action::Jump(delta)),
        Operation::JumpZero(_) => branch(op, delta, frame, store),
        Operation::JumpNeg(_) => branch(op, delta, frame, store),
        Operation::LiteralNone => done(frame.pushed(Value::Nil), store),
        Operation::LiteralTrue => done(frame.pushed(Value::Bool(true)), store),
        Operation::LiteralFalse => done(frame.pushed(Value::Bool(false)), store),
        Operation::LiteralInteger(x) => done(frame.pushed(Value::Integer(x)), store),
        Operation::LiteralReal(x) => done(frame.pushed(Value::Real(x)), store),
        Operation::FrameLocalLoad(i) => local_load(i, frame, store),
        Operation::FrameLocalStore(i) => local_store(i, frame, store),
        Operation::FrameLocalSwap(i) => local_swap(i, frame, store),
        Operation::FrameStackCopy => stack_copy(frame, store),
        Operation::FrameStackPop => stack_pop(frame, store),
        Operation::ListCreate => list_create(frame, store),
        Operation::ListPush => list_push(frame, store),
        Operation::ListPop => list_pop(frame, store),
        Operation::ListDowngrade => list_downgrade(frame, store),
        Operation::ListUpgrade => list_upgrade(frame, store),
        Operation::BytesBufferCreate => bytes_create(frame, store),
        Operation::StringBufferCreate => string_create(frame, store),
        Operation::StringGetCharAt => string_char_at(frame, store),
        Operation::StringGetChars => string_chars(frame, store),
        Operation::SeqGet => seq_get(frame, store),
        Operation::SeqSet => seq_set(frame, store),
        Operation::SeqGetSlice => seq_get_slice(frame, store),
        Operation::SeqSetSlice => seq_set_slice(frame, store),
        Operation::SeqAppend => seq_append(frame, store),
        Operation::SeqLen => seq_len(frame, store),
        Operation::SeqResize => seq_resize(frame, store),
    }
}

/// The offset that a failed read of the instruction at `cursor` reports: the
/// cursor itself where the code has ended, else the byte after the opcode.
pub open spec fn unread(code: Seq<u8>, cursor: usize) -> usize {
    if cursor < code.len() {
        (cursor + 1) as usize
    } else {
        cursor
    }
}

/// One step of the machine: the instruction under the cursor is read and
/// done. Where that succeeds the cursor is moved past the instruction;
/// where it fails the cursor stays.
pub open spec fn step(frame: Frame, store: Store) -> Outcome {
    let code = frame.code(store);
    match decode_at(code, frame.cursor as int) {
        None => fail(frame, store, VmError::BytecodeRead(unread(code, frame.cursor))),
        Some(d) => {
            let o = execute(d.op, d.delta as i32, frame, store);
            if o.result is Ok {
                Outcome { frame: o.frame.at(d.next as usize), ..o }
            } else {
                o
            }
        },
    }
}

/// Does the instruction that was read.
fn run(f: &Fetched, frame: &mut CallFrame, heap: &mut Heap) -> (r: Result<VmAction, VmError>)
    requires
        old(heap).wf(),
        old(frame).wf(old(heap)),
    ensures
        is_outcome(final(frame), final(heap), r, execute(f.op, f.delta, old(frame)@, old(heap)@)),
        is_sound(final(frame), final(heap), r),
{
    match f.op {
        Operation::Nop => Ok(VmAction::Continue),
        Operation::Add => run_binary(&f.op, frame, heap),
        Operation::Sub => run_binary(&f.op, frame, heap),
        Operation::Mul => run_binary(&f.op, frame, heap),
        Operation::Div => run_binary(&f.op, frame, heap),
        Operation::Rem => run_binary(&f.op, frame, heap),
        Operation::Neg => run_unary(&f.op, frame, heap),
        Operation::Shl => run_binary(&f.op, frame, heap),
        Operation::Shr => run_binary(&f.op, frame, heap),
        Operation::And => run_binary(&f.op, frame, heap),
        Operation::Or => run_binary(&f.op, frame, heap),
        Operation::Xor => run_binary(&f.op, frame, heap),
        Operation::Not => run_unary(&f.op, frame, heap),
        Operation::IntToReal => run_unary(&f.op, frame, heap),
        Operation::RealToInt => run_unary(&f.op, frame, heap),
        Operation::Cmp => run_compare(frame, heap),
        Operation::Call(n) => run_call(n, frame, heap),
        Operation::Return => run_finish(frame, heap),
        Operation::Jump(_) => Ok(VmAction::Jump(f.delta)),
        Operation::JumpZero(_) => run_branch(&f.op, f.delta, frame, heap),
        Operation::JumpNeg(_) => run_branch(&f.op, f.delta, frame, heap),
        Operation::LiteralNone => run_literal(Value::Nil, frame, heap),
        Operation::LiteralTrue => run_literal(Value::Bool(true), frame, heap),
        Operation::LiteralFalse => run_literal(Value::Bool(false), frame, heap),
        Operation::LiteralInteger(x) => run_literal(Value::Integer(x), frame, heap),
        Operation::LiteralReal(x) => run_literal(Value::Real(x), frame, heap),
        Operation::FrameLocalLoad(i) => run_local_load(i, frame, heap),
        Operation::FrameLocalStore(i) => run_local_store(i, frame, heap),
        Operation::FrameLocalSwap(i) => run_local_swap(i, frame, heap),
        Operation::FrameStackCopy => run_stack_copy(frame, heap),
        Operation::FrameStackPop => run_stack_pop(frame, heap),
        Operation::ListCreate => run_list_create(frame, heap),
        Operation::ListPush => run_list_push(frame, heap),
        Operation::ListPop => run_list_pop(frame, heap),
        Operation::ListDowngrade => run_list_downgrade(frame, heap),
        Operation::ListUpgrade => run_list_upgrade(frame, heap),
        Operation::BytesBufferCreate => run_bytes_create(frame, heap),
        Operation::StringBufferCreate => run_string_create(frame, heap),
        Operation::StringGetCharAt => run_string_char_at(frame, heap),
        Operation::StringGetChars => run_string_chars(frame, heap),
        Operation::SeqGet => run_seq_get(frame, heap),
        Operation::SeqSet => run_seq_set(frame, heap),
        Operation::SeqGetSlice => run_seq_get_slice(frame, heap),
        Operation::SeqSetSlice => run_seq_set_slice(frame, heap),
        Operation::SeqAppend => run_seq_append(frame, heap),
        Operation::SeqLen => run_seq_len(frame, heap),
        Operation::SeqResize => run_seq_resize(frame, heap),
    }
}

/// Reads the instruction under the cursor of the frame.
fn fetch_next(frame: &CallFrame, heap: &Heap) -> (r: Result<Fetched, VmError>)
    requires
        frame.wf(heap),
    ensures
        match decode_at(frame@.code(heap@), frame@.cursor as int) {
            Some(d) => r is Ok && r->Ok_0@ == d,
            None => r == Err::<Fetched, VmError>(
                VmError::BytecodeRead(unread(frame@.code(heap@), frame@.cursor)),
            ),
        },
{
    let cursor: usize = frame.get_cursor();
    let code: &[u8] = frame.get_bytecode(heap);
    match fetch(code, cursor) {
        Some(f) => Ok(f),
        None => {
            if cursor < code.len() {
                Err(VmError::BytecodeRead(cursor + 1))
            } else {
                Err(VmError::BytecodeRead(cursor))
            }
        },
    }
}

/// Does one step of the machine on a frame and its heap, and says what the
/// host is to do next.
pub fn parse_and_run(frame: &mut CallFrame, heap: &mut Heap) -> (r: Result<VmAction, VmError>)
    requires
        old(heap).wf(),
        old(frame).wf(old(heap)),
    ensures
        is_outcome(final(frame), final(heap), r, step(old(frame)@, old(heap)@)),
        is_sound(final(frame), final(heap), r),
{
    let fetched: Fetched = match fetch_next(frame, heap) {
        Ok(f) => f,
        Err(e) => {
            return Err(e);
        },
    };
    let r = run(&fetched, frame, heap);
    match r {
        Ok(_) => {
            frame.set_cursor(fetched.next);
        },
        Err(_) => {},
    }
    r
}

} // verus!
