//! A small stack machine for a dynamically typed language.
//!
//! The machine runs bytecode one instruction at a time. Its values are
//! tagged scalars and handles to shared objects, which live in a
//! [`heap::Heap`]; a [`machine::CallFrame`] holds the operand stack, the
//! local slots and the cursor of one call. [`op::parse_and_run`] does one
//! step on a frame and tells the host, by a [`VmAction`], what to do next:
//! go on, move the cursor, call, return, or compute on reals.
//! [`operation::assemble`] and [`operation::disassemble`] turn structured
//! operations into bytecode and back.
//!
//! Every function states what it does over the views of its arguments, and
//! is proved to do so. What one step does is [`op::step`].
use vstd::prelude::*;

pub mod number;
pub mod datamodel;
pub mod text;
pub mod heap;
pub mod machine;
pub mod compare;
pub mod collate;
pub mod operation;
pub mod op;
pub mod roundtrip;
pub mod sharing;

use crate::datamodel::{Handle, NativeFn, Value, ValueType};
use crate::number::Real;

verus! {

/// Arithmetic on reals that the machine leaves to its host. The host
/// computes the result as IEEE-754 binary64 arithmetic gives it and puts it
/// on the operand stack of the frame, as a `Value::Real`.
#[derive(Clone, Copy, Debug, PartialEq, Eq, Structural)]
pub enum RealRequest {
    /// The sum of the two.
    Add(Real, Real),
    /// The first less the second.
    Sub(Real, Real),
    /// The product of the two.
    Mul(Real, Real),
    /// The first divided by the second.
    Div(Real, Real),
    /// The remainder of the first divided by the second.
    Rem(Real, Real),
}

/// What the host is to do after a step.
#[derive(Debug, PartialEq, Eq)]
pub enum VmAction {
    /// Nothing: go on with the next step of the same frame.
    Continue,
    /// Move the cursor of the frame by this many bytes.
    Jump(i32),
    /// Call the function of the machine with these arguments, in the order
    /// in which they were popped.
    Call(Handle, Vec<Value>),
    /// Call the function of the host with these arguments, in the order in
    /// which they were popped.
    CallNative(NativeFn, Vec<Value>),
    /// End the call of the frame with this result.
    Return(Value),
    /// Compute on reals and put the result on the operand stack.
    Real(RealRequest),
}

/// What an action holds.
pub enum Action {
    Continue,
    Jump(i32),
    Call(Handle, Seq<Value>),
    CallNative(NativeFn, Seq<Value>),
    Return(Value),
    Real(RealRequest),
}

impl View for VmAction {
    type V = Action;

    open spec fn view(&self) -> Action {
        match self {
            VmAction::Continue => Action::Continue,
            VmAction::Jump(d) => Action::Jump(*d),
            VmAction::Call(f, args) => Action::Call(*f, args@),
            VmAction::CallNative(f, args) => Action::CallNative(*f, args@),
            VmAction::Return(v) => Action::Return(*v),
            VmAction::Real(r) => Action::Real(*r),
        }
    }
}

/// Why a step of the machine was abandoned.
#[derive(Clone, Copy, Debug, PartialEq, Eq, Structural)]
pub enum VmError {
    /// A value was popped from an empty operand stack.
    StackEmpty,
    /// Integer division or remainder by zero.
    DivByZero,
    /// The local slot was never assigned.
    FrameRead(u8),
    /// A sequence was read outside its bounds.
    IndexRead(i64),
    /// A sequence was written outside its bounds.
    IndexWrite(i64),
    /// A slice was requested outside the bounds of its sequence.
    SliceRead(i64, i64),
    /// The bytecode is truncated or holds an unknown opcode at this byte.
    BytecodeRead(usize),
    /// A popped operand has the wrong tag. The second field tells which
    /// operand, counted from the top of the stack as it stood before the step.
    Type(ValueType, u8),
}

} // verus!
