//! The call frame: what one running function holds.
use vstd::prelude::*;
use crate::datamodel::{resized, Function, Handle, Value};
use crate::heap::{Heap, Store};
use crate::VmError;

verus! {

/// The state of one call: an operand stack, local slots, and a cursor into
/// the bytecode of the function that is running.
pub struct CallFrame {
    stack: Vec<Value>,
    local: Vec<Value>,
    cursor: usize,
    bytecode: Handle,
}

/// What a call frame holds.
pub struct Frame {
    /// The operand stack, the top last.
    pub stack: Seq<Value>,
    /// The local slots.
    pub local: Seq<Value>,
    /// The offset of the next instruction in the bytecode.
    pub cursor: usize,
    /// The handle of the byte array that holds the bytecode.
    pub bytecode: Handle,
}

impl View for CallFrame {
    type V = Frame;

    closed spec fn view(&self) -> Frame {
        Frame {
            stack: self.stack@,
            local: self.local@,
            cursor: self.cursor,
            bytecode: self.bytecode,
        }
    }
}

impl Frame {
    /// The frame of a call that has not run yet: the module list of the
    /// function in slot 0, nothing on the stack, the cursor at the start.
    pub open spec fn of_function(f: Function) -> Frame {
        Frame { stack: Seq::empty(), local: seq![Value::List(f.module)], cursor: 0, bytecode: f.bytecode }
    }

    /// Every handle in the frame points at an object of the heap.
    pub open spec fn wf(self, store: Store) -> bool {
        &&& store.admits_all(self.stack)
        &&& store.admits_all(self.local)
        &&& self.bytecode.index < store.bytes.len()
    }

    /// The bytecode that the frame runs.
    pub open spec fn code(self, store: Store) -> Seq<u8> {
        store.bytes[self.bytecode.index as int]
    }

    /// The frame with another cursor.
    pub open spec fn at(self, cursor: usize) -> Frame {
        Frame { cursor, ..self }
    }

    /// The frame with another operand stack.
    pub open spec fn with_stack(self, stack: Seq<Value>) -> Frame {
        Frame { stack, ..self }
    }

    /// The frame with other local slots.
    pub open spec fn with_local(self, local: Seq<Value>) -> Frame {
        Frame { local, ..self }
    }

    /// What slot `index` holds: `Nil` where the slots do not reach it.
    pub open spec fn slot(self, index: u8) -> Value {
        if index < self.local.len() {
            self.local[index as int]
        } else {
            Value::Nil
        }
    }

    /// The local slots after `val` was written to slot `index`: grown to
    /// reach it, if need be, with `Nil` in the new slots between.
    pub open spec fn written(self, index: u8, val: Value) -> Seq<Value> {
        resized(self.local, self.reach(index), Value::Nil).update(index as int, val)
    }

    /// The number of slots once they reach slot `index`.
    pub open spec fn reach(self, index: u8) -> nat {
        if index < self.local.len() {
            self.local.len()
        } else {
            (index + 1) as nat
        }
    }
}

impl CallFrame {
    /// Every handle in the frame points at an object of the heap.
    pub open spec fn wf(&self, heap: &Heap) -> bool {
        self@.wf(heap@)
    }

    /// Whether every handle in the frame points at an object of the heap.
    pub fn is_sound(&self, heap: &Heap) -> (r: bool)
        ensures
            r == self.wf(heap),
    {
        heap.holds_all(self.stack.as_slice()) && heap.holds_all(self.local.as_slice())
            && self.bytecode.index < heap.bytes.len()
    }

    /// The frame for a call of `f`. Slot 0 holds a new strong handle to the
    /// module list of `f`, which is counted.
    pub fn new(f: &Function, heap: &mut Heap) -> (r: CallFrame)
        ensures
            r@ == Frame::of_function(*f),
            final(heap)@ == old(heap)@.retain(Value::List(f.module)),
            old(heap).wf() ==> final(heap).wf(),
            f.module.index < old(heap)@.lists.len() && f.bytecode.index < old(heap)@.bytes.len()
                ==> r.wf(final(heap)),
    {
        heap.retain(Value::List(f.module));
        let mut local: Vec<Value> = Vec::new();
        local.push(Value::List(f.module));
        assert(local@ =~= seq![Value::List(f.module)]);
        CallFrame { stack: Vec::new(), local, cursor: 0, bytecode: f.bytecode }
    }

    pub fn get_cursor(&self) -> (r: usize)
        ensures
            r == self@.cursor,
    {
        self.cursor
    }

    pub fn set_cursor(&mut self, cursor: usize)
        ensures
            final(self)@ == old(self)@.at(cursor),
    {
        self.cursor = cursor
    }

    /// Moves the cursor by `delta` bytes, as a step that returned a jump asks
    /// of the host, and returns the new cursor. Where that would lie before
    /// the start of memory or beyond its end, the cursor stays.
    pub fn jump(&mut self, delta: i32) -> (r: Option<usize>)
        ensures
            0 <= old(self)@.cursor + delta <= usize::MAX ==> r == Some(
                (old(self)@.cursor + delta) as usize,
            ) && final(self)@ == old(self)@.at((old(self)@.cursor + delta) as usize),
            !(0 <= old(self)@.cursor + delta <= usize::MAX) ==> r is None && final(self)@ == old(
                self,
            )@,
    {
        if delta >= 0 {
            let by: usize = delta as usize;
            if self.cursor > usize::MAX - by {
                return None;
            }
            self.cursor = self.cursor + by;
        } else {
            let wide: i64 = 0 - (delta as i64);
            let by: u64 = wide as u64;
            if (self.cursor as u64) < by {
                return None;
            }
            self.cursor = self.cursor - (by as usize);
        }
        Some(self.cursor)
    }

    /// The bytecode that the frame runs.
    pub fn get_bytecode<'a>(&self, heap: &'a Heap) -> (r: &'a [u8])
        requires
            self@.bytecode.index < heap@.bytes.len(),
        ensures
            r@ == self@.code(heap@),
    {
        heap.bytes[self.bytecode.index].0.as_slice()
    }

    /// What slot `index` holds, if the slots reach it.
    pub fn load(&self, index: u8) -> (r: Result<&Value, VmError>)
        ensures
            index < self@.local.len() ==> r == Ok::<&Value, VmError>(&self@.local[index as int]),
            index >= self@.local.len() ==> r == Err::<&Value, VmError>(VmError::FrameRead(index)),
    {
        if (index as usize) < self.local.len() {
            Ok(&self.local[index as usize])
        } else {
            Err(VmError::FrameRead(index))
        }
    }

    /// Makes the slots reach `index`, with `Nil` in the new ones.
    fn grow_to(&mut self, index: u8)
        ensures
            final(self).stack == old(self).stack,
            final(self).cursor == old(self).cursor,
            final(self).bytecode == old(self).bytecode,
            index < final(self).local@.len(),
            final(self).local@ == resized(old(self)@.local, old(self)@.reach(index), Value::Nil),
            final(self).local@[index as int] == old(self)@.slot(index),
    {
        while self.local.len() <= index as usize
            invariant
                self.stack == old(self).stack,
                self.cursor == old(self).cursor,
                self.bytecode == old(self).bytecode,
                self.local@.len() >= old(self).local@.len(),
                self.local@.len() > old(self).local@.len() ==> self.local@.len() <= index + 1,
                self.local@ =~= resized(old(self).local@, self.local@.len(), Value::Nil),
            decreases index + 1 - self.local@.len(),
        {
            self.local.push(Value::Nil);
        }
        assert(self.local@ =~= resized(old(self)@.local, old(self)@.reach(index), Value::Nil));
    }

    /// Writes `val` to slot `index`, growing the slots to reach it, and
    /// returns the value that the slot held before (`Nil` where it is new).
    /// The frame takes over the caller's copy of `val`, and the caller that of
    /// the value returned.
    pub fn store(&mut self, index: u8, val: Value) -> (r: Value)
        ensures
            r == old(self)@.slot(index),
            final(self)@ == old(self)@.with_local(old(self)@.written(index, val)),
    {
        self.grow_to(index);
        let before: Value = self.local[index as usize];
        self.local[index as usize] = val;
        assert(self.local@ =~= old(self)@.written(index, val));
        before
    }

    /// Exchanges `val` and what slot `index` holds, growing the slots to
    /// reach it.
    pub fn swap(&mut self, index: u8, val: &mut Value)
        ensures
            *final(val) == old(self)@.slot(index),
            final(self)@ == old(self)@.with_local(old(self)@.written(index, *old(val))),
    {
        self.grow_to(index);
        let before: Value = self.local[index as usize];
        self.local[index as usize] = *val;
        assert(self.local@ =~= old(self)@.written(index, *old(val)));
        *val = before;
    }

    /// Ends the frame: everything that it holds is let go, the top of the
    /// stack first and the first local slot last.
    pub fn discard(self, heap: &mut Heap)
        ensures
            final(heap)@ == old(heap)@.drain(self@.local + self@.stack),
            old(heap).wf() ==> final(heap).wf(),
            final(heap)@.keeps_tables(old(heap)@),
    {
        let mut all: Vec<Value> = self.local;
        let mut stack: Vec<Value> = self.stack;
        all.append(&mut stack);
        heap.release_all(all);
    }

    /// Puts `val` on the operand stack.
    pub fn push(&mut self, val: Value)
        ensures
            final(self)@ == old(self)@.with_stack(old(self)@.stack.push(val)),
    {
        self.stack.push(val);
    }

    /// Takes the top of the operand stack.
    pub fn pop(&mut self) -> (r: Result<Value, VmError>)
        ensures
            old(self)@.stack.len() > 0 ==> r == Ok::<Value, VmError>(old(self)@.stack.last())
                && final(self)@ == old(self)@.with_stack(old(self)@.stack.drop_last()),
            old(self)@.stack.len() == 0 ==> r == Err::<Value, VmError>(VmError::StackEmpty)
                && final(self)@ == old(self)@,
    {
        match self.stack.pop() {
            Some(v) => Ok(v),
            None => Err(VmError::StackEmpty),
        }
    }
}

} // verus!
