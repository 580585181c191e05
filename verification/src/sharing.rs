//! What the steps of the machine promise of shared objects.
use vstd::prelude::*;
use crate::datamodel::{Handle, Value};
use crate::heap::{lemma_drain_keeps, lemma_retain_all_keeps, Cell, Store};
use crate::machine::Frame;
use crate::op::{
    execute, fresh, list_create, list_downgrade, list_push, list_upgrade, stack_copy, step,
};
use crate::operation::{decode_at, Operation};
use crate::{Action, VmError};

verus! {

/// Letting go of a strong handle to a list takes one from its count, and
/// frees the list exactly when the handle was the last one.
pub proof fn law_release_counts(store: Store, h: Handle)
    requires
        store.counted(h),
    ensures
        store.release(Value::List(h)).lists.len() == store.lists.len(),
        store.release(Value::List(h)).lists[h.index as int].strong + 1
            == store.lists[h.index as int].strong,
        store.release(Value::List(h)).alive(h) <==> store.lists[h.index as int].strong > 1,
        store.lists[h.index as int].strong > 1 ==> store.release(Value::List(h)).list_of(h)
            == store.list_of(h),
        store.list_of(h).len() == 0 ==> store.release(Value::List(h)).list_of(h)
            == store.list_of(h),
{
    reveal_with_fuel(Store::drain, 2);
    let pending = seq![Value::List(h)];
    let cell = store.lists[h.index as int];
    assert(pending.last() == Value::List(h));
    assert(pending.drop_last() =~= Seq::<Value>::empty());
    if cell.strong == 1 {
        let freed = store.with_cell(h, Cell { items: Seq::empty(), strong: 0 });
        lemma_drain_keeps(freed, pending.drop_last() + cell.items);
        assert(freed.lists[h.index as int].strong == 0);
        if store.list_of(h).len() == 0 {
            assert(store.list_of(h) =~= Seq::<Value>::empty());
        }
    }
}

/// Taking off what was put on the stack leaves the frame as it was.
pub proof fn lemma_pushed_popped(frame: Frame, v: Value)
    ensures
        frame.pushed(v).top() == v,
        frame.pushed(v).popped() == frame,
        frame.pushed(v).stack.len() == frame.stack.len() + 1,
{
    assert(frame.pushed(v).popped().stack =~= frame.stack);
}

/// A list that was created, copied on the stack and pushed to through the
/// copy is seen to hold the item through the handle that stayed on the
/// stack: the two handles stand for one list.
pub proof fn law_handle_aliasing(frame: Frame, store: Store, v: Value)
    requires
        store.lists.len() < usize::MAX,
    ensures
        ({
            let h = fresh(store.lists.len());
            let created = list_create(frame, store);
            let copied = stack_copy(created.frame, created.store);
            let pushed = list_push(copied.frame.pushed(v), copied.store);
            &&& pushed.result == Ok::<Action, VmError>(Action::Continue)
            &&& pushed.frame == frame.pushed(Value::List(h))
            &&& pushed.store.list_of(h) == seq![v]
            &&& pushed.store.lists[h.index as int].strong == 1
        }),
{
    let h = fresh(store.lists.len());
    let created = list_create(frame, store);
    let copied = stack_copy(created.frame, created.store);
    lemma_pushed_popped(frame, Value::List(h));
    lemma_pushed_popped(created.frame, Value::List(h));
    lemma_pushed_popped(copied.frame, v);
    assert(created.store.counted(h));
    assert(copied.store.lists[h.index as int].strong == 2);
    let written = copied.store.with_items(h, copied.store.list_of(h).push(v));
    assert(copied.store.list_of(h).push(v) =~= seq![v]);
    assert(written.counted(h));
    law_release_counts(written, h);
}

/// A weak handle to a list whose one strong handle was let go does not
/// upgrade: a list that is created and downgraded is freed, and upgrading
/// what is left of it gives `Nil`.
pub proof fn law_weak_freed(frame: Frame, store: Store)
    requires
        store.lists.len() < usize::MAX,
    ensures
        ({
            let h = fresh(store.lists.len());
            let created = list_create(frame, store);
            let weak = list_downgrade(created.frame, created.store);
            let back = list_upgrade(weak.frame, weak.store);
            &&& weak.frame == frame.pushed(Value::ListWeak(h))
            &&& !weak.store.alive(h)
            &&& back.result == Ok::<Action, VmError>(Action::Continue)
            &&& back.frame == frame.pushed(Value::Nil)
        }),
{
    let h = fresh(store.lists.len());
    let created = list_create(frame, store);
    lemma_pushed_popped(frame, Value::List(h));
    lemma_pushed_popped(frame, Value::ListWeak(h));
    assert(created.store.counted(h));
    law_release_counts(created.store, h);
}

/// A weak handle to a list that another strong handle keeps alive upgrades
/// to a strong handle to the same list: a list that is created, copied and
/// downgraded comes back when what is left of it is upgraded.
pub proof fn law_weak_kept(frame: Frame, store: Store)
    requires
        store.lists.len() < usize::MAX,
    ensures
        ({
            let h = fresh(store.lists.len());
            let created = list_create(frame, store);
            let copied = stack_copy(created.frame, created.store);
            let weak = list_downgrade(copied.frame, copied.store);
            let back = list_upgrade(weak.frame, weak.store);
            &&& weak.store.alive(h)
            &&& back.result == Ok::<Action, VmError>(Action::Continue)
            &&& back.frame == frame.pushed(Value::List(h)).pushed(Value::List(h))
            &&& back.store.lists[h.index as int].strong == 2
        }),
{
    let h = fresh(store.lists.len());
    let created = list_create(frame, store);
    lemma_pushed_popped(frame, Value::List(h));
    lemma_pushed_popped(created.frame, Value::List(h));
    lemma_pushed_popped(created.frame, Value::ListWeak(h));
    assert(created.store.counted(h));
    let copied = stack_copy(created.frame, created.store);
    assert(copied.store.counted(h));
    law_release_counts(copied.store, h);
    let weak = list_downgrade(copied.frame, copied.store);
    assert(weak.store.counted(h));
}

/// Upgrading a weak handle gives a strong handle exactly when the list is
/// alive, and `Nil` when it is not.
pub proof fn law_weak_upgrade(frame: Frame, store: Store, h: Handle)
    requires
        frame.stack.len() > 0,
        frame.top() == Value::ListWeak(h),
    ensures
        list_upgrade(frame, store).result == Ok::<Action, VmError>(Action::Continue),
        list_upgrade(frame, store).frame.top() == if store.alive(h) {
            Value::List(h)
        } else {
            Value::Nil
        },
{
}

/// Whether a heap still holds every object that another held, with the
/// byte arrays, strings and functions as they were.
pub open spec fn outlives(after: Store, before: Store) -> bool {
    &&& after.bytes == before.bytes
    &&& after.strings == before.strings
    &&& after.functions == before.functions
    &&& after.lists.len() >= before.lists.len()
    &&& after.buffers.len() >= before.buffers.len()
    &&& after.texts.len() >= before.texts.len()
}

/// Letting values go leaves every object in its place, and the byte arrays,
/// strings and functions as they were.
pub proof fn lemma_drain_outlives(store: Store, pending: Seq<Value>)
    ensures
        outlives(#[trigger] store.drain(pending), store),
{
    lemma_drain_keeps(store, pending);
}

/// Counting copies leaves every object in its place, and the byte arrays,
/// strings and functions as they were.
pub proof fn lemma_retain_all_outlives(store: Store, values: Seq<Value>)
    ensures
        outlives(#[trigger] store.retain_all(values), store),
{
    lemma_retain_all_keeps(store, values);
}

/// No instruction takes an object out of the heap or writes to a byte
/// array, a string or a function; none moves the cursor or changes the code
/// that the frame runs.
pub proof fn lemma_execute_keeps(op: Operation, delta: i32, frame: Frame, store: Store)
    requires
        store.wf(),
        frame.wf(store),
    ensures
        outlives(execute(op, delta, frame, store).store, store),
        execute(op, delta, frame, store).frame.cursor == frame.cursor,
        execute(op, delta, frame, store).frame.bytecode == frame.bytecode,
{
    assert forall|s: Store, pending: Seq<Value>| outlives(#[trigger] s.drain(pending), s) by {
        lemma_drain_outlives(s, pending);
    }
    assert forall|s: Store, values: Seq<Value>| outlives(#[trigger] s.retain_all(values), s) by {
        lemma_retain_all_outlives(s, values);
    }
}

/// A step that succeeds leaves the cursor after the instruction that it did,
/// and one that fails leaves the cursor where it was. No step changes the
/// code that the frame runs, takes an object out of the heap, or writes to a
/// byte array, a string or a function.
pub proof fn law_step_keeps(frame: Frame, store: Store)
    requires
        store.wf(),
        frame.wf(store),
    ensures
        step(frame, store).frame.bytecode == frame.bytecode,
        outlives(step(frame, store).store, store),
        step(frame, store).result is Err ==> step(frame, store).frame.cursor == frame.cursor,
        step(frame, store).result is Ok ==> decode_at(frame.code(store), frame.cursor as int)
            is Some && step(frame, store).frame.cursor == decode_at(
            frame.code(store),
            frame.cursor as int,
        ).unwrap().next as usize,
{
    match decode_at(frame.code(store), frame.cursor as int) {
        Some(d) => {
            lemma_execute_keeps(d.op, d.delta as i32, frame, store);
        },
        None => {},
    }
}

} // verus!
