//! The heap: the tables of shared objects that handles point into.
//!
//! A list is kept alive by its strong handles. Each list in the heap carries
//! the number of strong handles that stand for it, wherever they are held: on
//! an operand stack, in a local slot, inside another list, in a function, or
//! by the host. Whoever copies a strong handle calls [`Heap::retain`];
//! whoever lets one go calls [`Heap::release`]. When the last one goes the
//! list is freed: it loses its items, which are released in turn, and its
//! weak handles no longer upgrade. The other objects have no weak handles and
//! carry no count.
use vstd::prelude::*;
use vstd::utf8::valid_utf8;
use crate::datamodel::{
    overwrite, resized, span_within, Bytes, BytesBuffer, Function, Handle, List, StringBuffer,
    StringValue, Value,
};

verus! {

/// A list in the heap, with the number of its strong handles.
pub struct ListCell {
    pub items: List,
    pub strong: usize,
}

/// What a list cell holds.
pub struct Cell {
    pub items: Seq<Value>,
    pub strong: usize,
}

impl View for ListCell {
    type V = Cell;

    open spec fn view(&self) -> Cell {
        Cell { items: self.items@, strong: self.strong }
    }
}

/// The tables of shared objects.
pub struct Heap {
    pub lists: Vec<ListCell>,
    pub bytes: Vec<Bytes>,
    pub buffers: Vec<BytesBuffer>,
    pub strings: Vec<StringValue>,
    pub texts: Vec<StringBuffer>,
    pub functions: Vec<Function>,
}

/// What a heap holds: for each table, the contents of its objects.
pub struct Store {
    pub lists: Seq<Cell>,
    pub bytes: Seq<Seq<u8>>,
    pub buffers: Seq<Seq<u8>>,
    /// The UTF-8 of each immutable string.
    pub strings: Seq<Seq<u8>>,
    /// The characters of each string buffer.
    pub texts: Seq<Seq<char>>,
    pub functions: Seq<Function>,
}

impl View for Heap {
    type V = Store;

    open spec fn view(&self) -> Store {
        Store {
            lists: self.lists@.map_values(|c: ListCell| c@),
            bytes: self.bytes@.map_values(|b: Bytes| b@),
            buffers: self.buffers@.map_values(|b: BytesBuffer| b@),
            strings: self.strings@.map_values(|s: StringValue| s.bytes()),
            texts: self.texts@.map_values(|s: StringBuffer| s@),
            functions: self.functions@,
        }
    }
}

/// The sum of the strong counts of the cells.
pub open spec fn total_strong(cells: Seq<Cell>) -> nat
    decreases cells.len(),
{
    if cells.len() == 0 {
        0
    } else {
        total_strong(cells.drop_last()) + cells.last().strong as nat
    }
}

/// Replacing one cell changes the sum by the difference of the two counts.
pub proof fn lemma_total_strong_update(cells: Seq<Cell>, i: int, cell: Cell)
    requires
        0 <= i < cells.len(),
    ensures
        total_strong(cells.update(i, cell)) + cells[i].strong == total_strong(cells) + cell.strong,
    decreases cells.len(),
{
    if i == cells.len() - 1 {
        assert(cells.update(i, cell).drop_last() =~= cells.drop_last());
    } else {
        assert(cells.update(i, cell).drop_last() =~= cells.drop_last().update(i, cell));
        lemma_total_strong_update(cells.drop_last(), i, cell);
    }
}

impl Store {
    /// Whether the handle that `v` holds, if it holds one, points at an object
    /// of the heap.
    pub open spec fn admits(self, v: Value) -> bool {
        match v {
            Value::List(h) => h.index < self.lists.len(),
            Value::ListWeak(h) => h.index < self.lists.len(),
            Value::Bytes(h) => h.index < self.bytes.len(),
            Value::BytesBuffer(h) => h.index < self.buffers.len(),
            Value::StringValue(h) => h.index < self.strings.len(),
            Value::StringBuffer(h) => h.index < self.texts.len(),
            Value::Function(h) => h.index < self.functions.len(),
            _ => true,
        }
    }

    /// The items of the list at `h`.
    pub open spec fn list_of(self, h: Handle) -> Seq<Value> {
        self.lists[h.index as int].items
    }

    /// The bytes of the byte array at `h`.
    pub open spec fn bytes_of(self, h: Handle) -> Seq<u8> {
        self.bytes[h.index as int]
    }

    /// The bytes of the byte buffer at `h`.
    pub open spec fn buffer_of(self, h: Handle) -> Seq<u8> {
        self.buffers[h.index as int]
    }

    /// The UTF-8 of the immutable string at `h`.
    pub open spec fn string_of(self, h: Handle) -> Seq<u8> {
        self.strings[h.index as int]
    }

    /// The characters of the string buffer at `h`.
    pub open spec fn text_of(self, h: Handle) -> Seq<char> {
        self.texts[h.index as int]
    }

    /// Whether the heap admits every value of `values`.
    pub open spec fn admits_all(self, values: Seq<Value>) -> bool {
        forall|k: int| 0 <= k < values.len() ==> self.admits(#[trigger] values[k])
    }

    /// No handle inside the heap points outside it, and every immutable
    /// string is well-formed UTF-8.
    pub open spec fn wf(self) -> bool {
        &&& forall|i: int| 0 <= i < self.lists.len() ==> self.admits_all(#[trigger] self.lists[i].items)
        &&& forall|i: int|
            0 <= i < self.functions.len() ==> (#[trigger] self.functions[i]).module.index
                < self.lists.len() && self.functions[i].bytecode.index < self.bytes.len()
        &&& forall|i: int| 0 <= i < self.strings.len() ==> valid_utf8(#[trigger] self.strings[i])
    }

    /// The tables of `self` are those of `other`, but for what the lists hold
    /// and how they are counted.
    pub open spec fn keeps_tables(self, other: Store) -> bool {
        &&& self.lists.len() == other.lists.len()
        &&& self.bytes == other.bytes
        &&& self.buffers == other.buffers
        &&& self.strings == other.strings
        &&& self.texts == other.texts
        &&& self.functions == other.functions
    }

    /// The heap with the cell at `h` replaced.
    pub open spec fn with_cell(self, h: Handle, cell: Cell) -> Store {
        Store { lists: self.lists.update(h.index as int, cell), ..self }
    }

    /// The heap with the items of the list at `h` replaced.
    pub open spec fn with_items(self, h: Handle, items: Seq<Value>) -> Store {
        self.with_cell(h, Cell { items, strong: self.lists[h.index as int].strong })
    }

    /// The heap with the bytes of the buffer at `h` replaced.
    pub open spec fn with_buffer(self, h: Handle, bytes: Seq<u8>) -> Store {
        Store { buffers: self.buffers.update(h.index as int, bytes), ..self }
    }

    /// The heap with one more list, held by one strong handle.
    pub open spec fn with_new_list(self, items: Seq<Value>) -> Store {
        Store { lists: self.lists.push(Cell { items, strong: 1 }), ..self }
    }

    /// The heap with one more byte buffer.
    pub open spec fn with_new_buffer(self, bytes: Seq<u8>) -> Store {
        Store { buffers: self.buffers.push(bytes), ..self }
    }

    /// Whether the list at `h` is alive: it exists, and a strong handle stands
    /// for it.
    pub open spec fn alive(self, h: Handle) -> bool {
        h.index < self.lists.len() && self.lists[h.index as int].strong > 0
    }

    /// Whether the count of the list at `h` moves with its handles: the list
    /// is alive, and its count has not reached the largest number. A count
    /// that has reached it stays there, and the list is never freed.
    pub open spec fn counted(self, h: Handle) -> bool {
        self.alive(h) && self.lists[h.index as int].strong < usize::MAX
    }

    /// The heap after a copy of `v` was made: where `v` is a strong handle to
    /// a counted list, the list has one more.
    pub open spec fn retain(self, v: Value) -> Store {
        match v {
            Value::List(h) => if self.counted(h) {
                let cell = self.lists[h.index as int];
                self.with_cell(h, Cell { items: cell.items, strong: (cell.strong + 1) as usize })
            } else {
                self
            },
            _ => self,
        }
    }

    /// The heap after a copy of each value of `values` was made, the first
    /// one first.
    pub open spec fn retain_all(self, values: Seq<Value>) -> Store
        decreases values.len(),
    {
        if values.len() == 0 {
            self
        } else {
            self.retain_all(values.drop_last()).retain(values.last())
        }
    }

    /// The sum of the strong counts.
    pub open spec fn weight(self) -> nat {
        total_strong(self.lists)
    }

    /// The heap after the values of `pending` were let go, the last one
    /// first. A strong handle to a counted list takes one from its count.
    /// Where that was the last, the list is freed: it is left empty, and its
    /// items are let go after it.
    pub open spec fn drain(self, pending: Seq<Value>) -> Store
        decreases self.weight(), pending.len(),
        via Self::drain_decreases
    {
        if pending.len() == 0 {
            self
        } else {
            let rest = pending.drop_last();
            match pending.last() {
                Value::List(h) => if self.counted(h) {
                    let cell = self.lists[h.index as int];
                    if cell.strong == 1 {
                        self.with_cell(h, Cell { items: Seq::empty(), strong: 0 }).drain(
                            rest + cell.items,
                        )
                    } else {
                        self.with_cell(
                            h,
                            Cell { items: cell.items, strong: (cell.strong - 1) as usize },
                        ).drain(rest)
                    }
                } else {
                    self.drain(rest)
                },
                _ => self.drain(rest),
            }
        }
    }

    #[via_fn]
    proof fn drain_decreases(self, pending: Seq<Value>) {
        if pending.len() != 0 {
            match pending.last() {
                Value::List(h) => {
                    if self.counted(h) {
                        let cell = self.lists[h.index as int];
                        lemma_total_strong_update(
                            self.lists,
                            h.index as int,
                            Cell { items: Seq::empty(), strong: 0 },
                        );
                        lemma_total_strong_update(
                            self.lists,
                            h.index as int,
                            Cell { items: cell.items, strong: (cell.strong - 1) as usize },
                        );
                    }
                },
                _ => {},
            }
        }
    }

    /// The heap after `v` was let go.
    pub open spec fn release(self, v: Value) -> Store {
        self.drain(seq![v])
    }
}

/// A well-formed heap stays so when the items of one list are replaced by
/// values that it admits.
pub proof fn lemma_with_items_wf(store: Store, h: Handle, items: Seq<Value>)
    requires
        store.wf(),
        h.index < store.lists.len(),
        store.admits_all(items),
    ensures
        store.with_items(h, items).wf(),
{
    let after = store.with_items(h, items);
    assert forall|i: int| 0 <= i < after.lists.len() implies after.admits_all(
        #[trigger] after.lists[i].items,
    ) by {
        if i != h.index {
            assert(store.admits_all(store.lists[i].items));
        }
    }
}

/// A well-formed heap stays so when the bytes of a buffer are replaced.
pub proof fn lemma_with_buffer_wf(store: Store, h: Handle, bytes: Seq<u8>)
    requires
        store.wf(),
        h.index < store.buffers.len(),
    ensures
        store.with_buffer(h, bytes).wf(),
{
    let after = store.with_buffer(h, bytes);
    assert forall|i: int| 0 <= i < after.lists.len() implies after.admits_all(
        #[trigger] after.lists[i].items,
    ) by {
        assert(store.admits_all(store.lists[i].items));
    }
}

/// Letting values go changes nothing but what lists hold and how they are
/// counted, and nothing of a list that is not alive.
pub proof fn lemma_drain_keeps(store: Store, pending: Seq<Value>)
    ensures
        store.drain(pending).keeps_tables(store),
        forall|i: int|
            0 <= i < store.lists.len() && store.lists[i].strong == 0 ==> #[trigger] store.drain(
                pending,
            ).lists[i] == store.lists[i],
    decreases store.weight(), pending.len(),
{
    if pending.len() != 0 {
        let rest = pending.drop_last();
        match pending.last() {
            Value::List(h) => {
                if store.counted(h) {
                    let cell = store.lists[h.index as int];
                    if cell.strong == 1 {
                        let freed = Cell { items: Seq::empty(), strong: 0 };
                        lemma_total_strong_update(store.lists, h.index as int, freed);
                        lemma_drain_keeps(store.with_cell(h, freed), rest + cell.items);
                    } else {
                        let less = Cell { items: cell.items, strong: (cell.strong - 1) as usize };
                        lemma_total_strong_update(store.lists, h.index as int, less);
                        lemma_drain_keeps(store.with_cell(h, less), rest);
                    }
                } else {
                    lemma_drain_keeps(store, rest);
                }
            },
            _ => {
                lemma_drain_keeps(store, rest);
            },
        }
    }
}

/// Counting copies changes nothing but how lists are counted.
pub proof fn lemma_retain_all_keeps(store: Store, values: Seq<Value>)
    ensures
        store.retain_all(values).keeps_tables(store),
        forall|i: int|
            0 <= i < store.lists.len() ==> (#[trigger] store.retain_all(values).lists[i]).items
                == store.lists[i].items,
    decreases values.len(),
{
    if values.len() != 0 {
        lemma_retain_all_keeps(store, values.drop_last());
    }
}

/// Letting go of a value that is no strong handle to a list changes nothing.
pub proof fn lemma_release_plain(store: Store, v: Value)
    requires
        !(v is List),
    ensures
        store.release(v) == store,
{
    reveal_with_fuel(Store::drain, 2);
    assert(seq![v].last() == v);
    assert(seq![v].drop_last().len() == 0);
}

impl Heap {
    /// No handle inside the heap points outside it, and every immutable
    /// string is well-formed UTF-8.
    pub open spec fn wf(&self) -> bool {
        self@.wf()
    }

    /// What the view of the heap is after the items of one list were changed
    /// in place.
    proof fn lemma_items_changed(&self, before: &Heap, h: Handle)
        requires
            h.index < before.lists@.len(),
            self.lists@ == before.lists@.update(h.index as int, self.lists@[h.index as int]),
            self.lists@[h.index as int].strong == before.lists@[h.index as int].strong,
            self.bytes == before.bytes,
            self.buffers == before.buffers,
            self.strings == before.strings,
            self.texts == before.texts,
            self.functions == before.functions,
        ensures
            self@ == before@.with_items(h, self.lists@[h.index as int].items@),
    {
        assert(self@.lists =~= before@.lists.update(
            h.index as int,
            Cell {
                items: self.lists@[h.index as int].items@,
                strong: before@.lists[h.index as int].strong,
            },
        ));
    }

    /// What the view of the heap is after one buffer was changed in place.
    proof fn lemma_buffer_changed(&self, before: &Heap, h: Handle)
        requires
            h.index < before.buffers@.len(),
            self.buffers@ == before.buffers@.update(h.index as int, self.buffers@[h.index as int]),
            self.lists == before.lists,
            self.bytes == before.bytes,
            self.strings == before.strings,
            self.texts == before.texts,
            self.functions == before.functions,
        ensures
            self@ == before@.with_buffer(h, self.buffers@[h.index as int]@),
    {
        assert(self@.buffers =~= before@.buffers.update(
            h.index as int,
            self.buffers@[h.index as int]@,
        ));
    }

    /// Adds `v` at the end of the list at `h`. The list takes over the
    /// caller's copy of `v`.
    pub fn list_push(&mut self, h: Handle, v: Value)
        requires
            h.index < old(self)@.lists.len(),
        ensures
            final(self)@ == old(self)@.with_items(
                h,
                old(self)@.lists[h.index as int].items.push(v),
            ),
            old(self).wf() && old(self)@.admits(v) ==> final(self).wf(),
    {
        self.lists[h.index].items.push(v);
        proof {
            self.lemma_items_changed(old(self), h);
            if old(self).wf() && old(self)@.admits(v) {
                assert(old(self)@.admits_all(old(self)@.lists[h.index as int].items));
                lemma_with_items_wf(old(self)@, h, self@.lists[h.index as int].items);
            }
        }
    }

    /// Takes the last item off the list at `h` and hands it to the caller.
    pub fn list_pop(&mut self, h: Handle) -> (r: Option<Value>)
        requires
            h.index < old(self)@.lists.len(),
        ensures
            old(self)@.lists[h.index as int].items.len() > 0 ==> r == Some(
                old(self)@.lists[h.index as int].items.last(),
            ) && final(self)@ == old(self)@.with_items(
                h,
                old(self)@.lists[h.index as int].items.drop_last(),
            ),
            old(self)@.lists[h.index as int].items.len() == 0 ==> r is None && final(self)@ == old(
                self,
            )@,
            old(self).wf() ==> final(self).wf(),
            old(self).wf() && r is Some ==> old(self)@.admits(r.unwrap()),
    {
        let r = self.lists[h.index].items.pop();
        proof {
            self.lemma_items_changed(old(self), h);
            let items = old(self)@.lists[h.index as int].items;
            if items.len() == 0 {
                assert(self@.lists =~= old(self)@.lists);
            }
            if old(self).wf() {
                assert(old(self)@.admits_all(items));
                lemma_with_items_wf(old(self)@, h, self@.lists[h.index as int].items);
            }
        }
        r
    }

    /// Writes `v` at `index` of the list at `h` and hands the item that stood
    /// there to the caller; the list takes over the caller's copy of `v`.
    /// Nothing is written where `index` is out of range.
    pub fn list_set(&mut self, h: Handle, index: usize, v: Value) -> (r: Option<Value>)
        requires
            h.index < old(self)@.lists.len(),
        ensures
            index < old(self)@.lists[h.index as int].items.len() ==> r == Some(
                old(self)@.lists[h.index as int].items[index as int],
            ) && final(self)@ == old(self)@.with_items(
                h,
                old(self)@.lists[h.index as int].items.update(index as int, v),
            ),
            index >= old(self)@.lists[h.index as int].items.len() ==> r is None && final(self)@
                == old(self)@,
            old(self).wf() && old(self)@.admits(v) ==> final(self).wf(),
            old(self).wf() && r is Some ==> old(self)@.admits(r.unwrap()),
    {
        let r = self.lists[h.index].items.set(index, v);
        proof {
            self.lemma_items_changed(old(self), h);
            let items = old(self)@.lists[h.index as int].items;
            if index >= items.len() {
                assert(self@.lists =~= old(self)@.lists);
            }
            if old(self).wf() {
                assert(old(self)@.admits_all(items));
                if old(self)@.admits(v) {
                    lemma_with_items_wf(old(self)@, h, self@.lists[h.index as int].items);
                }
            }
        }
        r
    }

    /// Writes `src` over the items of the list at `h` from `offset` on, if
    /// they all lie within the list. The list takes over the caller's copies
    /// of the values of `src`; what stood there is lost to the heap, so the
    /// caller reads it before.
    pub fn list_set_slice(&mut self, h: Handle, src: &[Value], offset: usize) -> (r: Option<()>)
        requires
            h.index < old(self)@.lists.len(),
        ensures
            span_within(
                offset as int,
                src@.len() as int,
                old(self)@.lists[h.index as int].items.len() as int,
            ) <==> r is Some,
            r is Some ==> final(self)@ == old(self)@.with_items(
                h,
                overwrite(old(self)@.lists[h.index as int].items, offset as int, src@),
            ),
            r is None ==> final(self)@ == old(self)@,
            old(self).wf() && old(self)@.admits_all(src@) ==> final(self).wf(),
    {
        let r = self.lists[h.index].items.set_slice(src, offset);
        proof {
            self.lemma_items_changed(old(self), h);
            let items = old(self)@.lists[h.index as int].items;
            if r is None {
                assert(self@.lists =~= old(self)@.lists);
            }
            if old(self).wf() && old(self)@.admits_all(src@) {
                assert(old(self)@.admits_all(items));
                lemma_with_items_wf(old(self)@, h, self@.lists[h.index as int].items);
            }
        }
        r
    }

    /// Adds the values of `t` at the end of the list at `h`. The list takes
    /// over the caller's copies of them.
    pub fn list_append(&mut self, h: Handle, t: Vec<Value>)
        requires
            h.index < old(self)@.lists.len(),
        ensures
            final(self)@ == old(self)@.with_items(h, old(self)@.lists[h.index as int].items + t@),
            old(self).wf() && old(self)@.admits_all(t@) ==> final(self).wf(),
    {
        self.lists[h.index].items.append(t);
        proof {
            self.lemma_items_changed(old(self), h);
            if old(self).wf() && old(self)@.admits_all(t@) {
                assert(old(self)@.admits_all(old(self)@.lists[h.index as int].items));
                lemma_with_items_wf(old(self)@, h, self@.lists[h.index as int].items);
            }
        }
    }

    /// Cuts the list at `h` to `len` items, or pads it with `Nil`. The items
    /// that are cut off are lost to the heap, so the caller reads them
    /// before.
    pub fn list_resize(&mut self, h: Handle, len: usize)
        requires
            h.index < old(self)@.lists.len(),
        ensures
            final(self)@ == old(self)@.with_items(
                h,
                resized(old(self)@.lists[h.index as int].items, len as nat, Value::Nil),
            ),
            old(self).wf() ==> final(self).wf(),
    {
        self.lists[h.index].items.resize(len);
        proof {
            self.lemma_items_changed(old(self), h);
            if old(self).wf() {
                assert(old(self)@.admits_all(old(self)@.lists[h.index as int].items));
                lemma_with_items_wf(old(self)@, h, self@.lists[h.index as int].items);
            }
        }
    }

    /// Writes `value` at `index` of the buffer at `h` and returns the byte
    /// that stood there, as an integer. Nothing is written where `index` is
    /// out of range.
    pub fn buffer_set(&mut self, h: Handle, index: usize, value: u8) -> (r: Option<Value>)
        requires
            h.index < old(self)@.buffers.len(),
        ensures
            index < old(self)@.buffers[h.index as int].len() ==> r == Some(
                Value::Integer(old(self)@.buffers[h.index as int][index as int] as i64),
            ) && final(self)@ == old(self)@.with_buffer(
                h,
                old(self)@.buffers[h.index as int].update(index as int, value),
            ),
            index >= old(self)@.buffers[h.index as int].len() ==> r is None && final(self)@ == old(
                self,
            )@,
            old(self).wf() ==> final(self).wf(),
    {
        let r = self.buffers[h.index].set(index, value);
        proof {
            self.lemma_buffer_changed(old(self), h);
            if index >= old(self)@.buffers[h.index as int].len() {
                assert(self@.buffers =~= old(self)@.buffers);
            }
            if old(self).wf() {
                lemma_with_buffer_wf(old(self)@, h, self@.buffers[h.index as int]);
            }
        }
        r
    }

    /// Writes `src` over the bytes of the buffer at `h` from `offset` on, if
    /// they all lie within the buffer.
    pub fn buffer_set_slice(&mut self, h: Handle, src: &[u8], offset: usize) -> (r: Option<()>)
        requires
            h.index < old(self)@.buffers.len(),
        ensures
            span_within(
                offset as int,
                src@.len() as int,
                old(self)@.buffers[h.index as int].len() as int,
            ) <==> r is Some,
            r is Some ==> final(self)@ == old(self)@.with_buffer(
                h,
                overwrite(old(self)@.buffers[h.index as int], offset as int, src@),
            ),
            r is None ==> final(self)@ == old(self)@,
            old(self).wf() ==> final(self).wf(),
    {
        let r = self.buffers[h.index].set_slice(src, offset);
        proof {
            self.lemma_buffer_changed(old(self), h);
            if r is None {
                assert(self@.buffers =~= old(self)@.buffers);
            }
            if old(self).wf() {
                lemma_with_buffer_wf(old(self)@, h, self@.buffers[h.index as int]);
            }
        }
        r
    }

    /// Adds the bytes of `t` at the end of the buffer at `h`.
    pub fn buffer_append(&mut self, h: Handle, t: &[u8])
        requires
            h.index < old(self)@.buffers.len(),
        ensures
            final(self)@ == old(self)@.with_buffer(h, old(self)@.buffers[h.index as int] + t@),
            old(self).wf() ==> final(self).wf(),
    {
        self.buffers[h.index].append(t);
        proof {
            self.lemma_buffer_changed(old(self), h);
            if old(self).wf() {
                lemma_with_buffer_wf(old(self)@, h, self@.buffers[h.index as int]);
            }
        }
    }

    /// Cuts the buffer at `h` to `len` bytes, or pads it with zeros.
    pub fn buffer_resize(&mut self, h: Handle, len: usize)
        requires
            h.index < old(self)@.buffers.len(),
        ensures
            final(self)@ == old(self)@.with_buffer(
                h,
                resized(old(self)@.buffers[h.index as int], len as nat, 0u8),
            ),
            old(self).wf() ==> final(self).wf(),
    {
        self.buffers[h.index].resize(len);
        proof {
            self.lemma_buffer_changed(old(self), h);
            if old(self).wf() {
                lemma_with_buffer_wf(old(self)@, h, self@.buffers[h.index as int]);
            }
        }
    }

    /// A heap without objects.
    pub fn new() -> (r: Heap)
        ensures
            r.wf(),
            r@.lists.len() == 0,
            r@.bytes.len() == 0,
            r@.buffers.len() == 0,
            r@.strings.len() == 0,
            r@.texts.len() == 0,
            r@.functions.len() == 0,
    {
        Heap {
            lists: Vec::new(),
            bytes: Vec::new(),
            buffers: Vec::new(),
            strings: Vec::new(),
            texts: Vec::new(),
            functions: Vec::new(),
        }
    }

    /// Whether the handle that `v` holds, if it holds one, points at an object
    /// of the heap.
    pub fn holds(&self, v: &Value) -> (r: bool)
        ensures
            r == self@.admits(*v),
    {
        match v {
            Value::List(h) => h.index < self.lists.len(),
            Value::ListWeak(h) => h.index < self.lists.len(),
            Value::Bytes(h) => h.index < self.bytes.len(),
            Value::BytesBuffer(h) => h.index < self.buffers.len(),
            Value::StringValue(h) => h.index < self.strings.len(),
            Value::StringBuffer(h) => h.index < self.texts.len(),
            Value::Function(h) => h.index < self.functions.len(),
            _ => true,
        }
    }

    /// Whether the heap holds the objects of all the handles in `values`.
    pub fn holds_all(&self, values: &[Value]) -> (r: bool)
        ensures
            r == self@.admits_all(values@),
    {
        let n: usize = values.len();
        let mut i: usize = 0;
        while i < n
            invariant
                n == values@.len(),
                i <= n,
                forall|k: int| 0 <= k < i ==> self@.admits(#[trigger] values@[k]),
            decreases n - i,
        {
            if !self.holds(&values[i]) {
                return false;
            }
            i += 1;
        }
        true
    }

    /// Whether no handle inside the heap points outside it. The strings of a
    /// heap are always well-formed.
    pub fn is_sound(&self) -> (r: bool)
        ensures
            r == self.wf(),
    {
        let mut i: usize = 0;
        while i < self.lists.len()
            invariant
                i <= self.lists@.len(),
                forall|k: int| 0 <= k < i ==> self@.admits_all(#[trigger] self@.lists[k].items),
            decreases self.lists@.len() - i,
        {
            if !self.holds_all(self.lists[i].items.0.as_slice()) {
                assert(!self@.admits_all(self@.lists[i as int].items));
                return false;
            }
            i += 1;
        }
        let mut n: usize = 0;
        while n < self.strings.len()
            invariant
                n <= self.strings@.len(),
                forall|k: int| 0 <= k < n ==> valid_utf8(#[trigger] self@.strings[k]),
            decreases self.strings@.len() - n,
        {
            let _ = self.strings[n].as_bytes();
            n += 1;
        }
        let mut j: usize = 0;
        while j < self.functions.len()
            invariant
                j <= self.functions@.len(),
                forall|k: int| 0 <= k < self@.strings.len() ==> valid_utf8(#[trigger] self@.strings[k]),
                forall|k: int| 0 <= k < self@.lists.len() ==> self@.admits_all(#[trigger] self@.lists[k].items),
                forall|k: int|
                    0 <= k < j ==> (#[trigger] self@.functions[k]).module.index < self@.lists.len()
                        && self@.functions[k].bytecode.index < self@.bytes.len(),
            decreases self.functions@.len() - j,
        {
            let f: Function = self.functions[j];
            if f.module.index >= self.lists.len() || f.bytecode.index >= self.bytes.len() {
                assert(self@.functions[j as int] == f);
                return false;
            }
            j += 1;
        }
        true
    }

    /// Puts a list into the heap and returns the one strong handle to it.
    pub fn alloc_list(&mut self, list: List) -> (r: Handle)
        ensures
            r.index == old(self)@.lists.len(),
            final(self)@ == old(self)@.with_new_list(list@),
            old(self).wf() && old(self)@.admits_all(list@) ==> final(self).wf(),
    {
        let index: usize = self.lists.len();
        self.lists.push(ListCell { items: list, strong: 1 });
        proof {
            assert(self@.lists =~= old(self)@.lists.push(Cell { items: list@, strong: 1 }));
            if old(self).wf() && old(self)@.admits_all(list@) {
                assert forall|i: int| 0 <= i < self@.lists.len() implies self@.admits_all(
                    #[trigger] self@.lists[i].items,
                ) by {
                    if i < old(self)@.lists.len() {
                        assert(old(self)@.admits_all(old(self)@.lists[i].items));
                    }
                }
            }
        }
        Handle { index }
    }

    /// Puts a byte array into the heap and returns its handle.
    pub fn alloc_bytes(&mut self, bytes: Bytes) -> (r: Handle)
        ensures
            r.index == old(self)@.bytes.len(),
            final(self)@ == (Store { bytes: old(self)@.bytes.push(bytes@), ..old(self)@ }),
            old(self).wf() ==> final(self).wf(),
    {
        let index: usize = self.bytes.len();
        self.bytes.push(bytes);
        proof {
            assert(self@.bytes =~= old(self)@.bytes.push(bytes@));
            if old(self).wf() {
                assert forall|i: int| 0 <= i < self@.lists.len() implies self@.admits_all(
                    #[trigger] self@.lists[i].items,
                ) by {
                    assert(old(self)@.admits_all(old(self)@.lists[i].items));
                }
            }
        }
        Handle { index }
    }

    /// Puts a byte buffer into the heap and returns its handle.
    pub fn alloc_buffer(&mut self, buffer: BytesBuffer) -> (r: Handle)
        ensures
            r.index == old(self)@.buffers.len(),
            final(self)@ == old(self)@.with_new_buffer(buffer@),
            old(self).wf() ==> final(self).wf(),
    {
        let index: usize = self.buffers.len();
        self.buffers.push(buffer);
        proof {
            assert(self@.buffers =~= old(self)@.buffers.push(buffer@));
            if old(self).wf() {
                assert forall|i: int| 0 <= i < self@.lists.len() implies self@.admits_all(
                    #[trigger] self@.lists[i].items,
                ) by {
                    assert(old(self)@.admits_all(old(self)@.lists[i].items));
                }
            }
        }
        Handle { index }
    }

    /// Puts an immutable string into the heap and returns its handle.
    pub fn alloc_string(&mut self, string: StringValue) -> (r: Handle)
        ensures
            r.index == old(self)@.strings.len(),
            final(self)@ == (Store {
                strings: old(self)@.strings.push(string.bytes()),
                ..old(self)@
            }),
            old(self).wf() ==> final(self).wf(),
    {
        let index: usize = self.strings.len();
        let _ = string.as_bytes();
        self.strings.push(string);
        proof {
            assert(self@.strings =~= old(self)@.strings.push(string.bytes()));
            if old(self).wf() {
                assert forall|i: int| 0 <= i < self@.lists.len() implies self@.admits_all(
                    #[trigger] self@.lists[i].items,
                ) by {
                    assert(old(self)@.admits_all(old(self)@.lists[i].items));
                }
            }
        }
        Handle { index }
    }

    /// Puts a string buffer into the heap and returns its handle.
    pub fn alloc_text(&mut self, text: StringBuffer) -> (r: Handle)
        ensures
            r.index == old(self)@.texts.len(),
            final(self)@ == (Store { texts: old(self)@.texts.push(text@), ..old(self)@ }),
            old(self).wf() ==> final(self).wf(),
    {
        let index: usize = self.texts.len();
        self.texts.push(text);
        proof {
            assert(self@.texts =~= old(self)@.texts.push(text@));
            if old(self).wf() {
                assert forall|i: int| 0 <= i < self@.lists.len() implies self@.admits_all(
                    #[trigger] self@.lists[i].items,
                ) by {
                    assert(old(self)@.admits_all(old(self)@.lists[i].items));
                }
            }
        }
        Handle { index }
    }

    /// Puts a function into the heap and returns its handle. The function
    /// takes over the strong handle to its module.
    pub fn alloc_function(&mut self, function: Function) -> (r: Handle)
        ensures
            r.index == old(self)@.functions.len(),
            final(self)@ == (Store {
                functions: old(self)@.functions.push(function),
                ..old(self)@
            }),
            old(self).wf() && function.module.index < old(self)@.lists.len()
                && function.bytecode.index < old(self)@.bytes.len() ==> final(self).wf(),
    {
        let index: usize = self.functions.len();
        self.functions.push(function);
        proof {
            assert(self@.lists =~= old(self)@.lists);
        }
        Handle { index }
    }

    /// Counts a copy of `v` that the caller has made.
    pub fn retain(&mut self, v: Value)
        ensures
            final(self)@ == old(self)@.retain(v),
            old(self).wf() ==> final(self).wf(),
            final(self)@.keeps_tables(old(self)@),
    {
        if let Value::List(h) = v {
            if h.index < self.lists.len() {
                let strong: usize = self.lists[h.index].strong;
                if 0 < strong && strong < usize::MAX {
                    self.lists[h.index].strong = strong + 1;
                    proof {
                        let cell = old(self)@.lists[h.index as int];
                        assert(self@.lists =~= old(self)@.lists.update(
                            h.index as int,
                            Cell { items: cell.items, strong: (cell.strong + 1) as usize },
                        ));
                    }
                }
            }
        }
    }

    /// Counts a copy of each value of `values`.
    pub fn retain_all(&mut self, values: &[Value])
        ensures
            final(self)@ == old(self)@.retain_all(values@),
            old(self).wf() ==> final(self).wf(),
            final(self)@.keeps_tables(old(self)@),
    {
        let n: usize = values.len();
        let mut i: usize = 0;
        while i < n
            invariant
                n == values@.len(),
                i <= n,
                self@ == old(self)@.retain_all(values@.subrange(0, i as int)),
                old(self).wf() ==> self.wf(),
                self@.keeps_tables(old(self)@),
            decreases n - i,
        {
            self.retain(values[i]);
            i += 1;
            assert(values@.subrange(0, i as int).drop_last() =~= values@.subrange(0, i - 1));
        }
        assert(values@.subrange(0, n as int) =~= values@);
    }

    /// Lets go of every value of `values`, the last one first, and of
    /// whatever is freed by that.
    pub fn release_all(&mut self, values: Vec<Value>)
        ensures
            final(self)@ == old(self)@.drain(values@),
            old(self).wf() ==> final(self).wf(),
            final(self)@.keeps_tables(old(self)@),
    {
        let mut pending: Vec<Value> = values;
        while pending.len() > 0
            invariant
                self@.drain(pending@) == old(self)@.drain(values@),
                old(self).wf() ==> self.wf(),
                self@.keeps_tables(old(self)@),
            decreases self@.weight(), pending@.len(),
        {
            let ghost before = self@;
            let ghost waiting = pending@;
            let v: Value = pending.pop().unwrap();
            assert(pending@ == waiting.drop_last());
            if let Value::List(h) = v {
                if h.index < self.lists.len() {
                    let strong: usize = self.lists[h.index].strong;
                    if strong == 1 {
                        let mut items: Vec<Value> = Vec::new();
                        std::mem::swap(&mut self.lists[h.index].items.0, &mut items);
                        self.lists[h.index].strong = 0;
                        proof {
                            let freed = Cell { items: Seq::<Value>::empty(), strong: 0 };
                            assert(self@.lists =~= before.lists.update(h.index as int, freed));
                            assert(self@ == before.with_cell(h, freed));
                            lemma_total_strong_update(before.lists, h.index as int, freed);
                            assert(items@ == before.lists[h.index as int].items);
                            if before.wf() {
                                assert(before.admits_all(before.lists[h.index as int].items));
                                assert forall|i: int| 0 <= i < self@.lists.len() implies self@.admits_all(
                                    #[trigger] self@.lists[i].items,
                                ) by {
                                    if i != h.index {
                                        assert(before.admits_all(before.lists[i].items));
                                    }
                                }
                            }
                        }
                        pending.append(&mut items);
                    } else if 1 < strong && strong < usize::MAX {
                        self.lists[h.index].strong = strong - 1;
                        proof {
                            let cell = before.lists[h.index as int];
                            let less = Cell { items: cell.items, strong: (cell.strong - 1) as usize };
                            assert(self@.lists =~= before.lists.update(h.index as int, less));
                            assert(self@ == before.with_cell(h, less));
                            lemma_total_strong_update(before.lists, h.index as int, less);
                            if before.wf() {
                                assert forall|i: int| 0 <= i < self@.lists.len() implies self@.admits_all(
                                    #[trigger] self@.lists[i].items,
                                ) by {
                                    assert(before.admits_all(before.lists[i].items));
                                }
                            }
                        }
                    }
                }
            }
        }
    }

    /// Lets go of `v` and of whatever is freed by that.
    pub fn release(&mut self, v: Value)
        ensures
            final(self)@ == old(self)@.release(v),
            old(self).wf() ==> final(self).wf(),
            final(self)@.keeps_tables(old(self)@),
    {
        if let Value::List(_) = v {
            let mut values: Vec<Value> = Vec::new();
            values.push(v);
            assert(values@ =~= seq![v]);
            self.release_all(values);
        } else {
            proof {
                lemma_release_plain(self@, v);
            }
        }
    }

    /// The strong handle that a weak handle stands for, if its list is alive.
    /// The new handle is counted.
    pub fn upgrade(&mut self, weak: Handle) -> (r: Option<Handle>)
        ensures
            r == if old(self)@.alive(weak) {
                Some(weak)
            } else {
                None
            },
            final(self)@ == old(self)@.retain(Value::List(weak)),
            old(self).wf() ==> final(self).wf(),
            final(self)@.keeps_tables(old(self)@),
    {
        if weak.index < self.lists.len() && self.lists[weak.index].strong > 0 {
            self.retain(Value::List(weak));
            Some(weak)
        } else {
            None
        }
    }
}

} // verus!
