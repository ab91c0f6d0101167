use vstd::prelude::*;

verus! {

/// Why an insertion into a handle table failed.
#[derive(Debug, Clone, Copy, PartialEq, Eq, Structural)]
pub enum TableError {
    /// Every slot of the table is occupied.
    TableFull,
}

/// Whether each of the first `capacity` slots is occupied.
pub open spec fn all_occupied<T>(slots: Seq<Option<T>>, capacity: nat) -> bool {
    slots.len() == capacity && forall|j: int| 0 <= j < slots.len() ==> #[trigger] slots[j] is Some
}

/// A fixed-capacity table of slots, addressed by small integer handles.
///
/// A handle is valid exactly when its slot is occupied. Slots are allocated
/// lazily, in order, up to the capacity fixed at construction; the table never
/// grows beyond it.
pub struct HandleTable<T> {
    slots: Vec<Option<T>>,
    capacity: u32,
}

impl<T> View for HandleTable<T> {
    type V = Seq<Option<T>>;

    closed spec fn view(&self) -> Seq<Option<T>> {
        self.slots@
    }
}

impl<T> HandleTable<T> {
    pub closed spec fn spec_capacity(&self) -> nat {
        self.capacity as nat
    }

    /// The slots allocated so far never exceed the capacity.
    pub closed spec fn wf(&self) -> bool {
        self.slots.len() <= self.capacity
    }

    /// The value in the slot of `handle`, if that slot is occupied.
    pub open spec fn slot(&self, handle: int) -> Option<T> {
        if 0 <= handle < self@.len() {
            self@[handle]
        } else {
            None
        }
    }

    /// An empty table that can hold up to `capacity` values at once.
    pub fn new(capacity: u32) -> (r: Self)
        ensures
            r.wf(),
            r@ == Seq::<Option<T>>::empty(),
            r.spec_capacity() == capacity,
    {
        HandleTable { slots: Vec::new(), capacity }
    }

    pub fn capacity(&self) -> (r: u32)
        ensures
            r == self.spec_capacity(),
    {
        self.capacity
    }

    /// Puts `value` in the first free slot and returns that slot's handle;
    /// fails with `TableFull` when all `capacity` slots are occupied.
    pub fn push(&mut self, value: T) -> (r: Result<u32, TableError>)
        requires
            old(self).wf(),
        ensures
            final(self).wf(),
            final(self).spec_capacity() == old(self).spec_capacity(),
            match r {
                Ok(h) => {
                    &&& h < old(self).spec_capacity()
                    &&& h <= old(self)@.len()
                    &&& old(self).slot(h as int) is None
                    &&& forall|j: int| 0 <= j < h ==> #[trigger] old(self)@[j] is Some
                    &&& final(self)@ == if h < old(self)@.len() {
                        old(self)@.update(h as int, Some(value))
                    } else {
                        old(self)@.push(Some(value))
                    }
                },
                Err(e) => {
                    &&& e == TableError::TableFull
                    &&& all_occupied(old(self)@, old(self).spec_capacity())
                    &&& final(self)@ == old(self)@
                },
            },
    {
        let mut i: usize = 0;
        while i < self.slots.len()
            invariant
                self.wf(),
                self.slots@ == old(self).slots@,
                self.capacity == old(self).capacity,
                i <= self.slots.len(),
                forall|j: int| 0 <= j < i ==> #[trigger] self.slots@[j] is Some,
            decreases self.slots.len() - i,
        {
            if self.slots[i].is_none() {
                self.slots.set(i, Some(value));
                return Ok(i as u32);
            }
            i = i + 1;
        }
        if self.slots.len() < self.capacity as usize {
            let h = self.slots.len() as u32;
            self.slots.push(Some(value));
            Ok(h)
        } else {
            Err(TableError::TableFull)
        }
    }

    /// The value held under `handle`, or `None` when its slot is out of range
    /// or empty.
    pub fn get(&self, handle: u32) -> (r: Option<&T>)
        ensures
            match r {
                Some(v) => self.slot(handle as int) == Some(*v),
                None => self.slot(handle as int) is None,
            },
    {
        if (handle as usize) < self.slots.len() {
            match &self.slots[handle as usize] {
                Some(v) => Some(v),
                None => None,
            }
        } else {
            None
        }
    }

    /// Empties the slot of `handle` and returns what it held.
    pub fn remove(&mut self, handle: u32) -> (r: Option<T>)
        requires
            old(self).wf(),
        ensures
            final(self).wf(),
            final(self).spec_capacity() == old(self).spec_capacity(),
            r == old(self).slot(handle as int),
            final(self)@ == if handle < old(self)@.len() {
                old(self)@.update(handle as int, None)
            } else {
                old(self)@
            },
    {
        if (handle as usize) < self.slots.len() {
            let mut out: Option<T> = None;
            std::mem::swap(&mut self.slots[handle as usize], &mut out);
            out
        } else {
            None
        }
    }

    /// Puts `value` back into the empty, allocated slot of `handle`.
    pub fn fill(&mut self, handle: u32, value: T)
        requires
            old(self).wf(),
            handle < old(self)@.len(),
            old(self)@[handle as int] is None,
        ensures
            final(self).wf(),
            final(self).spec_capacity() == old(self).spec_capacity(),
            final(self)@ == old(self)@.update(handle as int, Some(value)),
    {
        self.slots.set(handle as usize, Some(value));
    }
}

} // verus!
