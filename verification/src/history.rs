//! Histories of percentages, newest first.
use vstd::prelude::*;

verus! {

/// Read access to a history of percentages.
pub trait HistoryAccess {
    /// The values, newest first.
    spec fn values(&self) -> Seq<u8>;

    fn is_empty(&self) -> (empty: bool)
        ensures
            empty == (self.values().len() == 0),
    ;

    fn len(&self) -> (len: usize)
        ensures
            len == self.values().len(),
    ;

    /// The newest value; zero where there is none.
    fn newest_value(&self) -> (value: u8)
        ensures
            value == newest(self.values()),
    ;

    fn value_at(&self, index: usize) -> (value: Option<u8>)
        ensures
            value == if index < self.values().len() {
                Some(self.values()[index as int])
            } else {
                None
            },
    ;
}

pub open spec fn newest(values: Seq<u8>) -> u8 {
    if values.len() == 0 {
        0
    } else {
        values[0]
    }
}

/// A history after one more value: the oldest one is forgotten.
pub open spec fn pushed(history: Seq<u8>, value: u8) -> Seq<u8> {
    if history.len() == 0 {
        history
    } else {
        seq![value] + history.drop_last()
    }
}

impl HistoryAccess for [u8] {
    open spec fn values(&self) -> Seq<u8> {
        self@
    }

    fn is_empty(&self) -> (empty: bool) {
        <[u8]>::len(self) == 0
    }

    fn len(&self) -> (len: usize) {
        <[u8]>::len(self)
    }

    fn newest_value(&self) -> (value: u8) {
        if <[u8]>::len(self) == 0 {
            0
        } else {
            self[0]
        }
    }

    fn value_at(&self, index: usize) -> (value: Option<u8>) {
        if index < <[u8]>::len(self) {
            Some(self[index])
        } else {
            None
        }
    }
}

impl HistoryAccess for Vec<u8> {
    open spec fn values(&self) -> Seq<u8> {
        self@
    }

    fn is_empty(&self) -> (empty: bool) {
        Vec::len(self) == 0
    }

    fn len(&self) -> (len: usize) {
        Vec::len(self)
    }

    fn newest_value(&self) -> (value: u8) {
        if Vec::len(self) == 0 {
            0
        } else {
            self[0]
        }
    }

    fn value_at(&self, index: usize) -> (value: Option<u8>) {
        if index < Vec::len(self) {
            Some(self[index])
        } else {
            None
        }
    }
}

/// A history of fixed length. A new value pushes the oldest one out.
pub struct HistoryBuffer {
    slots: Vec<u8>,
    newest: usize,
}

impl View for HistoryBuffer {
    type V = Seq<u8>;

    closed spec fn view(&self) -> Seq<u8> {
        Seq::new(
            self.slots@.len(),
            |i: int| self.slots@[slot_of(self.head(), i, self.slots@.len() as int)],
        )
    }
}

/// The slot that holds the value at `index`, in a ring of `len` slots.
spec fn slot_of(newest: int, index: int, len: int) -> int {
    if newest + index < len {
        newest + index
    } else {
        newest + index - len
    }
}

impl HistoryBuffer {
    /// The slot with the newest value.
    spec fn head(&self) -> int {
        if self.newest < self.slots@.len() {
            self.newest as int
        } else {
            0
        }
    }

    fn head_slot(&self) -> (slot: usize)
        ensures
            slot == self.head(),
    {
        if self.newest < self.slots.len() {
            self.newest
        } else {
            0
        }
    }

    /// A history of `len` zeros.
    pub fn zeroed(len: usize) -> (history: Self)
        ensures
            history@ == Seq::new(len as nat, |i: int| 0u8),
    {
        let mut slots: Vec<u8> = Vec::new();
        for index in 0..len
            invariant
                slots@ =~= Seq::new(index as nat, |i: int| 0u8),
        {
            slots.push(0);
        }
        let history = HistoryBuffer { slots, newest: 0 };
        assert(history@ =~= Seq::new(len as nat, |i: int| 0u8));
        history
    }

    /// Adds the newest value; the oldest one is forgotten.
    pub fn push(&mut self, value: u8)
        ensures
            final(self)@ == pushed(old(self)@, value),
    {
        let len: usize = self.slots.len();
        if len == 0 {
            return;
        }
        let head: usize = self.head_slot();
        self.newest = if head == 0 {
            len - 1
        } else {
            head - 1
        };
        self.slots.set(self.newest, value);
        assert(self@ =~= seq![value] + old(self)@.drop_last());
    }

    /// A history with the same values.
    pub fn copied(&self) -> (history: HistoryBuffer)
        ensures
            history@ == self@,
    {
        let mut slots: Vec<u8> = Vec::new();
        for index in 0..self.slots.len()
            invariant
                slots@ =~= self.slots@.take(index as int),
        {
            slots.push(self.slots[index]);
        }
        assert(slots@ =~= self.slots@);
        HistoryBuffer { slots, newest: self.newest }
    }
}

impl HistoryAccess for HistoryBuffer {
    open spec fn values(&self) -> Seq<u8> {
        self@
    }

    fn is_empty(&self) -> (empty: bool) {
        self.slots.len() == 0
    }

    fn len(&self) -> (len: usize) {
        self.slots.len()
    }

    fn newest_value(&self) -> (value: u8) {
        match self.value_at(0) {
            Some(value) => value,
            None => 0,
        }
    }

    fn value_at(&self, index: usize) -> (value: Option<u8>) {
        let len: usize = self.slots.len();
        if index >= len {
            return None;
        }
        let head: usize = self.head_slot();
        let room: usize = len - head;
        let slot: usize = if index < room {
            head + index
        } else {
            index - room
        };
        Some(self.slots[slot])
    }
}

} // verus!
