//! Typed storage for the elements a pass reads and writes, and the names of
//! the two places that a chunk's passes alternate between.

use vstd::prelude::*;
use crate::pass::zeros;

verus! {

/// A region of unsigned 64-bit elements with bounds-checked access.
#[derive(Debug)]
pub struct TypedBuffer {
    words: Vec<u64>,
}

impl View for TypedBuffer {
    type V = Seq<u64>;

    closed spec fn view(&self) -> Seq<u64> {
        self.words@
    }
}

impl TypedBuffer {
    /// A buffer of `len` elements, all zero.
    pub fn zeroed(len: usize) -> (buffer: TypedBuffer)
        ensures
            buffer@ == zeros(len as nat),
    {
        let mut words: Vec<u64> = Vec::new();
        let mut i: usize = 0;
        while i < len
            invariant
                i <= len,
                words@ == zeros(i as nat),
            decreases len - i,
        {
            words.push(0);
            i = i + 1;
            assert(words@ =~= zeros(i as nat));
        }
        TypedBuffer { words }
    }

    /// A buffer that holds a copy of `data`.
    pub fn from_slice(data: &[u64]) -> (buffer: TypedBuffer)
        ensures
            buffer@ == data@,
    {
        let mut words: Vec<u64> = Vec::new();
        let mut i: usize = 0;
        while i < data.len()
            invariant
                i <= data.len(),
                words@ == data@.take(i as int),
            decreases data.len() - i,
        {
            words.push(data[i]);
            i = i + 1;
            assert(words@ =~= data@.take(i as int));
        }
        assert(data@.take(data.len() as int) =~= data@);
        TypedBuffer { words }
    }

    /// The number of elements the buffer holds.
    pub fn len(&self) -> (len: usize)
        ensures
            len == self@.len(),
    {
        self.words.len()
    }

    /// The element at `index`, or `None` where `index` lies outside the buffer.
    pub fn read(&self, index: usize) -> (value: Option<u64>)
        ensures
            index < self@.len() ==> value == Some(self@[index as int]),
            index >= self@.len() ==> value.is_none(),
    {
        if index < self.words.len() {
            Some(self.words[index])
        } else {
            None
        }
    }

    /// Stores `value` at `index` and returns `true`; where `index` lies
    /// outside the buffer, changes nothing and returns `false`.
    pub fn write(&mut self, index: usize, value: u64) -> (written: bool)
        ensures
            written <==> index < old(self)@.len(),
            written ==> final(self)@ == old(self)@.update(index as int, value),
            !written ==> final(self)@ == old(self)@,
    {
        if index < self.words.len() {
            self.words[index] = value;
            true
        } else {
            false
        }
    }

    /// Sets the first `count` elements to zero and returns `true`; where the
    /// buffer holds fewer than `count` elements, changes nothing and returns `false`.
    pub fn zero_fill(&mut self, count: usize) -> (filled: bool)
        ensures
            filled <==> count <= old(self)@.len(),
            filled ==> final(self)@ == zeros(count as nat) + old(self)@.skip(count as int),
            !filled ==> final(self)@ == old(self)@,
    {
        if count > self.words.len() {
            return false;
        }
        let mut i: usize = 0;
        while i < count
            invariant
                i <= count <= self.words.len(),
                self.words.len() == old(self)@.len(),
                self.words@ == zeros(i as nat) + old(self)@.skip(i as int),
            decreases count - i,
        {
            self.words[i] = 0;
            i = i + 1;
            assert(self.words@ =~= zeros(i as nat) + old(self)@.skip(i as int));
        }
        true
    }

    /// Copies `data` over the first elements of the buffer and returns `true`;
    /// where `data` is longer than the buffer, changes nothing and returns `false`.
    pub fn load(&mut self, data: &[u64]) -> (loaded: bool)
        ensures
            loaded <==> data@.len() <= old(self)@.len(),
            loaded ==> final(self)@ == data@ + old(self)@.skip(data@.len() as int),
            !loaded ==> final(self)@ == old(self)@,
    {
        if data.len() > self.words.len() {
            return false;
        }
        let mut i: usize = 0;
        while i < data.len()
            invariant
                i <= data.len() <= self.words.len(),
                self.words.len() == old(self)@.len(),
                self.words@ == data@.take(i as int) + old(self)@.skip(i as int),
            decreases data.len() - i,
        {
            self.words[i] = data[i];
            i = i + 1;
            assert(self.words@ =~= data@.take(i as int) + old(self)@.skip(i as int));
        }
        assert(data@.take(data.len() as int) =~= data@);
        true
    }
}

/// One of the two fixed places of a buffer pair.
#[derive(Clone, Copy, Debug, PartialEq, Eq, Structural)]
pub enum Slot {
    /// The buffer that receives a chunk's data.
    Primary,
    /// The buffer that receives the first pass's group sums.
    Scratch,
}

impl Slot {
    /// The other place of the pair.
    pub open spec fn other(self) -> Slot {
        match self {
            Slot::Primary => Slot::Scratch,
            Slot::Scratch => Slot::Primary,
        }
    }

    /// The other place of the pair.
    pub fn flipped(self) -> (slot: Slot)
        ensures
            slot == self.other(),
    {
        match self {
            Slot::Primary => Slot::Scratch,
            Slot::Scratch => Slot::Primary,
        }
    }
}

} // verus!
