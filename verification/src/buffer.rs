//! The editable text of the line under the cursor.

use vstd::prelude::*;

verus! {

/// The capacity a fresh or cleared buffer starts with.
pub const INITIAL_CAPACITY: usize = 2048;

/// The least amount by which the capacity grows.
pub const GROWTH_STEP: usize = 512;

/// The capacity after an insertion at `index` into a buffer of `len`
/// characters: unchanged while the longer text still fits, and otherwise
/// larger by `max(GROWTH_STEP, index - capacity + GROWTH_STEP)`.
pub open spec fn grown_capacity(capacity: int, len: int, index: int) -> int {
    let end = if index > len { index } else { len };
    if end + 1 > capacity {
        if index > capacity {
            capacity + (index - capacity + GROWTH_STEP)
        } else {
            capacity + GROWTH_STEP
        }
    } else {
        capacity
    }
}

/// The text after inserting `element` at `index`. Inside the text the later
/// characters move one place to the right; beyond its end the gap is filled
/// with NUL characters first.
pub open spec fn inserted(text: Seq<char>, index: int, element: char) -> Seq<char> {
    if index <= text.len() {
        text.insert(index, element)
    } else {
        (text + Seq::new((index - text.len()) as nat, |i: int| '\0')).push(element)
    }
}

/// An insertion keeps what stood before the insertion point, puts the
/// element there, and leaves a text that fits the capacity, which never
/// shrinks and grows by `GROWTH_STEP` or more when it grows.
pub proof fn lemma_insertion(text: Seq<char>, capacity: int, index: int, element: char)
    requires
        text.len() <= capacity,
        0 <= index,
    ensures
        ({
            let longer = inserted(text, index, element);
            let grown = grown_capacity(capacity, text.len() as int, index);
            let kept = if index < text.len() { index } else { text.len() as int };
            &&& longer.len() <= grown
            &&& grown == capacity || grown >= capacity + GROWTH_STEP
            &&& longer.take(kept) == text.take(kept)
            &&& longer[index] == element
            &&& index > capacity ==> grown == index + GROWTH_STEP
        }),
{
}

/// A growable sequence of characters with a capacity that is never smaller
/// than its length.
pub struct TextBuffer {
    _capacity: usize,
    _buf: Vec<char>,
}

impl View for TextBuffer {
    type V = Seq<char>;

    closed spec fn view(&self) -> Seq<char> {
        self._buf@
    }
}

impl TextBuffer {
    /// The capacity the buffer currently has.
    pub closed spec fn spec_capacity(&self) -> usize {
        self._capacity
    }

    #[verifier::type_invariant]
    spec fn fits(&self) -> bool {
        self._buf.len() <= self._capacity
    }

    /// An empty buffer of the initial capacity.
    pub fn new() -> (buffer: Self)
        ensures
            buffer@ == Seq::<char>::empty(),
            buffer.spec_capacity() == INITIAL_CAPACITY,
    {
        Self { _capacity: INITIAL_CAPACITY, _buf: Vec::with_capacity(INITIAL_CAPACITY) }
    }

    /// Inserts `element` at `index`, growing the capacity when the longer
    /// text would not fit.
    pub fn insert(&mut self, index: usize, element: char)
        requires
            grown_capacity(old(self).spec_capacity() as int, old(self)@.len() as int, index as int)
                <= usize::MAX,
        ensures
            final(self)@ == inserted(old(self)@, index as int, element),
            final(self).spec_capacity() == grown_capacity(
                old(self).spec_capacity() as int,
                old(self)@.len() as int,
                index as int,
            ),
            final(self)@.len() <= final(self).spec_capacity(),
    {
        proof {
            use_type_invariant(&*self);
        }
        let mut buf: Vec<char> = Vec::new();
        core::mem::swap(&mut buf, &mut self._buf);
        let len = buf.len();
        let end = if index > len { index } else { len };
        if end >= self._capacity {
            if index > self._capacity {
                self._capacity = index + GROWTH_STEP;
            } else {
                self._capacity = self._capacity + GROWTH_STEP;
            }
            buf.reserve(self._capacity - len);
        }
        while buf.len() < index
            invariant
                len == old(self)@.len(),
                len <= buf.len() <= index || (index <= len && buf.len() == len),
                buf@ == old(self)@ + Seq::new((buf.len() - len) as nat, |i: int| '\0'),
            decreases index - buf.len(),
        {
            buf.push('\0');
        }
        buf.insert(index, element);
        assert(buf@ == inserted(old(self)@, index as int, element));
        self._buf = buf;
    }

    /// Removes and returns the character at `index`.
    pub fn remove(&mut self, index: usize) -> (element: char)
        requires
            index < old(self)@.len(),
        ensures
            element == old(self)@[index as int],
            final(self)@ == old(self)@.remove(index as int),
            final(self).spec_capacity() == old(self).spec_capacity(),
            final(self)@.len() <= final(self).spec_capacity(),
    {
        proof {
            use_type_invariant(&*self);
        }
        let mut buf: Vec<char> = Vec::new();
        core::mem::swap(&mut buf, &mut self._buf);
        let element = buf.remove(index);
        self._buf = buf;
        element
    }

    /// The number of characters held.
    pub fn len(&self) -> (n: usize)
        ensures
            n == self@.len(),
            n <= self.spec_capacity(),
    {
        proof {
            use_type_invariant(self);
        }
        return self._buf.len();
    }

    /// The current capacity.
    pub fn capacity(&self) -> (n: usize)
        ensures
            n == self.spec_capacity(),
            self@.len() <= n,
    {
        proof {
            use_type_invariant(self);
        }
        self._capacity
    }

    /// The character at `index`.
    pub fn get(&self, index: usize) -> (element: char)
        requires
            index < self@.len(),
        ensures
            element == self@[index as int],
    {
        self._buf[index]
    }

    /// Empties the buffer and brings the capacity back to the initial one.
    pub fn clear(&mut self)
        ensures
            final(self)@ == Seq::<char>::empty(),
            final(self).spec_capacity() == INITIAL_CAPACITY,
    {
        self.reset();
    }

    /// Replaces the storage by a fresh one of the initial capacity.
    pub fn reset(&mut self)
        ensures
            final(self)@ == Seq::<char>::empty(),
            final(self).spec_capacity() == INITIAL_CAPACITY,
    {
        self._buf = Vec::with_capacity(INITIAL_CAPACITY);
        self._capacity = INITIAL_CAPACITY;
    }

    /// The text as a string.
    pub fn to_string(&self) -> (text: String)
        ensures
            text@ == self@,
    {
        crate::text::string_of(&self._buf)
    }
}

} // verus!
