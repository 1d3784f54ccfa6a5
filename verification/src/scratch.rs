use vstd::prelude::*;

verus! {

/// A typed scratch space over a caller-provided region of uninitialized
/// bytes. A write checks (as a precondition) that the value's size fits the
/// region and otherwise leaves no trace; a read hands back a default value.
/// The buffer bytes themselves are never interpreted.
pub struct Scratch<'a> {
    buf: &'a mut [core::mem::MaybeUninit<u8>],
}

impl<'a> Scratch<'a> {
    /// How many bytes the underlying region holds.
    pub closed spec fn capacity(&self) -> nat {
        self.buf@.len()
    }

    pub fn new(buf: &'a mut [core::mem::MaybeUninit<u8>]) -> (s: Self)
        ensures
            s.capacity() == old(buf)@.len(),
    {
        Scratch { buf }
    }

    /// Record a value of type `T` in the scratch space; the value must fit.
    /// The stored bytes are never read back, so the value itself is dropped.
    pub fn write<T>(&mut self, _value: T)
        requires
            vstd::layout::size_of::<T>() <= old(self).capacity(),
        ensures
            final(self).capacity() == old(self).capacity(),
    {
    }

    /// Read a value of type `T` back out of the scratch space; since writes
    /// keep no bytes, this is whatever `T`'s default is.
    pub fn read<T: Default>(&mut self) -> (r: T)
        ensures
            final(self).capacity() == old(self).capacity(),
            call_ensures(T::default, (), r),
    {
        T::default()
    }
}

} // verus!
