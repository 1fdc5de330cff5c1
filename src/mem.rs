//! Fixed-capacity cell arrays used for RAM, registers, stack, framebuffer
//! and keypad.
use vstd::prelude::*;

verus! {

/// `M` cells of type `T`, each reset to `blank` by [`Mem::clear`].
pub struct Mem<T, const M: usize> {
    /// The cells.
    pub data: [T; M],
    /// What every cell holds after a clear.
    pub blank: T,
}

impl<T: Copy, const M: usize> View for Mem<T, M> {
    type V = Seq<T>;

    open spec fn view(&self) -> Seq<T> {
        self.data@
    }
}

impl<T: Copy, const M: usize> Mem<T, M> {
    /// A memory whose `M` cells all hold `blank`.
    pub fn new(blank: T) -> (r: Self)
        ensures
            r@.len() == M,
            r.blank == blank,
            forall|i: int| 0 <= i < M ==> r@[i] == blank,
    {
        Mem { data: [blank; M], blank }
    }

    /// Number of cells.
    pub fn len(&self) -> (r: usize)
        ensures
            r == M,
            r == self@.len(),
    {
        M
    }

    /// Sets every cell back to the blank value.
    pub fn clear(&mut self)
        ensures
            final(self)@.len() == M,
            final(self).blank == old(self).blank,
            forall|i: int| 0 <= i < M ==> final(self)@[i] == old(self).blank,
    {
        self.data = [self.blank; M];
    }

    /// The cell at `i`, or `None` when `i` is not below `M`.
    pub fn get(&self, i: usize) -> (r: Option<T>)
        ensures
            self@.len() == M,
            r == (if i < M { Some(self@[i as int]) } else { None }),
    {
        if i < M {
            Some(self.data[i])
        } else {
            None
        }
    }

    /// Writes `v` at `i`; returns `false`, changing nothing, when `i` is not below `M`.
    pub fn set(&mut self, i: usize, v: T) -> (ok: bool)
        ensures
            ok == (i < M),
            final(self).blank == old(self).blank,
            final(self)@ == (if i < M { old(self)@.update(i as int, v) } else { old(self)@ }),
    {
        if i < M {
            self.data[i] = v;
            true
        } else {
            false
        }
    }
}

} // verus!
