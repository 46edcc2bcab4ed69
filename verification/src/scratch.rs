//! A pool of short-lived buffers, so that a buffer that is needed over and over
//! is not allocated each time.

use vstd::prelude::*;

verus! {

/// Buffers that the pool keeps at most.
pub const POOL_LIMIT: usize = 16;

/// Buffers that are free.
#[derive(Debug)]
pub struct ScratchPool<T> {
    pub free: Vec<Vec<T>>,
}

/// A buffer taken from a pool.
#[derive(Debug)]
pub struct Buf<T> {
    pub inner: Vec<T>,
}

/// Calls `Vec::capacity`. It is no less than the length; how much more room the
/// allocator gave is not said.
#[verifier::external_body]
fn room<T>(v: &Vec<T>) -> (n: usize)
    ensures
        n >= v@.len(),
{
    v.capacity()
}

impl<T> Buf<T> {
    /// The contents.
    pub fn as_slice(&self) -> (s: &[T])
        ensures
            s@ == self.inner@,
    {
        self.inner.as_slice()
    }

    /// The contents, to be changed.
    pub fn as_mut_slice(&mut self) -> (s: &mut [T])
        ensures
            s@ == old(self).inner@,
            final(self).inner@ == final(s)@,
    {
        self.inner.as_mut_slice()
    }

    /// How many elements the buffer holds without being allocated anew.
    pub fn capacity(&self) -> (n: usize)
        ensures
            n >= self.inner@.len(),
    {
        room(&self.inner)
    }
}

/// `now` is `before` without the element at `i`, whose place the last one takes.
pub open spec fn taken_out<T>(before: Seq<T>, now: Seq<T>, i: int) -> bool {
    &&& 0 <= i < before.len()
    &&& now == before.update(i, before.last()).drop_last()
}

impl<T: Copy> ScratchPool<T> {
    /// The pool keeps no more buffers than it may.
    pub open spec fn wf(&self) -> bool {
        self.free@.len() <= POOL_LIMIT
    }

    /// A pool with no buffers.
    pub fn new() -> (p: ScratchPool<T>)
        ensures
            p.wf(),
            p.free@.len() == 0,
    {
        ScratchPool { free: Vec::new() }
    }

    /// The first free buffer with room for `len` elements.
    fn find(&self, len: usize) -> (r: Option<usize>)
        ensures
            match r {
                Some(i) => i < self.free@.len(),
                None => forall|i: int|
                    0 <= i < self.free@.len() ==> (#[trigger] self.free@[i])@.len() < len,
            },
    {
        let mut i: usize = 0;
        while i < self.free.len()
            invariant
                i <= self.free@.len(),
                forall|j: int| 0 <= j < i ==> (#[trigger] self.free@[j])@.len() < len,
            decreases self.free@.len() - i,
        {
            if room(&self.free[i]) >= len {
                return Some(i);
            }
            i += 1;
        }
        None
    }

    /// A buffer of `len` elements, all of them `zero`: the first free one with
    /// enough room, or a new one where there is none. A free buffer of at least
    /// this length is never passed over for a new one.
    pub fn take(&mut self, len: usize, zero: T) -> (b: Buf<T>)
        requires
            old(self).wf(),
        ensures
            final(self).wf(),
            b.inner@ == Seq::new(len as nat, |i: int| zero),
            final(self).free@ == old(self).free@ || exists|i: int| #[trigger]
                taken_out(old(self).free@, final(self).free@, i),
            final(self).free@ == old(self).free@ ==> forall|i: int|
                0 <= i < old(self).free@.len() ==> (#[trigger] old(self).free@[i])@.len() < len,
    {
        let mut v: Vec<T> = match self.find(len) {
            Some(i) => {
                let ghost before = self.free@;
                let mut v = self.free.swap_remove(i);
                assert(taken_out(before, self.free@, i as int));
                v.clear();
                v
            },
            None => Vec::new(),
        };
        let mut i: usize = 0;
        while i < len
            invariant
                i <= len,
                v@ == Seq::new(i as nat, |j: int| zero),
            decreases len - i,
        {
            v.push(zero);
            assert(v@ =~= Seq::new((i + 1) as nat, |j: int| zero));
            i += 1;
        }
        Buf { inner: v }
    }

    /// Gives a buffer back. It is dropped where the pool is full.
    pub fn give_back(&mut self, b: Buf<T>)
        requires
            old(self).wf(),
        ensures
            final(self).wf(),
            old(self).free@.len() < POOL_LIMIT ==> final(self).free@ == old(self).free@.push(
                b.inner,
            ),
            old(self).free@.len() >= POOL_LIMIT ==> final(self).free@ == old(self).free@,
    {
        if self.free.len() < POOL_LIMIT {
            self.free.push(b.inner);
        }
    }
}

/// Taking a buffer out leaves every other one in the pool, once.
pub proof fn law_other_buffers_stay<T>(before: Seq<T>, now: Seq<T>, i: int, j: int)
    requires
        taken_out(before, now, i),
        0 <= j < before.len(),
    ensures
        now.len() == before.len() - 1,
        j != i && j < now.len() ==> now[j] == before[j],
        j != i && j == now.len() ==> now[i] == before[j],
{
}

} // verus!
