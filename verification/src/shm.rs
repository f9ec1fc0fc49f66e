//! Bookkeeping of the shared-memory buffer pools: how a pool is sliced into
//! equally sized buffers, and which buffer may be written next (double
//! buffering: we write one buffer while the compositor still reads another).

use vstd::prelude::*;

verus! {

/// Bytes per pixel (ARGB8888 / XRGB8888).
pub const PIXEL: usize = 4;

/// How a pool of `count` buffers of `width` x `height` pixels is laid out.
pub struct PoolLayout {
    /// Bytes per row.
    pub stride: i32,
    /// Bytes per buffer.
    pub buf_size: usize,
    /// Bytes of the whole pool.
    pub pool_size: usize,
    /// Offset of each buffer in the pool, as handed to the compositor.
    pub offsets: Vec<i32>,
}

/// The pool arithmetic for these dimensions stays in range.
pub open spec fn layout_fits(width: u32, height: u32, count: usize) -> bool {
    let stride = (width as i32) as int * 4;
    &&& i32::MIN <= stride <= i32::MAX
    &&& ((stride as i32) as usize) as int * height as int <= usize::MAX
    &&& ((stride as i32) as usize) as int * height as int * count as int <= usize::MAX
}

/// Slice a pool into `count` buffers of `width` x `height` pixels: rows of
/// `width * 4` bytes, buffers back to back.
pub fn pool_layout(width: u32, height: u32, count: usize) -> (r: PoolLayout)
    requires
        layout_fits(width, height, count),
    ensures
        r.stride == (width as i32) as int * 4,
        r.buf_size == (r.stride as usize) as int * height as int,
        r.pool_size == r.buf_size * count,
        r.offsets@.len() == count,
        forall|i: int| 0 <= i < count ==> #[trigger] r.offsets@[i] == (i * r.buf_size) as i32,
{
    let stride = (width as i32) * (PIXEL as i32);
    let su = stride as usize;
    let buf_size = su * height as usize;
    let pool_size = buf_size * count;
    let mut offsets: Vec<i32> = Vec::new();
    let mut i: usize = 0;
    while i < count
        invariant
            i <= count,
            buf_size * count == pool_size,
            offsets@.len() == i,
            forall|j: int| 0 <= j < i ==> #[trigger] offsets@[j] == (j * buf_size) as i32,
        decreases count - i,
    {
        assert(i * buf_size <= buf_size * count) by (nonlinear_arith)
            requires
                i < count,
                0 <= buf_size,
        ;
        offsets.push((i * buf_size) as i32);
        i = i + 1;
    }
    PoolLayout { stride, buf_size, pool_size, offsets }
}


/// The buffers of one pool: their protocol ids, the slot handed out last,
/// and whether the compositor has released each one (safe to rewrite).
pub struct BufferSlots {
    pub ids: Vec<u32>,
    pub current: usize,
    pub released: Vec<bool>,
}

impl BufferSlots {
    /// One flag per buffer, at least one buffer, and the current slot valid.
    pub open spec fn wf(&self) -> bool {
        &&& self.ids@.len() == self.released@.len()
        &&& 0 < self.released@.len()
        &&& self.current < self.released@.len()
    }

    /// Slot that `next_writeable` tries: the one after the current one.
    pub open spec fn spec_next(&self) -> int {
        (self.current + 1) % (self.released@.len() as int)
    }

    /// Fresh slots for the buffers `ids`: all released, slot 0 current.
    pub fn new(ids: Vec<u32>) -> (r: BufferSlots)
        ensures
            r.ids@ == ids@,
            r.current == 0,
            r.released@.len() == ids@.len(),
            forall|i: int| 0 <= i < ids@.len() ==> #[trigger] r.released@[i],
    {
        let mut released: Vec<bool> = Vec::new();
        let mut i: usize = 0;
        while i < ids.len()
            invariant
                i <= ids@.len(),
                released@.len() == i,
                forall|j: int| 0 <= j < i ==> #[trigger] released@[j],
            decreases ids@.len() - i,
        {
            released.push(true);
            i = i + 1;
        }
        BufferSlots { ids, current: 0, released }
    }

    /// Mark the buffer with protocol id `id` as released by the compositor
    /// (the first slot holding that id; unknown ids change nothing).
    pub fn mark_released(&mut self, id: u32)
        requires
            old(self).wf(),
        ensures
            final(self).wf(),
            final(self).ids == old(self).ids,
            final(self).current == old(self).current,
            match first_index(old(self).ids@, id) {
                Some(i) => final(self).released@ == old(self).released@.update(i, true),
                None => final(self).released@ == old(self).released@,
            },
    {
        let mut i: usize = 0;
        while i < self.ids.len()
            invariant
                self.wf(),
                self.ids == old(self).ids,
                self.current == old(self).current,
                self.released == old(self).released,
                i <= self.ids@.len(),
                forall|j: int| 0 <= j < i ==> self.ids@[j] != id,
            decreases self.ids@.len() - i,
        {
            if self.ids[i] == id {
                proof {
                    lemma_first_index(self.ids@, id, i as int);
                }
                self.released.set(i, true);
                return;
            }
            i = i + 1;
        }
        proof {
            lemma_first_index_none(self.ids@, id);
        }
    }

    /// Advance to the next buffer if the compositor has released it, and
    /// claim it (no longer released); `None` if it is still in use.
    pub fn next_writeable(&mut self) -> (r: Option<usize>)
        requires
            old(self).wf(),
        ensures
            final(self).wf(),
            final(self).ids == old(self).ids,
            old(self).released@[old(self).spec_next()] ==> {
                &&& r == Some(old(self).spec_next() as usize)
                &&& final(self).current == old(self).spec_next()
                &&& final(self).released@ == old(self).released@.update(old(self).spec_next(), false)
            },
            !old(self).released@[old(self).spec_next()] ==> {
                &&& r is None
                &&& final(self).current == old(self).current
                &&& final(self).released@ == old(self).released@
            },
    {
        let n = self.released.len();
        let next = (self.current + 1) % n;
        if !self.released[next] {
            return None;
        }
        self.current = next;
        self.released.set(next, false);
        Some(next)
    }
}

/// Position of the first `id` in `ids`.
pub open spec fn first_index(ids: Seq<u32>, id: u32) -> Option<int> {
    if exists|i: int| 0 <= i < ids.len() && ids[i] == id {
        Some(choose|i: int| 0 <= i < ids.len() && ids[i] == id && forall|j: int| 0 <= j < i ==> ids[j] != id)
    } else {
        None
    }
}

proof fn lemma_first_index(ids: Seq<u32>, id: u32, i: int)
    requires
        0 <= i < ids.len(),
        ids[i] == id,
        forall|j: int| 0 <= j < i ==> ids[j] != id,
    ensures
        first_index(ids, id) == Some(i),
{
    let k = choose|k: int| 0 <= k < ids.len() && ids[k] == id && forall|j: int| 0 <= j < k ==> ids[j] != id;
    assert(exists|k: int| 0 <= k < ids.len() && ids[k] == id && forall|j: int| 0 <= j < k ==> ids[j] != id);
    if k < i {
        assert(ids[k] != id);
    }
    if i < k {
        assert(ids[i] != id);
    }
}

proof fn lemma_first_index_none(ids: Seq<u32>, id: u32)
    requires
        forall|j: int| 0 <= j < ids.len() ==> ids[j] != id,
    ensures
        first_index(ids, id) is None,
{
}

/// Releasing the buffer that comes next makes it writeable again: when the
/// buffer ids are distinct, `mark_released` with the id of the slot after the
/// current one sets exactly that slot's flag, so the following
/// `next_writeable` hands that slot out.
pub proof fn law_release_then_write(s: BufferSlots)
    requires
        s.wf(),
        s.ids@.no_duplicates(),
    ensures
        first_index(s.ids@, s.ids@[s.spec_next()]) == Some(s.spec_next()),
        s.released@.update(s.spec_next(), true)[s.spec_next()],
{
    let n = s.spec_next();
    let id = s.ids@[n];
    assert forall|j: int| 0 <= j < n implies s.ids@[j] != id by {
        assert(s.ids@[j] != s.ids@[n]);
    }
    lemma_first_index(s.ids@, id, n);
}

} // verus!
