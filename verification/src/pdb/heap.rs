//! The page heap: a fixed byte area that is filled from both ends.
//!
//! The bottom part grows upwards from offset 0, the top part grows downwards
//! from the end of the area; the bytes in between are free.

use vstd::prelude::*;

verus! {

/// Error of a heap operation.
#[derive(PartialEq, Eq, Debug, Clone, Copy)]
pub enum HeapError {
    /// The requested bytes do not fit into (or are not present in) the heap.
    InsufficientSpace,
    /// A seek to a position that cannot be represented.
    InvalidInput,
}

/// Target of a cursor seek, relative to the start, the end or the current position.
#[derive(PartialEq, Eq, Debug, Clone, Copy)]
pub enum SeekFrom {
    /// Offset from the start of the area.
    Start(u64),
    /// Offset from the end of the used area.
    End(i64),
    /// Offset from the current position.
    Current(i64),
}

/// A byte area with a bottom part and a top part.
#[derive(Debug)]
pub struct Heap {
    top_size: usize,
    bottom_size: usize,
    data: Vec<u8>,
}

impl Heap {
    /// The bytes of the whole area.
    pub closed spec fn spec_data(&self) -> Seq<u8> {
        self.data@
    }

    /// Number of bytes in the bottom part.
    pub closed spec fn spec_bottom_size(&self) -> nat {
        self.bottom_size as nat
    }

    /// Number of bytes in the top part.
    pub closed spec fn spec_top_size(&self) -> nat {
        self.top_size as nat
    }

    /// The two parts fit into the area together.
    pub open spec fn wf(&self) -> bool {
        self.spec_bottom_size() + self.spec_top_size() <= self.spec_data().len()
    }

    /// Start of the top part.
    pub open spec fn spec_position_top(&self) -> int {
        self.spec_data().len() - self.spec_top_size()
    }

    /// An empty heap over `data`.
    pub fn new(data: Vec<u8>) -> (r: Heap)
        ensures
            r.wf(),
            r.spec_data() == data@,
            r.spec_bottom_size() == 0,
            r.spec_top_size() == 0,
    {
        Heap { top_size: 0, bottom_size: 0, data }
    }

    /// A heap over `data` whose parts already hold `bottom_size` and `top_size` bytes.
    pub fn with_size(data: Vec<u8>, bottom_size: usize, top_size: usize) -> (r: Heap)
        requires
            bottom_size + top_size <= data@.len(),
        ensures
            r.wf(),
            r.spec_data() == data@,
            r.spec_bottom_size() == bottom_size,
            r.spec_top_size() == top_size,
    {
        Heap { top_size, bottom_size, data }
    }

    /// The bytes of the whole area.
    pub fn data(&self) -> (r: &[u8])
        ensures
            r@ == self.spec_data(),
    {
        self.data.as_slice()
    }

    /// Gives back the bytes of the whole area.
    pub fn into_data(self) -> (r: Vec<u8>)
        ensures
            r@ == self.spec_data(),
    {
        self.data
    }

    /// Size of the whole area.
    pub fn size(&self) -> (r: usize)
        ensures
            r == self.spec_data().len(),
    {
        self.data.len()
    }

    /// Number of bytes between the two parts.
    pub fn free_size(&self) -> (r: usize)
        requires
            self.wf(),
        ensures
            r == self.spec_data().len() - self.spec_bottom_size() - self.spec_top_size(),
    {
        self.size() - self.bottom_size() - self.top_size()
    }

    /// Number of bytes in the bottom part.
    pub fn bottom_size(&self) -> (r: usize)
        ensures
            r == self.spec_bottom_size(),
    {
        self.bottom_size
    }

    /// Number of bytes in the top part.
    pub fn top_size(&self) -> (r: usize)
        ensures
            r == self.spec_top_size(),
    {
        self.top_size
    }

    /// End of the bottom part.
    pub fn position_bottom(&self) -> (r: usize)
        ensures
            r == self.spec_bottom_size(),
    {
        self.bottom_size
    }

    /// Start of the top part.
    pub fn position_top(&self) -> (r: usize)
        requires
            self.wf(),
        ensures
            r == self.spec_position_top(),
    {
        self.size() - self.top_size
    }

    /// Appends `buf` to the bottom part.
    ///
    /// Fails, changing nothing, where `buf` does not fit into the free bytes.
    pub fn push_bottom(&mut self, buf: &[u8]) -> (r: Result<usize, HeapError>)
        requires
            old(self).wf(),
        ensures
            final(self).wf(),
            old(self).spec_bottom_size() + buf@.len() <= old(self).spec_position_top() <==> r
                is Ok,
            r matches Ok(n) ==> {
                &&& n == buf@.len()
                &&& final(self).spec_bottom_size() == old(self).spec_bottom_size() + buf@.len()
                &&& final(self).spec_top_size() == old(self).spec_top_size()
                &&& final(self).spec_data() == old(self).spec_data().take(
                    old(self).spec_bottom_size() as int,
                ) + buf@ + old(self).spec_data().skip(
                    (old(self).spec_bottom_size() + buf@.len()) as int,
                )
            },
            r is Err ==> r == Err::<usize, HeapError>(HeapError::InsufficientSpace) && *final(self)
                == *old(self),
    {
        let start = self.position_bottom();
        if buf.len() > self.position_top() - start {
            return Err(HeapError::InsufficientSpace);
        }
        let end = start + buf.len();
        let mut i: usize = 0;
        while i < buf.len()
            invariant
                start == old(self).bottom_size,
                end == start + buf@.len(),
                end <= old(self).data@.len(),
                i <= buf@.len(),
                self.top_size == old(self).top_size,
                self.bottom_size == old(self).bottom_size,
                self.data@.len() == old(self).data@.len(),
                forall|k: int|
                    0 <= k < self.data@.len() ==> self.data@[k] == if start <= k < start + i {
                        buf@[k - start]
                    } else {
                        old(self).data@[k]
                    },
            decreases buf@.len() - i,
        {
            self.data.set(start + i, buf[i]);
            i = i + 1;
        }
        self.bottom_size = end;
        assert(self.data@ =~= old(self).data@.take(start as int) + buf@ + old(self).data@.skip(
            end as int,
        ));
        Ok(buf.len())
    }

    /// Prepends `buf` to the top part.
    ///
    /// Fails, changing nothing, where `buf` does not fit into the free bytes.
    pub fn push_top(&mut self, buf: &[u8]) -> (r: Result<usize, HeapError>)
        requires
            old(self).wf(),
            buf@.len() <= old(self).spec_position_top(),
        ensures
            final(self).wf(),
            old(self).spec_bottom_size() + buf@.len() <= old(self).spec_position_top() <==> r
                is Ok,
            r matches Ok(n) ==> {
                &&& n == buf@.len()
                &&& final(self).spec_top_size() == old(self).spec_top_size() + buf@.len()
                &&& final(self).spec_bottom_size() == old(self).spec_bottom_size()
                &&& final(self).spec_data() == old(self).spec_data().take(
                    old(self).spec_position_top() - buf@.len(),
                ) + buf@ + old(self).spec_data().skip(old(self).spec_position_top())
            },
            r is Err ==> r == Err::<usize, HeapError>(HeapError::InsufficientSpace) && *final(self)
                == *old(self),
    {
        let end = self.position_top();
        let start = end - buf.len();
        if start < self.position_bottom() {
            return Err(HeapError::InsufficientSpace);
        }
        let mut i: usize = 0;
        while i < buf.len()
            invariant
                end == old(self).data@.len() - old(self).top_size,
                start == end - buf@.len(),
                old(self).bottom_size <= start,
                end <= old(self).data@.len(),
                i <= buf@.len(),
                self.top_size == old(self).top_size,
                self.bottom_size == old(self).bottom_size,
                self.data@.len() == old(self).data@.len(),
                forall|k: int|
                    0 <= k < self.data@.len() ==> self.data@[k] == if start <= k < start + i {
                        buf@[k - start]
                    } else {
                        old(self).data@[k]
                    },
            decreases buf@.len() - i,
        {
            self.data.set(start + i, buf[i]);
            i = i + 1;
        }
        self.top_size = self.data.len() - start;
        assert(self.data@ =~= old(self).data@.take(start as int) + buf@ + old(self).data@.skip(
            end as int,
        ));
        Ok(buf.len())
    }

    /// Removes `size` bytes from the end of the bottom part.
    pub fn pop_bottom(&mut self, size: usize) -> (r: Result<(), HeapError>)
        requires
            old(self).wf(),
        ensures
            final(self).wf(),
            final(self).spec_data() == old(self).spec_data(),
            final(self).spec_top_size() == old(self).spec_top_size(),
            size <= old(self).spec_bottom_size() ==> r is Ok && final(self).spec_bottom_size()
                == old(self).spec_bottom_size() - size,
            size > old(self).spec_bottom_size() ==> r == Err::<(), HeapError>(
                HeapError::InsufficientSpace,
            ) && final(self).spec_bottom_size() == old(self).spec_bottom_size(),
    {
        if size > self.bottom_size() {
            return Err(HeapError::InsufficientSpace);
        }
        self.bottom_size = self.bottom_size() - size;
        Ok(())
    }

    /// Removes `size` bytes from the start of the top part.
    pub fn pop_top(&mut self, size: usize) -> (r: Result<(), HeapError>)
        requires
            old(self).wf(),
        ensures
            final(self).wf(),
            final(self).spec_data() == old(self).spec_data(),
            final(self).spec_bottom_size() == old(self).spec_bottom_size(),
            size <= old(self).spec_top_size() ==> r is Ok && final(self).spec_top_size()
                == old(self).spec_top_size() - size,
            size > old(self).spec_top_size() ==> r == Err::<(), HeapError>(
                HeapError::InsufficientSpace,
            ) && final(self).spec_top_size() == old(self).spec_top_size(),
    {
        if size > self.top_size() {
            return Err(HeapError::InsufficientSpace);
        }
        self.top_size = self.top_size() - size;
        Ok(())
    }

    /// A cursor over the bottom part, positioned at its start.
    pub fn bottom(self) -> (r: HeapBottom)
        requires
            self.wf(),
        ensures
            r.wf(),
            r.spec_heap() == self,
            r.spec_offset() == 0,
    {
        HeapBottom { offset: 0, heap: self }
    }

    /// A cursor over the top part, positioned at its start.
    pub fn top(self) -> (r: HeapTop)
        requires
            self.wf(),
        ensures
            r.wf(),
            r.spec_heap() == self,
            r.spec_offset() == 0,
    {
        HeapTop { offset: 0, heap: self }
    }
}

/// Where a seek lands before it is clamped to the used size, or `None` where
/// the target cannot be represented.
pub open spec fn seek_target(end: int, current: int, pos: SeekFrom) -> Option<int> {
    match pos {
        SeekFrom::Start(o) => if o <= usize::MAX {
            Some(o as int)
        } else {
            None
        },
        SeekFrom::End(o) => if isize::MIN <= o <= isize::MAX && 0 <= end + o <= usize::MAX {
            Some(end + o)
        } else {
            None
        },
        SeekFrom::Current(o) => if isize::MIN <= o <= isize::MAX && 0 <= current + o
            <= usize::MAX {
            Some(current + o)
        } else {
            None
        },
    }
}

/// Computes the position a seek from `current` lands on, within `0..=end`.
fn seek_position(end: usize, current: usize, pos: SeekFrom) -> (r: Result<usize, HeapError>)
    ensures
        match seek_target(end as int, current as int, pos) {
            Some(t) => r == Ok::<usize, HeapError>(
                if t <= end {
                    t as usize
                } else {
                    end
                },
            ),
            None => r == Err::<usize, HeapError>(HeapError::InvalidInput),
        },
{
    let target: i128 = match pos {
        SeekFrom::Start(o) => {
            if o as u128 > usize::MAX as u128 {
                return Err(HeapError::InvalidInput);
            }
            o as i128
        },
        SeekFrom::End(o) => {
            if (o as i128) < (isize::MIN as i128) || (o as i128) > (isize::MAX as i128) {
                return Err(HeapError::InvalidInput);
            }
            end as i128 + o as i128
        },
        SeekFrom::Current(o) => {
            if (o as i128) < (isize::MIN as i128) || (o as i128) > (isize::MAX as i128) {
                return Err(HeapError::InvalidInput);
            }
            current as i128 + o as i128
        },
    };
    if target < 0 || target > usize::MAX as i128 {
        return Err(HeapError::InvalidInput);
    }
    if target > end as i128 {
        Ok(end)
    } else {
        Ok(target as usize)
    }
}

/// A cursor over the bottom part of a heap.
///
/// Reads stop at the end of the bottom part; writes may grow it into the free bytes.
#[derive(Debug)]
pub struct HeapBottom {
    offset: usize,
    heap: Heap,
}

impl HeapBottom {
    /// The heap the cursor works on.
    pub closed spec fn spec_heap(&self) -> Heap {
        self.heap
    }

    /// The cursor position, from the start of the area.
    pub closed spec fn spec_offset(&self) -> nat {
        self.offset as nat
    }

    /// The heap is well formed and the cursor lies within the bottom part.
    pub open spec fn wf(&self) -> bool {
        &&& self.spec_heap().wf()
        &&& self.spec_offset() <= self.spec_heap().spec_bottom_size()
    }

    /// The heap the cursor works on.
    pub fn heap(&self) -> (r: &Heap)
        ensures
            *r == self.spec_heap(),
    {
        &self.heap
    }

    /// Gives back the heap.
    pub fn into_heap(self) -> (r: Heap)
        ensures
            r == self.spec_heap(),
    {
        self.heap
    }

    /// Copies bytes of the bottom part, from the cursor on, into `buf` and
    /// advances the cursor past them. Returns how many bytes were copied.
    pub fn read(&mut self, buf: &mut [u8]) -> (n: usize)
        requires
            old(self).wf(),
        ensures
            final(self).wf(),
            final(self).spec_heap() == old(self).spec_heap(),
            n == if old(buf)@.len() <= old(self).spec_heap().spec_bottom_size()
                - old(self).spec_offset() {
                old(buf)@.len() as int
            } else {
                old(self).spec_heap().spec_bottom_size() - old(self).spec_offset()
            },
            final(self).spec_offset() == old(self).spec_offset() + n,
            final(buf)@ == old(self).spec_heap().spec_data().subrange(
                old(self).spec_offset() as int,
                old(self).spec_offset() + n,
            ) + old(buf)@.skip(n as int),
    {
        if self.offset > self.heap.bottom_size() {
            return 0;
        }
        let available = self.heap.bottom_size() - self.offset;
        let n = if buf.len() <= available {
            buf.len()
        } else {
            available
        };
        let mut i: usize = 0;
        while i < n
            invariant
                n <= buf@.len(),
                self.offset + n <= self.heap.bottom_size,
                self.heap.wf(),
                buf@.len() == old(buf)@.len(),
                i <= n,
                forall|k: int|
                    0 <= k < buf@.len() ==> buf@[k] == if k < i {
                        self.heap.data@[self.offset + k]
                    } else {
                        old(buf)@[k]
                    },
            decreases n - i,
        {
            buf[i] = self.heap.data[self.offset + i];
            i = i + 1;
        }
        proof {
            assert(buf@ =~= self.heap.data@.subrange(self.offset as int, self.offset + n) + old(
                buf,
            )@.skip(n as int));
        }
        self.offset = self.offset + n;
        n
    }

    /// Copies bytes of `buf` into the area from the cursor on, as far as the free
    /// bytes reach, advances the cursor past them and grows the bottom part to
    /// the cursor. Returns how many bytes were copied.
    pub fn write(&mut self, buf: &[u8]) -> (n: usize)
        requires
            old(self).wf(),
        ensures
            final(self).wf(),
            n == if buf@.len() <= old(self).spec_heap().spec_position_top()
                - old(self).spec_offset() {
                buf@.len() as int
            } else {
                old(self).spec_heap().spec_position_top() - old(self).spec_offset()
            },
            final(self).spec_offset() == old(self).spec_offset() + n,
            final(self).spec_heap().spec_top_size() == old(self).spec_heap().spec_top_size(),
            final(self).spec_heap().spec_bottom_size() == if old(self).spec_offset() + n
                > old(self).spec_heap().spec_bottom_size() {
                old(self).spec_offset() + n
            } else {
                old(self).spec_heap().spec_bottom_size() as int
            },
            final(self).spec_heap().spec_data() == old(self).spec_heap().spec_data().take(
                old(self).spec_offset() as int,
            ) + buf@.take(n as int) + old(self).spec_heap().spec_data().skip(
                old(self).spec_offset() + n,
            ),
    {
        let room = self.heap.position_top() - self.offset;
        let n = if buf.len() <= room {
            buf.len()
        } else {
            room
        };
        if n == 0 {
            proof {
                assert(self.heap.data@ =~= self.heap.data@.take(self.offset as int) + buf@.take(0)
                    + self.heap.data@.skip(self.offset as int));
            }
            return 0;
        }
        let start = self.offset;
        let sz = self.heap.size();
        let mut i: usize = 0;
        while i < n
            invariant
                n <= buf@.len(),
                sz == old(self).heap.data@.len(),
                start + n <= sz,
                start == old(self).offset,
                start + n <= self.heap.data@.len() - self.heap.top_size,
                self.heap.top_size == old(self).heap.top_size,
                self.heap.bottom_size == old(self).heap.bottom_size,
                self.offset == old(self).offset,
                self.heap.data@.len() == old(self).heap.data@.len(),
                i <= n,
                forall|k: int|
                    0 <= k < self.heap.data@.len() ==> self.heap.data@[k] == if start <= k
                        < start + i {
                        buf@[k - start]
                    } else {
                        old(self).heap.data@[k]
                    },
            decreases n - i,
        {
            self.heap.data.set(start + i, buf[i]);
            i = i + 1;
        }
        proof {
            assert(self.heap.data@ =~= old(self).heap.data@.take(start as int) + buf@.take(
                n as int,
            ) + old(self).heap.data@.skip(start + n));
        }
        self.offset = start + n;
        if self.offset > self.heap.bottom_size {
            self.heap.bottom_size = self.offset;
        }
        n
    }

    /// Moves the cursor. The target is clamped to the end of the bottom part;
    /// a target that cannot be represented fails and leaves the cursor where it was.
    pub fn seek(&mut self, pos: SeekFrom) -> (r: Result<u64, HeapError>)
        requires
            old(self).wf(),
        ensures
            final(self).wf(),
            final(self).spec_heap() == old(self).spec_heap(),
            match seek_target(
                old(self).spec_heap().spec_bottom_size() as int,
                old(self).spec_offset() as int,
                pos,
            ) {
                Some(t) => {
                    let landed = if t <= old(self).spec_heap().spec_bottom_size() {
                        t
                    } else {
                        old(self).spec_heap().spec_bottom_size() as int
                    };
                    &&& final(self).spec_offset() == landed
                    &&& r == Ok::<u64, HeapError>(landed as u64)
                },
                None => {
                    &&& final(self).spec_offset() == old(self).spec_offset()
                    &&& r == Err::<u64, HeapError>(HeapError::InvalidInput)
                },
            },
    {
        match seek_position(self.heap.bottom_size, self.offset, pos) {
            Ok(o) => {
                self.offset = o;
                Ok(o as u64)
            },
            Err(e) => Err(e),
        }
    }
}

/// A cursor over the top part of a heap; its offsets count from the start of the top part.
#[derive(Debug)]
pub struct HeapTop {
    offset: usize,
    heap: Heap,
}

impl HeapTop {
    /// The heap the cursor works on.
    pub closed spec fn spec_heap(&self) -> Heap {
        self.heap
    }

    /// The cursor position, from the start of the top part.
    pub closed spec fn spec_offset(&self) -> nat {
        self.offset as nat
    }

    /// The heap is well formed.
    pub open spec fn wf(&self) -> bool {
        self.spec_heap().wf()
    }

    /// The heap the cursor works on.
    pub fn heap(&self) -> (r: &Heap)
        ensures
            *r == self.spec_heap(),
    {
        &self.heap
    }

    /// Gives back the heap.
    pub fn into_heap(self) -> (r: Heap)
        ensures
            r == self.spec_heap(),
    {
        self.heap
    }

    /// Sets the size of the top part to `size` and returns by how much it changed.
    /// The cursor offset is left as it was.
    ///
    /// Fails, changing nothing, where the change cannot be represented as an
    /// `i64`, or where the two parts would no longer fit into the heap.
    pub fn resize(&mut self, size: usize) -> (r: Result<i64, HeapError>)
        requires
            old(self).wf(),
        ensures
            final(self).wf(),
            final(self).spec_offset() == old(self).spec_offset(),
            final(self).spec_heap().spec_data() == old(self).spec_heap().spec_data(),
            final(self).spec_heap().spec_bottom_size() == old(self).spec_heap().spec_bottom_size(),
            old(self).spec_heap().spec_bottom_size() + size > old(self).spec_heap().spec_data().len() ==> {
                &&& r == Err::<i64, HeapError>(HeapError::InsufficientSpace)
                &&& final(self).spec_heap().spec_top_size() == old(self).spec_heap().spec_top_size()
            },
            old(self).spec_heap().spec_bottom_size() + size <= old(self).spec_heap().spec_data().len() && size
                <= i64::MAX && size - old(self).spec_heap().spec_top_size() >= i64::MIN ==> {
                &&& r == Ok::<i64, HeapError>(
                    (size - old(self).spec_heap().spec_top_size()) as i64,
                )
                &&& final(self).spec_heap().spec_top_size() == size
            },
            !(size <= i64::MAX && size - old(self).spec_heap().spec_top_size() >= i64::MIN) ==> {
                &&& r == Err::<i64, HeapError>(HeapError::InsufficientSpace)
                &&& final(self).spec_heap().spec_top_size() == old(self).spec_heap().spec_top_size()
            },
    {
        if size > self.heap.data.len() - self.heap.bottom_size {
            return Err(HeapError::InsufficientSpace);
        }
        if size as u128 > i64::MAX as u128 {
            return Err(HeapError::InsufficientSpace);
        }
        let old_size = self.heap.top_size;
        let wide: i128 = size as i128 - old_size as i128;
        if wide < i64::MIN as i128 {
            return Err(HeapError::InsufficientSpace);
        }
        let diff: i64 = wide as i64;
        if diff == 0 {
            return Ok(0);
        }
        self.heap.top_size = size;
        Ok(diff)
    }

    /// Copies bytes of the top part, from the cursor on, into `buf` and
    /// advances the cursor past them. Returns how many bytes were copied.
    pub fn read(&mut self, buf: &mut [u8]) -> (n: usize)
        requires
            old(self).wf(),
        ensures
            final(self).wf(),
            final(self).spec_heap() == old(self).spec_heap(),
            old(self).spec_offset() > old(self).spec_heap().spec_top_size() ==> n == 0
                && final(self).spec_offset() == old(self).spec_offset() && final(buf)@ == old(
                buf,
            )@,
            old(self).spec_offset() <= old(self).spec_heap().spec_top_size() ==> {
                &&& n == if old(buf)@.len() <= old(self).spec_heap().spec_top_size() - old(
                    self,
                ).spec_offset() {
                    old(buf)@.len() as int
                } else {
                    old(self).spec_heap().spec_top_size() - old(self).spec_offset()
                }
                &&& final(self).spec_offset() == old(self).spec_offset() + n
                &&& final(buf)@ == old(self).spec_heap().spec_data().subrange(
                    old(self).spec_heap().spec_position_top() + old(self).spec_offset(),
                    old(self).spec_heap().spec_position_top() + old(self).spec_offset() + n,
                ) + old(buf)@.skip(n as int)
            },
    {
        if self.offset > self.heap.top_size() {
            return 0;
        }
        let available = self.heap.top_size() - self.offset;
        let n = if buf.len() <= available {
            buf.len()
        } else {
            available
        };
        let sz = self.heap.size();
        let start = sz - (self.heap.top_size() - self.offset);
        let mut i: usize = 0;
        while i < n
            invariant
                n <= buf@.len(),
                sz == self.heap.data@.len(),
                start + n <= sz,
                buf@.len() == old(buf)@.len(),
                i <= n,
                forall|k: int|
                    0 <= k < buf@.len() ==> buf@[k] == if k < i {
                        self.heap.data@[start + k]
                    } else {
                        old(buf)@[k]
                    },
            decreases n - i,
        {
            buf[i] = self.heap.data[start + i];
            i = i + 1;
        }
        proof {
            assert(buf@ =~= self.heap.data@.subrange(start as int, start + n) + old(buf)@.skip(
                n as int,
            ));
        }
        self.offset = self.offset + n;
        n
    }

    /// Copies bytes of `buf` into the top part from the cursor on, as far as the
    /// top part reaches, and advances the cursor past them. Returns how many bytes
    /// were copied.
    pub fn write(&mut self, buf: &[u8]) -> (n: usize)
        requires
            old(self).wf(),
            old(self).spec_offset() <= old(self).spec_heap().spec_top_size(),
        ensures
            final(self).wf(),
            n == if buf@.len() <= old(self).spec_heap().spec_top_size() - old(
                self,
            ).spec_offset() {
                buf@.len() as int
            } else {
                old(self).spec_heap().spec_top_size() - old(self).spec_offset()
            },
            final(self).spec_offset() == old(self).spec_offset() + n,
            final(self).spec_heap().spec_top_size() == old(self).spec_heap().spec_top_size(),
            final(self).spec_heap().spec_bottom_size() == old(self).spec_heap().spec_bottom_size(),
            final(self).spec_heap().spec_data() == old(self).spec_heap().spec_data().take(
                old(self).spec_heap().spec_position_top() + old(self).spec_offset(),
            ) + buf@.take(n as int) + old(self).spec_heap().spec_data().skip(
                old(self).spec_heap().spec_position_top() + old(self).spec_offset() + n,
            ),
    {
        let available = self.heap.top_size() - self.offset;
        let n = if buf.len() <= available {
            buf.len()
        } else {
            available
        };
        let sz = self.heap.size();
        let start = sz - (self.heap.top_size() - self.offset);
        let mut i: usize = 0;
        while i < n
            invariant
                n <= buf@.len(),
                start == old(self).heap.data@.len() - old(self).heap.top_size + old(self).offset,
                sz == old(self).heap.data@.len(),
                start + n <= sz,
                self.heap.top_size == old(self).heap.top_size,
                self.heap.bottom_size == old(self).heap.bottom_size,
                self.offset == old(self).offset,
                self.heap.data@.len() == old(self).heap.data@.len(),
                i <= n,
                forall|k: int|
                    0 <= k < self.heap.data@.len() ==> self.heap.data@[k] == if start <= k
                        < start + i {
                        buf@[k - start]
                    } else {
                        old(self).heap.data@[k]
                    },
            decreases n - i,
        {
            self.heap.data.set(start + i, buf[i]);
            i = i + 1;
        }
        proof {
            assert(self.heap.data@ =~= old(self).heap.data@.take(start as int) + buf@.take(
                n as int,
            ) + old(self).heap.data@.skip(start + n));
        }
        self.offset = self.offset + n;
        n
    }

    /// Moves the cursor within the top part. The target is clamped to the size of
    /// the top part; a target that cannot be represented fails and leaves the cursor
    /// where it was.
    pub fn seek(&mut self, pos: SeekFrom) -> (r: Result<u64, HeapError>)
        requires
            old(self).wf(),
        ensures
            final(self).wf(),
            final(self).spec_heap() == old(self).spec_heap(),
            match seek_target(
                old(self).spec_heap().spec_top_size() as int,
                old(self).spec_offset() as int,
                pos,
            ) {
                Some(t) => {
                    let landed = if t <= old(self).spec_heap().spec_top_size() {
                        t
                    } else {
                        old(self).spec_heap().spec_top_size() as int
                    };
                    &&& final(self).spec_offset() == landed
                    &&& r == Ok::<u64, HeapError>(landed as u64)
                },
                None => {
                    &&& final(self).spec_offset() == old(self).spec_offset()
                    &&& r == Err::<u64, HeapError>(HeapError::InvalidInput)
                },
            },
    {
        match seek_position(self.heap.top_size, self.offset, pos) {
            Ok(o) => {
                self.offset = o;
                Ok(o as u64)
            },
            Err(e) => Err(e),
        }
    }
}

} // verus!
