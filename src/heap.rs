use vstd::prelude::*;

verus! {

/// Smallest slab that is requested from the guest's allocator.
pub const MIN_ARENA_SIZE: u32 = 10_000;

/// Largest object that can be placed in guest memory in one piece.
pub const MAX_OBJECT_SIZE: usize = 0x7fff_ffff;

/// Why a read or a write of guest memory failed.
#[derive(Debug, PartialEq, Eq, Structural)]
pub enum HeapError {
    /// The object is larger than `MAX_OBJECT_SIZE`.
    TooLarge,
    /// The guest's allocator gave no slab, or one that does not lie in memory.
    AllocationFailed,
    /// The range read lies outside linear memory.
    OutOfBounds,
}

/// The guest's own allocator, which hands out slabs of linear memory.
pub trait GuestAllocator {
    /// Asks the guest for `size` bytes and returns the start of the slab.
    /// The guest may change or grow `memory` while it allocates. Zero is
    /// the null pointer and never a slab.
    fn allocate(&mut self, memory: &mut Vec<u8>, size: u32) -> Option<u32>;
}

/// `mem` with the bytes from `p` on replaced by `b`.
pub open spec fn overwrite(mem: Seq<u8>, p: int, b: Seq<u8>) -> Seq<u8> {
    mem.subrange(0, p) + b + mem.subrange(p + b.len(), mem.len() as int)
}

/// The size of the slab requested for an object of `len` bytes.
pub open spec fn arena_size_for(len: int) -> int {
    if len > MIN_ARENA_SIZE {
        len
    } else {
        MIN_ARENA_SIZE as int
    }
}

/// A bump arena over a copy of guest linear memory.
///
/// `arena_start_ptr` is the first free byte of the current slab and
/// `arena_free_size` the number of free bytes from there. Both are zero before
/// the first allocation, which counts as no room at all.
pub struct AscHeap {
    pub memory: Vec<u8>,
    pub arena_start_ptr: u32,
    pub arena_free_size: u32,
}

impl AscHeap {
    /// The current slab lies in memory.
    pub open spec fn wf(&self) -> bool {
        &&& self.arena_start_ptr + self.arena_free_size <= self.memory.len()
        &&& self.arena_start_ptr + self.arena_free_size <= u32::MAX
        &&& self.arena_free_size > 0 ==> self.arena_start_ptr > 0
    }

    /// A heap over `memory` with no slab yet.
    pub fn new(memory: Vec<u8>) -> (r: AscHeap)
        ensures
            r.wf(),
            r.memory@ == memory@,
            r.arena_start_ptr == 0,
            r.arena_free_size == 0,
    {
        AscHeap { memory, arena_start_ptr: 0, arena_free_size: 0 }
    }

    /// Copies `bytes` into guest memory and returns where they start.
    ///
    /// When the current slab has too little room, a new slab of
    /// `max(len, MIN_ARENA_SIZE)` bytes is requested from the guest and the rest
    /// of the old one is left unused. Issued ranges are never written again by
    /// the heap.
    pub fn raw_new<A: GuestAllocator>(&mut self, alloc: &mut A, bytes: &[u8]) -> (r: Result<
        u32,
        HeapError,
    >)
        requires
            old(self).wf(),
        ensures
            final(self).wf(),
            bytes@.len() > 0 ==> (r matches Ok(p) ==> p != 0),
            bytes@.len() > MAX_OBJECT_SIZE ==> r == Err::<u32, HeapError>(HeapError::TooLarge)
                && *final(self) == *old(self) && *final(alloc) == *old(alloc),
            bytes@.len() <= MAX_OBJECT_SIZE && bytes@.len() <= old(self).arena_free_size ==> {
                &&& r == Ok::<u32, HeapError>(old(self).arena_start_ptr)
                &&& *final(alloc) == *old(alloc)
                &&& final(self).memory@ == overwrite(
                    old(self).memory@,
                    old(self).arena_start_ptr as int,
                    bytes@,
                )
                &&& final(self).arena_start_ptr == old(self).arena_start_ptr + bytes@.len()
                &&& final(self).arena_free_size == old(self).arena_free_size - bytes@.len()
            },
            bytes@.len() <= MAX_OBJECT_SIZE && bytes@.len() > old(self).arena_free_size ==> match r {
                Ok(p) => {
                    &&& p + bytes@.len() <= final(self).memory@.len()
                    &&& final(self).memory@.subrange(p as int, p + bytes@.len()) == bytes@
                    &&& final(self).arena_start_ptr == p + bytes@.len()
                    &&& final(self).arena_free_size == arena_size_for(bytes@.len() as int)
                        - bytes@.len()
                },
                Err(e) => {
                    &&& e == HeapError::AllocationFailed
                    &&& final(self).arena_start_ptr == 0
                    &&& final(self).arena_free_size == 0
                },
            },
    {
        let len = bytes.len();
        if len > MAX_OBJECT_SIZE {
            return Err(HeapError::TooLarge);
        }
        let size = len as u32;
        if size > self.arena_free_size {
            // The rest of the current slab is abandoned; at most half of the
            // memory handed out is wasted this way.
            let arena_size = if size > MIN_ARENA_SIZE {
                size
            } else {
                MIN_ARENA_SIZE
            };
            let slab = alloc.allocate(&mut self.memory, arena_size);
            let ptr = match slab {
                Some(p) => p,
                None => {
                    self.arena_start_ptr = 0;
                    self.arena_free_size = 0;
                    return Err(HeapError::AllocationFailed);
                },
            };
            if ptr == 0 || ptr as u64 + arena_size as u64 > self.memory.len() as u64 || ptr as u64
                + arena_size as u64 > u32::MAX as u64 {
                self.arena_start_ptr = 0;
                self.arena_free_size = 0;
                return Err(HeapError::AllocationFailed);
            }
            self.arena_start_ptr = ptr;
            self.arena_free_size = arena_size;
        }
        let ptr = self.arena_start_ptr;
        let free = self.arena_free_size;
        assert(size <= free && ptr + free <= self.memory@.len() && ptr + free <= u32::MAX);
        let ghost before = self.memory@;
        let mut i: usize = 0;
        while i < len
            invariant
                0 <= i <= len,
                len == bytes@.len(),
                size == len,
                size <= free,
                ptr + free <= before.len(),
                ptr + free <= u32::MAX,
                self.arena_start_ptr == ptr,
                self.arena_free_size == free,
                self.memory@.len() == before.len(),
                self.memory@ == overwrite(before, ptr as int, bytes@.subrange(0, i as int)),
            decreases len - i,
        {
            self.memory.set(ptr as usize + i, bytes[i]);
            proof {
                assert(self.memory@ =~= overwrite(before, ptr as int, bytes@.subrange(0, i + 1)));
            }
            i = i + 1;
        }
        proof {
            assert(bytes@.subrange(0, len as int) =~= bytes@);
            assert(overwrite(before, ptr as int, bytes@).subrange(ptr as int, ptr + len) =~= bytes@);
        }
        self.arena_start_ptr = ptr + size;
        self.arena_free_size = self.arena_free_size - size;
        Ok(ptr)
    }

    /// Writes `bytes` over guest memory from `p` on; the arena is unchanged.
    pub fn write(&mut self, p: u32, bytes: &Vec<u8>)
        requires
            old(self).wf(),
            p + bytes@.len() <= old(self).memory@.len(),
        ensures
            final(self).wf(),
            final(self).memory@ == overwrite(old(self).memory@, p as int, bytes@),
            final(self).arena_start_ptr == old(self).arena_start_ptr,
            final(self).arena_free_size == old(self).arena_free_size,
    {
        let ghost before = self.memory@;
        assert(before.len() == self.memory.len());
        let mut i: usize = 0;
        while i < bytes.len()
            invariant
                0 <= i <= bytes@.len(),
                before.len() <= usize::MAX,
                p + bytes@.len() <= before.len(),
                self.memory@.len() == before.len(),
                self.memory@ == overwrite(before, p as int, bytes@.subrange(0, i as int)),
                self.arena_start_ptr == old(self).arena_start_ptr,
                self.arena_free_size == old(self).arena_free_size,
            decreases bytes@.len() - i,
        {
            self.memory.set(p as usize + i, bytes[i]);
            proof {
                assert(self.memory@ =~= overwrite(before, p as int, bytes@.subrange(0, i + 1)));
            }
            i = i + 1;
        }
        assert(bytes@.subrange(0, bytes@.len() as int) =~= bytes@);
    }

    /// A copy of `size` bytes of guest memory from `offset` on.
    pub fn get(&self, offset: u32, size: u32) -> (r: Result<Vec<u8>, HeapError>)
        ensures
            offset + size <= self.memory@.len() <==> r is Ok,
            r matches Ok(v) ==> v@ == self.memory@.subrange(offset as int, offset + size),
            r matches Err(e) ==> e == HeapError::OutOfBounds,
    {
        if offset as u64 + size as u64 > self.memory.len() as u64 {
            return Err(HeapError::OutOfBounds);
        }
        let start = offset as usize;
        let end = start + size as usize;
        let mut out: Vec<u8> = Vec::new();
        let mut i: usize = start;
        while i < end
            invariant
                start <= i <= end,
                end <= self.memory@.len(),
                out@ == self.memory@.subrange(start as int, i as int),
            decreases end - i,
        {
            out.push(self.memory[i]);
            proof {
                assert(out@ =~= self.memory@.subrange(start as int, i + 1));
            }
            i = i + 1;
        }
        Ok(out)
    }
}

/// What `raw_new` wrote can be read back with `get`: the bytes placed at the
/// returned pointer are exactly the input, whether or not a new slab was taken.
pub proof fn raw_new_then_get(before: AscHeap, after: AscHeap, bytes: Seq<u8>, p: u32)
    requires
        bytes.len() <= MAX_OBJECT_SIZE,
        bytes.len() <= before.arena_free_size ==> {
            &&& p == before.arena_start_ptr
            &&& after.memory@ == overwrite(before.memory@, p as int, bytes)
            &&& before.arena_start_ptr + before.arena_free_size <= before.memory@.len()
        },
        bytes.len() > before.arena_free_size ==> {
            &&& p + bytes.len() <= after.memory@.len()
            &&& after.memory@.subrange(p as int, p + bytes.len()) == bytes
        },
    ensures
        p + bytes.len() <= after.memory@.len(),
        after.memory@.subrange(p as int, p + bytes.len()) == bytes,
{
    if bytes.len() <= before.arena_free_size {
        assert(after.memory@.subrange(p as int, p + bytes.len()) =~= bytes);
    }
}

} // verus!
