//! Byte buffers and the linear memory that lowered values are written to and
//! lifted values are read from.

use vstd::prelude::*;

use crate::layout::{next_multiple_of, spec_next_multiple_of};

verus! {

/// The largest number of bytes a 32-bit linear memory holds.
pub open spec fn max_memory_bytes() -> nat {
    0x1_0000_0000
}

/// `data` written over `s` starting at `at`.
pub open spec fn splice(s: Seq<u8>, at: nat, data: Seq<u8>) -> Seq<u8> {
    Seq::new(
        s.len(),
        |i: int|
            if at <= i < at + data.len() {
                data[i - at]
            } else {
                s[i]
            },
    )
}

/// `m1` and `m2` both hold the bytes `lo..hi` and agree on them.
pub open spec fn agree_on(m1: Seq<u8>, m2: Seq<u8>, lo: nat, hi: nat) -> bool {
    &&& hi <= m1.len()
    &&& hi <= m2.len()
    &&& forall|i: int| lo <= i < hi ==> m1[i] == m2[i]
}

/// `after` extends `before` and differs from it only on `lo..hi`.
pub open spec fn changed_only_in(before: Seq<u8>, after: Seq<u8>, lo: nat, hi: nat) -> bool {
    &&& before.len() <= after.len()
    &&& forall|i: int| 0 <= i < before.len() && !(lo <= i < hi) ==> after[i] == before[i]
}

/// Bytes collected for one allocation, written to memory in one go.
pub struct ByteBuffer {
    address: usize,
    data: Vec<u8>,
}

impl View for ByteBuffer {
    type V = Seq<u8>;

    /// The bytes written or skipped so far.
    closed spec fn view(&self) -> Seq<u8> {
        self.data@
    }
}

impl ByteBuffer {
    /// Where in memory the buffer's bytes go.
    pub closed spec fn spec_address(&self) -> nat {
        self.address as nat
    }

    /// An empty buffer for `size` bytes at `address`.
    pub fn new(address: usize, size: usize) -> (r: ByteBuffer)
        ensures
            r.spec_address() == address,
            r@ == Seq::<u8>::empty(),
    {
        ByteBuffer { address, data: Vec::with_capacity(size) }
    }

    /// Where in memory the buffer's bytes go.
    pub fn address(&self) -> (r: usize)
        ensures
            r == self.spec_address(),
    {
        self.address
    }

    /// The bytes written or skipped so far.
    pub fn data(&self) -> (r: &[u8])
        ensures
            r@ == self@,
    {
        self.data.as_slice()
    }

    /// Appends `bytes`.
    pub fn write_bytes(&mut self, bytes: &[u8])
        ensures
            final(self)@ == old(self)@ + bytes@,
            final(self).spec_address() == old(self).spec_address(),
    {
        self.data.extend_from_slice(bytes);
    }

    /// Appends `num_bytes` zero bytes.
    pub fn skip(&mut self, num_bytes: usize)
        ensures
            final(self)@ == old(self)@ + Seq::new(num_bytes as nat, |i: int| 0u8),
            final(self).spec_address() == old(self).spec_address(),
    {
        let ghost start = self.data@;
        let mut i: usize = 0;
        while i < num_bytes
            invariant
                i <= num_bytes,
                self.data@ == start + Seq::new(i as nat, |k: int| 0u8),
                self.address == old(self).address,
            decreases num_bytes - i,
        {
            self.data.push(0u8);
            i = i + 1;
            assert(self.data@ =~= start + Seq::new(i as nat, |k: int| 0u8));
        }
    }
}

/// A memory that values can be read from.
pub trait ReadableMemory {
    /// The bytes of the memory.
    spec fn readable_bytes(&self) -> Seq<u8>;

    /// How many bytes the memory holds.
    fn byte_len(&self) -> (r: usize)
        ensures
            r == self.readable_bytes().len(),
    ;

    /// Copies the bytes at `addr..addr + target.len()` into `target`.
    fn read_to_slice(&self, addr: usize, target: &mut [u8])
        requires
            addr + old(target)@.len() <= self.readable_bytes().len(),
        ensures
            final(target)@ == self.readable_bytes().subrange(
                addr as int,
                addr + old(target)@.len(),
            ),
    ;

    /// The `len` bytes at `addr`.
    fn read_to_vec(&self, addr: usize, len: usize) -> (r: Vec<u8>)
        requires
            addr + len <= self.readable_bytes().len(),
        ensures
            r@ == self.readable_bytes().subrange(addr as int, addr + len),
    {
        let mut vec: Vec<u8> = Vec::new();
        let mut i: usize = 0;
        while i < len
            invariant
                i <= len,
                vec@.len() == i,
            decreases len - i,
        {
            vec.push(0u8);
            i = i + 1;
        }
        self.read_to_slice(addr, vec.as_mut_slice());
        vec
    }
}

/// A borrowed memory reads as the memory it borrows.
impl<M: ReadableMemory> ReadableMemory for &M {
    open spec fn readable_bytes(&self) -> Seq<u8> {
        (**self).readable_bytes()
    }

    fn byte_len(&self) -> (r: usize) {
        (**self).byte_len()
    }

    fn read_to_slice(&self, addr: usize, target: &mut [u8]) {
        (**self).read_to_slice(addr, target)
    }
}

/// Why an allocation failed.
#[derive(Debug, Clone, Copy, PartialEq, Eq)]
pub enum MemoryError {
    /// The memory cannot grow to hold the requested bytes.
    OutOfMemory,
    /// The alignment is above 8, the largest that a value of the canonical ABI has.
    AlignTooLarge(usize),
}

/// A memory that values can be allocated in and written to.
pub trait WriteableMemory {
    /// The bytes of the memory.
    spec fn written_bytes(&self) -> Seq<u8>;

    /// The end of the allocated bytes: everything from here on is free.
    spec fn allocated(&self) -> nat;

    /// The allocated bytes lie inside the memory, which fits a 32-bit address space.
    spec fn memory_wf(&self) -> bool;

    proof fn lemma_memory_wf(&self)
        requires
            self.memory_wf(),
        ensures
            self.allocated() <= self.written_bytes().len() <= max_memory_bytes(),
    ;

    /// An allocation of `size` bytes with `align` alignment succeeds now.
    spec fn grants(&self, align: nat, size: nat) -> bool;

    /// How many allocations the memory has refused so far.
    spec fn refused(&self) -> nat;

    /// Allocates `size` bytes with `align` alignment.
    fn allocate(&mut self, align: usize, size: usize) -> (r: Result<ByteBuffer, MemoryError>)
        requires
            old(self).memory_wf(),
            align >= 1,
        ensures
            final(self).memory_wf(),
            old(self).allocated() <= final(self).allocated(),
            changed_only_in(old(self).written_bytes(), final(self).written_bytes(), 0, 0),
            r is Ok <==> old(self).grants(align as nat, size as nat),
            final(self).refused() == old(self).refused() + if r is Ok {
                0nat
            } else {
                1nat
            },
            match r {
                Ok(buffer) => {
                    &&& old(self).allocated() <= buffer.spec_address()
                    &&& buffer.spec_address() % (align as nat) == 0
                    &&& buffer.spec_address() + size <= final(self).allocated()
                    &&& buffer@ == Seq::<u8>::empty()
                },
                Err(_) => final(self).allocated() == old(self).allocated(),
            },
    ;

    /// Writes the buffer's bytes to memory at its address, and returns that address.
    fn flush(&mut self, buffer: ByteBuffer) -> (r: usize)
        requires
            old(self).memory_wf(),
            buffer.spec_address() + buffer@.len() <= old(self).allocated(),
        ensures
            final(self).memory_wf(),
            r == buffer.spec_address(),
            final(self).allocated() == old(self).allocated(),
            final(self).refused() == old(self).refused(),
            final(self).written_bytes() == splice(
                old(self).written_bytes(),
                buffer.spec_address(),
                buffer@,
            ),
    ;
}

/// A 32-bit linear memory whose allocator hands out bytes in increasing order.
pub struct LinearMemory {
    bytes: Vec<u8>,
    refusals: Ghost<nat>,
}

impl View for LinearMemory {
    type V = Seq<u8>;

    closed spec fn view(&self) -> Seq<u8> {
        self.bytes@
    }
}

impl LinearMemory {
    /// An empty memory.
    pub fn new() -> (r: LinearMemory)
        ensures
            r@ == Seq::<u8>::empty(),
    {
        LinearMemory { bytes: Vec::new(), refusals: Ghost(0) }
    }

    /// A memory that holds `bytes`, all of them allocated.
    pub fn from_bytes(bytes: Vec<u8>) -> (r: Option<LinearMemory>)
        ensures
            r is Some <==> bytes@.len() <= max_memory_bytes(),
            r matches Some(m) ==> m@ == bytes@,
    {
        if bytes.len() as u64 <= 0x1_0000_0000u64 {
            Some(LinearMemory { bytes, refusals: Ghost(0) })
        } else {
            None
        }
    }

    /// The bytes of the memory.
    pub fn bytes(&self) -> (r: &[u8])
        ensures
            r@ == self@,
    {
        self.bytes.as_slice()
    }
}

impl ReadableMemory for LinearMemory {
    open spec fn readable_bytes(&self) -> Seq<u8> {
        self@
    }

    fn byte_len(&self) -> (r: usize) {
        self.bytes.len()
    }

    fn read_to_slice(&self, addr: usize, target: &mut [u8]) {
        let len: usize = target.len();
        let total: usize = self.bytes.len();
        let mut i: usize = 0;
        while i < len
            invariant
                i <= len,
                len == old(target)@.len(),
                target@.len() == len,
                addr + len <= self.bytes@.len(),
                total == self.bytes@.len(),
                forall|k: int| 0 <= k < i ==> target@[k] == self.bytes@[addr + k],
            decreases len - i,
        {
            let b: u8 = self.bytes[addr + i];
            target[i] = b;
            i = i + 1;
        }
        assert(target@ =~= self.bytes@.subrange(addr as int, addr + len));
    }
}

impl WriteableMemory for LinearMemory {
    open spec fn written_bytes(&self) -> Seq<u8> {
        self@
    }

    open spec fn allocated(&self) -> nat {
        self@.len()
    }

    open spec fn memory_wf(&self) -> bool {
        self@.len() <= max_memory_bytes()
    }

    proof fn lemma_memory_wf(&self) {
    }

    /// An allocation succeeds exactly when the alignment is at most 8 and
    /// the block, placed at the next multiple of `align`, ends within 4 GiB
    /// and the arithmetic fits a `usize`.
    open spec fn grants(&self, align: nat, size: nat) -> bool {
        &&& align <= 8
        &&& self@.len() + align <= usize::MAX
        &&& spec_next_multiple_of(self@.len(), align) + size <= usize::MAX
        &&& spec_next_multiple_of(self@.len(), align) + size <= max_memory_bytes()
    }

    closed spec fn refused(&self) -> nat {
        self.refusals@
    }

    fn allocate(&mut self, align: usize, size: usize) -> (r: Result<ByteBuffer, MemoryError>)
        ensures
            align > 8 ==> r == Err::<ByteBuffer, MemoryError>(MemoryError::AlignTooLarge(align)),
            r matches Ok(buffer) ==> {
                &&& buffer.spec_address() == spec_next_multiple_of(old(self)@.len(), align as nat)
                &&& final(self)@.len() == buffer.spec_address() + size
            },
    {
        if align > 8 {
            proof {
                self.refusals@ = self.refusals@ + 1;
            }
            return Err(MemoryError::AlignTooLarge(align));
        }
        let top: usize = self.bytes.len();
        if align > usize::MAX - top {
            proof {
                self.refusals@ = self.refusals@ + 1;
            }
            return Err(MemoryError::OutOfMemory);
        }
        let address: usize = next_multiple_of(top, align);
        if size > usize::MAX - address {
            proof {
                self.refusals@ = self.refusals@ + 1;
            }
            return Err(MemoryError::OutOfMemory);
        }
        let end: usize = address + size;
        if end as u64 > 0x1_0000_0000u64 {
            proof {
                self.refusals@ = self.refusals@ + 1;
            }
            return Err(MemoryError::OutOfMemory);
        }
        let ghost start = self.bytes@;
        while self.bytes.len() < end
            invariant
                start.len() <= self.bytes@.len() <= end,
                self.refusals == old(self).refusals,
                end <= max_memory_bytes(),
                forall|k: int| 0 <= k < start.len() ==> self.bytes@[k] == start[k],
            decreases end - self.bytes@.len(),
        {
            self.bytes.push(0u8);
        }
        Ok(ByteBuffer::new(address, size))
    }

    fn flush(&mut self, buffer: ByteBuffer) -> (r: usize) {
        let address: usize = buffer.address;
        let len: usize = buffer.data.len();
        let total: usize = self.bytes.len();
        let ghost start = self.bytes@;
        let mut i: usize = 0;
        while i < len
            invariant
                i <= len,
                len == buffer.data@.len(),
                address == buffer.address,
                address + len <= start.len(),
                self.bytes@.len() == start.len(),
                total == start.len(),
                self.refusals == old(self).refusals,
                forall|k: int|
                    0 <= k < start.len() ==> self.bytes@[k] == if address <= k < address + i {
                        buffer.data@[k - address]
                    } else {
                        start[k]
                    },
            decreases len - i,
        {
            let b: u8 = buffer.data[i];
            self.bytes[address + i] = b;
            i = i + 1;
        }
        assert(self.bytes@ =~= splice(start, address as nat, buffer.data@));
        address
    }
}

} // verus!
