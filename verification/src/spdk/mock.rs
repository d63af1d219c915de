//! Portable buffer type for environments without DMA hugepages.

use vstd::prelude::*;

use super::dma_buf::{align_to, align_up, is_pow2, usize_is_power_of_two, zeros};
use crate::error::{Error, Result};

verus! {

/// Alignment used by the portable buffer (4 KiB, as for real DMA memory).
pub const MOCK_DMA_ALIGNMENT: usize = 4096;

/// A heap-backed byte buffer with the same interface as `DmaBuf`.
#[derive(Debug)]
pub struct MockDmaBuf {
    data: Vec<u8>,
}

impl View for MockDmaBuf {
    type V = Seq<u8>;

    closed spec fn view(&self) -> Seq<u8> {
        self.data@
    }
}

impl MockDmaBuf {
    /// Allocates a zero-initialized buffer of `size` bytes (`size` must be non-zero).
    pub fn new(size: usize) -> (r: Result<MockDmaBuf>)
        ensures
            match r {
                Ok(b) => size > 0 && b@ == zeros(size as nat),
                Err(e) => size == 0 && (e matches Error::DmaAllocationFailed { size: s, .. } && s == 0),
            },
    {
        Self::new_zeroed(size)
    }

    /// Allocates a zero-initialized buffer of `size` bytes.
    pub fn new_zeroed(size: usize) -> (r: Result<MockDmaBuf>)
        ensures
            match r {
                Ok(b) => size > 0 && b@ == zeros(size as nat),
                Err(e) => size == 0 && (e matches Error::DmaAllocationFailed { size: s, .. } && s == 0),
            },
    {
        if size == 0 {
            return Err(
                Error::DmaAllocationFailed { size, reason: "size must be greater than 0".to_owned() },
            );
        }
        let v = vec![0u8; size];
        assert(v@ =~= zeros(size as nat));
        Ok(MockDmaBuf { data: v })
    }

    /// Allocates a buffer of at least `min_size` bytes, rounded up to a
    /// multiple of the power-of-two `block_size`.
    pub fn new_aligned(min_size: usize, block_size: usize) -> (r: Result<MockDmaBuf>)
        requires
            min_size + block_size <= usize::MAX,
        ensures
            match r {
                Ok(b) => is_pow2(block_size) && min_size > 0 && b@ == zeros(
                    align_to(min_size, block_size) as nat,
                ),
                Err(e) => (!is_pow2(block_size) || min_size == 0) && e is DmaAllocationFailed,
            },
    {
        if !usize_is_power_of_two(block_size) {
            return Err(
                Error::DmaAllocationFailed {
                    size: min_size,
                    reason: "block_size must be a power of 2".to_owned(),
                },
            );
        }
        let aligned_size = align_up(min_size, block_size);
        proof {
            if min_size == 0 {
                let m = (block_size - 1) as usize;
                assert(m & !m == 0) by (bit_vector);
            }
        }
        Self::new(aligned_size)
    }

    /// Size of the buffer in bytes.
    pub fn len(&self) -> (r: usize)
        ensures
            r == self@.len(),
    {
        self.data.len()
    }

    /// Whether the buffer has no bytes.
    pub fn is_empty(&self) -> (r: bool)
        ensures
            r == (self@.len() == 0),
    {
        self.data.len() == 0
    }

    /// Fills every byte with `value`.
    pub fn fill(&mut self, value: u8)
        ensures
            final(self)@ == Seq::new(old(self)@.len(), |i: int| value),
    {
        let n = self.data.len();
        let mut i: usize = 0;
        while i < n
            invariant
                n == self.data@.len(),
                n == old(self)@.len(),
                0 <= i <= n,
                forall|j: int| 0 <= j < i ==> self.data@[j] == value,
            decreases n - i,
        {
            self.data.set(i, value);
            i += 1;
        }
        assert(self.data@ =~= Seq::new(old(self)@.len(), |i: int| value));
    }

    /// Sets every byte to zero.
    pub fn zero(&mut self)
        ensures
            final(self)@ == zeros(old(self)@.len()),
    {
        self.fill(0);
        assert(self@ =~= zeros(old(self)@.len()));
    }

    /// Copies `data` to the start of the buffer.
    pub fn copy_from_slice(&mut self, data: &[u8])
        requires
            data@.len() <= old(self)@.len(),
        ensures
            final(self)@ == data@ + old(self)@.subrange(data@.len() as int, old(self)@.len() as int),
    {
        let n = data.len();
        let mut i: usize = 0;
        while i < n
            invariant
                n == data@.len(),
                n <= old(self)@.len(),
                self.data@.len() == old(self)@.len(),
                0 <= i <= n,
                forall|j: int| 0 <= j < i ==> self.data@[j] == data@[j],
                forall|j: int| n <= j < self.data@.len() ==> self.data@[j] == old(self)@[j],
            decreases n - i,
        {
            self.data.set(i, data[i]);
            i += 1;
        }
        assert(self.data@ =~= data@ + old(self)@.subrange(n as int, old(self)@.len() as int));
    }

    /// The buffer's bytes.
    pub fn as_slice(&self) -> (r: &[u8])
        ensures
            r@ == self@,
    {
        self.data.as_slice()
    }

    /// The buffer's bytes, for writing in place.
    pub fn as_mut_slice(&mut self) -> (r: &mut [u8])
        ensures
            r@ == old(self)@,
            final(r)@.len() == old(self)@.len() ==> final(self)@ == final(r)@,
    {
        self.data.as_mut_slice()
    }
}

impl Clone for MockDmaBuf {
    fn clone(&self) -> (r: Self)
        ensures
            r@ == self@,
    {
        MockDmaBuf { data: self.data.clone() }
    }
}

} // verus!
