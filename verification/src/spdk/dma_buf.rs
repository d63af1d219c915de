//! DMA-capable byte buffers and a pool that recycles them.

use vstd::prelude::*;

use crate::error::{Error, Result};

verus! {

/// Whether `x` is a power of two.
pub open spec fn is_pow2(x: usize) -> bool {
    x != 0 && x & ((x - 1) as usize) == 0
}

/// `x` rounded up to the power-of-two block size `b`: `(x + b - 1) & !(b - 1)`.
pub open spec fn align_to(x: usize, b: usize) -> usize {
    ((x + b - 1) as usize) & !((b - 1) as usize)
}

/// Power-of-two test (`usize::is_power_of_two`).
pub fn usize_is_power_of_two(x: usize) -> (r: bool)
    ensures
        r == is_pow2(x),
{
    x != 0 && x & (x - 1) == 0
}

/// Rounds `min_size` up to a multiple of the power-of-two `block_size`: the
/// result is the least value at or above `min_size` whose bits below
/// `block_size` are clear.
pub fn align_up(min_size: usize, block_size: usize) -> (r: usize)
    requires
        is_pow2(block_size),
        min_size + block_size <= usize::MAX,
    ensures
        r == align_to(min_size, block_size),
        min_size <= r,
        r < min_size + block_size,
        r & ((block_size - 1) as usize) == 0,
{
    let y = min_size + block_size - 1;
    let m = block_size - 1;
    let r = y & !m;
    assert(r <= y && y - r <= m && r & m == 0) by (bit_vector)
        requires
            r == y & !m,
    ;
    r
}

/// A byte buffer used for device I/O and erasure coding.
#[derive(Debug)]
pub struct DmaBuf {
    data: Vec<u8>,
    zeroed: bool,
}

impl View for DmaBuf {
    type V = Seq<u8>;

    closed spec fn view(&self) -> Seq<u8> {
        self.data@
    }
}

/// A sequence of `n` zero bytes.
pub open spec fn zeros(n: nat) -> Seq<u8> {
    Seq::new(n, |i: int| 0u8)
}

/// Whether `text` reads `block_size <n> must be a power of 2`: it starts
/// with `block_size ` and ends with ` must be a power of 2`.
pub open spec fn power_of_two_message(text: Seq<char>) -> bool {
    &&& text.len() >= 32
    &&& text.subrange(0, 11) == "block_size "@
    &&& text.subrange(text.len() - 21, text.len() as int) == " must be a power of 2"@
}

/// Message of a block size that is not a power of two (`format!`).
/// Claims: the text is the two literal pieces around the decimal digits of
/// `block_size` (at least one digit), as `format!` writes them.
#[verifier::external_body]
fn block_size_message(block_size: usize) -> (r: String)
    ensures
        power_of_two_message(r@),
{
    format!("block_size {} must be a power of 2", block_size)
}

impl DmaBuf {
    /// Whether the buffer was last filled with zeros.
    pub closed spec fn zeroed_flag(&self) -> bool {
        self.zeroed
    }

    fn zero_filled(size: usize) -> (v: Vec<u8>)
        ensures
            v@ == zeros(size as nat),
    {
        let v = vec![0u8; size];
        assert(v@ =~= zeros(size as nat));
        v
    }

    /// Allocates a buffer of `size` bytes (`size` must be non-zero).
    pub fn new(size: usize) -> (r: Result<DmaBuf>)
        ensures
            match r {
                Ok(b) => size > 0 && b@ == zeros(size as nat) && !b.zeroed_flag(),
                Err(e) => size == 0 && (e matches Error::DmaAllocationFailed { size: s, .. } && s == 0),
            },
    {
        if size == 0 {
            return Err(
                Error::DmaAllocationFailed { size, reason: "size must be greater than 0".to_owned() },
            );
        }
        Ok(DmaBuf { data: Self::zero_filled(size), zeroed: false })
    }

    /// Allocates a zero-initialized buffer of `size` bytes.
    pub fn new_zeroed(size: usize) -> (r: Result<DmaBuf>)
        ensures
            match r {
                Ok(b) => size > 0 && b@ == zeros(size as nat) && b.zeroed_flag(),
                Err(e) => size == 0 && (e matches Error::DmaAllocationFailed { size: s, .. } && s == 0),
            },
    {
        if size == 0 {
            return Err(
                Error::DmaAllocationFailed { size, reason: "size must be greater than 0".to_owned() },
            );
        }
        Ok(DmaBuf { data: Self::zero_filled(size), zeroed: true })
    }

    /// Allocates a buffer of at least `min_size` bytes, rounded up to a
    /// multiple of the power-of-two `block_size`.
    pub fn new_aligned(min_size: usize, block_size: usize) -> (r: Result<DmaBuf>)
        requires
            min_size + block_size <= usize::MAX,
        ensures
            match r {
                Ok(b) => is_pow2(block_size) && min_size > 0 && b@ == zeros(
                    align_to(min_size, block_size) as nat,
                ),
                Err(e) => (!is_pow2(block_size) || min_size == 0) && (e matches Error::DmaAllocationFailed {
                    size: s,
                    ..
                } && s == min_size),
            },
            !is_pow2(block_size) ==> match r {
                Err(Error::DmaAllocationFailed { reason, .. }) => power_of_two_message(reason@),
                _ => false,
            },
    {
        if !usize_is_power_of_two(block_size) {
            return Err(Error::DmaAllocationFailed { size: min_size, reason: block_size_message(block_size) });
        }
        let aligned_size = align_up(min_size, block_size);
        proof {
            if min_size == 0 {
                let m = (block_size - 1) as usize;
                assert(m & !m == 0) by (bit_vector);
            }
        }
        Self::new(aligned_size)
    }

    /// Size of the buffer in bytes.
    pub fn len(&self) -> (r: usize)
        ensures
            r == self@.len(),
    {
        self.data.len()
    }

    /// Whether the buffer has no bytes.
    pub fn is_empty(&self) -> (r: bool)
        ensures
            r == (self@.len() == 0),
    {
        self.data.len() == 0
    }

    /// Whether the buffer was last filled with zeros.
    pub fn is_zeroed(&self) -> (r: bool)
        ensures
            r == self.zeroed_flag(),
    {
        self.zeroed
    }

    /// Fills every byte with `value`.
    pub fn fill(&mut self, value: u8)
        ensures
            final(self)@ == Seq::new(old(self)@.len(), |i: int| value),
            final(self).zeroed_flag() == (value == 0),
    {
        let n = self.data.len();
        let mut i: usize = 0;
        while i < n
            invariant
                n == self.data@.len(),
                n == old(self)@.len(),
                0 <= i <= n,
                forall|j: int| 0 <= j < i ==> self.data@[j] == value,
            decreases n - i,
        {
            self.data.set(i, value);
            i += 1;
        }
        self.zeroed = value == 0;
        assert(self.data@ =~= Seq::new(old(self)@.len(), |i: int| value));
    }

    /// Sets every byte to zero.
    pub fn zero(&mut self)
        ensures
            final(self)@ == zeros(old(self)@.len()),
            final(self).zeroed_flag(),
    {
        self.fill(0);
        assert(self@ =~= zeros(old(self)@.len()));
    }

    /// Overwrites `len` bytes at `offset` with `src[src_offset..src_offset + len]`.
    pub(crate) fn write_bytes(&mut self, offset: usize, src: &[u8], src_offset: usize, len: usize)
        requires
            offset + len <= old(self)@.len(),
            src_offset + len <= src@.len(),
        ensures
            final(self)@ == old(self)@.subrange(0, offset as int) + src@.subrange(
                src_offset as int,
                src_offset + len,
            ) + old(self)@.subrange(offset + len, old(self)@.len() as int),
            final(self).zeroed_flag() == (old(self).zeroed_flag() && len == 0),
    {
        let data_len = self.data.len();
        let src_len = src.len();
        let mut i: usize = 0;
        while i < len
            invariant
                offset + len <= old(self)@.len(),
                src_offset + len <= src@.len(),
                offset + len <= data_len,
                src_offset + len <= src_len,
                self.data@.len() == old(self)@.len(),
                self.zeroed == old(self).zeroed,
                0 <= i <= len,
                forall|j: int| 0 <= j < offset ==> self.data@[j] == old(self)@[j],
                forall|j: int| offset <= j < offset + i ==> self.data@[j] == src@[src_offset + j - offset],
                forall|j: int| offset + i <= j < self.data@.len() ==> self.data@[j] == old(self)@[j],
            decreases len - i,
        {
            self.data.set(offset + i, src[src_offset + i]);
            i += 1;
        }
        if len > 0 {
            self.zeroed = false;
        }
        assert(self.data@ =~= old(self)@.subrange(0, offset as int) + src@.subrange(
            src_offset as int,
            src_offset + len,
        ) + old(self)@.subrange(offset + len, old(self)@.len() as int));
    }

    /// Copies `data` to the start of the buffer.
    pub fn copy_from_slice(&mut self, data: &[u8])
        requires
            data@.len() <= old(self)@.len(),
        ensures
            final(self)@ == data@ + old(self)@.subrange(data@.len() as int, old(self)@.len() as int),
            !final(self).zeroed_flag(),
    {
        let n = data.len();
        let mut i: usize = 0;
        while i < n
            invariant
                n == data@.len(),
                n <= old(self)@.len(),
                self.data@.len() == old(self)@.len(),
                0 <= i <= n,
                forall|j: int| 0 <= j < i ==> self.data@[j] == data@[j],
                forall|j: int| n <= j < self.data@.len() ==> self.data@[j] == old(self)@[j],
            decreases n - i,
        {
            self.data.set(i, data[i]);
            i += 1;
        }
        self.zeroed = false;
        assert(self.data@ =~= data@ + old(self)@.subrange(n as int, old(self)@.len() as int));
    }

    /// The buffer's bytes.
    pub fn as_slice(&self) -> (r: &[u8])
        ensures
            r@ == self@,
    {
        self.data.as_slice()
    }

    /// The buffer's bytes, for writing in place.
    pub fn as_mut_slice(&mut self) -> (r: &mut [u8])
        ensures
            r@ == old(self)@,
            final(r)@.len() == old(self)@.len() ==> final(self)@ == final(r)@,
    {
        self.data.as_mut_slice()
    }

    /// Splits the buffer's bytes at `mid`.
    pub fn split_at(&self, mid: usize) -> (r: (&[u8], &[u8]))
        requires
            mid <= self@.len(),
        ensures
            r.0@ == self@.subrange(0, mid as int),
            r.1@ == self@.subrange(mid as int, self@.len() as int),
    {
        self.data.as_slice().split_at(mid)
    }

    /// A copy of the buffer with the same bytes.
    pub fn duplicate(&self) -> (r: DmaBuf)
        ensures
            r@ == self@,
            r.zeroed_flag() == self.zeroed_flag(),
    {
        DmaBuf { data: self.data.clone(), zeroed: self.zeroed }
    }

    /// The buffer's bytes as a new vector.
    pub fn to_vec(&self) -> (r: Vec<u8>)
        ensures
            r@ == self@,
    {
        self.data.clone()
    }

    /// Builds a buffer holding exactly `bytes`.
    pub fn from_vec(bytes: Vec<u8>) -> (r: DmaBuf)
        ensures
            r@ == bytes@,
            !r.zeroed_flag(),
    {
        DmaBuf { data: bytes, zeroed: false }
    }
}

impl Clone for DmaBuf {
    fn clone(&self) -> (r: Self)
        ensures
            r@ == self@,
    {
        self.duplicate()
    }
}

/// A pool of equally sized buffers that are handed out and taken back.
#[derive(Debug)]
pub struct DmaBufPool {
    buffers: Vec<DmaBuf>,
    buffer_size: usize,
    max_capacity: usize,
}

impl DmaBufPool {
    /// Every pooled buffer has the pool's buffer size.
    pub closed spec fn wf(&self) -> bool {
        forall|i: int| 0 <= i < self.buffers@.len() ==> #[trigger] self.buffers@[i]@.len() == self.buffer_size
    }

    /// Number of buffers held.
    pub closed spec fn count(&self) -> nat {
        self.buffers@.len()
    }

    /// Size of every buffer the pool hands out.
    pub closed spec fn size_spec(&self) -> usize {
        self.buffer_size
    }

    /// Most buffers the pool takes back.
    pub closed spec fn capacity_spec(&self) -> usize {
        self.max_capacity
    }

    /// Creates a pool holding `initial_count` zeroed buffers of `buffer_size` bytes.
    pub fn new(buffer_size: usize, initial_count: usize, max_capacity: usize) -> (r: Result<DmaBufPool>)
        ensures
            match r {
                Ok(p) => {
                    &&& !(initial_count > 0 && buffer_size == 0)
                    &&& p.wf()
                    &&& p.count() == initial_count
                    &&& p.size_spec() == buffer_size
                    &&& p.capacity_spec() == max_capacity
                },
                Err(e) => initial_count > 0 && buffer_size == 0 && e is DmaAllocationFailed,
            },
    {
        let mut buffers: Vec<DmaBuf> = Vec::new();
        let mut i: usize = 0;
        while i < initial_count
            invariant
                0 <= i <= initial_count,
                buffers@.len() == i,
                i > 0 ==> buffer_size > 0,
                forall|j: int| 0 <= j < buffers@.len() ==> #[trigger] buffers@[j]@.len() == buffer_size,
            decreases initial_count - i,
        {
            let b = DmaBuf::new_zeroed(buffer_size)?;
            buffers.push(b);
            i += 1;
        }
        Ok(DmaBufPool { buffers, buffer_size, max_capacity })
    }

    /// Takes a zeroed buffer from the pool, or allocates one if the pool is empty.
    pub fn get(&mut self) -> (r: Result<DmaBuf>)
        requires
            old(self).wf(),
        ensures
            final(self).wf(),
            final(self).size_spec() == old(self).size_spec(),
            final(self).capacity_spec() == old(self).capacity_spec(),
            old(self).count() > 0 ==> final(self).count() == old(self).count() - 1,
            old(self).count() == 0 ==> final(self).count() == 0,
            match r {
                Ok(b) => b@ == zeros(old(self).size_spec() as nat) && b.zeroed_flag(),
                Err(e) => old(self).count() == 0 && old(self).size_spec() == 0
                    && e is DmaAllocationFailed,
            },
    {
        match self.buffers.pop() {
            Some(mut buf) => {
                buf.zero();
                Ok(buf)
            },
            None => DmaBuf::new_zeroed(self.buffer_size),
        }
    }

    /// Returns a buffer to the pool; buffers of the wrong size, or beyond the
    /// pool's capacity, are dropped.
    pub fn put(&mut self, buf: DmaBuf)
        requires
            old(self).wf(),
        ensures
            final(self).wf(),
            final(self).size_spec() == old(self).size_spec(),
            final(self).capacity_spec() == old(self).capacity_spec(),
            final(self).count() == if buf@.len() == old(self).size_spec() && old(self).count()
                < old(self).capacity_spec() {
                old(self).count() + 1
            } else {
                old(self).count()
            },
    {
        if buf.len() != self.buffer_size {
            return ;
        }
        if self.buffers.len() < self.max_capacity {
            self.buffers.push(buf);
        }
    }

    /// Number of buffers currently in the pool.
    pub fn available(&self) -> (r: usize)
        ensures
            r == self.count(),
    {
        self.buffers.len()
    }

    /// Size of the pool's buffers.
    pub fn buffer_size(&self) -> (r: usize)
        ensures
            r == self.size_spec(),
    {
        self.buffer_size
    }
}

} // verus!
