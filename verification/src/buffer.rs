//! Sizing and splitting of GPU buffer writes.

use vstd::prelude::*;

verus! {

/// The largest write handed to the staging belt at once, in bytes.
pub const MAX_WRITE_SIZE: usize = 100 * 1024;

/// Whether `n` is a power of two.
pub open spec fn is_pow2(n: int) -> bool
    decreases n,
{
    if n <= 0 {
        false
    } else if n == 1 {
        true
    } else {
        n % 2 == 0 && is_pow2(n / 2)
    }
}

/// The smallest power of two not below `n` (`1` for `0`).
pub open spec fn next_pow2(n: int) -> int
    decreases n,
{
    if n <= 1 {
        1
    } else {
        2 * next_pow2((n + 1) / 2)
    }
}

proof fn lemma_next_pow2(n: int)
    requires
        n >= 0,
    ensures
        is_pow2(next_pow2(n)),
        next_pow2(n) >= n,
        next_pow2(n) >= 1,
        forall|p: int| is_pow2(p) && p >= n ==> p >= next_pow2(n),
    decreases n,
{
    if n > 1 {
        lemma_next_pow2((n + 1) / 2);
        let q = next_pow2((n + 1) / 2);
        assert(is_pow2(2 * q)) by {
            assert((2 * q) / 2 == q);
        }
        assert forall|p: int| is_pow2(p) && p >= n implies p >= next_pow2(n) by {
            if p == 1 {
            } else {
                assert(p / 2 >= (n + 1) / 2);
                assert(is_pow2(p / 2));
            }
        }
    }
}

/// The smallest power of two not below `n`, for an `n` whose next power of two fits.
fn next_power_of_two(n: usize) -> (p: usize)
    requires
        next_pow2(n as int) <= usize::MAX,
    ensures
        p == next_pow2(n as int),
{
    proof {
        lemma_next_pow2(n as int);
    }
    let mut p: usize = 1;
    while p < n
        invariant
            is_pow2(p as int),
            1 <= p <= next_pow2(n as int),
            next_pow2(n as int) <= usize::MAX,
            forall|q: int| is_pow2(q) && q >= n ==> q >= next_pow2(n as int),
            is_pow2(next_pow2(n as int)),
            next_pow2(n as int) >= n,
        decreases next_pow2(n as int) - p,
    {
        assert(p * 2 <= next_pow2(n as int)) by {
            lemma_pow2_step(p as int, next_pow2(n as int));
        }
        p = p * 2;
        assert(is_pow2(p as int)) by {
            assert((p as int) / 2 == (p as int) / 2);
        }
    }
    p
}

/// Between a power of two and a larger one lies its double.
proof fn lemma_pow2_step(p: int, q: int)
    requires
        is_pow2(p),
        is_pow2(q),
        p < q,
    ensures
        2 * p <= q,
    decreases q,
{
    if p == 1 {
    } else {
        lemma_pow2_step(p / 2, q / 2);
    }
}

/// The size of a buffer for `amount` elements of `elem_size` bytes: the byte count rounded up to
/// a power of two, then up to a multiple of `alignment`, and at least `alignment`.
pub open spec fn copy_size(elem_size: int, amount: int, alignment: int) -> int {
    let rounded = next_pow2(elem_size * amount);
    let aligned = ((rounded + alignment - 1) / alignment) * alignment;
    if aligned >= alignment {
        aligned
    } else {
        alignment
    }
}

/// The size of a buffer holding `amount` elements of `elem_size` bytes, for copies aligned to
/// `alignment` bytes (a power of two).
pub fn next_copy_size(elem_size: usize, amount: usize, alignment: u64) -> (size: u64)
    requires
        is_pow2(alignment as int),
        elem_size * amount <= usize::MAX,
        next_pow2(elem_size * amount) + alignment <= u64::MAX,
        next_pow2(elem_size * amount) <= usize::MAX,
    ensures
        size == copy_size(elem_size as int, amount as int, alignment as int),
        size >= alignment,
        (size as int) % (alignment as int) == 0,
{
    let bytes = elem_size * amount;
    let rounded = next_power_of_two(bytes) as u64;
    let ghost r = rounded as int;
    let ghost a = alignment as int;
    assert(a > 0) by {
        reveal_with_fuel(is_pow2, 1);
    }
    let q = (rounded + alignment - 1) / alignment;
    assert(q * a <= r + a - 1) by (nonlinear_arith)
        requires
            a > 0,
            q == (r + a - 1) / a,
            r >= 0,
    ;
    let aligned = q * alignment;
    assert((aligned as int) % a == 0) by (nonlinear_arith)
        requires
            a > 0,
            aligned == q * a,
            q >= 0,
    ;
    if aligned >= alignment {
        aligned
    } else {
        assert(a % a == 0) by (nonlinear_arith)
            requires
                a > 0,
        ;
        alignment
    }
}

/// The byte ranges `[start, end)` a write of `len` bytes is split into: consecutive pieces of
/// `MAX_WRITE_SIZE` bytes, the last one holding what is left (at least one byte).
pub open spec fn write_pieces(len: int) -> Seq<(usize, usize)> {
    let count = (len - 1) / (MAX_WRITE_SIZE as int) + 1;
    Seq::new(
        count as nat,
        |i: int|
            (
                (i * MAX_WRITE_SIZE) as usize,
                if i + 1 < count {
                    ((i + 1) * MAX_WRITE_SIZE) as usize
                } else {
                    len as usize
                },
            ),
    )
}

/// Split a write of `len` bytes (at least one) into the pieces handed to the staging belt.
pub fn split_write(len: usize) -> (pieces: Vec<(usize, usize)>)
    requires
        len > 0,
    ensures
        pieces@ == write_pieces(len as int),
        forall|i: int|
            0 <= i < pieces@.len() ==> #[trigger] pieces@[i].0 < pieces@[i].1 && pieces@[i].1
                - pieces@[i].0 <= MAX_WRITE_SIZE,
{
    let mut pieces: Vec<(usize, usize)> = Vec::new();
    let mut written: usize = 0;
    while written < len && len - written > MAX_WRITE_SIZE
        invariant
            written < len,
            written == pieces@.len() * MAX_WRITE_SIZE,
            forall|i: int|
                0 <= i < pieces@.len() ==> #[trigger] pieces@[i] == (
                    (i * MAX_WRITE_SIZE) as usize,
                    ((i + 1) * MAX_WRITE_SIZE) as usize,
                ),
        decreases len - written,
    {
        let ghost k = pieces@.len();
        pieces.push((written, written + MAX_WRITE_SIZE));
        written = written + MAX_WRITE_SIZE;
        assert(written == pieces@.len() * MAX_WRITE_SIZE) by (nonlinear_arith)
            requires
                written == k * MAX_WRITE_SIZE + MAX_WRITE_SIZE,
                pieces@.len() == k + 1,
        ;
        assert(pieces@[k as int] == ((k * MAX_WRITE_SIZE) as usize, ((k + 1) * MAX_WRITE_SIZE) as usize)) by (nonlinear_arith)
            requires
                pieces@[k as int] == ((k * MAX_WRITE_SIZE) as usize, (k * MAX_WRITE_SIZE + MAX_WRITE_SIZE) as usize),
        ;
    }
    pieces.push((written, len));
    proof {
        let k = pieces@.len() - 1;
        assert(k * MAX_WRITE_SIZE < len <= k * MAX_WRITE_SIZE + MAX_WRITE_SIZE);
        assert((len - 1) / (MAX_WRITE_SIZE as int) == k) by (nonlinear_arith)
            requires
                k * MAX_WRITE_SIZE < len <= k * MAX_WRITE_SIZE + MAX_WRITE_SIZE,
                k >= 0,
        ;
        assert(pieces@ =~= write_pieces(len as int));
    }
    pieces
}

/// The pieces of a write cover its bytes exactly once, in order: the first starts at 0, each
/// starts where the one before ended, and the last ends at the write's length.
pub proof fn lemma_write_pieces_cover(len: int)
    requires
        0 < len <= usize::MAX,
    ensures
        write_pieces(len).len() > 0,
        write_pieces(len)[0].0 == 0,
        write_pieces(len).last().1 == len,
        forall|i: int|
            0 <= i < write_pieces(len).len() - 1 ==> #[trigger] write_pieces(len)[i].1
                == write_pieces(len)[i + 1].0,
{
    let m = MAX_WRITE_SIZE as int;
    let count = (len - 1) / m + 1;
    assert(count * m >= len) by (nonlinear_arith)
        requires
            count == (len - 1) / m + 1,
            m > 0,
            len > 0,
    ;
    assert forall|i: int| 0 <= i < count - 1 implies #[trigger] write_pieces(len)[i].1
        == write_pieces(len)[i + 1].0 by {
        assert((i + 1) * m < len) by (nonlinear_arith)
            requires
                i + 1 < count,
                count == (len - 1) / m + 1,
                m > 0,
                i >= 0,
        ;
    }
}

/// The bookkeeping of a GPU buffer of fixed-size elements: its size in bytes, and the offsets of
/// the writes made since it was last cleared. The caller owns the device buffer itself and does
/// what the answers say: allocate, reallocate, and copy the pieces of each write.
pub struct Buffer {
    size: u64,
    offsets: Vec<u64>,
}

impl Buffer {
    /// The size of the device buffer, in bytes.
    pub closed spec fn spec_size(&self) -> u64 {
        self.size
    }

    /// The offsets of the writes since the last clear, in order.
    pub closed spec fn spec_offsets(&self) -> Seq<u64> {
        self.offsets@
    }

    /// A buffer for `amount` elements of `elem_size` bytes, sized for copies aligned to
    /// `alignment` bytes (see `next_copy_size`), with no write made.
    pub fn new(elem_size: usize, amount: usize, alignment: u64) -> (b: Self)
        requires
            is_pow2(alignment as int),
            elem_size * amount <= usize::MAX,
            next_pow2(elem_size * amount) + alignment <= u64::MAX,
            next_pow2(elem_size * amount) <= usize::MAX,
        ensures
            b.spec_size() == copy_size(elem_size as int, amount as int, alignment as int),
            b.spec_offsets() == Seq::<u64>::empty(),
    {
        Buffer { size: next_copy_size(elem_size, amount, alignment), offsets: Vec::new() }
    }

    /// Make room for `new_count` elements of `elem_size` bytes: when the buffer is smaller than
    /// that, it is to be reallocated at exactly that size, forgetting its writes, and `true` is
    /// returned; otherwise nothing changes and `false` is returned.
    pub fn resize(&mut self, elem_size: usize, new_count: usize) -> (grown: bool)
        requires
            elem_size * new_count <= usize::MAX,
            elem_size * new_count <= u64::MAX,
        ensures
            grown == (old(self).spec_size() < elem_size * new_count),
            grown ==> final(self).spec_size() == elem_size * new_count && final(self).spec_offsets()
                == Seq::<u64>::empty(),
            !grown ==> final(self).spec_size() == old(self).spec_size() && final(self).spec_offsets()
                == old(self).spec_offsets(),
    {
        let new_size = (elem_size * new_count) as u64;
        if self.size < new_size {
            self.offsets.clear();
            self.size = new_size;
            true
        } else {
            false
        }
    }

    /// Record a write of `len` bytes at byte `offset`; returns the pieces to copy, each as the
    /// buffer address it goes to and the range of the written bytes it holds (see
    /// `split_write`).
    pub fn write(&mut self, offset: usize, len: usize) -> (pieces: Vec<(u64, usize, usize)>)
        requires
            len > 0,
            offset + len <= usize::MAX,
        ensures
            final(self).spec_size() == old(self).spec_size(),
            final(self).spec_offsets() == old(self).spec_offsets().push(offset as u64),
            pieces@.len() == write_pieces(len as int).len(),
            forall|i: int|
                0 <= i < pieces@.len() ==> #[trigger] pieces@[i] == (
                    (offset + write_pieces(len as int)[i].0) as u64,
                    write_pieces(len as int)[i].0,
                    write_pieces(len as int)[i].1,
                ),
    {
        let ranges = split_write(len);
        let mut pieces: Vec<(u64, usize, usize)> = Vec::new();
        let mut i: usize = 0;
        while i < ranges.len()
            invariant
                i <= ranges@.len(),
                ranges@ == write_pieces(len as int),
                offset + len <= usize::MAX,
                forall|j: int| 0 <= j < ranges@.len() ==> #[trigger] ranges@[j].1 <= len,
                forall|j: int| 0 <= j < ranges@.len() ==> #[trigger] ranges@[j].0 < ranges@[j].1,
                pieces@.len() == i,
                forall|j: int|
                    0 <= j < i ==> #[trigger] pieces@[j] == (
                        (offset + write_pieces(len as int)[j].0) as u64,
                        write_pieces(len as int)[j].0,
                        write_pieces(len as int)[j].1,
                    ),
            decreases ranges@.len() - i,
        {
            let (start, end) = ranges[i];
            pieces.push(((offset + start) as u64, start, end));
            i = i + 1;
        }
        self.offsets.push(offset as u64);
        pieces
    }

    /// The offset of write number `index` since the last clear.
    pub fn offset_at(&self, index: usize) -> (o: u64)
        requires
            index < self.spec_offsets().len(),
        ensures
            o == self.spec_offsets()[index as int],
    {
        self.offsets[index]
    }

    /// Forget the writes.
    pub fn clear(&mut self)
        ensures
            final(self).spec_size() == old(self).spec_size(),
            final(self).spec_offsets() == Seq::<u64>::empty(),
    {
        self.offsets.clear();
    }

    /// The size of the device buffer, in bytes.
    pub fn size(&self) -> (s: u64)
        ensures
            s == self.spec_size(),
    {
        self.size
    }
}

} // verus!
