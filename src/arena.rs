//! Bump allocation of per-draw uniform data over fixed-size chunks.
use vstd::arithmetic::power2::{
    lemma2_to64, lemma_pow2_adds, lemma_pow2_pos, lemma_pow2_strictly_increases, pow2,
};
use vstd::bits::{low_bits_mask, lemma_u32_low_bits_mask_is_mod};
use vstd::prelude::*;

verus! {

/// `a` is a power of two that fits in 32 bits.
pub open spec fn is_pow2(a: u32) -> bool {
    exists|n: nat| n < 32 && a as nat == pow2(n)
}

/// The smallest multiple of `a` that is not below `x`.
pub open spec fn round_up(x: int, a: int) -> int {
    (x + a - 1) - (x + a - 1) % a
}

/// Clearing the low bits rounds down to a multiple of the power of two `a`.
proof fn lemma_mask_rounds(y: u32, a: u32)
    requires
        is_pow2(a),
    ensures
        a > 0,
        y & !((a - 1) as u32) == y - y % a,
        (y & !((a - 1) as u32)) % a == 0,
{
    let n = choose|n: nat| n < 32 && a as nat == pow2(n);
    lemma_pow2_pos(n);
    lemma_u32_low_bits_mask_is_mod(y, n);
    assert(low_bits_mask(n) == a - 1);
    let m = (a - 1) as u32;
    assert(y & !m == y - (y & m)) by (bit_vector);
    let q = y / a;
    vstd::arithmetic::div_mod::lemma_fundamental_div_mod(y as int, a as int);
    vstd::arithmetic::mul::lemma_mul_is_commutative(a as int, q as int);
    vstd::arithmetic::div_mod::lemma_mod_multiples_basic(q as int, a as int);
}

/// A power of two is not zero.
proof fn lemma_pow2_nonzero(a: u32)
    requires
        is_pow2(a),
    ensures
        a > 0,
{
    let n = choose|n: nat| n < 32 && a as nat == pow2(n);
    lemma_pow2_pos(n);
}

/// A power of two up to `0x10000` divides `0x10000`.
proof fn lemma_pow2_divides_chunk(a: u32)
    requires
        is_pow2(a),
        a <= 0x10000,
    ensures
        0x10000int % (a as int) == 0,
{
    let n = choose|n: nat| n < 32 && a as nat == pow2(n);
    lemma2_to64();
    if n > 16 {
        lemma_pow2_strictly_increases(16, n);
    }
    lemma_pow2_adds(n, (16 - n) as nat);
    lemma_pow2_pos((16 - n) as nat);
    vstd::arithmetic::div_mod::lemma_mod_multiples_basic(pow2((16 - n) as nat) as int, a as int);
}

/// Rounds `offset` up to the next multiple of the power of two `align`.
pub fn align_up(offset: u32, align: u32) -> (r: u32)
    requires
        is_pow2(align),
        offset + align - 1 <= u32::MAX,
    ensures
        r == round_up(offset as int, align as int),
        r % align == 0,
        offset <= r < offset + align,
{
    proof {
        lemma_mask_rounds(offset, align);
    }
    let y: u32 = offset + (align - 1);
    proof {
        lemma_mask_rounds(y, align);
    }
    y & !(align - 1)
}

/// Bytes in one chunk of a uniform pool.
pub const UNIFORM_CHUNK_SIZE: u32 = 0x10000;

/// Where one per-draw struct was written this frame.
#[derive(Clone, Copy, Debug, PartialEq, Eq, Structural)]
pub struct BufferLocation {
    /// The chunk (backing buffer) that holds the struct.
    pub index: usize,
    /// The byte offset of the struct in that chunk.
    pub offset: u32,
}

/// A per-frame bump allocator over fixed-size chunks.
///
/// The pool keeps the write cursor and the number of backing buffers that
/// exist; whoever owns the buffers creates one whenever `buffer_count` grows.
#[derive(Debug)]
pub struct BufferPool {
    /// Bytes in each chunk.
    pub chunk_size: u32,
    /// Every offset handed out is a multiple of this power of two.
    pub alignment: u32,
    /// The chunk that the cursor is in.
    pub last_index: usize,
    /// The first free byte of that chunk.
    pub last_offset: u32,
    /// How many backing buffers exist; they are never dropped.
    pub buffer_count: usize,
}

impl BufferPool {
    pub open spec fn wf(&self) -> bool {
        &&& is_pow2(self.alignment)
        &&& 0 < self.alignment
        &&& self.alignment <= self.chunk_size <= 0x8000_0000
        &&& self.chunk_size % self.alignment == 0
        &&& self.last_offset <= self.chunk_size
        &&& self.last_offset % self.alignment == 0
        &&& self.last_index < self.buffer_count
    }

    /// Buffers needed so that `count` structs of `size` bytes fit, each at
    /// an aligned offset.
    pub open spec fn chunks_for(&self, count: nat, size: nat) -> nat {
        if count == 0 {
            0
        } else {
            let per_chunk = self.chunk_size as int / round_up(size as int, self.alignment as int);
            (1 + (count - 1) / per_chunk) as nat
        }
    }

    /// A pool with one chunk of `chunk_size` bytes, cursor at its start.
    pub fn with_chunk_size(chunk_size: u32, alignment: u32) -> (r: BufferPool)
        requires
            is_pow2(alignment),
            alignment <= chunk_size <= 0x8000_0000,
            chunk_size % alignment == 0,
        ensures
            r.wf(),
            r.chunk_size == chunk_size,
            r.alignment == alignment,
            r.last_index == 0,
            r.last_offset == 0,
            r.buffer_count == 1,
    {
        proof {
            lemma_pow2_nonzero(alignment);
        }
        BufferPool { chunk_size, alignment, last_index: 0, last_offset: 0, buffer_count: 1 }
    }

    /// The pool for per-draw uniforms: one chunk of 64 KiB up front.
    pub fn uniform(alignment: u32) -> (r: BufferPool)
        requires
            is_pow2(alignment),
            alignment <= UNIFORM_CHUNK_SIZE,
        ensures
            r.wf(),
            r.chunk_size == UNIFORM_CHUNK_SIZE,
            r.alignment == alignment,
            r.last_index == 0,
            r.last_offset == 0,
            r.buffer_count == 1,
    {
        proof {
            lemma_pow2_divides_chunk(alignment);
        }
        BufferPool::with_chunk_size(UNIFORM_CHUNK_SIZE, alignment)
    }

    /// Moves the cursor back to the start of the first chunk; the buffers stay.
    pub fn reset(&mut self)
        requires
            old(self).wf(),
        ensures
            final(self).wf(),
            final(self).last_index == 0,
            final(self).last_offset == 0,
            final(self).chunk_size == old(self).chunk_size,
            final(self).alignment == old(self).alignment,
            final(self).buffer_count == old(self).buffer_count,
    {
        self.last_index = 0;
        self.last_offset = 0;
    }

    /// Makes sure that enough buffers exist for `count` structs of `size`
    /// bytes, and returns how many that takes.
    pub fn prepare_for_count(&mut self, count: usize, size: u32) -> (r: usize)
        requires
            old(self).wf(),
            0 < size <= old(self).chunk_size,
        ensures
            final(self).wf(),
            r == old(self).chunks_for(count as nat, size as nat),
            final(self).buffer_count == if old(self).buffer_count < r {
                r
            } else {
                old(self).buffer_count
            },
            final(self).chunk_size == old(self).chunk_size,
            final(self).alignment == old(self).alignment,
            final(self).last_index == old(self).last_index,
            final(self).last_offset == old(self).last_offset,
    {
        if count == 0 {
            return 0;
        }
        let size_per_element = align_up(size, self.alignment);
        proof {
            lemma_round_up_within(size as int, self.alignment as int, self.chunk_size as int);
        }
        let elements_per_chunk = self.chunk_size / size_per_element;
        assert(elements_per_chunk > 0) by (nonlinear_arith)
            requires
                0 < size_per_element <= self.chunk_size,
                elements_per_chunk == self.chunk_size / size_per_element,
        ;
        let buf_count = 1 + (count - 1) / (elements_per_chunk as usize);
        if self.buffer_count < buf_count {
            self.buffer_count = buf_count;
        }
        buf_count
    }

    /// Reserves room for a struct of `size` bytes at the cursor, moving to
    /// the next chunk when it does not fit in the current one.
    pub fn allocate(&mut self, size: u32) -> (r: BufferLocation)
        requires
            old(self).wf(),
            size <= old(self).chunk_size,
            old(self).buffer_count < usize::MAX,
        ensures
            final(self).wf(),
            r.offset % old(self).alignment == 0,
            r.offset + size <= old(self).chunk_size,
            r.index < final(self).buffer_count,
            old(self).last_offset + size > old(self).chunk_size ==> r.index == old(self).last_index
                + 1 && r.offset == 0,
            old(self).last_offset + size <= old(self).chunk_size ==> r.index == old(self).last_index
                && r.offset == old(self).last_offset,
            (r.index as int, r.offset as int) == next_location(
                old(self).chunk_size as int,
                old(self).last_index as int,
                old(self).last_offset as int,
                size as int,
            ),
            final(self).last_index == r.index,
            final(self).last_offset == round_up(r.offset + size, old(self).alignment as int),
            final(self).buffer_count == if r.index < old(self).buffer_count {
                old(self).buffer_count
            } else {
                (r.index + 1) as usize
            },
            final(self).chunk_size == old(self).chunk_size,
            final(self).alignment == old(self).alignment,
    {
        if size > self.chunk_size - self.last_offset {
            self.last_index = self.last_index + 1;
            self.last_offset = 0;
        }
        if self.last_index == self.buffer_count {
            self.buffer_count = self.buffer_count + 1;
        }
        let offset = self.last_offset;
        proof {
            vstd::arithmetic::div_mod::lemma_small_mod(0, self.alignment as nat);
        }
        proof {
            lemma_round_up_within((offset + size) as int, self.alignment as int, self.chunk_size as int);
        }
        self.last_offset = align_up(offset + size, self.alignment);
        BufferLocation { index: self.last_index, offset }
    }
}

/// Where an allocation of `size` bytes goes with the cursor at chunk
/// `index`, byte `offset`: there, or at the start of the next chunk when it
/// does not fit.
pub open spec fn next_location(chunk: int, index: int, offset: int, size: int) -> (int, int) {
    if offset + size > chunk {
        (index + 1, 0)
    } else {
        (index, offset)
    }
}

/// The cursor after `k` allocations of `size` bytes from the start of a
/// pool with chunks of `chunk` bytes and offsets aligned to `align`.
pub open spec fn cursor_after(chunk: int, align: int, size: int, k: nat) -> (int, int)
    decreases k,
{
    if k == 0 {
        (0, 0)
    } else {
        let prev = cursor_after(chunk, align, size, (k - 1) as nat);
        let at = next_location(chunk, prev.0, prev.1, size);
        (at.0, round_up(at.1 + size, align))
    }
}

/// Once `prepare_for_count(n, size)` has returned `r`, the `n` allocations
/// of `size` bytes that follow a reset all land in the first `r` chunks, so
/// no buffer has to be created while drawing.
pub proof fn lemma_prepared_chunks_suffice(pool: BufferPool, n: nat, size: nat, k: nat)
    requires
        pool.wf(),
        0 < size <= pool.chunk_size,
        k < n,
    ensures
        ({
            let cur = cursor_after(pool.chunk_size as int, pool.alignment as int, size as int, k);
            next_location(pool.chunk_size as int, cur.0, cur.1, size as int).0 < pool.chunks_for(
                n,
                size,
            )
        }),
{
    let c = pool.chunk_size as int;
    let a = pool.alignment as int;
    let t = round_up(size as int, a);
    lemma_stride(size as int, a, c);
    let p = c / t;
    lemma_cursor(c, a, size as int, k);
    vstd::arithmetic::div_mod::lemma_div_is_ordered(k as int, n - 1, p);
}

/// Facts on the stride `round_up(s, a)` of allocations of `s` bytes, and on
/// how many strides fit in a chunk.
proof fn lemma_stride(s: int, a: int, c: int)
    requires
        0 < s <= c,
        0 < a,
        c % a == 0,
    ensures
        s <= round_up(s, a) <= c,
        round_up(s, a) < s + a,
        round_up(s, a) % a == 0,
        c / round_up(s, a) >= 1,
        (c / round_up(s, a)) * round_up(s, a) <= c,
        (c / round_up(s, a)) * round_up(s, a) + s > c,
{
    let t = round_up(s, a);
    lemma_round_up_within(s, a, c);
    vstd::arithmetic::div_mod::lemma_mod_bound(s + a - 1, a);
    let p = c / t;
    vstd::arithmetic::div_mod::lemma_fundamental_div_mod(c, t);
    vstd::arithmetic::div_mod::lemma_mod_bound(c, t);
    vstd::arithmetic::mul::lemma_mul_is_commutative(t, p);
    assert(p >= 1) by (nonlinear_arith)
        requires
            c == t * p + c % t,
            c % t < t,
            t <= c,
    ;
    vstd::arithmetic::div_mod::lemma_fundamental_div_mod(t, a);
    vstd::arithmetic::div_mod::lemma_fundamental_div_mod(c, a);
    let u = t / a;
    let j = c / a;
    let i = (p + 1) * u;
    assert((p + 1) * t == a * i) by (nonlinear_arith)
        requires
            t == a * u,
            i == (p + 1) * u,
    ;
    assert((p + 1) * t > c) by (nonlinear_arith)
        requires
            c == t * p + c % t,
            c % t < t,
    ;
    assert(i > j) by (nonlinear_arith)
        requires
            a * i > a * j,
            a > 0,
    ;
    assert(a * i >= a * j + a) by (nonlinear_arith)
        requires
            i >= j + 1,
            a > 0,
    ;
    assert(p * t + s > c) by (nonlinear_arith)
        requires
            (p + 1) * t >= c + a,
            t < s + a,
    ;
}

/// Rounding up past a multiple of `a` keeps that multiple whole.
proof fn lemma_round_up_shift(x: int, s: int, a: int)
    requires
        0 < a,
        0 <= x,
        x % a == 0,
    ensures
        round_up(x + s, a) == x + round_up(s, a),
{
    vstd::arithmetic::div_mod::lemma_fundamental_div_mod(x, a);
    vstd::arithmetic::div_mod::lemma_mod_multiples_vanish(x / a, s + a - 1, a);
}

/// The cursor after `k` allocations sits just past the `k`-th stride slot
/// of the chunks, and the next allocation takes slot `k`.
proof fn lemma_cursor(c: int, a: int, s: int, k: nat)
    requires
        0 < s <= c,
        0 < a,
        c % a == 0,
    ensures
        ({
            let t = round_up(s, a);
            let p = c / t;
            let cur = cursor_after(c, a, s, k);
            &&& k >= 1 ==> cur == ((k - 1) / p, ((k - 1) % p + 1) * t)
            &&& next_location(c, cur.0, cur.1, s) == ((k as int) / p, ((k as int) % p) * t)
        }),
    decreases k,
{
    let t = round_up(s, a);
    lemma_stride(s, a, c);
    let p = c / t;
    let cur = cursor_after(c, a, s, k);
    if k == 0 {
        vstd::arithmetic::div_mod::lemma_fundamental_div_mod_converse(0, p, 0, 0);
        assert(cur == (0int, 0int));
        assert(next_location(c, cur.0, cur.1, s) == (0int, 0int));
        assert(((k as int) % p) * t == 0);
    } else {
        lemma_cursor(c, a, s, (k - 1) as nat);
        let q = (k - 1) / p;
        let m = (k - 1) % p;
        vstd::arithmetic::div_mod::lemma_fundamental_div_mod(k - 1, p);
        vstd::arithmetic::div_mod::lemma_mod_bound(k - 1, p);
        let u = t / a;
        vstd::arithmetic::div_mod::lemma_fundamental_div_mod(t, a);
        assert(m * t == (m * u) * a) by (nonlinear_arith)
            requires
                t == a * u,
        ;
        vstd::arithmetic::div_mod::lemma_mod_multiples_basic(m * u, a);
        assert(m * t >= 0) by (nonlinear_arith)
            requires
                m >= 0,
                t > 0,
        ;
        lemma_round_up_shift(m * t, s, a);
        assert(m * t + t == (m + 1) * t) by (nonlinear_arith);
        let prev = cursor_after(c, a, s, (k - 1) as nat);
        assert(next_location(c, prev.0, prev.1, s) == (q, m * t));
        assert(cur == (q, (m + 1) * t));
        if m + 1 < p {
            assert((m + 2) * t <= p * t) by (nonlinear_arith)
                requires
                    m + 2 <= p,
                    t > 0,
            ;
            assert((m + 2) * t == (m + 1) * t + t) by (nonlinear_arith);
            assert(next_location(c, cur.0, cur.1, s) == (q, (m + 1) * t));
            vstd::arithmetic::div_mod::lemma_fundamental_div_mod_converse(k as int, p, q, m + 1);
            assert(next_location(c, cur.0, cur.1, s) == ((k as int) / p, ((k as int) % p) * t));
        } else {
            assert(k == (q + 1) * p + 0) by (nonlinear_arith)
                requires
                    k - 1 == p * q + m,
                    m + 1 == p,
            ;
            vstd::arithmetic::div_mod::lemma_fundamental_div_mod_converse(k as int, p, q + 1, 0);
            assert(p * t == (m + 1) * t);
            assert(next_location(c, cur.0, cur.1, s) == (q + 1, 0int));
            assert(((k as int) % p) * t == 0);
            assert(next_location(c, cur.0, cur.1, s) == ((k as int) / p, ((k as int) % p) * t));
        }
        assert(cur == ((k - 1) / p, ((k - 1) % p + 1) * t));
    }
}

/// Rounding up stays within a chunk whose size is a multiple of the alignment.
proof fn lemma_round_up_within(x: int, a: int, chunk: int)
    requires
        0 <= x <= chunk,
        0 < a,
        chunk % a == 0,
    ensures
        x <= round_up(x, a) <= chunk,
        round_up(x, a) % a == 0,
        x > 0 ==> round_up(x, a) > 0,
{
    let y = x + a - 1;
    vstd::arithmetic::div_mod::lemma_fundamental_div_mod(y, a);
    vstd::arithmetic::div_mod::lemma_mod_bound(y, a);
    vstd::arithmetic::div_mod::lemma_fundamental_div_mod(chunk, a);
    let q = y / a;
    let m = chunk / a;
    assert(round_up(x, a) == a * q);
    vstd::arithmetic::div_mod::lemma_mod_multiples_basic(q, a);
    vstd::arithmetic::mul::lemma_mul_is_commutative(a, q);
    assert(q <= m) by (nonlinear_arith)
        requires
            a * q <= y,
            y <= a * m + a - 1,
            a > 0,
    ;
    assert(a * q <= a * m) by (nonlinear_arith)
        requires
            q <= m,
            a > 0,
    ;
}

} // verus!
