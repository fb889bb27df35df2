//! Fixed-size byte ring buffer used to accumulate flash writes.

use vstd::prelude::*;

verus! {

/// Number of readable bytes between read position `r` and write position `w`
/// in a ring of `n` slots.
pub open spec fn ring_len(n: nat, r: nat, w: nat) -> nat {
    if w >= r {
        (w - r) as nat
    } else {
        (w + n - r) as nat
    }
}

/// Slot holding the `k`-th readable byte, counting from read position `r`.
pub open spec fn ring_index(n: nat, r: nat, k: int) -> int {
    if r + k < n {
        r + k
    } else {
        r + k - n
    }
}

/// The readable bytes, oldest first.
pub open spec fn ring_contents(s: Seq<u8>, r: nat, w: nat) -> Seq<u8> {
    Seq::new(ring_len(s.len(), r, w), |k: int| s[ring_index(s.len(), r, k)])
}

/// Fixed-size ring buffer of `N` slots; it holds at most `N - 1` bytes.
///
/// Designed for `N = 2 * PAGE_SIZE`, consumed in page-sized chunks.
pub struct RingBuf<const N: usize> {
    buf: Vec<u8>,
    head: usize,
    tail: usize,
}

impl<const N: usize> RingBuf<N> {
    /// Well-formedness: `N` slots, positions inside the ring.
    pub closed spec fn wf(&self) -> bool {
        &&& self.buf@.len() == N
        &&& N == 0 ==> self.head == 0 && self.tail == 0
        &&& N > 0 ==> self.head < N && self.tail < N
    }

    /// The `N` slots of the buffer.
    pub closed spec fn slots(&self) -> Seq<u8> {
        self.buf@
    }

    /// A well-formed ring of `N > 0` slots holds fewer than `N` bytes.
    pub proof fn lemma_len_bound(&self)
        requires
            self.wf(),
            N > 0,
        ensures
            self@.len() < N,
    {
    }

    /// Slot of the oldest readable byte.
    pub closed spec fn read_pos(&self) -> nat {
        self.tail as nat
    }

    /// Slot the next pushed byte goes to.
    pub closed spec fn write_pos(&self) -> nat {
        self.head as nat
    }
}

impl<const N: usize> View for RingBuf<N> {
    type V = Seq<u8>;

    open spec fn view(&self) -> Seq<u8> {
        ring_contents(self.slots(), self.read_pos(), self.write_pos())
    }
}

impl<const N: usize> Default for RingBuf<N> {
    fn default() -> (r: Self)
        ensures
            r.wf(),
            r@ == Seq::<u8>::empty(),
            r.read_pos() == 0,
            r.write_pos() == 0,
    {
        let mut buf: Vec<u8> = Vec::new();
        let mut i: usize = 0;
        while i < N
            invariant
                i <= N,
                buf@.len() == i,
            decreases N - i,
        {
            buf.push(0);
            i = i + 1;
        }
        let r = RingBuf { buf, head: 0, tail: 0 };
        assert(r@ =~= Seq::<u8>::empty());
        r
    }
}

proof fn lemma_wrap_add(t: int, n: int, size: int)
    requires
        0 <= t < size,
        0 <= n,
    ensures
        (t + n) % size == if n % size >= size - t {
            n % size - (size - t)
        } else {
            t + n % size
        },
{
    let m = n % size;
    let q = n / size;
    vstd::arithmetic::div_mod::lemma_fundamental_div_mod(n, size);
    assert(0 <= m < size);
    if m >= size - t {
        let r = m - (size - t);
        assert(t + n == size * (q + 1) + r) by (nonlinear_arith)
            requires
                n == size * q + m,
                r == m - (size - t),
        ;
        vstd::arithmetic::div_mod::lemma_mod_multiples_vanish(q + 1, r, size);
        vstd::arithmetic::div_mod::lemma_small_mod(r as nat, size as nat);
    } else {
        let r = t + m;
        assert(t + n == size * q + r);
        vstd::arithmetic::div_mod::lemma_mod_multiples_vanish(q, r, size);
        vstd::arithmetic::div_mod::lemma_small_mod(r as nat, size as nat);
    }
}

impl<const N: usize> RingBuf<N> {
    /// Bytes available to read.
    pub fn len(&self) -> (r: usize)
        requires
            self.wf(),
            N > 0,
        ensures
            r == self@.len(),
    {
        if self.head >= self.tail {
            self.head - self.tail
        } else {
            self.head + (N - self.tail)
        }
    }

    /// Returns true if the buffer is empty.
    pub fn is_empty(&self) -> (r: bool)
        requires
            self.wf(),
        ensures
            r == (self@.len() == 0),
    {
        self.head == self.tail
    }

    /// Push bytes into the buffer, handling wrap-around.
    /// Returns the number of bytes actually written (short if full).
    pub fn push(&mut self, data: &[u8]) -> (r: usize)
        requires
            old(self).wf(),
            N > 0,
        ensures
            final(self).wf(),
            r == if data@.len() <= N - 1 - old(self)@.len() {
                data@.len() as int
            } else {
                N - 1 - old(self)@.len()
            },
            final(self)@ == old(self)@ + data@.take(r as int),
            final(self)@.len() <= N - 1,
            final(self).read_pos() == old(self).read_pos(),
    {
        let len0: usize = self.len();
        let free: usize = N - 1 - len0;
        let n: usize = if data.len() < free {
            data.len()
        } else {
            free
        };
        let ghost old_buf = self.buf@;
        let ghost tail = self.tail as nat;
        let mut head: usize = self.head;
        let mut i: usize = 0;
        while i < n
            invariant
                n <= N - 1 - len0,
                n <= data.len(),
                len0 == ring_len(N as nat, tail, self.head as nat),
                tail == self.tail,
                tail < N,
                self.buf@.len() == N,
                old_buf.len() == N,
                i <= n,
                head < N,
                head == ring_index(N as nat, tail, len0 + i),
                forall|j: int|
                    0 <= j < len0 ==> #[trigger] self.buf@[ring_index(N as nat, tail, j)]
                        == old_buf[ring_index(N as nat, tail, j)],
                forall|m: int|
                    0 <= m < i ==> #[trigger] self.buf@[ring_index(N as nat, tail, len0 + m)]
                        == data@[m],
            decreases n - i,
        {
            self.buf.set(head, data[i]);
            head = head + 1;
            if head == N {
                head = 0;
            }
            i = i + 1;
        }
        self.head = head;
        let ghost old_view = ring_contents(old_buf, tail, old(self).head as nat);
        assert(old_view == old(self)@);
        assert(self@ =~= old_view + data@.take(n as int)) by {
            assert(self@.len() == len0 + n);
            assert forall|k: int| 0 <= k < len0 + n implies #[trigger] self@[k] == (old_view
                + data@.take(n as int))[k] by {
                if k < len0 {
                } else {
                    let m = k - len0;
                    assert(self.buf@[ring_index(N as nat, tail, len0 + m)] == data@[m]);
                }
            }
        }
        n
    }

    /// Copy out up to `n` readable bytes, oldest first, without consuming
    /// them. Returns fewer than `n` bytes only if fewer are available.
    pub fn peek(&self, n: usize) -> (r: Vec<u8>)
        requires
            self.wf(),
            N > 0,
        ensures
            r@ == self@.take(if n <= self@.len() {
                n as int
            } else {
                self@.len() as int
            }),
    {
        let available: usize = self.len();
        let k: usize = if n < available {
            n
        } else {
            available
        };
        let mut out: Vec<u8> = Vec::new();
        let mut j: usize = 0;
        while j < k
            invariant
                k <= available,
                available == self@.len(),
                self.buf@.len() == N,
                self.tail < N,
                available < N,
                j <= k,
                out@ == self@.take(j as int),
            decreases k - j,
        {
            let idx: usize = if j < N - self.tail {
                self.tail + j
            } else {
                j - (N - self.tail)
            };
            out.push(self.buf[idx]);
            assert(self@.take(j + 1) =~= self@.take(j as int).push(self@[j as int]));
            j = j + 1;
        }
        out
    }

    /// Advance the read position by `n` bytes.
    pub fn consume(&mut self, n: usize)
        requires
            old(self).wf(),
            N > 0,
        ensures
            final(self).wf(),
            final(self).slots() == old(self).slots(),
            final(self).write_pos() == old(self).write_pos(),
            final(self).read_pos() == (old(self).read_pos() + n) % (N as int),
            n <= old(self)@.len() ==> final(self)@ == old(self)@.skip(n as int),
    {
        let m: usize = n % N;
        let t: usize = self.tail;
        let new_tail: usize = if m >= N - t {
            m - (N - t)
        } else {
            t + m
        };
        proof {
            lemma_wrap_add(t as int, n as int, N as int);
        }
        self.tail = new_tail;
        proof {
            if n <= old(self)@.len() {
                let h = self.head as int;
                let old_view = old(self)@;
                vstd::arithmetic::div_mod::lemma_small_mod(n as nat, N as nat);
                assert(m == n);
                assert(new_tail == ring_index(N as nat, t as nat, n as int));
                assert(self@.len() == old_view.len() - n);
                assert forall|k: int| 0 <= k < self@.len() implies #[trigger] self@[k]
                    == old_view.skip(n as int)[k] by {
                    assert(ring_index(N as nat, new_tail as nat, k) == ring_index(
                        N as nat,
                        t as nat,
                        k + n,
                    ));
                }
                assert(self@ =~= old_view.skip(n as int));
            }
        }
    }
}

/// First in, first out: once the bytes that were buffered before a push are
/// consumed, the next bytes read are exactly the pushed ones, in order.
pub proof fn lemma_ring_fifo(before: Seq<u8>, pushed: Seq<u8>, k: int)
    requires
        0 <= k <= pushed.len(),
    ensures
        (before + pushed).skip(before.len() as int).take(k) == pushed.take(k),
{
    assert((before + pushed).skip(before.len() as int) =~= pushed);
}

} // verus!
