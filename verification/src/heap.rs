//! The heap allocator: a free-list allocator over the virtual range the page
//! mapper backed with frames. Blocks split to serve smaller requests and
//! coalesce eagerly on deallocation, so the free list always holds sorted,
//! disjoint, non-adjacent blocks.

use vstd::prelude::*;

verus! {

use vstd::arithmetic::div_mod::{lemma_fundamental_div_mod, lemma_mod_multiples_basic};

/// One free block of the heap: `size` bytes starting at `addr`.
#[derive(Clone, Copy, PartialEq, Eq, Structural, Debug)]
pub struct FreeBlock {
    pub addr: u64,
    pub size: u64,
}

/// Why an allocation request failed. Exhaustion is reported distinctly from
/// an alignment the allocator cannot work with.
#[derive(Clone, Copy, PartialEq, Eq, Structural, Debug)]
pub enum AllocError {
    /// No free block can hold the request.
    Exhausted,
    /// The requested alignment is not a power of two.
    InvalidAlign,
}

/// `align` is a power of two.
pub open spec fn is_pow2(align: u64) -> bool {
    align >= 1 && (align & (align - 1) as u64) == 0
}

/// Bytes wasted at the front of a block at `addr` to reach `align`.
pub open spec fn align_pad(addr: u64, align: u64) -> int {
    if addr % align == 0 {
        0
    } else {
        align - addr % align
    }
}

/// A request of `size` bytes at alignment `align` fits in `b`.
pub open spec fn block_fits(b: FreeBlock, size: u64, align: u64) -> bool {
    align_pad(b.addr, align) + size <= b.size
}

/// Total bytes held by the blocks of `s`.
pub open spec fn total_of(s: Seq<FreeBlock>) -> int
    decreases s.len(),
{
    if s.len() == 0 {
        0
    } else {
        s[0].size + total_of(s.drop_first())
    }
}

/// Byte `x` lies in some block of `s`.
pub open spec fn covers(s: Seq<FreeBlock>, x: u64) -> bool {
    exists|i: int| 0 <= i < s.len() && (#[trigger] s[i]).addr <= x < s[i].addr + s[i].size
}

/// The blocks of `s` are non-empty, lie inside the heap range, and are
/// sorted, pairwise disjoint and non-adjacent.
pub open spec fn blocks_wf(s: Seq<FreeBlock>, heap_start: u64, heap_size: u64) -> bool {
    &&& forall|i: int|
        0 <= i < s.len() ==> (#[trigger] s[i]).size >= 1 && heap_start <= s[i].addr && s[i].addr
            + s[i].size <= heap_start + heap_size
    &&& forall|i: int|
        0 <= i && i + 1 < s.len() ==> (#[trigger] s[i]).addr + s[i].size < s[i + 1].addr
}

/// Free/used bookkeeping for the kernel heap.
pub struct HeapAllocator {
    pub heap_start: u64,
    pub heap_size: u64,
    pub free: Vec<FreeBlock>,
}

impl HeapAllocator {
    /// The free list holds non-empty blocks inside the heap range, sorted by
    /// address, pairwise disjoint, and never adjacent: adjacent blocks have
    /// been coalesced.
    pub open spec fn wf(self) -> bool {
        &&& self.heap_start + self.heap_size <= u64::MAX
        &&& blocks_wf(self.free@, self.heap_start, self.heap_size)
    }

    /// Bytes still free.
    pub open spec fn total_free(self) -> int {
        total_of(self.free@)
    }

    /// Byte `x` is free.
    pub open spec fn is_free_byte(self, x: u64) -> bool {
        covers(self.free@, x)
    }

    /// Some free block can hold a request of `size` bytes at `align`.
    pub open spec fn can_allocate(self, size: u64, align: u64) -> bool {
        exists|i: int| 0 <= i < self.free.len() && block_fits(#[trigger] self.free[i], size, align)
    }

    /// A fresh allocator over the mapped heap range, entirely free.
    pub fn new(heap_start: u64, heap_size: u64) -> (a: HeapAllocator)
        requires
            heap_start + heap_size <= u64::MAX,
        ensures
            a.wf(),
            a.heap_start == heap_start,
            a.heap_size == heap_size,
            a.total_free() == heap_size,
            forall|x: u64| a.is_free_byte(x) <==> heap_start <= x < heap_start + heap_size,
    {
        let mut free: Vec<FreeBlock> = Vec::new();
        if heap_size > 0 {
            free.push(FreeBlock { addr: heap_start, size: heap_size });
        }
        let a = HeapAllocator { heap_start, heap_size, free };
        proof {
            if heap_size > 0 {
                assert(a.free@.drop_first() =~= Seq::<FreeBlock>::empty());
                assert(total_of(a.free@.drop_first()) == 0);
                assert forall|x: u64| heap_start <= x < heap_start + heap_size implies a.is_free_byte(
                    x,
                ) by {
                    assert(a.free@[0].addr <= x < a.free@[0].addr + a.free@[0].size);
                }
            }
        }
        a
    }

    /// Serve a request for `size` bytes at alignment `align`: the first free
    /// block with room for an aligned sub-range is split, the sub-range is
    /// handed out, and the block's front padding and tail stay free. The
    /// returned range was free and no longer is; no other byte changes state.
    /// Fails with `Exhausted` exactly when no block fits, and with
    /// `InvalidAlign` exactly when `align` is not a power of two.
    pub fn allocate(&mut self, size: u64, align: u64) -> (r: Result<u64, AllocError>)
        requires
            old(self).wf(),
            size >= 1,
        ensures
            final(self).wf(),
            final(self).heap_start == old(self).heap_start,
            final(self).heap_size == old(self).heap_size,
            r is Err ==> *final(self) == *old(self),
            r matches Err(e) ==> (e == AllocError::InvalidAlign <==> !is_pow2(align)),
            is_pow2(align) ==> (r is Ok <==> old(self).can_allocate(size, align)),
            r matches Ok(a) ==> a % align == 0 && old(self).heap_start <= a && a + size <= old(
                self,
            ).heap_start + old(self).heap_size && final(self).total_free() == old(
                self,
            ).total_free() - size && (forall|x: u64|
                a <= x < a + size ==> old(self).is_free_byte(x)) && (forall|x: u64|
                final(self).is_free_byte(x) <==> (old(self).is_free_byte(x) && !(a <= x < a
                    + size))),
    {
        if align == 0 || (align & (align - 1)) != 0 {
            return Err(AllocError::InvalidAlign);
        }
        let n = self.free.len();
        let mut i: usize = 0;
        while i < n
            invariant
                *self == *old(self),
                self.wf(),
                size >= 1,
                align >= 1,
                n == self.free.len(),
                0 <= i <= n,
                forall|j: int| 0 <= j < i ==> !block_fits(#[trigger] self.free[j], size, align),
            decreases n - i,
        {
            let b = self.free[i];
            let rem = b.addr % align;
            let pad = if rem == 0 {
                0
            } else {
                align - rem
            };
            proof {
                assert(pad == align_pad(b.addr, align));
            }
            if pad <= b.size && size <= b.size - pad {
                let a = self.carve(i, size, align);
                return Ok(a);
            }
            i = i + 1;
        }
        Err(AllocError::Exhausted)
    }

    /// Carve an aligned `size`-byte range out of free block `i`, keeping the
    /// block's front padding and tail on the free list.
    fn carve(&mut self, i: usize, size: u64, align: u64) -> (a: u64)
        requires
            old(self).wf(),
            size >= 1,
            align >= 1,
            i < old(self).free.len(),
            block_fits(old(self).free[i as int], size, align),
        ensures
            final(self).wf(),
            final(self).heap_start == old(self).heap_start,
            final(self).heap_size == old(self).heap_size,
            a % align == 0,
            old(self).heap_start <= a,
            a + size <= old(self).heap_start + old(self).heap_size,
            final(self).total_free() == old(self).total_free() - size,
            forall|x: u64| a <= x < a + size ==> old(self).is_free_byte(x),
            forall|x: u64|
                final(self).is_free_byte(x) <==> (old(self).is_free_byte(x) && !(a <= x < a
                    + size)),
    {
        let b = self.free[i];
        let rem = b.addr % align;
        let pad = if rem == 0 {
            0
        } else {
            align - rem
        };
        proof {
            assert(pad == align_pad(b.addr, align));
        }
        let ghost oldf = self.free@;
        let a = b.addr + pad;
        let tail_size = b.size - pad - size;
        self.free.remove(i);
        if tail_size > 0 {
            self.free.insert(i, FreeBlock { addr: a + size, size: tail_size });
        }
        if pad > 0 {
            self.free.insert(i, FreeBlock { addr: b.addr, size: pad });
        }
        proof {
            lemma_fundamental_div_mod(b.addr as int, align as int);
            let q = b.addr as int / align as int;
            if rem != 0 {
                assert((q + 1) * align as int == q * align as int + align as int)
                    by (nonlinear_arith);
                assert(a as int == (q + 1) * align as int);
                lemma_mod_multiples_basic(q + 1, align as int);
            }
            assert(a % align == 0);
            let mid = carve_mid(b, pad, size, tail_size);
            let newf = oldf.take(i as int) + mid + oldf.skip(i as int + 1);
            assert(self.free@ =~= newf);
            lemma_carve_shape(oldf, i as int, pad, size, tail_size, self.heap_start, self.heap_size);
        }
        a
    }

    /// Return the range `addr .. addr + size` to the free list, coalescing
    /// with the neighbouring free blocks so the list stays non-adjacent.
    /// Afterwards exactly the returned bytes are free in addition.
    #[verifier::rlimit(100)]
    #[verifier::spinoff_prover]
    pub fn deallocate(&mut self, addr: u64, size: u64)
        requires
            old(self).wf(),
            size >= 1,
            old(self).heap_start <= addr,
            addr + size <= old(self).heap_start + old(self).heap_size,
            forall|x: u64| addr <= x < addr + size ==> !old(self).is_free_byte(x),
        ensures
            final(self).wf(),
            final(self).heap_start == old(self).heap_start,
            final(self).heap_size == old(self).heap_size,
            final(self).total_free() == old(self).total_free() + size,
            forall|x: u64|
                final(self).is_free_byte(x) <==> (old(self).is_free_byte(x) || (addr <= x < addr
                    + size)),
    {
        let ghost oldf = self.free@;
        let n = self.free.len();
        let mut i: usize = 0;
        while i < n && self.free[i].addr < addr
            invariant
                *self == *old(self),
                self.wf(),
                n == self.free.len(),
                0 <= i <= n,
                forall|j: int| 0 <= j < i ==> (#[trigger] self.free[j]).addr < addr,
            decreases n - i,
        {
            i = i + 1;
        }
        let merge_left = i > 0 && {
            let lb = self.free[i - 1];
            lb.addr + lb.size == addr
        };
        let merge_right = i < n && addr + size == self.free[i].addr;
        let start = if merge_left {
            self.free[i - 1].addr
        } else {
            addr
        };
        let end = if merge_right {
            let rb = self.free[i];
            rb.addr + rb.size
        } else {
            addr + size
        };
        if merge_right {
            self.free.remove(i);
        }
        let ghost s1 = self.free@;
        let pos = if merge_left {
            self.free.remove(i - 1);
            i - 1
        } else {
            i
        };
        let ghost s2 = self.free@;
        self.free.insert(pos, FreeBlock { addr: start, size: end - start });
        proof {
            let el: int = if merge_left { 1 } else { 0 };
            let r: int = if merge_right { 1 } else { 0 };
            assert forall|x: u64| addr <= x < addr + size implies !covers(oldf, x) by {
                assert(!old(self).is_free_byte(x));
            }
            lemma_dealloc_shape(oldf, i as int, merge_left, merge_right, addr, size, self.heap_start, self.heap_size);
            let nb = FreeBlock { addr: start, size: (end - start) as u64 };
            lemma_dealloc_seq(oldf, i as int, merge_left, merge_right, nb);
            assert(self.free@ == s2.insert(pos as int, nb));
        }
    }
}


/// The zero, one or two free blocks that survive carving `size` bytes (after
/// `pad` bytes of padding, leaving `tail_size` bytes) out of `b`.
pub open spec fn carve_mid(b: FreeBlock, pad: u64, size: u64, tail_size: u64) -> Seq<FreeBlock> {
    let front = seq![FreeBlock { addr: b.addr, size: pad }];
    let tail = seq![FreeBlock { addr: (b.addr + pad + size) as u64, size: tail_size }];
    (if pad > 0 {
        front
    } else {
        Seq::<FreeBlock>::empty()
    }) + (if tail_size > 0 {
        tail
    } else {
        Seq::<FreeBlock>::empty()
    })
}

/// Totals add over concatenation.
proof fn lemma_total_append(a: Seq<FreeBlock>, b: Seq<FreeBlock>)
    ensures
        total_of(a + b) == total_of(a) + total_of(b),
    decreases a.len(),
{
    if a.len() == 0 {
        assert(a + b =~= b);
    } else {
        assert((a + b)[0] == a[0]);
        assert((a + b).drop_first() =~= a.drop_first() + b);
        lemma_total_append(a.drop_first(), b);
    }
}

/// The total of a one-block list is that block's size.
proof fn lemma_total_single(b: FreeBlock)
    ensures
        total_of(seq![b]) == b.size,
{
    assert(seq![b].drop_first() =~= Seq::<FreeBlock>::empty());
    assert(total_of(Seq::<FreeBlock>::empty()) == 0);
}

/// A sequence splits around any of its positions.
proof fn lemma_split_at(s: Seq<FreeBlock>, i: int)
    requires
        0 <= i < s.len(),
    ensures
        s =~= s.take(i) + seq![s[i]] + s.skip(i + 1),
        total_of(s) == total_of(s.take(i)) + s[i].size + total_of(s.skip(i + 1)),
{
    assert(s =~= s.take(i) + seq![s[i]] + s.skip(i + 1));
    lemma_total_append(s.take(i) + seq![s[i]], s.skip(i + 1));
    lemma_total_append(s.take(i), seq![s[i]]);
    lemma_total_single(s[i]);
}

/// The total of the carve remainder.
proof fn lemma_carve_mid_total(b: FreeBlock, pad: u64, size: u64, tail_size: u64)
    requires
        pad + size + tail_size == b.size,
    ensures
        total_of(carve_mid(b, pad, size, tail_size)) == b.size - size,
{
    let front = seq![FreeBlock { addr: b.addr, size: pad }];
    let tail = seq![FreeBlock { addr: (b.addr + pad + size) as u64, size: tail_size }];
    let mid = carve_mid(b, pad, size, tail_size);
    if pad > 0 && tail_size > 0 {
        lemma_total_append(front, tail);
        lemma_total_single(front[0]);
        lemma_total_single(tail[0]);
        assert(front == seq![front[0]] && tail == seq![tail[0]]);
    } else if pad > 0 {
        assert(mid =~= front);
        lemma_total_single(front[0]);
        assert(front == seq![front[0]]);
    } else if tail_size > 0 {
        assert(mid =~= tail);
        lemma_total_single(tail[0]);
        assert(tail == seq![tail[0]]);
    } else {
        assert(mid =~= Seq::<FreeBlock>::empty());
        assert(total_of(Seq::<FreeBlock>::empty()) == 0);
    }
}

/// Sortedness of adjacent blocks extends to any two positions.
proof fn lemma_sorted_global(s: Seq<FreeBlock>, heap_start: u64, heap_size: u64, j: int, k: int)
    requires
        blocks_wf(s, heap_start, heap_size),
        0 <= j < k < s.len(),
    ensures
        s[j].addr + s[j].size < s[k].addr,
    decreases k - j,
{
    if j + 1 < k {
        lemma_sorted_global(s, heap_start, heap_size, j, k - 1);
        assert(s[k - 1].addr + s[k - 1].size < s[k].addr);
        assert(s[k - 1].size >= 1);
    }
}

/// Coverage distributes over concatenation.
proof fn lemma_covers_append(sa: Seq<FreeBlock>, sb: Seq<FreeBlock>)
    ensures
        forall|x: u64| covers(sa + sb, x) <==> covers(sa, x) || covers(sb, x),
{
    assert forall|x: u64| covers(sa + sb, x) implies covers(sa, x) || covers(sb, x) by {
        let i = choose|i: int|
            0 <= i < (sa + sb).len() && (#[trigger] (sa + sb)[i]).addr <= x < (sa + sb)[i].addr + (
            sa + sb)[i].size;
        if i < sa.len() {
            assert(sa[i].addr <= x < sa[i].addr + sa[i].size);
        } else {
            assert(sb[i - sa.len()].addr <= x < sb[i - sa.len()].addr + sb[i - sa.len()].size);
        }
    }
    assert forall|x: u64| covers(sa, x) || covers(sb, x) implies covers(sa + sb, x) by {
        if covers(sa, x) {
            let i = choose|i: int|
                0 <= i < sa.len() && (#[trigger] sa[i]).addr <= x < sa[i].addr + sa[i].size;
            assert((sa + sb)[i].addr <= x < (sa + sb)[i].addr + (sa + sb)[i].size);
        } else {
            let i = choose|i: int|
                0 <= i < sb.len() && (#[trigger] sb[i]).addr <= x < sb[i].addr + sb[i].size;
            assert((sa + sb)[sa.len() + i].addr <= x < (sa + sb)[sa.len() + i].addr + (sa
                + sb)[sa.len() + i].size);
        }
    }
}

/// Shape and byte coverage of the carve remainder: it covers exactly the
/// block's bytes outside the handed-out range.
proof fn lemma_carve_mid_facts(b: FreeBlock, pad: u64, size: u64, tail_size: u64)
    requires
        pad + size + tail_size == b.size,
        size >= 1,
        b.addr + b.size <= u64::MAX,
    ensures
        ({
            let mid = carve_mid(b, pad, size, tail_size);
            let a = (b.addr + pad) as u64;
            &&& mid.len() == (if pad > 0 { 1int } else { 0int }) + (if tail_size > 0 { 1int } else { 0int })
            &&& forall|k: int|
                0 <= k < mid.len() ==> (#[trigger] mid[k]).size >= 1 && b.addr <= mid[k].addr
                    && mid[k].addr + mid[k].size <= b.addr + b.size
            &&& mid.len() == 2 ==> mid[0].addr + mid[0].size < mid[1].addr
            &&& forall|x: u64|
                covers(mid, x) <==> (b.addr <= x < a || a + size <= x < b.addr + b.size)
        }),
{
    let mid = carve_mid(b, pad, size, tail_size);
    let a = (b.addr + pad) as u64;
    let front = seq![FreeBlock { addr: b.addr, size: pad }];
    let tail = seq![FreeBlock { addr: (b.addr + pad + size) as u64, size: tail_size }];
    if pad > 0 && tail_size > 0 {
        assert(mid =~= front + tail);
        assert(mid[0] == front[0] && mid[1] == tail[0]);
    } else if pad > 0 {
        assert(mid =~= front);
    } else if tail_size > 0 {
        assert(mid =~= tail);
    } else {
        assert(mid =~= Seq::<FreeBlock>::empty());
    }
    assert forall|x: u64| covers(mid, x) implies (b.addr <= x < a || a + size <= x < b.addr
        + b.size) by {
        let k = choose|k: int|
            0 <= k < mid.len() && (#[trigger] mid[k]).addr <= x < mid[k].addr + mid[k].size;
    }
    assert forall|x: u64| (b.addr <= x < a || a + size <= x < b.addr + b.size) implies covers(
        mid,
        x,
    ) by {
        if b.addr <= x < a {
            assert(pad > 0);
            assert(mid[0].addr <= x < mid[0].addr + mid[0].size);
        } else {
            assert(tail_size > 0);
            let t = mid.len() - 1;
            assert(mid[t].addr <= x < mid[t].addr + mid[t].size);
        }
    }
}

/// Carving block `ii` keeps the free list well formed, reduces the total by
/// exactly `size`, and removes exactly the handed-out bytes from the free
/// set.
proof fn lemma_carve_shape(
    oldf: Seq<FreeBlock>,
    ii: int,
    pad: u64,
    size: u64,
    tail_size: u64,
    heap_start: u64,
    heap_size: u64,
)
    requires
        heap_start + heap_size <= u64::MAX,
        blocks_wf(oldf, heap_start, heap_size),
        0 <= ii < oldf.len(),
        size >= 1,
        pad + size + tail_size == oldf[ii].size,
    ensures
        ({
            let b = oldf[ii];
            let a = (b.addr + pad) as u64;
            let newf = oldf.take(ii) + carve_mid(b, pad, size, tail_size) + oldf.skip(ii + 1);
            &&& blocks_wf(newf, heap_start, heap_size)
            &&& total_of(newf) == total_of(oldf) - size
            &&& heap_start <= a && a + size <= heap_start + heap_size
            &&& forall|x: u64| a <= x < a + size ==> covers(oldf, x)
            &&& forall|x: u64| covers(newf, x) <==> (covers(oldf, x) && !(a <= x < a + size))
        }),
{
    let b = oldf[ii];
    let a = (b.addr + pad) as u64;
    let mid = carve_mid(b, pad, size, tail_size);
    let pre = oldf.take(ii);
    let post = oldf.skip(ii + 1);
    let newf = pre + mid + post;
    let m = mid.len() as int;
    lemma_split_at(oldf, ii);
    lemma_total_append(pre + mid, post);
    lemma_total_append(pre, mid);
    lemma_total_append(pre + seq![b], post);
    lemma_total_append(pre, seq![b]);
    lemma_total_single(b);
    lemma_carve_mid_total(b, pad, size, tail_size);
    assert(total_of(newf) == total_of(oldf) - size);
    lemma_carve_mid_facts(b, pad, size, tail_size);
    lemma_carve_wf(oldf, ii, pad, size, tail_size, heap_start, heap_size);
    // Byte coverage: distribute over the three parts on each side.
    lemma_covers_append(pre + mid, post);
    lemma_covers_append(pre, mid);
    lemma_covers_append(pre + seq![b], post);
    lemma_covers_append(pre, seq![b]);
    assert forall|x: u64| a <= x < a + size implies covers(oldf, x) by {
        assert(oldf[ii].addr <= x < oldf[ii].addr + oldf[ii].size);
    }
    assert forall|x: u64| #[trigger] covers(newf, x) <==> (covers(oldf, x) && !(a <= x < a
        + size)) by {
        assert(covers(seq![b], x) <==> b.addr <= x < b.addr + b.size) by {
            if b.addr <= x < b.addr + b.size {
                assert(seq![b][0].addr <= x < seq![b][0].addr + seq![b][0].size);
            }
        }
        if b.addr <= x < b.addr + b.size {
            // Bytes of block `ii` are covered by no other part.
            assert(!covers(pre, x)) by {
                if covers(pre, x) {
                    let k = choose|k: int|
                        0 <= k < pre.len() && (#[trigger] pre[k]).addr <= x < pre[k].addr
                            + pre[k].size;
                    lemma_sorted_global(oldf, heap_start, heap_size, k, ii);
                }
            }
            assert(!covers(post, x)) by {
                if covers(post, x) {
                    let k = choose|k: int|
                        0 <= k < post.len() && (#[trigger] post[k]).addr <= x < post[k].addr
                            + post[k].size;
                    lemma_sorted_global(oldf, heap_start, heap_size, ii, ii + 1 + k);
                }
            }
        }
    }
}

/// Carving keeps the free list well formed.
proof fn lemma_carve_wf(
    oldf: Seq<FreeBlock>,
    ii: int,
    pad: u64,
    size: u64,
    tail_size: u64,
    heap_start: u64,
    heap_size: u64,
)
    requires
        heap_start + heap_size <= u64::MAX,
        blocks_wf(oldf, heap_start, heap_size),
        0 <= ii < oldf.len(),
        size >= 1,
        pad + size + tail_size == oldf[ii].size,
    ensures
        blocks_wf(
            oldf.take(ii) + carve_mid(oldf[ii], pad, size, tail_size) + oldf.skip(ii + 1),
            heap_start,
            heap_size,
        ),
{
    let b = oldf[ii];
    let mid = carve_mid(b, pad, size, tail_size);
    let newf = oldf.take(ii) + mid + oldf.skip(ii + 1);
    let m = mid.len() as int;
    lemma_carve_mid_facts(b, pad, size, tail_size);
    assert forall|j: int| 0 <= j < newf.len() implies (#[trigger] newf[j]).size >= 1 && heap_start
        <= newf[j].addr && newf[j].addr + newf[j].size <= heap_start + heap_size by {
        if j < ii {
            assert(newf[j] == oldf[j]);
        } else if j >= ii + m {
            assert(newf[j] == oldf[j - m + 1]);
        }
    }
    assert forall|j: int| 0 <= j && j + 1 < newf.len() implies (#[trigger] newf[j]).addr
        + newf[j].size < newf[j + 1].addr by {
        if j + 1 < ii {
            assert(newf[j] == oldf[j] && newf[j + 1] == oldf[j + 1]);
        } else if j + 1 == ii {
            assert(newf[j] == oldf[j]);
            if m > 0 {
                assert(newf[ii] == mid[0]);
                assert(oldf[j].addr + oldf[j].size < b.addr);
            } else {
                assert(newf[j + 1] == oldf[ii + 1]);
                assert(oldf[j].addr + oldf[j].size < oldf[ii].addr);
                assert(oldf[ii].size >= 1);
                assert(oldf[ii].addr + oldf[ii].size < oldf[ii + 1].addr);
            }
        } else if j + 1 < ii + m {
            assert(newf[j] == mid[0] && newf[j + 1] == mid[1]);
        } else if j + 1 == ii + m {
            if m > 0 {
                assert(newf[j] == mid[m - 1]);
                assert(newf[j + 1] == oldf[ii + 1]);
                assert(mid[m - 1].addr + mid[m - 1].size <= b.addr + b.size);
                assert(oldf[ii].addr + oldf[ii].size < oldf[ii + 1].addr);
            }
        } else {
            assert(newf[j] == oldf[j - m + 1] && newf[j + 1] == oldf[j - m + 2]);
        }
    }
}


/// Returning a range and coalescing it with its free neighbours keeps the
/// free list well formed, raises the total by exactly `size`, and adds
/// exactly the returned bytes to the free set.
#[verifier::rlimit(100)]
proof fn lemma_dealloc_shape(
    oldf: Seq<FreeBlock>,
    i: int,
    merge_left: bool,
    merge_right: bool,
    addr: u64,
    size: u64,
    heap_start: u64,
    heap_size: u64,
)
    requires
        heap_start + heap_size <= u64::MAX,
        blocks_wf(oldf, heap_start, heap_size),
        size >= 1,
        heap_start <= addr,
        addr + size <= heap_start + heap_size,
        forall|x: u64| addr <= x < addr + size ==> !covers(oldf, x),
        0 <= i <= oldf.len(),
        forall|j: int| 0 <= j < i ==> (#[trigger] oldf[j]).addr < addr,
        i < oldf.len() ==> oldf[i].addr >= addr,
        merge_left <==> (i > 0 && oldf[i - 1].addr + oldf[i - 1].size == addr),
        merge_right <==> (i < oldf.len() && addr + size == oldf[i].addr),
    ensures
        ({
            let el: int = if merge_left { 1 } else { 0 };
            let r: int = if merge_right { 1 } else { 0 };
            let start = if merge_left { oldf[i - 1].addr } else { addr };
            let end = if merge_right { oldf[i].addr + oldf[i].size } else { addr + size };
            let nb = FreeBlock { addr: start, size: (end - start) as u64 };
            let newf = oldf.take(i - el) + seq![nb] + oldf.skip(i + r);
            &&& blocks_wf(newf, heap_start, heap_size)
            &&& total_of(newf) == total_of(oldf) + size
            &&& forall|x: u64|
                covers(newf, x) <==> (covers(oldf, x) || (addr <= x < addr + size))
        }),
{
    let el: int = if merge_left { 1 } else { 0 };
    let r: int = if merge_right { 1 } else { 0 };
    let start = if merge_left { oldf[i - 1].addr } else { addr };
    let end: int = if merge_right { oldf[i].addr + oldf[i].size } else { addr + size };
    let nb = FreeBlock { addr: start, size: (end - start) as u64 };
    let pre = oldf.take(i - el);
    let mid = oldf.subrange(i - el, i + r);
    let post = oldf.skip(i + r);
    let newf = pre + seq![nb] + post;
    assert(oldf =~= pre + mid + post);
    // The free neighbours stop strictly before / after the returned range.
    if i > 0 && !merge_left {
        assert(oldf[i - 1].addr + oldf[i - 1].size < addr) by {
            if oldf[i - 1].addr + oldf[i - 1].size > addr {
                assert(oldf[i - 1].addr <= addr < oldf[i - 1].addr + oldf[i - 1].size);
                assert(covers(oldf, addr));
            }
        }
    }
    if i < oldf.len() {
        assert(oldf[i].addr > addr) by {
            if oldf[i].addr == addr {
                assert(oldf[i].addr <= addr < oldf[i].addr + oldf[i].size);
                assert(covers(oldf, addr));
            }
        }
        if !merge_right {
            assert(oldf[i].addr > addr + size - 1) by {
                if oldf[i].addr < addr + size {
                    let y = oldf[i].addr;
                    assert(addr <= y < addr + size);
                    assert(oldf[i].addr <= y < oldf[i].addr + oldf[i].size);
                    assert(covers(oldf, y));
                }
            }
        }
    }
    // Totals.
    lemma_total_append(pre + seq![nb], post);
    lemma_total_append(pre, seq![nb]);
    lemma_total_single(nb);
    lemma_total_append(pre + mid, post);
    lemma_total_append(pre, mid);
    if merge_left && merge_right {
        assert(mid =~= seq![oldf[i - 1]] + seq![oldf[i]]);
        lemma_total_append(seq![oldf[i - 1]], seq![oldf[i]]);
        lemma_total_single(oldf[i - 1]);
        lemma_total_single(oldf[i]);
    } else if merge_left {
        assert(mid =~= seq![oldf[i - 1]]);
        lemma_total_single(oldf[i - 1]);
    } else if merge_right {
        assert(mid =~= seq![oldf[i]]);
        lemma_total_single(oldf[i]);
    } else {
        assert(mid =~= Seq::<FreeBlock>::empty());
        assert(total_of(Seq::<FreeBlock>::empty()) == 0);
    }
    assert(total_of(newf) == total_of(oldf) + size);
    // Well-formedness.
    assert forall|j: int| 0 <= j < newf.len() implies (#[trigger] newf[j]).size >= 1 && heap_start
        <= newf[j].addr && newf[j].addr + newf[j].size <= heap_start + heap_size by {
        if j < i - el {
            assert(newf[j] == oldf[j]);
        } else if j > i - el {
            assert(newf[j] == oldf[j + el + r - 1]);
        }
    }
    assert forall|j: int| 0 <= j && j + 1 < newf.len() implies (#[trigger] newf[j]).addr
        + newf[j].size < newf[j + 1].addr by {
        if j + 1 < i - el {
            assert(newf[j] == oldf[j] && newf[j + 1] == oldf[j + 1]);
        } else if j + 1 == i - el {
            assert(newf[j] == oldf[j] && newf[j + 1] == nb);
            if merge_left {
                assert(oldf[i - 2].addr + oldf[i - 2].size < oldf[i - 1].addr);
            }
        } else if j == i - el {
            assert(newf[j] == nb && newf[j + 1] == oldf[i + r]);
            if merge_right {
                assert(oldf[i].addr + oldf[i].size < oldf[i + 1].addr);
            }
        } else {
            assert(newf[j] == oldf[j + el + r - 1] && newf[j + 1] == oldf[j + el + r]);
        }
    }
    // Byte coverage.
    lemma_covers_append(pre + seq![nb], post);
    lemma_covers_append(pre, seq![nb]);
    lemma_covers_append(pre + mid, post);
    lemma_covers_append(pre, mid);
    assert forall|x: u64| #[trigger] covers(newf, x) <==> (covers(oldf, x) || (addr <= x < addr
        + size)) by {
        assert(covers(seq![nb], x) <==> start <= x < end) by {
            if start <= x < end {
                assert(seq![nb][0].addr <= x < seq![nb][0].addr + seq![nb][0].size);
            }
        }
        assert(covers(mid, x) <==> ((merge_left && oldf[i - 1].addr <= x < addr) || (merge_right
            && addr + size <= x < end))) by {
            if merge_left && oldf[i - 1].addr <= x < addr {
                assert(mid[0] == oldf[i - 1]);
                assert(mid[0].addr <= x < mid[0].addr + mid[0].size);
            }
            if merge_right && addr + size <= x < end {
                let t = mid.len() - 1;
                assert(mid[t] == oldf[i]);
                assert(mid[t].addr <= x < mid[t].addr + mid[t].size);
            }
            if covers(mid, x) {
                let k = choose|k: int|
                    0 <= k < mid.len() && (#[trigger] mid[k]).addr <= x < mid[k].addr
                        + mid[k].size;
                assert(mid[k] == oldf[i - el + k]);
            }
        }
        assert((start <= x < end) <==> ((merge_left && oldf[i - 1].addr <= x < addr) || (
        merge_right && addr + size <= x < end) || (addr <= x < addr + size)));
    }
}


/// Sorted, disjoint, non-adjacent blocks waste at least one byte per gap.
proof fn lemma_total_bound(s: Seq<FreeBlock>, heap_start: u64, heap_size: u64)
    requires
        blocks_wf(s, heap_start, heap_size),
        s.len() >= 1,
    ensures
        total_of(s) + (s.len() - 1) <= s.last().addr + s.last().size - s[0].addr,
    decreases s.len(),
{
    if s.len() == 1 {
        assert(s.drop_first() =~= Seq::<FreeBlock>::empty());
        assert(total_of(s.drop_first()) == 0);
    } else {
        let rest = s.drop_first();
        assert forall|j: int| 0 <= j < rest.len() implies (#[trigger] rest[j]).size >= 1
            && heap_start <= rest[j].addr && rest[j].addr + rest[j].size <= heap_start
            + heap_size by {
            assert(rest[j] == s[j + 1]);
        }
        assert forall|j: int| 0 <= j && j + 1 < rest.len() implies (#[trigger] rest[j]).addr
            + rest[j].size < rest[j + 1].addr by {
            assert(rest[j] == s[j + 1] && rest[j + 1] == s[j + 2]);
        }
        lemma_total_bound(rest, heap_start, heap_size);
        assert(rest[0] == s[1]);
        assert(s[0].addr + s[0].size < s[1].addr);
        assert(rest.last() == s.last());
    }
}

/// *Allocator round trip.* Whenever the free total equals the whole heap —
/// as after any sequence of allocations each of whose blocks was returned,
/// in any order — eager coalescing has necessarily fused the free list back
/// into the single block spanning the heap, so any request of at most the
/// heap's size (at alignment 1) can be satisfied again.
pub proof fn lemma_full_coalescence(a: HeapAllocator)
    requires
        a.wf(),
        a.heap_size >= 1,
        a.total_free() == a.heap_size,
    ensures
        a.free@.len() == 1,
        a.free@[0] == (FreeBlock { addr: a.heap_start, size: a.heap_size }),
        forall|sz: u64| 1 <= sz <= a.heap_size ==> a.can_allocate(sz, 1),
{
    let s = a.free@;
    if s.len() == 0 {
        assert(total_of(s) == 0);
        assert(false);
    }
    lemma_total_bound(s, a.heap_start, a.heap_size);
    if s.len() >= 2 {
        assert(s.last().addr + s.last().size <= a.heap_start + a.heap_size);
        assert(s[0].addr >= a.heap_start);
        assert(false);
    }
    assert(s.drop_first() =~= Seq::<FreeBlock>::empty());
    assert(total_of(s) == s[0].size);
    assert(s[0].addr == a.heap_start && s[0].size == a.heap_size);
    assert forall|sz: u64| 1 <= sz <= a.heap_size implies a.can_allocate(sz, 1) by {
        assert(s[0].addr % 1 == 0);
        assert(block_fits(a.free[0], sz, 1));
    }
}

/// What a failed dynamic allocation reports before the machine halts: the
/// request that could not be served. There is no recovery tier.
#[derive(Clone, Copy, PartialEq, Eq, Structural, Debug)]
pub struct AllocErrorReport {
    pub size: u64,
    pub align: u64,
}

/// Build the fatal diagnostic for an allocation failure; the hardware edge
/// prints it and halts permanently.
pub fn alloc_error_handler(size: u64, align: u64) -> (r: AllocErrorReport)
    ensures
        r.size == size,
        r.align == align,
{
    AllocErrorReport { size, align }
}


/// The sequence surgery of `deallocate`, written as one pointwise identity.
proof fn lemma_dealloc_seq(oldf: Seq<FreeBlock>, i: int, merge_left: bool, merge_right: bool, nb: FreeBlock)
    requires
        0 <= i <= oldf.len(),
        merge_right ==> i < oldf.len(),
        merge_left ==> i > 0,
    ensures
        ({
            let el: int = if merge_left { 1 } else { 0 };
            let r: int = if merge_right { 1 } else { 0 };
            let s1 = if merge_right { oldf.remove(i) } else { oldf };
            let s2 = if merge_left { s1.remove(i - 1) } else { s1 };
            s2.insert(i - el, nb) =~= oldf.take(i - el) + seq![nb] + oldf.skip(i + r)
        }),
{
}

} // verus!
