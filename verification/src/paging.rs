//! The page mapper: a model of the 4-level page-table hierarchy and the walk
//! that extends it, backing a virtual heap range with frames drawn from the
//! bootstrap allocator.

use vstd::prelude::*;
use crate::memory::BootInfoFrameAllocator;

verus! {

/// Page numbers carry 36 bits: four 9-bit table indices.
pub const MAX_PAGE: u64 = 0x10_0000_0000;

/// What a virtual page resolves to: a physical frame and its write flag.
#[derive(Clone, Copy, PartialEq, Eq, Structural, Debug)]
pub struct PageMapping {
    pub frame: u64,
    pub writable: bool,
}

/// One node of the translation hierarchy. A `Table` holds 512 entries; a
/// `Frame` stands in a level-1 table's entry and is what a walk resolves to;
/// `Missing` is an empty entry.
pub enum PageTableNode {
    Missing,
    Frame { frame: u64, writable: bool },
    Table { entries: Vec<PageTableNode> },
}

/// The 9-bit table index that `vpn` selects at `level` (level 4 is the root).
pub open spec fn idx(vpn: u64, level: int) -> int {
    ((vpn >> (((level - 1) * 9) as u64)) & 0x1ff) as int
}

/// Structural well-formedness below `level`: tables are full-width and sit at
/// levels 4 down to 1, frames only fill level-1 table entries.
pub open spec fn node_wf(node: PageTableNode, level: int) -> bool
    decreases level,
{
    match node {
        PageTableNode::Missing => true,
        PageTableNode::Frame { .. } => level == 0,
        PageTableNode::Table { entries } => level >= 1 && entries.len() == 512 && (forall|i: int|
            0 <= i < 512 ==> node_wf(#[trigger] entries[i], level - 1)),
    }
}

/// The walk: what `vpn` resolves to under `node` at `level`.
pub open spec fn translate_rec(node: PageTableNode, level: int, vpn: u64) -> Option<PageMapping>
    decreases level,
{
    match node {
        PageTableNode::Missing => None,
        PageTableNode::Frame { frame, writable } => if level == 0 {
            Some(PageMapping { frame, writable })
        } else {
            None
        },
        PageTableNode::Table { entries } => if level >= 1 {
            translate_rec(entries[idx(vpn, level)], level - 1, vpn)
        } else {
            None
        },
    }
}

/// `a` and `b` agree on the table indices of levels `1 ..= level`.
pub open spec fn low_eq(a: u64, b: u64, level: int) -> bool
    decreases level,
{
    if level <= 0 {
        true
    } else {
        idx(a, level) == idx(b, level) && low_eq(a, b, level - 1)
    }
}

/// How many intermediate tables a walk for `vpn` under `node` at `level`
/// still has to create.
pub open spec fn tables_needed(node: PageTableNode, level: int, vpn: u64) -> nat
    decreases level,
{
    if level <= 1 {
        0
    } else {
        match node {
            PageTableNode::Table { entries } => match entries[idx(vpn, level)] {
                PageTableNode::Missing => (level - 1) as nat,
                PageTableNode::Table { .. } => tables_needed(
                    entries[idx(vpn, level)],
                    level - 1,
                    vpn,
                ),
                PageTableNode::Frame { .. } => 0,
            },
            _ => 0,
        }
    }
}

/// Distinct page numbers differ in at least one table index.
proof fn lemma_indices_injective(a: u64, b: u64)
    requires
        a < MAX_PAGE,
        b < MAX_PAGE,
        low_eq(a, b, 4),
    ensures
        a == b,
{
    assert(low_eq(a, b, 3));
    assert(low_eq(a, b, 2));
    assert(low_eq(a, b, 1));
    assert(idx(a, 4) == idx(b, 4) && idx(a, 3) == idx(b, 3) && idx(a, 2) == idx(b, 2) && idx(
        a,
        1,
    ) == idx(b, 1));
    assert(idx(a, 4) == ((a >> 27) & 0x1ff) as int && idx(b, 4) == ((b >> 27) & 0x1ff) as int);
    assert(idx(a, 3) == ((a >> 18) & 0x1ff) as int && idx(b, 3) == ((b >> 18) & 0x1ff) as int);
    assert(idx(a, 2) == ((a >> 9) & 0x1ff) as int && idx(b, 2) == ((b >> 9) & 0x1ff) as int);
    assert(idx(a, 1) == ((a >> 0) & 0x1ff) as int && idx(b, 1) == ((b >> 0) & 0x1ff) as int);
    assert((a < 0x10_0000_0000 && b < 0x10_0000_0000 && ((a >> 27) & 0x1ff) == ((b >> 27) & 0x1ff)
        && ((a >> 18) & 0x1ff) == ((b >> 18) & 0x1ff) && ((a >> 9) & 0x1ff) == ((b >> 9) & 0x1ff)
        && ((a >> 0) & 0x1ff) == ((b >> 0) & 0x1ff)) ==> a == b) by (bit_vector);
}

/// A freshly created table translates nothing.
proof fn lemma_empty_table_translates_none(entries: Vec<PageTableNode>, level: int, vpn: u64)
    requires
        entries.len() == 512,
        forall|i: int| 0 <= i < 512 ==> entries@[i] == PageTableNode::Missing,
        level >= 1,
    ensures
        translate_rec(PageTableNode::Table { entries }, level, vpn) is None,
{
    lemma_idx_in_range(vpn, level);
    assert(entries@[idx(vpn, level)] == PageTableNode::Missing);
    assert(translate_rec(PageTableNode::Missing, level - 1, vpn) is None);
}

/// A table index is always in range.
proof fn lemma_idx_in_range(vpn: u64, level: int)
    ensures
        0 <= idx(vpn, level) < 512,
{
    let sh = (((level - 1) * 9) as u64);
    assert(((vpn >> sh) & 0x1ff) < 512) by (bit_vector);
}

/// A full-width table of empty entries.
fn new_empty_table() -> (t: Vec<PageTableNode>)
    ensures
        t.len() == 512,
        forall|i: int| 0 <= i < 512 ==> t@[i] == PageTableNode::Missing,
{
    let mut t: Vec<PageTableNode> = Vec::new();
    let mut k: usize = 0;
    while k < 512
        invariant
            k <= 512,
            t.len() == k,
            forall|i: int| 0 <= i < k ==> t@[i] == PageTableNode::Missing,
        decreases 512 - k,
    {
        t.push(PageTableNode::Missing);
        k = k + 1;
    }
    t
}


/// Removing an element and inserting a replacement at the same position is a
/// pointwise update.
proof fn lemma_remove_insert(s: Seq<PageTableNode>, i: int, v: PageTableNode)
    requires
        0 <= i < s.len(),
    ensures
        s.remove(i).insert(i, v) =~= s.update(i, v),
{
}

/// Walk one table of the hierarchy for `vpn`, creating missing intermediate
/// tables from `alloc` and installing `frame` (present, writable) at the
/// bottom. Returns the rebuilt table and whether the mapping was installed;
/// it is not exactly when the allocator ran out of frames for the missing
/// intermediate tables, in which case no translation has changed.
#[verifier::rlimit(60)]
fn map_rec(
    node: PageTableNode,
    level: u64,
    vpn: u64,
    frame: u64,
    alloc: &mut BootInfoFrameAllocator,
) -> (res: (PageTableNode, bool))
    requires
        1 <= level <= 4,
        node is Table,
        node_wf(node, level as int),
        translate_rec(node, level as int, vpn) is None,
        old(alloc).wf(),
        old(alloc).next <= old(alloc).usable_frames().len(),
    ensures
        final(alloc).wf(),
        final(alloc).map == old(alloc).map,
        final(alloc).next >= old(alloc).next,
        final(alloc).next <= final(alloc).usable_frames().len(),
        res.0 is Table,
        node_wf(res.0, level as int),
        res.1 == (old(alloc).next + tables_needed(node, level as int, vpn) <= old(
            alloc,
        ).usable_frames().len()),
        res.1 ==> final(alloc).next == old(alloc).next + tables_needed(node, level as int, vpn),
        res.1 ==> forall|q: u64|
            low_eq(q, vpn, level as int) ==> translate_rec(res.0, level as int, q) == Some(
                PageMapping { frame, writable: true },
            ),
        forall|q: u64|
            !low_eq(q, vpn, level as int) ==> translate_rec(res.0, level as int, q)
                == translate_rec(node, level as int, q),
        !res.1 ==> forall|q: u64|
            translate_rec(res.0, level as int, q) == translate_rec(node, level as int, q),
        !res.1 ==> final(alloc).next == final(alloc).usable_frames().len(),
    decreases level,
{
    let shift = (level - 1) * 9;
    let i = ((vpn >> shift) & 0x1ff) as usize;
    proof {
        assert(((vpn >> shift) & 0x1ff) < 512) by (bit_vector);
        assert(shift == (((level as int - 1) * 9) as u64));
        assert(i as int == idx(vpn, level as int));
    }
    match node {
        PageTableNode::Table { mut entries } => {
            let ghost orig = entries@;
            let child = entries.remove(i);
            proof {
                assert(child == orig[i as int]);
            }
            if level == 1 {
                // The slot is empty: a frame entry here would already
                // translate `vpn`, which the precondition rules out.
                proof {
                    assert(node_wf(child, 0));
                    assert(translate_rec(child, 0, vpn) is None);
                    assert(!(child is Table));
                    assert(!(child is Frame));
                }
                entries.insert(i, PageTableNode::Frame { frame, writable: true });
                proof {
                    lemma_remove_insert(orig, i as int, PageTableNode::Frame { frame, writable: true });
                    let res0 = PageTableNode::Table { entries };
                    assert forall|k: int| 0 <= k < 512 implies node_wf(#[trigger] entries@[k], 0) by {
                        if k != i as int {
                            assert(entries@[k] == orig[k]);
                        }
                    }
                    assert forall|q: u64| low_eq(q, vpn, 1) implies translate_rec(res0, 1, q) == Some(
                        PageMapping { frame, writable: true },
                    ) by {
                        assert(idx(q, 1) == idx(vpn, 1));
                        lemma_idx_in_range(q, 1);
                        assert(entries@[idx(q, 1)] == PageTableNode::Frame { frame, writable: true });
                        assert(translate_rec(PageTableNode::Frame { frame, writable: true }, 0, q)
                            == Some(PageMapping { frame, writable: true }));
                    }
                    assert forall|q: u64| !low_eq(q, vpn, 1) implies translate_rec(res0, 1, q)
                        == translate_rec(node, 1, q) by {
                        assert(low_eq(q, vpn, 0));
                        assert(idx(q, 1) != idx(vpn, 1));
                        lemma_idx_in_range(q, 1);
                        assert(entries@[idx(q, 1)] == orig[idx(q, 1)]);
                    }
                    assert(tables_needed(node, 1, vpn) == 0);
                }
                (PageTableNode::Table { entries }, true)
            } else {
                let ghost needed = tables_needed(node, level as int, vpn);
                let (child2, created_table) = match child {
                    PageTableNode::Missing => {
                        let got = alloc.allocate_frame();
                        if got.is_none() {
                            entries.insert(i, PageTableNode::Missing);
                            proof {
                                lemma_remove_insert(orig, i as int, PageTableNode::Missing);
                                assert(entries@ =~= orig);
                                let res0 = PageTableNode::Table { entries };
                                assert forall|q: u64| translate_rec(res0, level as int, q)
                                    == translate_rec(node, level as int, q) by {
                                    lemma_idx_in_range(q, level as int);
                                    assert(entries@[idx(q, level as int)] == orig[idx(q, level as int)]);
                                }
                                assert(needed == level - 1);
                            }
                            return (PageTableNode::Table { entries }, false);
                        }
                        (PageTableNode::Table { entries: new_empty_table() }, true)
                    },
                    c => (c, false),
                };
                proof {
                    assert(node_wf(orig[i as int], level as int - 1));
                    if !created_table {
                        assert(child2 == orig[i as int]);
                        assert(!(child2 is Frame));
                        assert(child2 is Table);
                        assert(translate_rec(node, level as int, vpn) == translate_rec(
                            child2,
                            level as int - 1,
                            vpn,
                        ));
                        assert(needed == tables_needed(child2, level as int - 1, vpn));
                    } else {
                        match &child2 {
                            PageTableNode::Table { entries: e2 } => {
                                lemma_empty_table_translates_none(*e2, level as int - 1, vpn);
                                lemma_idx_in_range(vpn, level as int - 1);
                                assert forall|k: int| 0 <= k < 512 implies node_wf(
                                    #[trigger] e2@[k],
                                    level as int - 2,
                                ) by {
                                    assert(e2@[k] == PageTableNode::Missing);
                                }
                                assert(node_wf(child2, level as int - 1));
                                assert(tables_needed(child2, level as int - 1, vpn) == if level
                                    as int - 1 <= 1 {
                                    0int
                                } else {
                                    level as int - 2
                                });
                            },
                            _ => {
                                assert(false);
                            },
                        }
                        assert(needed == level - 1);
                    }
                }
                let ghost gchild2 = child2;
                let (child3, ok) = map_rec(child2, level - 1, vpn, frame, alloc);
                entries.insert(i, child3);
                proof {
                    lemma_remove_insert(orig, i as int, child3);
                    let res0 = PageTableNode::Table { entries };
                    assert forall|k: int| 0 <= k < 512 implies node_wf(
                        #[trigger] entries@[k],
                        level as int - 1,
                    ) by {
                        if k != i as int {
                            assert(entries@[k] == orig[k]);
                        }
                    }
                    assert(node_wf(res0, level as int));
                    assert forall|q: u64| idx(q, level as int) != i as int implies translate_rec(
                        res0,
                        level as int,
                        q,
                    ) == translate_rec(node, level as int, q) && !low_eq(q, vpn, level as int) by {
                        lemma_idx_in_range(q, level as int);
                        assert(entries@[idx(q, level as int)] == orig[idx(q, level as int)]);
                    }
                    assert forall|q: u64| idx(q, level as int) == i as int && !low_eq(
                        q,
                        vpn,
                        level as int,
                    ) implies translate_rec(res0, level as int, q) == translate_rec(
                        node,
                        level as int,
                        q,
                    ) by {
                        assert(!low_eq(q, vpn, level as int - 1));
                        assert(translate_rec(res0, level as int, q) == translate_rec(
                            child3,
                            level as int - 1,
                            q,
                        ));
                        assert(translate_rec(child3, level as int - 1, q) == translate_rec(
                            gchild2,
                            level as int - 1,
                            q,
                        ));
                        if created_table {
                            match gchild2 {
                                PageTableNode::Table { entries: e2 } => {
                                    lemma_empty_table_translates_none(e2, level as int - 1, q);
                                },
                                _ => {},
                            }
                            assert(translate_rec(node, level as int, q) == translate_rec(
                                orig[i as int],
                                level as int - 1,
                                q,
                            ));
                        }
                    }
                    if ok {
                        assert forall|q: u64| low_eq(q, vpn, level as int) implies translate_rec(
                            res0,
                            level as int,
                            q,
                        ) == Some(PageMapping { frame, writable: true }) by {
                            assert(idx(q, level as int) == idx(vpn, level as int));
                            assert(low_eq(q, vpn, level as int - 1));
                            assert(translate_rec(res0, level as int, q) == translate_rec(
                                child3,
                                level as int - 1,
                                q,
                            ));
                        }
                    } else {
                        assert forall|q: u64| idx(q, level as int) == i as int implies
                            translate_rec(res0, level as int, q) == translate_rec(
                            node,
                            level as int,
                            q,
                        ) by {
                            lemma_idx_in_range(q, level as int);
                            assert(translate_rec(res0, level as int, q) == translate_rec(
                                child3,
                                level as int - 1,
                                q,
                            ));
                            assert(translate_rec(child3, level as int - 1, q) == translate_rec(
                                gchild2,
                                level as int - 1,
                                q,
                            ));
                            assert(translate_rec(node, level as int, q) == translate_rec(
                                orig[i as int],
                                level as int - 1,
                                q,
                            ));
                            if created_table {
                                match gchild2 {
                                    PageTableNode::Table { entries: e2 } => {
                                        lemma_empty_table_translates_none(e2, level as int - 1, q);
                                    },
                                    _ => {},
                                }
                                assert(orig[i as int] == PageTableNode::Missing);
                                assert(translate_rec(PageTableNode::Missing, level as int - 1, q)
                                    is None);
                            }
                        }
                    }
                }
                (PageTableNode::Table { entries }, ok)
            }
        },
        _ => {
            proof {
                assert(false);
            }
            (PageTableNode::Missing, false)
        },
    }
}



/// The executable walk, agreeing with the specification-level translation.
fn translate_exec(node: &PageTableNode, level: u64, vpn: u64) -> (r: Option<PageMapping>)
    requires
        level <= 4,
        node_wf(*node, level as int),
    ensures
        r == translate_rec(*node, level as int, vpn),
    decreases level,
{
    match node {
        PageTableNode::Missing => None,
        PageTableNode::Frame { frame, writable } => {
            if level == 0 {
                Some(PageMapping { frame: *frame, writable: *writable })
            } else {
                None
            }
        },
        PageTableNode::Table { entries } => {
            if level >= 1 {
                let shift = (level - 1) * 9;
                let i = ((vpn >> shift) & 0x1ff) as usize;
                proof {
                    assert(((vpn >> shift) & 0x1ff) < 512) by (bit_vector);
                    assert(shift == (((level as int - 1) * 9) as u64));
                    assert(i as int == idx(vpn, level as int));
                }
                translate_exec(&entries[i], level - 1, vpn)
            } else {
                None
            }
        },
    }
}

/// Why a mapping request failed.
#[derive(Clone, Copy, PartialEq, Eq, Structural, Debug)]
pub enum MapError {
    /// The frame allocator was exhausted while extending the hierarchy:
    /// initialization must abort, a partially mapped heap is unusable.
    FrameExhausted,
}

/// The active 4-level translation hierarchy.
pub struct PageTables {
    pub root: PageTableNode,
}

impl PageTables {
    pub open spec fn wf(self) -> bool {
        self.root is Table && node_wf(self.root, 4)
    }

    /// What virtual page `vpn` resolves to.
    pub open spec fn translate(self, vpn: u64) -> Option<PageMapping> {
        translate_rec(self.root, 4, vpn)
    }

    /// Resolve `vpn`: the executable counterpart of `translate`.
    pub fn lookup_page(&self, vpn: u64) -> (r: Option<PageMapping>)
        requires
            self.wf(),
        ensures
            r == self.translate(vpn),
    {
        translate_exec(&self.root, 4, vpn)
    }

    /// A hierarchy with an empty root table: nothing resolves yet.
    pub fn new() -> (pt: PageTables)
        ensures
            pt.wf(),
            forall|q: u64| pt.translate(q) is None,
    {
        let t = new_empty_table();
        let pt = PageTables { root: PageTableNode::Table { entries: t } };
        proof {
            assert forall|k: int| 0 <= k < 512 implies node_wf(#[trigger] pt.root->Table_entries@[k], 3) by {
                assert(pt.root->Table_entries@[k] == PageTableNode::Missing);
            }
            assert forall|q: u64| pt.translate(q) is None by {
                match pt.root {
                    PageTableNode::Table { entries } => {
                        lemma_empty_table_translates_none(entries, 4, q);
                    },
                    _ => {},
                }
            }
        }
        pt
    }

    /// Map virtual page `vpn` to `frame`, present and writable, extending the
    /// hierarchy with tables drawn from `alloc` where the walk finds empty
    /// entries. No other page's translation changes, and on failure (frame
    /// exhaustion) no translation changes at all.
    pub fn map_page(
        &mut self,
        vpn: u64,
        frame: u64,
        alloc: &mut BootInfoFrameAllocator,
    ) -> (r: Result<(), MapError>)
        requires
            old(self).wf(),
            vpn < MAX_PAGE,
            old(self).translate(vpn) is None,
            old(alloc).wf(),
            old(alloc).next <= old(alloc).usable_frames().len(),
        ensures
            final(self).wf(),
            final(alloc).wf(),
            final(alloc).map == old(alloc).map,
            final(alloc).next >= old(alloc).next,
            final(alloc).next <= final(alloc).usable_frames().len(),
            r is Ok <==> old(alloc).next + tables_needed(old(self).root, 4, vpn)
                <= old(alloc).usable_frames().len(),
            r is Ok ==> final(self).translate(vpn) == Some(PageMapping { frame, writable: true })
                && final(alloc).next == old(alloc).next + tables_needed(old(self).root, 4, vpn),
            forall|q: u64|
                q < MAX_PAGE && q != vpn ==> final(self).translate(q) == old(self).translate(q),
            r is Err ==> forall|q: u64| final(self).translate(q) == old(self).translate(q),
            r is Err ==> final(alloc).next == final(alloc).usable_frames().len(),
    {
        let mut root = PageTableNode::Missing;
        core::mem::swap(&mut root, &mut self.root);
        let (new_root, ok) = map_rec(root, 4, vpn, frame, alloc);
        self.root = new_root;
        proof {
            if ok {
                assert(low_eq(vpn, vpn, 0));
                assert(low_eq(vpn, vpn, 1));
                assert(low_eq(vpn, vpn, 2));
                assert(low_eq(vpn, vpn, 3));
                assert(low_eq(vpn, vpn, 4));
            }
            assert forall|q: u64| q < MAX_PAGE && q != vpn implies translate_rec(
                self.root,
                4,
                q,
            ) == translate_rec(old(self).root, 4, q) by {
                if low_eq(q, vpn, 4) {
                    lemma_indices_injective(q, vpn);
                }
            }
        }
        if ok {
            Ok(())
        } else {
            Err(MapError::FrameExhausted)
        }
    }
}

/// Back every page of the heap range `heap_start_page .. heap_start_page +
/// page_count` with a freshly allocated frame, mapped present and writable.
/// Afterwards every page of the range resolves, and no page outside it has
/// changed; on frame exhaustion the boot sequence must abort, and even then
/// no page outside the range has changed.
pub fn init_heap(
    tables: &mut PageTables,
    alloc: &mut BootInfoFrameAllocator,
    heap_start_page: u64,
    page_count: u64,
) -> (r: Result<(), MapError>)
    requires
        old(tables).wf(),
        heap_start_page + page_count <= MAX_PAGE,
        forall|p: u64|
            heap_start_page <= p < heap_start_page + page_count ==> old(tables).translate(p)
                is None,
        old(alloc).wf(),
        old(alloc).next <= old(alloc).usable_frames().len(),
    ensures
        final(tables).wf(),
        final(alloc).wf(),
        final(alloc).map == old(alloc).map,
        final(alloc).next >= old(alloc).next,
        r is Ok ==> forall|p: u64|
            heap_start_page <= p < heap_start_page + page_count ==> ((#[trigger] final(tables).translate(p)) matches Some(m)
                && m.writable),
        forall|q: u64|
            q < MAX_PAGE && !(heap_start_page <= q < heap_start_page + page_count)
                ==> final(tables).translate(q) == old(tables).translate(q),
        r is Err ==> final(alloc).next == final(alloc).usable_frames().len(),
        final(alloc).next <= old(alloc).next + page_count * 4,
{
    let mut j: u64 = 0;
    while j < page_count
        invariant
            tables.wf(),
            alloc.wf(),
            alloc.map == old(alloc).map,
            alloc.next >= old(alloc).next,
            alloc.next <= alloc.usable_frames().len(),
            0 <= j <= page_count,
            heap_start_page + page_count <= MAX_PAGE,
            forall|p: u64|
                heap_start_page <= p < heap_start_page + j ==> ((#[trigger] tables.translate(p))
                    matches Some(m) && m.writable),
            forall|q: u64|
                q < MAX_PAGE && !(heap_start_page <= q < heap_start_page + j)
                    ==> tables.translate(q) == old(tables).translate(q),
            forall|p: u64|
                heap_start_page <= p < heap_start_page + page_count ==> old(tables).translate(p)
                    is None,
            alloc.next <= old(alloc).next + j * 4,
        decreases page_count - j,
    {
        let page = heap_start_page + j;
        let frame = match alloc.allocate_frame() {
            Some(f) => f,
            None => {
                return Err(MapError::FrameExhausted);
            },
        };
        let ghost pre_root = tables.root;
        let ghost pre_next = alloc.next;
        match tables.map_page(page, frame, alloc) {
            Ok(()) => {},
            Err(e) => {
                proof {
                    lemma_tables_needed_bound(pre_root, 4, page);
                }
                return Err(e);
            },
        }
        proof {
            lemma_tables_needed_bound(pre_root, 4, page);
        }
        j = j + 1;
    }
    Ok(())
}

/// A walk at `level` never has to create more than `level - 1` tables.
proof fn lemma_tables_needed_bound(node: PageTableNode, level: int, vpn: u64)
    requires
        level >= 1,
    ensures
        tables_needed(node, level, vpn) <= level - 1,
    decreases level,
{
    if level > 1 {
        match node {
            PageTableNode::Table { entries } => {
                match entries[idx(vpn, level)] {
                    PageTableNode::Table { .. } => {
                        lemma_tables_needed_bound(entries[idx(vpn, level)], level - 1, vpn);
                    },
                    _ => {},
                }
            },
            _ => {},
        }
    }
}

} // verus!
