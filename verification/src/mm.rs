//! A model of one task's address space: which virtual pages are mapped, and
//! with which permissions.
use vstd::prelude::*;
use crate::config::PAGE_SIZE;

verus! {

/// Permission bit: the page can be read.
pub const PERM_R: u8 = 2;

/// Permission bit: the page can be written.
pub const PERM_W: u8 = 4;

/// Permission bit: the page can be executed.
pub const PERM_X: u8 = 8;

/// Permission bit: the page is accessible from user mode.
pub const PERM_U: u8 = 16;

/// The number of the page that holds address `addr`.
pub open spec fn spec_page_floor(addr: int) -> int {
    addr / (PAGE_SIZE as int)
}

/// The number of the first page that starts at or after address `addr`.
pub open spec fn spec_page_ceil(addr: int) -> int {
    (addr + PAGE_SIZE - 1) / (PAGE_SIZE as int)
}

/// The number of the page that holds address `addr`.
pub fn page_floor(addr: usize) -> (vpn: usize)
    ensures
        vpn == spec_page_floor(addr as int),
{
    addr / PAGE_SIZE
}

/// The number of the first page that starts at or after address `addr`.
pub fn page_ceil(addr: usize) -> (vpn: usize)
    ensures
        vpn == spec_page_ceil(addr as int),
{
    if addr % PAGE_SIZE == 0 {
        addr / PAGE_SIZE
    } else {
        addr / PAGE_SIZE + 1
    }
}

/// A run of consecutive bytes of virtual memory.
#[derive(Clone, Copy, Debug, PartialEq, Eq, Structural)]
pub struct Chunk {
    pub addr: usize,
    pub len: usize,
}

/// Whether a chunk is not empty and lies in one page.
#[verifier::opaque]
pub open spec fn in_one_page(c: Chunk) -> bool {
    c.len > 0 && spec_page_floor(c.addr as int) == spec_page_floor(c.addr + c.len - 1)
}

/// Whether a page starts at address `addr`.
#[verifier::opaque]
pub open spec fn starts_page(addr: int) -> bool {
    addr % (PAGE_SIZE as int) == 0
}

/// Whether `chunks` cut the `len` bytes at address `start` at every page
/// boundary and nowhere else: the chunks follow one another without a gap
/// from `start` to the end, none is empty, each lies in one page, and each
/// but the first starts a page.
pub open spec fn cut_at_pages(chunks: Seq<Chunk>, start: int, len: int) -> bool {
    &&& len == 0 ==> chunks.len() == 0
    &&& len > 0 ==> chunks.len() > 0 && chunks[0].addr == start && chunks.last().addr + chunks.last().len == start
        + len
    &&& forall|i: int| 0 <= i < chunks.len() ==> in_one_page(#[trigger] chunks[i])
    &&& forall|i: int|
        0 < i < chunks.len() ==> (#[trigger] chunks[i]).addr == chunks[i - 1].addr + chunks[i - 1].len
            && starts_page(chunks[i].addr as int)
}

proof fn lemma_within_page(addr: usize, take: usize)
    requires
        0 < take <= PAGE_SIZE - addr % PAGE_SIZE,
        addr + take <= usize::MAX,
    ensures
        in_one_page((Chunk { addr, len: take })),
        take == PAGE_SIZE - addr % PAGE_SIZE ==> starts_page(addr + take),
{
    reveal(in_one_page);
    reveal(starts_page);
    let q = addr as int / 4096;
    let r = addr as int % 4096;
    assert(addr == 4096 * q + r && 0 <= r < 4096);
    assert((4096 * q + r + take - 1) / 4096 == q) by (nonlinear_arith)
        requires
            0 <= r,
            0 < take,
            r + take <= 4096,
    ;
    if take == 4096 - r {
        assert((4096 * q + r + take) % 4096 == 0) by (nonlinear_arith)
            requires
                r + take == 4096,
        ;
    }
}

/// Cuts the `len` bytes at address `start` at every page boundary, so that
/// a copy to or from them can be made page by page.
pub fn page_chunks(start: usize, len: usize) -> (chunks: Vec<Chunk>)
    requires
        start + len <= usize::MAX,
    ensures
        cut_at_pages(chunks@, start as int, len as int),
{
    let mut chunks: Vec<Chunk> = Vec::new();
    let mut cur: usize = start;
    let mut left: usize = len;
    while left > 0
        invariant
            start + len <= usize::MAX,
            cur + left == start + len,
            start <= cur,
            chunks@.len() == 0 ==> cur == start && left == len,
            chunks@.len() > 0 ==> left < len,
            chunks@.len() > 0 ==> chunks@[0].addr == start && chunks@.last().addr + chunks@.last().len == cur && (left
                == 0 || starts_page(cur as int)),
            forall|i: int| 0 <= i < chunks@.len() ==> in_one_page(#[trigger] chunks@[i]),
            forall|i: int|
                0 < i < chunks@.len() ==> (#[trigger] chunks@[i]).addr == chunks@[i - 1].addr + chunks@[i - 1].len
                    && starts_page(chunks@[i].addr as int),
        decreases left,
    {
        let room: usize = PAGE_SIZE - cur % PAGE_SIZE;
        let take: usize = if left < room {
            left
        } else {
            room
        };
        proof {
            lemma_within_page(cur, take);
        }
        chunks.push(Chunk { addr: cur, len: take });
        cur = cur + take;
        left = left - take;
    }
    chunks
}

/// A run of consecutive virtual pages, `start_vpn` included and `end_vpn`
/// excluded, mapped with one set of permissions.
#[derive(Clone, Copy, Debug, PartialEq, Eq, Structural)]
pub struct MapArea {
    pub start_vpn: usize,
    pub end_vpn: usize,
    pub perm: u8,
}

impl MapArea {
    /// Whether page `vpn` lies in this area.
    pub open spec fn covers(self, vpn: int) -> bool {
        self.start_vpn <= vpn < self.end_vpn
    }

    /// Whether this area shares a page with the pages from `start` up to `end`.
    pub open spec fn intersects(self, start: int, end: int) -> bool {
        self.start_vpn < end && start < self.end_vpn && self.start_vpn < self.end_vpn && start < end
    }
}

/// Whether one of the areas contains page `vpn`.
pub open spec fn some_covers(areas: Seq<MapArea>, vpn: int) -> bool {
    exists|i: int| 0 <= i < areas.len() && #[trigger] areas[i].covers(vpn)
}

/// Areas that share a page agree on its permissions.
pub open spec fn consistent(areas: Seq<MapArea>) -> bool {
    forall|i: int, j: int, vpn: int|
        0 <= i < areas.len() && 0 <= j < areas.len() && #[trigger] areas[i].covers(vpn) && #[trigger] areas[j].covers(vpn)
            ==> areas[i].perm == areas[j].perm
}

/// The permissions of page `vpn`, or `None` where no area contains it.
pub open spec fn lookup(areas: Seq<MapArea>, vpn: int) -> Option<u8> {
    if some_covers(areas, vpn) {
        Some(areas[choose|i: int| 0 <= i < areas.len() && #[trigger] areas[i].covers(vpn)].perm)
    } else {
        None
    }
}

/// In consistent areas, any area that contains a page tells its permissions.
proof fn lemma_lookup(areas: Seq<MapArea>, i: int, vpn: int)
    requires
        consistent(areas),
        0 <= i < areas.len(),
        areas[i].covers(vpn),
    ensures
        lookup(areas, vpn) == Some(areas[i].perm),
{
    assert(some_covers(areas, vpn));
}

/// Adding an area adds exactly the pages of that area.
proof fn lemma_push_covers(areas: Seq<MapArea>, a: MapArea)
    ensures
        forall|vpn: int| #[trigger] some_covers(areas.push(a), vpn) == (some_covers(areas, vpn) || a.covers(vpn)),
{
    let more = areas.push(a);
    assert forall|vpn: int| #[trigger] some_covers(more, vpn) == (some_covers(areas, vpn) || a.covers(vpn)) by {
        if some_covers(areas, vpn) {
            let i = choose|i: int| 0 <= i < areas.len() && #[trigger] areas[i].covers(vpn);
            assert(more[i].covers(vpn));
        }
        if a.covers(vpn) {
            assert(more[areas.len() as int].covers(vpn));
        }
        if some_covers(more, vpn) {
            let i = choose|i: int| 0 <= i < more.len() && #[trigger] more[i].covers(vpn);
            if i < areas.len() {
                assert(areas[i].covers(vpn));
            }
        }
    }
}

/// Whether `piece` is a part of `whole` with the same permissions.
pub open spec fn part_of(piece: MapArea, whole: MapArea) -> bool {
    whole.start_vpn <= piece.start_vpn && piece.end_vpn <= whole.end_vpn && piece.perm == whole.perm
}

/// What is left of area `a` once the pages from `start` up to `end` are
/// unmapped, where `start` lies before `end`: the area itself where it has
/// none of those pages, else its part before `start`, if any, and then its
/// part from `end` on, if any.
pub open spec fn remainder(a: MapArea, start: usize, end: usize) -> Seq<MapArea> {
    if a.start_vpn >= a.end_vpn || a.end_vpn <= start || end <= a.start_vpn {
        seq![a]
    } else {
        (if a.start_vpn < start {
            seq![(MapArea { start_vpn: a.start_vpn, end_vpn: start, perm: a.perm })]
        } else {
            Seq::<MapArea>::empty()
        }) + (if end < a.end_vpn {
            seq![(MapArea { start_vpn: end, end_vpn: a.end_vpn, perm: a.perm })]
        } else {
            Seq::<MapArea>::empty()
        })
    }
}

/// The areas once the pages from `start` up to `end` are unmapped: what is
/// left of each area, in the order of the areas.
pub open spec fn cut_out(areas: Seq<MapArea>, start: usize, end: usize) -> Seq<MapArea>
    decreases areas.len(),
{
    if areas.len() == 0 {
        Seq::<MapArea>::empty()
    } else {
        cut_out(areas.drop_last(), start, end) + remainder(areas.last(), start, end)
    }
}

/// Whether `idx` is the first area that starts at page `start_vpn`.
pub open spec fn first_at(areas: Seq<MapArea>, start_vpn: int, idx: int) -> bool {
    &&& 0 <= idx < areas.len()
    &&& areas[idx].start_vpn == start_vpn
    &&& forall|j: int| 0 <= j < idx ==> (#[trigger] areas[j]).start_vpn != start_vpn
}

/// Whether no area but `idx` has a page from `start` up to `end`.
pub open spec fn room_for(areas: Seq<MapArea>, idx: int, start: int, end: int) -> bool {
    forall|j: int| 0 <= j < areas.len() && j != idx ==> !#[trigger] areas[j].intersects(start, end)
}

/// The larger of two page numbers.
pub open spec fn later(a: int, b: int) -> int {
    if a >= b {
        a
    } else {
        b
    }
}

/// The address space of one task: a list of mapped areas.
pub struct MemorySet {
    areas: Vec<MapArea>,
}

impl View for MemorySet {
    type V = Seq<MapArea>;

    closed spec fn view(&self) -> Seq<MapArea> {
        self.areas@
    }
}

impl MemorySet {
    /// The invariant of an address space: a page has one set of permissions.
    pub open spec fn wf(&self) -> bool {
        consistent(self@)
    }

    /// The permissions of page `vpn`, or `None` if it is not mapped.
    pub open spec fn page(&self, vpn: int) -> Option<u8> {
        lookup(self@, vpn)
    }

    /// Whether page `vpn` is mapped.
    pub open spec fn is_mapped(&self, vpn: int) -> bool {
        some_covers(self@, vpn)
    }

    /// Whether every page from `start` up to `end` is mapped.
    pub open spec fn all_mapped(&self, start: int, end: int) -> bool {
        forall|vpn: int| start <= vpn < end ==> self.is_mapped(vpn)
    }

    /// Whether no page from `start` up to `end` is mapped.
    pub open spec fn none_mapped(&self, start: int, end: int) -> bool {
        forall|vpn: int| start <= vpn < end ==> !self.is_mapped(vpn)
    }

    /// An address space in which nothing is mapped.
    pub fn new() -> (ms: MemorySet)
        ensures
            ms@ == Seq::<MapArea>::empty(),
            ms.wf(),
    {
        MemorySet { areas: Vec::new() }
    }

    /// The number of areas.
    pub fn area_count(&self) -> (n: usize)
        ensures
            n == self@.len(),
    {
        self.areas.len()
    }

    /// The area at position `i`.
    pub fn area(&self, i: usize) -> (a: MapArea)
        requires
            i < self@.len(),
        ensures
            a == self@[i as int],
    {
        self.areas[i]
    }

    /// A copy of this address space, as made for a forked child.
    pub fn duplicate(&self) -> (ms: MemorySet)
        ensures
            ms@ == self@,
    {
        let mut areas: Vec<MapArea> = Vec::new();
        let mut i: usize = 0;
        while i < self.areas.len()
            invariant
                i <= self.areas.len(),
                areas@ == self.areas@.subrange(0, i as int),
            decreases self.areas.len() - i,
        {
            areas.push(self.areas[i]);
            assert(areas@ =~= self.areas@.subrange(0, i + 1));
            i += 1;
        }
        assert(areas@ =~= self.areas@);
        MemorySet { areas }
    }

    /// The position of an area that contains page `vpn`, if there is one.
    fn find_covering(&self, vpn: usize) -> (found: Option<usize>)
        ensures
            match found {
                Some(i) => i < self@.len() && self@[i as int].covers(vpn as int),
                None => !self.is_mapped(vpn as int),
            },
    {
        let mut i: usize = 0;
        while i < self.areas.len()
            invariant
                i <= self.areas.len(),
                forall|j: int| 0 <= j < i ==> !#[trigger] self.areas[j].covers(vpn as int),
            decreases self.areas.len() - i,
        {
            let a = self.areas[i];
            if a.start_vpn <= vpn && vpn < a.end_vpn {
                return Some(i);
            }
            i += 1;
        }
        None
    }

    /// The permissions with which page `vpn` is mapped, if it is.
    pub fn translate(&self, vpn: usize) -> (perm: Option<u8>)
        requires
            self.wf(),
        ensures
            perm == self.page(vpn as int),
    {
        match self.find_covering(vpn) {
            Some(i) => {
                proof {
                    lemma_lookup(self@, i as int, vpn as int);
                }
                Some(self.areas[i].perm)
            },
            None => None,
        }
    }

    /// Whether some page from `start` up to `end` is already mapped.
    pub fn map_area_overlap(&self, start: usize, end: usize) -> (hit: bool)
        ensures
            hit == !self.none_mapped(start as int, end as int),
    {
        let mut i: usize = 0;
        while i < self.areas.len()
            invariant
                i <= self.areas.len(),
                forall|j: int| 0 <= j < i ==> !#[trigger] self.areas[j].intersects(start as int, end as int),
            decreases self.areas.len() - i,
        {
            let a = self.areas[i];
            if a.start_vpn < end && start < a.end_vpn && a.start_vpn < a.end_vpn && start < end {
                proof {
                    let vpn: int = if a.start_vpn >= start {
                        a.start_vpn as int
                    } else {
                        start as int
                    };
                    assert(self@[i as int].covers(vpn));
                    assert(self.is_mapped(vpn));
                }
                return true;
            }
            i += 1;
        }
        proof {
            assert forall|vpn: int| start <= vpn < end implies !self.is_mapped(vpn) by {
                if self.is_mapped(vpn) {
                    let j = choose|j: int| 0 <= j < self@.len() && #[trigger] self@[j].covers(vpn);
                    assert(self@[j].intersects(start as int, end as int));
                }
            }
        }
        false
    }

    /// Whether every page from `start` up to `end` is mapped.
    pub fn range_mapped(&self, start: usize, end: usize) -> (all: bool)
        ensures
            all == self.all_mapped(start as int, end as int),
    {
        let mut cur: usize = start;
        while cur < end
            invariant
                start <= cur,
                self.all_mapped(start as int, cur as int),
            decreases end - cur,
        {
            match self.find_covering(cur) {
                Some(i) => {
                    let reach: usize = self.areas[i].end_vpn;
                    let next: usize = if reach < end {
                        reach
                    } else {
                        end
                    };
                    assert(self@[i as int].covers(cur as int));
                    proof {
                        assert forall|vpn: int| start <= vpn < next implies self.is_mapped(vpn) by {
                            if vpn >= cur {
                                assert(self@[i as int].covers(vpn));
                            }
                        }
                    }
                    cur = next;
                },
                None => {
                    return false;
                },
            }
        }
        true
    }

    /// Maps the pages from `start` up to `end` with permissions `perm`,
    /// unless one of them is mapped already; tells whether it did.
    pub fn insert_framed_area(&mut self, start: usize, end: usize, perm: u8) -> (done: bool)
        requires
            old(self).wf(),
        ensures
            done == old(self).none_mapped(start as int, end as int),
            done ==> final(self)@ == old(self)@.push((MapArea { start_vpn: start, end_vpn: end, perm })),
            !done ==> *final(self) == *old(self),
            final(self).wf(),
            forall|vpn: int|
                final(self).page(vpn) == if done && start <= vpn < end {
                    Some(perm)
                } else {
                    old(self).page(vpn)
                },
    {
        if self.map_area_overlap(start, end) {
            return false;
        }
        let area = MapArea { start_vpn: start, end_vpn: end, perm };
        self.areas.push(area);
        proof {
            let before = old(self)@;
            let after = self@;
            assert(after == before.push(area));
            assert forall|i: int, vpn: int| 0 <= i < before.len() && #[trigger] before[i].covers(vpn) implies !(start
                <= vpn < end) by {
                if start <= vpn < end {
                    assert(old(self).is_mapped(vpn));
                }
            }
            assert forall|i: int, j: int, vpn: int|
                0 <= i < after.len() && 0 <= j < after.len() && #[trigger] after[i].covers(vpn) && #[trigger] after[j].covers(vpn) implies after[i].perm == after[j].perm by {
                if i < before.len() {
                    assert(before[i].covers(vpn));
                }
                if j < before.len() {
                    assert(before[j].covers(vpn));
                }
            }
            assert forall|vpn: int|
                self.page(vpn) == if start <= vpn < end {
                    Some(perm)
                } else {
                    old(self).page(vpn)
                } by {
                if start <= vpn < end {
                    assert(after[before.len() as int].covers(vpn));
                    lemma_lookup(after, before.len() as int, vpn);
                } else if some_covers(before, vpn) {
                    let i = choose|i: int| 0 <= i < before.len() && #[trigger] before[i].covers(vpn);
                    assert(after[i].covers(vpn));
                    lemma_lookup(after, i, vpn);
                    lemma_lookup(before, i, vpn);
                } else {
                    if some_covers(after, vpn) {
                        let i = choose|i: int| 0 <= i < after.len() && #[trigger] after[i].covers(vpn);
                        assert(i < before.len());
                        assert(before[i].covers(vpn));
                    }
                }
            }
        }
        true
    }

    /// Unmaps the pages from `start` up to `end`, provided that every one of
    /// them is mapped; tells whether it did. Areas that reach beyond the range
    /// keep their pages outside it.
    pub fn remove_framed_areas(&mut self, start: usize, end: usize) -> (done: bool)
        requires
            old(self).wf(),
        ensures
            done == old(self).all_mapped(start as int, end as int),
            !done ==> *final(self) == *old(self),
            done ==> final(self)@ == if start < end {
                cut_out(old(self)@, start, end)
            } else {
                old(self)@
            },
            final(self).wf(),
            forall|vpn: int|
                final(self).page(vpn) == if done && start <= vpn < end {
                    None
                } else {
                    old(self).page(vpn)
                },
    {
        if !self.range_mapped(start, end) {
            return false;
        }
        if start >= end {
            return true;
        }
        let mut kept: Vec<MapArea> = Vec::new();
        let ghost mut src: Seq<int> = Seq::empty();
        let mut i: usize = 0;
        while i < self.areas.len()
            invariant
                i <= self.areas.len(),
                start < end,
                src.len() == kept.len(),
                kept@ == cut_out(self.areas@.subrange(0, i as int), start, end),
                forall|k: int| 0 <= k < kept.len() ==> 0 <= #[trigger] src[k] < i && part_of(kept[k], self.areas[src[k]]),
                forall|vpn: int| #[trigger]
                    some_covers(kept@, vpn) == (some_covers(self.areas@.subrange(0, i as int), vpn) && !(start <= vpn
                        < end)),
            decreases self.areas.len() - i,
        {
            let a = self.areas[i];
            let ghost had = kept@;
            proof {
                assert(self.areas@.subrange(0, i + 1) =~= self.areas@.subrange(0, i as int).push(a));
                assert(self.areas@.subrange(0, i + 1).drop_last() =~= self.areas@.subrange(0, i as int));
                lemma_push_covers(self.areas@.subrange(0, i as int), a);
            }
            if a.start_vpn >= a.end_vpn || a.end_vpn <= start || end <= a.start_vpn {
                proof {
                    lemma_push_covers(kept@, a);
                    src = src.push(i as int);
                }
                kept.push(a);
            } else {
                if a.start_vpn < start {
                    let left = MapArea { start_vpn: a.start_vpn, end_vpn: start, perm: a.perm };
                    proof {
                        lemma_push_covers(kept@, left);
                        src = src.push(i as int);
                    }
                    kept.push(left);
                }
                if end < a.end_vpn {
                    let right = MapArea { start_vpn: end, end_vpn: a.end_vpn, perm: a.perm };
                    proof {
                        lemma_push_covers(kept@, right);
                        src = src.push(i as int);
                    }
                    kept.push(right);
                }
            }
            assert(kept@ =~= had + remainder(a, start, end));
            i += 1;
        }
        proof {
            let before = old(self)@;
            let after = kept@;
            assert(before.subrange(0, i as int) =~= before);
            assert forall|k: int, vpn: int| 0 <= k < after.len() && #[trigger] after[k].covers(vpn) implies before[src[k]].covers(
                vpn,
            ) && before[src[k]].perm == after[k].perm by {
                assert(part_of(after[k], before[src[k]]));
            }
            assert forall|a: int, b: int, vpn: int|
                0 <= a < after.len() && 0 <= b < after.len() && #[trigger] after[a].covers(vpn) && #[trigger] after[b].covers(
                    vpn,
                ) implies after[a].perm == after[b].perm by {
                assert(before[src[a]].covers(vpn));
                assert(before[src[b]].covers(vpn));
            }
            assert forall|vpn: int|
                lookup(after, vpn) == if start <= vpn < end {
                    None
                } else {
                    lookup(before, vpn)
                } by {
                if some_covers(after, vpn) {
                    let k = choose|k: int| 0 <= k < after.len() && #[trigger] after[k].covers(vpn);
                    assert(before[src[k]].covers(vpn));
                    lemma_lookup(before, src[k], vpn);
                    lemma_lookup(after, k, vpn);
                }
            }
        }
        self.areas = kept;
        true
    }

    /// Moves the end of the first area that starts at page `start_vpn` to
    /// `new_end`, growing or shrinking it, and returns that area's position.
    /// Nothing changes, and `None` is returned, where there is no such area,
    /// where `new_end` lies before `start_vpn`, or where another area has a
    /// page between `start_vpn` and the later of the old and the new end.
    pub fn resize_area(&mut self, start_vpn: usize, new_end: usize) -> (resized: Option<usize>)
        requires
            old(self).wf(),
        ensures
            final(self).wf(),
            match resized {
                Some(idx) => {
                    &&& first_at(old(self)@, start_vpn as int, idx as int)
                    &&& start_vpn <= new_end
                    &&& room_for(
                        old(self)@,
                        idx as int,
                        start_vpn as int,
                        later(old(self)@[idx as int].end_vpn as int, new_end as int),
                    )
                    &&& final(self)@ == old(self)@.update(
                        idx as int,
                        (MapArea { start_vpn, end_vpn: new_end, perm: old(self)@[idx as int].perm }),
                    )
                },
                None => {
                    &&& *final(self) == *old(self)
                    &&& forall|idx: int| #[trigger]
                        first_at(old(self)@, start_vpn as int, idx) ==> !(start_vpn <= new_end && room_for(
                            old(self)@,
                            idx,
                            start_vpn as int,
                            later(old(self)@[idx].end_vpn as int, new_end as int),
                        ))
                },
            },
    {
        let mut idx: usize = 0;
        while idx < self.areas.len() && self.areas[idx].start_vpn != start_vpn
            invariant
                *self == *old(self),
                idx <= self.areas.len(),
                forall|j: int| 0 <= j < idx ==> (#[trigger] self.areas[j]).start_vpn != start_vpn,
            decreases self.areas.len() - idx,
        {
            idx += 1;
        }
        if idx >= self.areas.len() || new_end < start_vpn {
            return None;
        }
        let found = self.areas[idx];
        let reach: usize = if found.end_vpn >= new_end {
            found.end_vpn
        } else {
            new_end
        };
        let mut j: usize = 0;
        while j < self.areas.len()
            invariant
                *self == *old(self),
                self.wf(),
                j <= self.areas.len(),
                idx < self.areas.len(),
                found == self.areas[idx as int],
                first_at(self@, start_vpn as int, idx as int),
                reach == later(found.end_vpn as int, new_end as int),
                forall|k: int| 0 <= k < j && k != idx ==> !#[trigger] self.areas[k].intersects(start_vpn as int, reach as int),
            decreases self.areas.len() - j,
        {
            let a = self.areas[j];
            if j != idx && a.start_vpn < reach && start_vpn < a.end_vpn && a.start_vpn < a.end_vpn && start_vpn < reach {
                assert(self.areas[j as int].intersects(start_vpn as int, reach as int));
                assert forall|other: int| #[trigger] first_at(self@, start_vpn as int, other) implies other == idx by {
                    assert(self@[other].start_vpn == start_vpn);
                    assert(self@[idx as int].start_vpn == start_vpn);
                }
                return None;
            }
            j += 1;
        }
        let resized = MapArea { start_vpn, end_vpn: new_end, perm: found.perm };
        self.areas[idx] = resized;
        proof {
            let before = old(self)@;
            let after = self@;
            assert(after == before.update(idx as int, resized));
            assert forall|a: int, b: int, vpn: int|
                0 <= a < after.len() && 0 <= b < after.len() && #[trigger] after[a].covers(vpn) && #[trigger] after[b].covers(
                    vpn,
                ) implies after[a].perm == after[b].perm by {
                if a != idx {
                    assert(before[a].covers(vpn));
                    assert(!before[a].intersects(start_vpn as int, reach as int));
                }
                if b != idx {
                    assert(before[b].covers(vpn));
                    assert(!before[b].intersects(start_vpn as int, reach as int));
                }
            }
        }
        Some(idx)
    }
}

/// Whether `after` is `before` with the pages from `start` up to `end`
/// mapped with permissions `perm`.
pub open spec fn is_mapping(before: MemorySet, start: int, end: int, perm: u8, after: MemorySet) -> bool {
    forall|vpn: int| #[trigger]
        after.page(vpn) == if start <= vpn < end {
            Some(perm)
        } else {
            before.page(vpn)
        }
}

/// Whether `after` is `before` with the pages from `start` up to `end`
/// unmapped.
pub open spec fn is_unmapping(before: MemorySet, start: int, end: int, after: MemorySet) -> bool {
    forall|vpn: int| #[trigger]
        after.page(vpn) == if start <= vpn < end {
            None
        } else {
            before.page(vpn)
        }
}

/// Unmapping undoes mapping: once a free range has been mapped, every page
/// of it is mapped, so that unmapping the same range is not refused; and
/// once it has been unmapped, no page of the range is mapped and every page
/// is as it was before.
pub proof fn lemma_map_then_unmap(
    ms0: MemorySet,
    ms1: MemorySet,
    ms2: MemorySet,
    start: int,
    end: int,
    perm: u8,
)
    requires
        ms0.none_mapped(start, end),
        is_mapping(ms0, start, end, perm, ms1),
        is_unmapping(ms1, start, end, ms2),
    ensures
        ms1.all_mapped(start, end),
        ms2.none_mapped(start, end),
        forall|vpn: int| ms2.page(vpn) == ms0.page(vpn),
{
    assert forall|vpn: int| start <= vpn < end implies ms1.is_mapped(vpn) && !ms2.is_mapped(vpn) by {
        assert(ms1.page(vpn) == Some(perm));
        assert(ms2.page(vpn) is None);
    }
    assert forall|vpn: int| ms2.page(vpn) == ms0.page(vpn) by {
        assert(ms1.page(vpn) == if start <= vpn < end { Some(perm) } else { ms0.page(vpn) });
        if start <= vpn < end {
            assert(!ms0.is_mapped(vpn));
        }
    }
}

} // verus!
