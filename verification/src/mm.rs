//! Address spaces: a list of virtual memory areas and the page-level view
//! of what they map.

use vstd::prelude::*;

verus! {

/// Permission bit: readable.
pub const PERM_R: u8 = 2;
/// Permission bit: writable.
pub const PERM_W: u8 = 4;
/// Permission bit: executable.
pub const PERM_X: u8 = 8;
/// Permission bit: accessible from user mode.
pub const PERM_U: u8 = 16;

/// A contiguous run of virtual pages `[start_vpn, end_vpn)` with one
/// permission set.
#[derive(Clone, Copy, Debug)]
pub struct MapArea {
    pub start_vpn: usize,
    pub end_vpn: usize,
    pub perm: u8,
}

impl MapArea {
    /// Whether the page `vpn` lies in this area.
    pub open spec fn contains(&self, vpn: int) -> bool {
        self.start_vpn <= vpn < self.end_vpn
    }
}

/// The permissions under which `vpn` is mapped by `areas`, if it is mapped.
pub open spec fn lookup(areas: Seq<MapArea>, vpn: int) -> Option<u8>
    decreases areas.len(),
{
    if areas.len() == 0 {
        None
    } else if areas.last().contains(vpn) {
        Some(areas.last().perm)
    } else {
        lookup(areas.drop_last(), vpn)
    }
}

/// Every area is non-empty and covers only pages that no earlier area maps.
pub open spec fn areas_wf(areas: Seq<MapArea>) -> bool {
    &&& forall|i: int| 0 <= i < areas.len() ==> (#[trigger] areas[i]).start_vpn < areas[i].end_vpn
    &&& forall|i: int, v: int|
        0 <= i < areas.len() && #[trigger] areas[i].contains(v) ==> lookup(areas.take(i), v) is None
}

/// The page number that holds address `va`.
pub open spec fn vpn_floor(va: int) -> int {
    va / 4096
}

/// The first page number at or after address `va`.
pub open spec fn vpn_ceil(va: int) -> int {
    (va + 4095) / 4096
}

/// An area that contains a page makes `lookup` find some mapping for it.
pub proof fn lemma_lookup_covers(areas: Seq<MapArea>, i: int, v: int)
    requires
        0 <= i < areas.len(),
        areas[i].contains(v),
    ensures
        lookup(areas, v) is Some,
    decreases areas.len(),
{
    if i < areas.len() - 1 && !areas.last().contains(v) {
        lemma_lookup_covers(areas.drop_last(), i, v);
    }
}

/// The areas of a well-formed list are pairwise non-overlapping.
pub proof fn lemma_areas_disjoint(areas: Seq<MapArea>, i: int, j: int)
    requires
        areas_wf(areas),
        0 <= i < j < areas.len(),
    ensures
        areas[i].end_vpn <= areas[j].start_vpn || areas[j].end_vpn <= areas[i].start_vpn,
{
    if !(areas[i].end_vpn <= areas[j].start_vpn || areas[j].end_vpn <= areas[i].start_vpn) {
        let v: int = if areas[i].start_vpn >= areas[j].start_vpn {
            areas[i].start_vpn as int
        } else {
            areas[j].start_vpn as int
        };
        assert(areas[i].contains(v));
        assert(areas[j].contains(v));
        assert(areas.take(j)[i] == areas[i]);
        lemma_lookup_covers(areas.take(j), i, v);
    }
}

/// The address space of one task.
pub struct MemorySet {
    pub areas: Vec<MapArea>,
}

impl MemorySet {
    /// The areas are non-empty and pairwise non-overlapping.
    pub open spec fn wf(&self) -> bool {
        areas_wf(self.areas@)
    }

    /// The permissions of page `vpn`, or `None` where it is unmapped.
    pub open spec fn perm_at(&self, vpn: int) -> Option<u8> {
        lookup(self.areas@, vpn)
    }

    /// Whether page `vpn` is mapped.
    pub open spec fn mapped(&self, vpn: int) -> bool {
        lookup(self.areas@, vpn) is Some
    }

    /// An address space that maps nothing.
    pub fn new() -> (r: Self)
        ensures
            r.wf(),
            r.areas@.len() == 0,
            forall|v: int| !r.mapped(v),
    {
        MemorySet { areas: Vec::new() }
    }

    /// Looks a page up: its permissions, or `None` where it is unmapped.
    pub fn translate(&self, vpn: usize) -> (r: Option<u8>)
        ensures
            r == self.perm_at(vpn as int),
    {
        let mut found: Option<u8> = None;
        let mut i: usize = 0;
        while i < self.areas.len()
            invariant
                0 <= i <= self.areas.len(),
                found == lookup(self.areas@.take(i as int), vpn as int),
            decreases self.areas.len() - i,
        {
            let a = self.areas[i];
            proof {
                assert(self.areas@.take(i + 1).drop_last() =~= self.areas@.take(i as int));
            }
            if a.start_vpn <= vpn && vpn < a.end_vpn {
                found = Some(a.perm);
            }
            i += 1;
        }
        proof {
            assert(self.areas@.take(i as int) =~= self.areas@);
        }
        found
    }

    /// Whether no page of `[start_vpn, end_vpn)` is mapped.
    pub fn range_is_free(&self, start_vpn: usize, end_vpn: usize) -> (r: bool)
        ensures
            r <==> forall|v: int| start_vpn <= v < end_vpn ==> !self.mapped(v),
    {
        let mut vpn: usize = start_vpn;
        while vpn < end_vpn
            invariant
                start_vpn <= vpn,
                forall|v: int| start_vpn <= v < vpn ==> !self.mapped(v),
            decreases end_vpn - vpn,
        {
            if self.translate(vpn).is_some() {
                assert(self.mapped(vpn as int));
                return false;
            }
            vpn += 1;
        }
        true
    }

    /// Whether every page of `[start_vpn, end_vpn)` is mapped.
    pub fn range_is_mapped(&self, start_vpn: usize, end_vpn: usize) -> (r: bool)
        ensures
            r <==> forall|v: int| start_vpn <= v < end_vpn ==> self.mapped(v),
    {
        let mut vpn: usize = start_vpn;
        while vpn < end_vpn
            invariant
                start_vpn <= vpn,
                forall|v: int| start_vpn <= v < vpn ==> self.mapped(v),
            decreases end_vpn - vpn,
        {
            if self.translate(vpn).is_none() {
                assert(!self.mapped(vpn as int));
                return false;
            }
            vpn += 1;
        }
        true
    }

    /// Maps the free, non-empty range `[start_vpn, end_vpn)` as one new area.
    pub fn insert_area(&mut self, start_vpn: usize, end_vpn: usize, perm: u8)
        requires
            old(self).wf(),
            start_vpn < end_vpn,
            forall|v: int| start_vpn <= v < end_vpn ==> !old(self).mapped(v),
        ensures
            final(self).wf(),
            final(self).areas@ == old(self).areas@.push(
                (MapArea { start_vpn, end_vpn, perm }),
            ),
            forall|v: int|
                final(self).perm_at(v) == if start_vpn <= v < end_vpn {
                    Some(perm)
                } else {
                    old(self).perm_at(v)
                },
    {
        let area = MapArea { start_vpn, end_vpn, perm };
        proof {
            assert forall|v: int| area.contains(v) implies lookup(self.areas@, v) is None by {
                assert(!self.mapped(v));
            }
            lemma_push_fresh(self.areas@, area);
        }
        self.areas.push(area);
    }

    /// Unmaps every page of `[start_vpn, end_vpn)`, splitting the areas that
    /// reach beyond the range; all other pages keep their mapping.
    pub fn remove_range(&mut self, start_vpn: usize, end_vpn: usize)
        requires
            old(self).wf(),
        ensures
            final(self).wf(),
            forall|v: int|
                final(self).perm_at(v) == if start_vpn <= v < end_vpn {
                    None
                } else {
                    old(self).perm_at(v)
                },
    {
        let ghost before = self.areas@;
        let mut out: Vec<MapArea> = Vec::new();
        let mut i: usize = 0;
        while i < self.areas.len()
            invariant
                0 <= i <= self.areas.len(),
                self.areas@ == before,
                areas_wf(before),
                areas_wf(out@),
                forall|v: int|
                    lookup(out@, v) == if start_vpn <= v < end_vpn {
                        None
                    } else {
                        lookup(before.take(i as int), v)
                    },
            decreases self.areas.len() - i,
        {
            let a = self.areas[i];
            proof {
                assert(before.take(i + 1).drop_last() =~= before.take(i as int));
                assert(before.take(i + 1).last() == a);
                assert forall|v: int| a.contains(v) implies lookup(before.take(i as int), v)
                    is None by {
                    assert(before[i as int].contains(v));
                }
            }
            if a.end_vpn <= start_vpn || end_vpn <= a.start_vpn || start_vpn >= end_vpn {
                proof {
                    lemma_push_fresh(out@, a);
                }
                out.push(a);
            } else {
                if a.start_vpn < start_vpn {
                    let left = MapArea { start_vpn: a.start_vpn, end_vpn: start_vpn, perm: a.perm };
                    proof {
                        assert forall|v: int| left.contains(v) implies lookup(out@, v) is None by {
                            assert(a.contains(v));
                        }
                        lemma_push_fresh(out@, left);
                    }
                    out.push(left);
                }
                if end_vpn < a.end_vpn {
                    let right = MapArea { start_vpn: end_vpn, end_vpn: a.end_vpn, perm: a.perm };
                    proof {
                        assert forall|v: int| right.contains(v) implies lookup(out@, v) is None by {
                            assert(a.contains(v));
                        }
                        lemma_push_fresh(out@, right);
                    }
                    out.push(right);
                }
            }
            i += 1;
        }
        proof {
            assert(before.take(i as int) =~= before);
        }
        self.areas = out;
    }
}

/// Pushing a non-empty area over pages that are all unmapped keeps the list
/// well formed, and maps exactly those pages in addition.
pub proof fn lemma_push_fresh(areas: Seq<MapArea>, a: MapArea)
    requires
        areas_wf(areas),
        a.start_vpn < a.end_vpn,
        forall|v: int| a.contains(v) ==> lookup(areas, v) is None,
    ensures
        areas_wf(areas.push(a)),
        forall|v: int|
            lookup(areas.push(a), v) == if a.contains(v) {
                Some(a.perm)
            } else {
                lookup(areas, v)
            },
{
    let after = areas.push(a);
    assert(after.drop_last() =~= areas);
    assert forall|i: int, v: int|
        0 <= i < after.len() && #[trigger] after[i].contains(v) implies lookup(
        after.take(i),
        v,
    ) is None by {
        if i < areas.len() {
            assert(after.take(i) =~= areas.take(i));
            assert(areas[i].contains(v));
        } else {
            assert(after.take(i) =~= areas);
        }
    }
}

} // verus!
