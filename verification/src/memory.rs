use vstd::prelude::*;

use crate::rng;

verus! {

/// Protection flags of one mapped region.
#[derive(Clone, Copy, Debug, PartialEq, Eq, Structural)]
pub struct Perms {
    pub read: bool,
    pub write: bool,
    pub execute: bool,
}

impl Perms {
    /// Every flag the requirement sets is set here too.
    pub open spec fn spec_covers(self, required: Perms) -> bool {
        &&& (required.read ==> self.read)
        &&& (required.write ==> self.write)
        &&& (required.execute ==> self.execute)
    }

    pub fn covers(&self, required: &Perms) -> (r: bool)
        ensures
            r == self.spec_covers(*required),
    {
        (!required.read || self.read) && (!required.write || self.write) && (!required.execute
            || self.execute)
    }
}

/// One mapped region of the target's static address space: a base
/// address, its protection, and the bytes stored there.
pub struct Segment {
    pub addr: u64,
    pub perms: Perms,
    pub data: Vec<u8>,
}

impl Segment {
    /// The half-open address range this segment maps.
    pub open spec fn spec_contains_addr(&self, a: u64) -> bool {
        self.addr <= a && (a as int) < self.addr as int + self.data@.len()
    }

    pub fn contains_addr(&self, a: u64) -> (r: bool)
        requires
            self.addr as int + self.data@.len() <= u64::MAX as int + 1,
        ensures
            r == self.spec_contains_addr(a),
    {
        let len = self.data.len();
        self.addr <= a && (len as u64) != 0 && a - self.addr < len as u64
    }
}

/// The first segment of the list that maps an address.
pub open spec fn seg_match(segs: Seq<Segment>, a: u64) -> Option<Segment>
    decreases segs.len(),
{
    if segs.len() == 0 {
        None
    } else if segs[0].spec_contains_addr(a) {
        Some(segs[0])
    } else {
        seg_match(segs.drop_first(), a)
    }
}

/// The static memory image of the target binary, as the evolutionary
/// core reads it: a list of mapped segments. The core only ever queries
/// it; loading and owning the real address space stays outside.
pub struct MemoryImage {
    pub segments: Vec<Segment>,
}

impl MemoryImage {
    /// Segments map disjoint ranges and none wraps the address space.
    pub open spec fn wf(&self) -> bool {
        &&& forall|i: int|
            0 <= i < self.segments@.len() ==> (#[trigger] self.segments@[i]).addr as int
                + self.segments@[i].data@.len() <= u64::MAX as int + 1
        &&& forall|i: int, j: int|
            0 <= i < j < self.segments@.len() ==> ((#[trigger] self.segments@[i]).addr as int
                + self.segments@[i].data@.len() <= (#[trigger] self.segments@[j]).addr as int
                || self.segments@[j].addr as int + self.segments@[j].data@.len()
                <= self.segments@[i].addr as int)
    }

    /// The segment an address falls in, if any.
    pub open spec fn spec_find(&self, a: u64) -> Option<Segment> {
        seg_match(self.segments@, a)
    }

    /// The protection of an address; absent when unmapped.
    pub open spec fn spec_perm_of(&self, a: u64) -> Option<Perms> {
        match self.spec_find(a) {
            Some(s) => Some(s.perms),
            None => None,
        }
    }

    /// The bytes from an address to the end of its segment.
    pub open spec fn spec_deref(&self, a: u64) -> Option<Seq<u8>> {
        match self.spec_find(a) {
            Some(s) => Some(s.data@.skip(a - s.addr)),
            None => None,
        }
    }

    /// The address is mapped with the executable flag.
    pub open spec fn spec_is_exec(&self, a: u64) -> bool {
        match self.spec_perm_of(a) {
            Some(p) => p.execute,
            None => false,
        }
    }

    /// The memory at `a` starts with the given byte pattern.
    pub open spec fn spec_pattern_at(&self, a: u64, pattern: Seq<u8>) -> bool {
        match self.spec_deref(a) {
            Some(bytes) => bytes.len() >= pattern.len() && bytes.subrange(0, pattern.len() as int)
                == pattern,
            None => false,
        }
    }

    /// The protection flags of an address, absent if it is unmapped.
    pub fn perm_of_addr(&self, a: u64) -> (r: Option<Perms>)
        requires
            self.wf(),
        ensures
            r == self.spec_perm_of(a),
    {
        let n = self.segments.len();
        let mut i: usize = 0;
        proof {
            assert(self.segments@.subrange(0, n as int) =~= self.segments@);
        }
        while i < n
            invariant
                self.wf(),
                n == self.segments@.len(),
                i <= n,
                seg_match(self.segments@, a) == seg_match(
                    self.segments@.subrange(i as int, n as int),
                    a,
                ),
            decreases n - i,
        {
            let seg = &self.segments[i];
            proof {
                assert(self.segments@.subrange(i as int, n as int)[0] == self.segments@[i as int]);
            }
            if seg.contains_addr(a) {
                return Some(seg.perms);
            }
            proof {
                assert(self.segments@.subrange(i as int, n as int).drop_first()
                    =~= self.segments@.subrange(i + 1, n as int));
            }
            i = i + 1;
        }
        None
    }

    /// Whether an address is mapped executable.
    pub fn is_exec_addr(&self, a: u64) -> (r: bool)
        requires
            self.wf(),
        ensures
            r == self.spec_is_exec(a),
    {
        match self.perm_of_addr(a) {
            Some(p) => p.execute,
            None => false,
        }
    }

    /// The bytes stored from an address to the end of its segment, if
    /// the address is mapped.
    pub fn try_dereference(&self, a: u64) -> (r: Option<Vec<u8>>)
        requires
            self.wf(),
        ensures
            match r {
                Some(bytes) => self.spec_deref(a) == Some(bytes@),
                None => self.spec_deref(a) is None,
            },
    {
        let n = self.segments.len();
        let mut i: usize = 0;
        proof {
            assert(self.segments@.subrange(0, n as int) =~= self.segments@);
        }
        while i < n
            invariant
                self.wf(),
                n == self.segments@.len(),
                i <= n,
                seg_match(self.segments@, a) == seg_match(
                    self.segments@.subrange(i as int, n as int),
                    a,
                ),
            decreases n - i,
        {
            let seg = &self.segments[i];
            proof {
                assert(self.segments@.subrange(i as int, n as int)[0] == self.segments@[i as int]);
            }
            if seg.contains_addr(a) {
                let off = (a - seg.addr) as usize;
                let len = seg.data.len();
                let mut bytes: Vec<u8> = Vec::new();
                let mut k: usize = off;
                while k < len
                    invariant
                        off <= k <= len,
                        len == seg.data@.len(),
                        bytes@ =~= seg.data@.subrange(off as int, k as int),
                    decreases len - k,
                {
                    let b = seg.data[k];
                    bytes.push(b);
                    k = k + 1;
                    proof {
                        assert(seg.data@.subrange(off as int, k as int) =~= seg.data@.subrange(
                            off as int,
                            k - 1,
                        ).push(seg.data@[k - 1]));
                    }
                }
                proof {
                    assert(seg.data@.subrange(off as int, len as int) =~= seg.data@.skip(
                        a - seg.addr,
                    ));
                }
                return Some(bytes);
            }
            proof {
                assert(self.segments@.subrange(i as int, n as int).drop_first()
                    =~= self.segments@.subrange(i + 1, n as int));
            }
            i = i + 1;
        }
        None
    }
}

/// Skipping segments that do not map the address leaves the match alone.
proof fn lemma_seg_match_index(segs: Seq<Segment>, a: u64)
    requires
        seg_match(segs, a) is Some,
    ensures
        exists|j: int|
            0 <= j < segs.len() && segs[j] == seg_match(segs, a).unwrap() && (
            #[trigger] segs[j]).spec_contains_addr(a),
    decreases segs.len(),
{
    if segs.len() > 0 {
        if segs[0].spec_contains_addr(a) {
            assert(segs[0] == seg_match(segs, a).unwrap() && segs[0].spec_contains_addr(a));
        } else {
            lemma_seg_match_index(segs.drop_first(), a);
            let j = choose|j: int|
                0 <= j < segs.drop_first().len() && segs.drop_first()[j] == seg_match(
                    segs.drop_first(),
                    a,
                ).unwrap() && (#[trigger] segs.drop_first()[j]).spec_contains_addr(a);
            assert(segs[j + 1] == segs.drop_first()[j]);
        }
    }
}

/// With disjoint segments, any containing segment is the match.
proof fn lemma_seg_match_unique(img: &MemoryImage, j: int, a: u64)
    requires
        img.wf(),
        0 <= j < img.segments@.len(),
        img.segments@[j].spec_contains_addr(a),
    ensures
        img.spec_find(a) == Some(img.segments@[j]),
{
    lemma_seg_match_unique_rec(img.segments@, j, a);
}

proof fn lemma_seg_match_unique_rec(segs: Seq<Segment>, j: int, a: u64)
    requires
        forall|i1: int, j1: int|
            0 <= i1 < j1 < segs.len() ==> ((#[trigger] segs[i1]).addr as int
                + segs[i1].data@.len() <= (#[trigger] segs[j1]).addr as int || segs[j1].addr as int
                + segs[j1].data@.len() <= segs[i1].addr as int),
        0 <= j < segs.len(),
        segs[j].spec_contains_addr(a),
    ensures
        seg_match(segs, a) == Some(segs[j]),
    decreases segs.len(),
{
    if j == 0 {
    } else {
        assert(!segs[0].spec_contains_addr(a));
        assert(forall|i1: int, j1: int|
            0 <= i1 < j1 < segs.drop_first().len() ==> ((#[trigger] segs.drop_first()[i1]).addr
                as int + segs.drop_first()[i1].data@.len()
                <= (#[trigger] segs.drop_first()[j1]).addr as int || segs.drop_first()[j1].addr
                as int + segs.drop_first()[j1].data@.len() <= segs.drop_first()[i1].addr as int));
        lemma_seg_match_unique_rec(segs.drop_first(), j - 1, a);
    }
}

impl MemoryImage {
    /// Reverse lookup: the lowest-indexed address whose memory starts
    /// with the given byte pattern, scanning segments in order; absent
    /// exactly when no mapped address carries the pattern.
    pub fn find_address_containing(&self, pattern: &Vec<u8>) -> (r: Option<u64>)
        requires
            self.wf(),
            pattern@.len() > 0,
        ensures
            match r {
                Some(a) => self.spec_pattern_at(a, pattern@),
                None => forall|a: u64| !self.spec_pattern_at(a, pattern@),
            },
    {
        let n = self.segments.len();
        let plen = pattern.len();
        let mut i: usize = 0;
        while i < n
            invariant
                self.wf(),
                n == self.segments@.len(),
                plen == pattern@.len(),
                plen > 0,
                i <= n,
                forall|j: int, o: int|
                    0 <= j < i && 0 <= o && o + plen <= self.segments@[j].data@.len()
                        ==> #[trigger] self.segments@[j].data@.subrange(o, o + plen) != pattern@,
            decreases n - i,
        {
            let seg = &self.segments[i];
            let m = seg.data.len();
            if m >= plen {
                let last = m - plen;
                let mut o: usize = 0;
                while o <= last
                    invariant
                        self.wf(),
                        plen == pattern@.len(),
                        plen > 0,
                        i < n,
                        n == self.segments@.len(),
                        seg == &self.segments@[i as int],
                        m == seg.data@.len(),
                        plen <= m,
                        last == m - plen,
                        o <= last + 1,
                        forall|o2: int|
                            0 <= o2 < o ==> #[trigger] seg.data@.subrange(o2, o2 + plen)
                                != pattern@,
                    decreases last + 1 - o,
                {
                    if matches_at(&seg.data, o, pattern) {
                        let a = seg.addr + (o as u64);
                        proof {
                            lemma_seg_match_unique(self, i as int, a);
                            assert(self.spec_deref(a) == Some(seg.data@.skip(o as int)));
                            assert(seg.data@.skip(o as int).subrange(0, plen as int)
                                =~= seg.data@.subrange(o as int, o + plen));
                        }
                        return Some(a);
                    }
                    o = o + 1;
                }
            }
            i = i + 1;
        }
        proof {
            assert forall|a: u64| !self.spec_pattern_at(a, pattern@) by {
                if self.spec_pattern_at(a, pattern@) {
                    lemma_seg_match_index(self.segments@, a);
                    let j = choose|j: int|
                        0 <= j < self.segments@.len() && self.segments@[j] == seg_match(
                            self.segments@,
                            a,
                        ).unwrap() && (#[trigger] self.segments@[j]).spec_contains_addr(a);
                    let s = self.segments@[j];
                    let o = a - s.addr;
                    assert(s.data@.skip(o).subrange(0, plen as int) =~= s.data@.subrange(
                        o,
                        o + plen,
                    ));
                }
            }
        }
        None
    }

    /// A random mapped address whose protection covers the filter, if
    /// any segment qualifies; which address comes back is up to chance.
    pub fn random_address(&self, filter: Option<Perms>) -> (r: Option<u64>)
        requires
            self.wf(),
        ensures
            match r {
                Some(a) => self.spec_perm_of(a) matches Some(p) && (filter matches Some(f)
                    ==> p.spec_covers(f)),
                None => forall|j: int|
                    0 <= j < self.segments@.len() ==> ((#[trigger] self.segments@[j]).data@.len()
                        == 0 || (filter matches Some(f)
                        && !self.segments@[j].perms.spec_covers(f))),
            },
    {
        let n = self.segments.len();
        let mut candidates: Vec<usize> = Vec::new();
        let mut i: usize = 0;
        while i < n
            invariant
                self.wf(),
                n == self.segments@.len(),
                i <= n,
                forall|k: int|
                    0 <= k < candidates@.len() ==> (#[trigger] candidates@[k]) < n
                        && self.segments@[candidates@[k] as int].data@.len() > 0 && (
                    filter matches Some(f)
                        ==> self.segments@[candidates@[k] as int].perms.spec_covers(f)),
                forall|j: int|
                    0 <= j < i && (#[trigger] self.segments@[j]).data@.len() > 0 && (
                    filter matches Some(f) ==> self.segments@[j].perms.spec_covers(f))
                        ==> exists|k: int| 0 <= k < candidates@.len() && candidates@[k] == j,
            decreases n - i,
        {
            let seg = &self.segments[i];
            let ok = match &filter {
                Some(f) => seg.perms.covers(f),
                None => true,
            };
            if ok && seg.data.len() > 0 {
                let ghost before = candidates@;
                candidates.push(i);
                proof {
                    assert(candidates@[before.len() as int] == i as usize);
                    assert forall|j: int|
                        0 <= j < i + 1 && (#[trigger] self.segments@[j]).data@.len() > 0 && (
                        filter matches Some(f) ==> self.segments@[j].perms.spec_covers(f))
                            implies exists|k: int|
                            0 <= k < candidates@.len() && candidates@[k] == j by {
                        if j == i {
                            assert(candidates@[before.len() as int] == j);
                        } else {
                            let k = choose|k: int| 0 <= k < before.len() && before[k] == j;
                            assert(candidates@[k] == j);
                        }
                    }
                }
            }
            i = i + 1;
        }
        if candidates.len() == 0 {
            return None;
        }
        let pick = rng::random_in_range(0, candidates.len());
        let si = candidates[pick];
        let seg = &self.segments[si];
        proof {
            assert(self.segments@[si as int].addr as int + self.segments@[si as int].data@.len()
                <= u64::MAX as int + 1);
        }
        let off = rng::random_in_range(0, seg.data.len());
        let a = seg.addr + (off as u64);
        proof {
            lemma_seg_match_unique(self, si as int, a);
        }
        Some(a)
    }
}

/// Whether `pattern` occurs in `data` at offset `off`.
fn matches_at(data: &Vec<u8>, off: usize, pattern: &Vec<u8>) -> (r: bool)
    requires
        off + pattern@.len() <= data@.len(),
    ensures
        r == (data@.subrange(off as int, off + pattern@.len()) == pattern@),
{
    let plen = pattern.len();
    let dlen = data.len();
    let mut k: usize = 0;
    while k < plen
        invariant
            k <= plen,
            plen == pattern@.len(),
            dlen == data@.len(),
            off + plen <= data@.len(),
            forall|t: int| 0 <= t < k ==> data@[off + t] == pattern@[t],
        decreases plen - k,
    {
        if data[off + k] != pattern[k] {
            proof {
                assert(data@.subrange(off as int, off + plen)[k as int] != pattern@[k as int]);
            }
            return false;
        }
        k = k + 1;
    }
    proof {
        assert(data@.subrange(off as int, off + plen) =~= pattern@);
    }
    true
}

} // verus!
