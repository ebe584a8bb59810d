use vstd::prelude::*;

use crate::keyed::{elements_unique, key_pos, keys_unique};
use crate::value::{views, Value, ValueV};

verus! {

/// A lexical address: `up` counts parent hops from the current frame, `index`
/// selects a slot of the frame reached after those hops.
#[derive(Clone, Copy, PartialEq, Eq, Structural, Debug)]
pub struct DeBruijnPair {
    pub up: usize,
    pub index: usize,
}

impl DeBruijnPair {
    pub fn new(up: usize, index: usize) -> (r: DeBruijnPair)
        ensures
            r.up == up,
            r.index == index,
    {
        DeBruijnPair { up, index }
    }
}

/// One environment frame: `size` slots starting at `base` in the heap's slot
/// store, and the frame it links to, `None` for an outermost frame.
#[derive(Clone, Copy, PartialEq, Eq, Structural, Debug)]
pub struct FrameInfo {
    pub base: usize,
    pub size: usize,
    pub parent: Option<usize>,
}

/// The arena that holds every shared, mutable object of a computation:
/// environment frames, arrays, sets and maps, each addressed by its index.
/// Frames are only ever added, and a frame's parent is older than the frame.
pub struct Heap {
    slots: Vec<Value>,
    frames: Vec<FrameInfo>,
    arrays: Vec<Vec<Value>>,
    sets: Vec<Vec<Value>>,
    maps: Vec<Vec<(Value, Value)>>,
}

/// The model of a heap.
pub struct HeapV {
    pub slots: Seq<ValueV>,
    pub frames: Seq<FrameInfo>,
    pub arrays: Seq<Seq<ValueV>>,
    pub sets: Seq<Seq<ValueV>>,
    pub maps: Seq<Seq<(ValueV, ValueV)>>,
}

pub open spec fn pair_views(ps: Seq<(Value, Value)>) -> Seq<(ValueV, ValueV)> {
    ps.map_values(|p: (Value, Value)| (p.0@, p.1@))
}

impl View for Heap {
    type V = HeapV;

    closed spec fn view(&self) -> HeapV {
        HeapV {
            slots: views(self.slots@),
            frames: self.frames@,
            arrays: self.arrays@.map_values(|a: Vec<Value>| views(a@)),
            sets: self.sets@.map_values(|s: Vec<Value>| views(s@)),
            maps: self.maps@.map_values(|m: Vec<(Value, Value)>| pair_views(m@)),
        }
    }
}

impl HeapV {
    /// Every frame lies inside the slot store and links only to an older frame.
    /// Every handle fits in `usize`, and every set and map holds each key
    /// once.
    pub open spec fn wf(self) -> bool {
        &&& forall|i: int|
            #![trigger self.frames[i]]
            0 <= i < self.frames.len() ==> {
                &&& self.frames[i].base + self.frames[i].size <= self.slots.len()
                &&& match self.frames[i].parent {
                    Some(p) => p < i,
                    None => true,
                }
            }
        &&& self.slots.len() <= usize::MAX
        &&& self.frames.len() <= usize::MAX
        &&& self.arrays.len() <= usize::MAX
        &&& self.sets.len() <= usize::MAX
        &&& self.maps.len() <= usize::MAX
        &&& forall|i: int| 0 <= i < self.sets.len() ==> elements_unique(#[trigger] self.sets[i])
        &&& forall|i: int| 0 <= i < self.maps.len() ==> keys_unique(#[trigger] self.maps[i])
    }

    /// The frame reached from frame `f` after `up` parent hops.
    pub open spec fn resolve(self, f: int, up: nat) -> Option<int>
        decreases up,
    {
        if f < 0 || f >= self.frames.len() {
            None
        } else if up == 0 {
            Some(f)
        } else {
            match self.frames[f].parent {
                Some(p) => self.resolve(p as int, (up - 1) as nat),
                None => None,
            }
        }
    }

    /// The position in the slot store that address `a` names from frame `f`.
    pub open spec fn slot_of(self, f: int, a: DeBruijnPair) -> Option<int> {
        match self.resolve(f, a.up as nat) {
            Some(g) => if a.index < self.frames[g].size {
                Some(self.frames[g].base + a.index)
            } else {
                None
            },
            None => None,
        }
    }

    pub open spec fn get(self, f: int, a: DeBruijnPair) -> Option<ValueV> {
        match self.slot_of(f, a) {
            Some(s) => Some(self.slots[s]),
            None => None,
        }
    }

    /// The heap after writing `v` at address `a` from frame `f`; unchanged
    /// where the address does not resolve.
    pub open spec fn set(self, f: int, a: DeBruijnPair, v: ValueV) -> HeapV {
        match self.slot_of(f, a) {
            Some(s) => HeapV { slots: self.slots.update(s, v), ..self },
            None => self,
        }
    }

    /// The heap after adding a frame of `size` nothing-filled slots linked to
    /// `parent`; the new frame's index is `self.frames.len()`.
    pub open spec fn with_frame(self, parent: Option<usize>, size: nat) -> HeapV {
        HeapV {
            slots: self.slots + Seq::new(size, |i: int| ValueV::Nil),
            frames: self.frames.push(
                FrameInfo { base: self.slots.len() as usize, size: size as usize, parent },
            ),
            ..self
        }
    }

    /// The heap after adding a child frame of `parent` with `size` slots.
    pub open spec fn child(self, parent: int, size: nat) -> HeapV {
        self.with_frame(Some(parent as usize), size)
    }
}

pub proof fn lemma_views_push(s: Seq<Value>, v: Value)
    ensures
        views(s.push(v)) == views(s).push(v@),
{
    assert(views(s.push(v)) =~= views(s).push(v@));
}

/// A resolved slot lies inside the slot store.
pub proof fn lemma_slot_in_bounds(h: HeapV, f: int, a: DeBruijnPair)
    requires
        h.wf(),
        h.slot_of(f, a) is Some,
    ensures
        0 <= h.slot_of(f, a).unwrap() < h.slots.len(),
{
    lemma_resolve_in_bounds(h, f, a.up as nat);
    let g = h.resolve(f, a.up as nat).unwrap();
    assert(h.frames[g].base + h.frames[g].size <= h.slots.len());
}

proof fn lemma_resolve_in_bounds(h: HeapV, f: int, up: nat)
    requires
        h.resolve(f, up) is Some,
    ensures
        0 <= h.resolve(f, up).unwrap() < h.frames.len(),
    decreases up,
{
    if up > 0 {
        if let Some(p) = h.frames[f].parent {
            lemma_resolve_in_bounds(h, p as int, (up - 1) as nat);
        }
    }
}

/// Reading an address right after writing `v` there gives `v` back.
pub proof fn lemma_get_after_set(h: HeapV, f: int, a: DeBruijnPair, v: ValueV)
    requires
        h.wf(),
        h.slot_of(f, a) is Some,
    ensures
        h.set(f, a, v).get(f, a) == Some(v),
        h.set(f, a, v).wf(),
{
    lemma_slot_in_bounds(h, f, a);
    let h2 = h.set(f, a, v);
    assert(h2.frames == h.frames);
    lemma_resolve_same_frames(h, h2, f, a.up as nat);
}

proof fn lemma_resolve_same_frames(h: HeapV, h2: HeapV, f: int, up: nat)
    requires
        h.frames == h2.frames,
    ensures
        h.resolve(f, up) == h2.resolve(f, up),
    decreases up,
{
    if up > 0 && 0 <= f < h.frames.len() {
        if let Some(p) = h.frames[f].parent {
            lemma_resolve_same_frames(h, h2, p as int, (up - 1) as nat);
        }
    }
}

impl Heap {
    /// A heap holding one outermost frame, index 0, of `size` nothing-filled
    /// slots.
    pub fn new(size: usize) -> (r: Heap)
        ensures
            r@.wf(),
            r@.frames == seq![FrameInfo { base: 0, size, parent: None }],
            r@.slots == Seq::new(size as nat, |i: int| ValueV::Nil),
            r@.arrays.len() == 0,
            r@.sets.len() == 0,
            r@.maps.len() == 0,
    {
        let mut slots: Vec<Value> = Vec::new();
        let mut i: usize = 0;
        while i < size
            invariant
                i <= size,
                views(slots@) == Seq::new(i as nat, |j: int| ValueV::Nil),
            decreases size - i,
        {
            proof {
                lemma_views_push(slots@, Value::Nil);
            }
            slots.push(Value::Nil);
            i = i + 1;
            proof {
                assert(views(slots@) =~= Seq::new(i as nat, |j: int| ValueV::Nil));
            }
        }
        let mut frames: Vec<FrameInfo> = Vec::new();
        frames.push(FrameInfo { base: 0, size, parent: None });
        let h = Heap { slots, frames, arrays: Vec::new(), sets: Vec::new(), maps: Vec::new() };
        proof {
            assert(h@.frames =~= seq![FrameInfo { base: 0, size, parent: None }]);
            assert(h@.arrays =~= Seq::empty());
            assert(h@.sets =~= Seq::empty());
            assert(h@.maps =~= Seq::empty());
        }
        h
    }

    pub fn frame_count(&self) -> (r: usize)
        ensures
            r == self@.frames.len(),
    {
        self.frames.len()
    }

    /// The position in the slot store that `addr` names from frame `f`.
    fn locate(&self, f: usize, addr: DeBruijnPair) -> (r: Option<usize>)
        requires
            self@.wf(),
        ensures
            r matches Some(s) ==> self@.slot_of(f as int, addr) == Some(s as int),
            r is None ==> self@.slot_of(f as int, addr) is None,
    {
        let mut g: usize = f;
        let mut up: usize = addr.up;
        while up > 0
            invariant
                self@.wf(),
                self@.resolve(f as int, addr.up as nat) == self@.resolve(g as int, up as nat),
            decreases up,
        {
            if g >= self.frames.len() {
                return None;
            }
            match self.frames[g].parent {
                Some(p) => {
                    g = p;
                    up = up - 1;
                },
                None => {
                    return None;
                },
            }
        }
        if g >= self.frames.len() {
            return None;
        }
        let fr = self.frames[g];
        let total = self.slots.len();
        if addr.index < fr.size {
            proof {
                assert(fr == self@.frames[g as int]);
                assert(self@.frames[g as int].base + self@.frames[g as int].size <= self@.slots.len());
                assert(fr.base + addr.index < total);
            }
            Some(fr.base + addr.index)
        } else {
            None
        }
    }

    /// The value at `addr` from frame `f`; `None` where the address does not
    /// resolve.
    pub fn get(&self, f: usize, addr: DeBruijnPair) -> (r: Option<Value>)
        requires
            self@.wf(),
        ensures
            r matches Some(v) ==> self@.get(f as int, addr) == Some(v@),
            r is None ==> self@.get(f as int, addr) is None,
    {
        match self.locate(f, addr) {
            Some(s) => {
                proof {
                    lemma_slot_in_bounds(self@, f as int, addr);
                }
                Some(self.slots[s].copy())
            },
            None => None,
        }
    }

    /// Writes `v` at `addr` from frame `f`; returns whether the address
    /// resolved. The heap is unchanged where it did not.
    pub fn set(&mut self, f: usize, addr: DeBruijnPair, v: Value) -> (r: bool)
        requires
            old(self)@.wf(),
        ensures
            r == (old(self)@.slot_of(f as int, addr) is Some),
            final(self)@ == old(self)@.set(f as int, addr, v@),
            final(self)@.wf(),
    {
        match self.locate(f, addr) {
            Some(s) => {
                proof {
                    lemma_slot_in_bounds(self@, f as int, addr);
                }
                let ghost old_h = self@;
                self.slots.set(s, v);
                proof {
                    assert(self@.slots =~= old_h.slots.update(s as int, v@));
                    assert(self@.frames =~= old_h.frames);
                    assert(self@ == old_h.set(f as int, addr, v@));
                }
                true
            },
            None => false,
        }
    }

    fn push_frame(&mut self, parent: Option<usize>, size: usize) -> (r: usize)
        requires
            old(self)@.wf(),
            parent matches Some(p) ==> p < old(self)@.frames.len(),
            old(self)@.slots.len() + size <= usize::MAX,
        ensures
            r == old(self)@.frames.len(),
            final(self)@ == old(self)@.with_frame(parent, size as nat),
            final(self)@.wf(),
    {
        let ghost old_h = self@;
        let base = self.slots.len();
        let mut i: usize = 0;
        while i < size
            invariant
                i <= size,
                base == old_h.slots.len(),
                self.frames@ == old_h.frames,
                self@.arrays == old_h.arrays,
                self@.sets == old_h.sets,
                self@.maps == old_h.maps,
                views(self.slots@) == old_h.slots + Seq::new(i as nat, |j: int| ValueV::Nil),
            decreases size - i,
        {
            proof {
                lemma_views_push(self.slots@, Value::Nil);
            }
            self.slots.push(Value::Nil);
            i = i + 1;
            proof {
                assert(views(self.slots@) =~= old_h.slots + Seq::new(i as nat, |j: int| ValueV::Nil));
            }
        }
        let id = self.frames.len();
        self.frames.push(FrameInfo { base, size, parent });
        proof {
            assert(self@ =~= old_h.with_frame(parent, size as nat));
            self.lemma_bounded();
        }
        id
    }

    /// The lengths of a heap's stores fit in `usize`.
    proof fn lemma_bounded(&self)
        ensures
            self@.slots.len() <= usize::MAX,
            self@.frames.len() <= usize::MAX,
            self@.arrays.len() <= usize::MAX,
            self@.sets.len() <= usize::MAX,
            self@.maps.len() <= usize::MAX,
    {
        assert(self.slots.len() == self.slots@.len());
        assert(self.frames.len() == self.frames@.len());
        assert(self.arrays.len() == self.arrays@.len());
        assert(self.sets.len() == self.sets@.len());
        assert(self.maps.len() == self.maps@.len());
    }

    /// Adds a frame of `size` nothing-filled slots linked to `parent` and
    /// returns its index.
    pub fn child(&mut self, parent: usize, size: usize) -> (r: usize)
        requires
            old(self)@.wf(),
            parent < old(self)@.frames.len(),
            old(self)@.slots.len() + size <= usize::MAX,
        ensures
            r == old(self)@.frames.len(),
            final(self)@ == old(self)@.child(parent as int, size as nat),
            final(self)@.wf(),
    {
        self.push_frame(Some(parent), size)
    }

    /// Adds the frame of one invocation of a closure whose captured frame is
    /// `f`: `size` nothing-filled slots linked to the parent of `f`, so that an
    /// address means the same from either frame but for the slots of its own.
    pub fn invocation_frame(&mut self, f: usize, size: usize) -> (r: usize)
        requires
            old(self)@.wf(),
            f < old(self)@.frames.len(),
            old(self)@.slots.len() + size <= usize::MAX,
        ensures
            r == old(self)@.frames.len(),
            final(self)@ == old(self)@.with_frame(old(self)@.frames[f as int].parent, size as nat),
            final(self)@.wf(),
    {
        let parent = self.frames[f].parent;
        proof {
            assert(self@.frames[f as int].parent == parent);
        }
        self.push_frame(parent, size)
    }

    /// Stores a new array holding `items` and returns its index.
    pub fn alloc_array(&mut self, items: Vec<Value>) -> (r: usize)
        requires
            old(self)@.wf(),
        ensures
            final(self)@.wf(),
            r == old(self)@.arrays.len(),
            final(self)@ == (HeapV { arrays: old(self)@.arrays.push(views(items@)), ..old(self)@ }),
    {
        let ghost old_h = self@;
        let id = self.arrays.len();
        self.arrays.push(items);
        proof {
            self.lemma_bounded();
            assert(self@.arrays =~= old_h.arrays.push(views(items@)));
        }
        id
    }

    /// Stores a new set whose elements, in order, are `items`, each once, and
    /// returns its index.
    pub fn alloc_set(&mut self, items: Vec<Value>) -> (r: usize)
        requires
            old(self)@.wf(),
            elements_unique(views(items@)),
        ensures
            final(self)@.wf(),
            r == old(self)@.sets.len(),
            final(self)@ == (HeapV { sets: old(self)@.sets.push(views(items@)), ..old(self)@ }),
    {
        let ghost old_h = self@;
        let id = self.sets.len();
        self.sets.push(items);
        proof {
            self.lemma_bounded();
            assert(self@.sets =~= old_h.sets.push(views(items@)));
        }
        id
    }

    /// Stores a new map whose entries, in order, are `entries`, one per key,
    /// and returns its index.
    pub fn alloc_map(&mut self, entries: Vec<(Value, Value)>) -> (r: usize)
        requires
            old(self)@.wf(),
            keys_unique(pair_views(entries@)),
        ensures
            final(self)@.wf(),
            r == old(self)@.maps.len(),
            final(self)@ == (HeapV { maps: old(self)@.maps.push(pair_views(entries@)), ..old(self)@ }),
    {
        let ghost old_h = self@;
        let id = self.maps.len();
        self.maps.push(entries);
        proof {
            self.lemma_bounded();
            assert(self@.maps =~= old_h.maps.push(pair_views(entries@)));
        }
        id
    }

    /// The number of slots of frame `f`.
    pub fn frame_size(&self, f: usize) -> (r: usize)
        requires
            f < self@.frames.len(),
        ensures
            r == self@.frames[f as int].size,
    {
        self.frames[f].size
    }

    /// Element `i` of array `a`.
    pub fn array_get(&self, a: usize, i: usize) -> (r: Option<Value>)
        ensures
            r matches Some(v) ==> a < self@.arrays.len() && i < self@.arrays[a as int].len() && v@
                == self@.arrays[a as int][i as int],
            r is None ==> !(a < self@.arrays.len() && i < self@.arrays[a as int].len()),
    {
        if a < self.arrays.len() && i < self.arrays[a].len() {
            Some(self.arrays[a][i].copy())
        } else {
            None
        }
    }

    /// The number of elements of array `a`.
    pub fn array_len(&self, a: usize) -> (r: Option<usize>)
        ensures
            r matches Some(n) ==> a < self@.arrays.len() && n == self@.arrays[a as int].len(),
            r is None ==> a >= self@.arrays.len(),
    {
        if a < self.arrays.len() {
            Some(self.arrays[a].len())
        } else {
            None
        }
    }

    /// The number of elements of set `s`.
    pub fn set_len(&self, s: usize) -> (r: Option<usize>)
        ensures
            r matches Some(n) ==> s < self@.sets.len() && n == self@.sets[s as int].len(),
            r is None ==> s >= self@.sets.len(),
    {
        if s < self.sets.len() {
            Some(self.sets[s].len())
        } else {
            None
        }
    }

    /// Whether set `s` holds `v`.
    pub fn set_contains(&self, s: usize, v: &Value) -> (r: bool)
        ensures
            r == (s < self@.sets.len() && self@.sets[s as int].contains(v@)),
    {
        if s >= self.sets.len() {
            return false;
        }
        let elems = &self.sets[s];
        let mut i: usize = 0;
        while i < elems.len()
            invariant
                i <= elems@.len(),
                s < self@.sets.len(),
                views(elems@) == self@.sets[s as int],
                forall|j: int| 0 <= j < i ==> self@.sets[s as int][j] != v@,
            decreases elems@.len() - i,
        {
            if elems[i].same(v) {
                proof {
                    assert(self@.sets[s as int][i as int] == v@);
                }
                return true;
            }
            i = i + 1;
        }
        false
    }

    /// The number of entries of map `m`.
    pub fn map_len(&self, m: usize) -> (r: Option<usize>)
        ensures
            r matches Some(n) ==> m < self@.maps.len() && n == self@.maps[m as int].len(),
            r is None ==> m >= self@.maps.len(),
    {
        if m < self.maps.len() {
            Some(self.maps[m].len())
        } else {
            None
        }
    }

    /// The value that map `m` holds for key `k`.
    pub fn map_get(&self, m: usize, k: &Value) -> (r: Option<Value>)
        ensures
            m < self@.maps.len() && key_pos(self@.maps[m as int], k@, 0) is Some ==> (r matches Some(
                v,
            ) && v@ == self@.maps[m as int][key_pos(self@.maps[m as int], k@, 0).unwrap()].1),
            !(m < self@.maps.len() && key_pos(self@.maps[m as int], k@, 0) is Some) ==> r is None,
    {
        if m >= self.maps.len() {
            return None;
        }
        let entries = &self.maps[m];
        let ghost pm = self@.maps[m as int];
        let mut i: usize = 0;
        while i < entries.len()
            invariant
                i <= entries@.len(),
                m < self@.maps.len(),
                pm == self@.maps[m as int],
                pair_views(entries@) == pm,
                key_pos(pm, k@, 0) == key_pos(pm, k@, i as int),
            decreases entries@.len() - i,
        {
            if entries[i].0.same(k) {
                proof {
                    assert(pm[i as int].0 == k@);
                    assert(key_pos(pm, k@, i as int) == Some(i as int));
                }
                return Some(entries[i].1.copy());
            }
            proof {
                assert(pm[i as int].0 != k@);
            }
            i = i + 1;
        }
        proof {
            assert(key_pos(pm, k@, i as int) is None);
        }
        None
    }

    pub fn slot_count(&self) -> (r: usize)
        ensures
            r == self@.slots.len(),
    {
        self.slots.len()
    }
}

} // verus!
