//! The spatial partition map: a fixed world square subdivided into a grid of
//! regions, each region holding a free-list-backed slot arena, addressed by
//! stable keys.
//!
//! A world position maps to a [`Region`] by exact rational arithmetic:
//! cell index `floor(p * cells / size)`, which equals `floor(p / (size /
//! cells))` for the real-valued cell size `size / cells`. A [`Key`] is a
//! `(region, slot)` pair and stays valid until the slot is explicitly
//! removed; removing a neighbour never moves other entries, because a freed
//! slot is reused by the next insert before the arena grows.

use std::collections::HashMap;
use vstd::prelude::*;

use crate::error::Error;
use crate::geom::Vector2d;

verus! {

broadcast use vstd::std_specs::hash::group_hash_axioms;

/// The multiplier that packs a region's x index above its y index in a
/// region code.
pub const REGION_STRIDE: u64 = 0x1_0000_0000;

/// One cell of the fixed world subdivision grid.
#[derive(Clone, Copy, PartialEq, Eq, Structural, Debug)]
pub struct Region {
    pub x: u32,
    pub y: u32,
}

/// A stable handle into the partition map: a region and a slot index in that
/// region's arena. Valid until the slot is explicitly removed.
#[derive(PartialEq, Eq, Structural, Debug)]
pub struct Key {
    pub region: Region,
    pub slot: usize,
}

impl Key {
    /// An explicit duplicate of the handle. `Key` is deliberately neither
    /// `Clone` nor `Copy`, so that plain client code moves its one handle
    /// around; duplication is reserved to code that manages the slots
    /// themselves.
    pub fn copy_internal(&self) -> (r: Key)
        ensures
            r == *self,
    {
        Key { region: self.region, slot: self.slot }
    }
}

/// The packed `u64` under which a region's arena is stored.
pub open spec fn region_code_spec(r: Region) -> u64 {
    (r.x as u64 * REGION_STRIDE + r.y as u64) as u64
}

/// The region a packed code stands for.
pub open spec fn code_region(k: u64) -> Region {
    Region { x: (k / REGION_STRIDE) as u32, y: (k % REGION_STRIDE) as u32 }
}

/// Packing a region and unpacking the code round-trips.
pub proof fn lemma_region_code_roundtrip(r: Region)
    ensures
        code_region(region_code_spec(r)) == r,
{
    vstd::arithmetic::div_mod::lemma_fundamental_div_mod_converse(
        r.x as int * REGION_STRIDE as int + r.y as int,
        REGION_STRIDE as int,
        r.x as int,
        r.y as int,
    );
}

/// Distinct regions get distinct codes.
pub proof fn lemma_region_code_injective(a: Region, b: Region)
    ensures
        region_code_spec(a) == region_code_spec(b) ==> a == b,
{
    if region_code_spec(a) == region_code_spec(b) {
        lemma_region_code_roundtrip(a);
        lemma_region_code_roundtrip(b);
    }
}

pub fn region_code(r: Region) -> (c: u64)
    ensures
        c == region_code_spec(r),
{
    r.x as u64 * REGION_STRIDE + r.y as u64
}

/// The index of the first empty slot of an arena, or its length if every
/// slot is occupied: the slot the next insert will fill.
pub open spec fn first_free<T>(s: Seq<Option<T>>) -> int
    decreases s.len(),
{
    if s.len() == 0 {
        0
    } else if s[0] is None {
        0
    } else {
        1 + first_free(s.skip(1))
    }
}

/// What [`first_free`] returns: the first index not holding a value.
pub proof fn lemma_first_free<T>(s: Seq<Option<T>>)
    ensures
        0 <= first_free(s) <= s.len(),
        first_free(s) < s.len() ==> s[first_free(s)] is None,
        forall|j: int| 0 <= j < first_free(s) ==> s[j] is Some,
    decreases s.len(),
{
    if s.len() == 0 {
    } else if s[0] is None {
    } else {
        lemma_first_free(s.skip(1));
        assert forall|j: int| 0 <= j < first_free(s) implies s[j] is Some by {
            if j >= 1 {
                assert(s.skip(1)[j - 1] == s[j]);
            }
        }
        if first_free(s) < s.len() {
            assert(s.skip(1)[first_free(s) - 1] == s[first_free(s)]);
        }
    }
}

/// Any index with only occupied slots below it and an empty slot (or the
/// arena's end) at it is the first free index.
pub proof fn lemma_first_free_unique<T>(s: Seq<Option<T>>, i: int)
    requires
        0 <= i <= s.len(),
        forall|j: int| 0 <= j < i ==> s[j] is Some,
        i < s.len() ==> s[i] is None,
    ensures
        first_free(s) == i,
{
    lemma_first_free(s);
    if first_free(s) < i {
        assert(s[first_free(s)] is Some);
    }
    if i < first_free(s) {
        assert(s[i] is Some);
    }
}

/// The arena after inserting a value: the first free slot is filled, and
/// only if there is none does the arena grow by one.
pub open spec fn arena_after_insert<T>(s: Seq<Option<T>>, v: T) -> Seq<Option<T>> {
    if first_free(s) < s.len() {
        s.update(first_free(s), Some(v))
    } else {
        s.push(Some(v))
    }
}

/// Inserts a value into the first empty slot of `vec`, appending only when
/// every slot is occupied, and returns the slot index used. Freed slots are
/// thus reused before the arena grows, which keeps the indices of all other
/// entries stable.
pub fn insert<T>(vec: &mut Vec<Option<T>>, value: T) -> (index: usize)
    ensures
        index == first_free(old(vec)@),
        final(vec)@ == arena_after_insert(old(vec)@, value),
        index < final(vec)@.len(),
        final(vec)@[index as int] == Some(value),
        old(vec)@.len() <= final(vec)@.len() <= old(vec)@.len() + 1,
        first_free(old(vec)@) < old(vec)@.len() ==> final(vec)@.len() == old(vec)@.len(),
{
    let n = vec.len();
    let mut i: usize = 0;
    while i < n
        invariant
            i <= n,
            n == vec@.len(),
            *vec == *old(vec),
            forall|j: int| 0 <= j < i ==> vec@[j] is Some,
        decreases n - i,
    {
        if vec[i].is_none() {
            proof {
                lemma_first_free_unique(vec@, i as int);
            }
            vec.set(i, Some(value));
            return i;
        }
        i = i + 1;
    }
    proof {
        lemma_first_free_unique(vec@, n as int);
    }
    vec.push(Some(value));
    n
}

/// Both coordinates lie inside the world bounds `[0, size)`.
pub open spec fn valid_point(p: Vector2d, size: u32) -> bool {
    &&& 0 <= p.x < size
    &&& 0 <= p.y < size
}

/// The grid index of one coordinate: `floor(p * cells / size)`, which is
/// exactly `floor(p / (size / cells))` for the real-valued cell size
/// `size / cells`.
pub open spec fn region_axis(p: int, size: u32, cells: u32) -> int {
    p * cells / (size as int)
}

/// The region holding a world point.
pub open spec fn region_of(p: Vector2d, size: u32, cells: u32) -> Region {
    Region {
        x: region_axis(p.x as int, size, cells) as u32,
        y: region_axis(p.y as int, size, cells) as u32,
    }
}

/// The largest axis index any in-bounds point can map to.
pub open spec fn max_axis(size: u32, cells: u32) -> int {
    region_axis(size as int - 1, size, cells)
}

pub proof fn lemma_region_axis_bounds(p: int, size: u32, cells: u32)
    requires
        0 <= p < size,
        1 <= size,
        1 <= cells,
    ensures
        0 <= region_axis(p, size, cells) < cells,
        region_axis(p, size, cells) <= max_axis(size, cells),
{
    let s = size as int;
    let c = cells as int;
    vstd::arithmetic::mul::lemma_mul_nonnegative(p, c);
    vstd::arithmetic::div_mod::lemma_div_pos_is_pos(p * c, s);
    assert(p * c < s * c) by (nonlinear_arith)
        requires
            p < s,
            1 <= c,
    ;
    vstd::arithmetic::div_mod::lemma_multiply_divide_lt(p * c, s, c);
    assert(p * c <= (s - 1) * c) by (nonlinear_arith)
        requires
            p <= s - 1,
            0 <= c,
    ;
    vstd::arithmetic::div_mod::lemma_div_is_ordered(p * c, (s - 1) * c, s);
}

/// Cell boundaries by exact arithmetic: a coordinate lands in cell `k`
/// exactly when `k * size <= p * cells < (k + 1) * size`, that is, when it
/// lies in the real interval `[k * (size/cells), (k+1) * (size/cells))`.
/// A point exactly on a cell boundary therefore belongs to the higher-index
/// cell: the lower bound of each cell is included, its upper bound excluded.
pub proof fn lemma_region_axis_boundaries(p: int, size: u32, cells: u32, k: int)
    requires
        0 <= p < size,
        1 <= size,
        1 <= cells,
    ensures
        region_axis(p, size, cells) == k <==> (k * size <= p * cells && p * cells < (k + 1)
            * size),
{
    let s = size as int;
    let c = cells as int;
    vstd::arithmetic::mul::lemma_mul_nonnegative(p, c);
    vstd::arithmetic::div_mod::lemma_fundamental_div_mod(p * c, s);
    vstd::arithmetic::div_mod::lemma_mod_bound(p * c, s);
    if region_axis(p, size, cells) == k {
        assert(k * s <= p * c && p * c < (k + 1) * s) by (nonlinear_arith)
            requires
                p * c == s * (p * c / s) + (p * c) % s,
                0 <= (p * c) % s < s,
                k == p * c / s,
        ;
    }
    if k * s <= p * c && p * c < (k + 1) * s {
        assert(0 <= p * c - k * s < s) by (nonlinear_arith)
            requires
                k * s <= p * c,
                p * c < (k + 1) * s,
        ;
        vstd::arithmetic::div_mod::lemma_fundamental_div_mod_converse(p * c, s, k, p * c - k * s);
    }
}

/// The arena a model holds for a region: empty until the first insert.
pub open spec fn arena_in<T>(m: Map<u64, Seq<Option<T>>>, r: Region) -> Seq<Option<T>> {
    if m.contains_key(region_code_spec(r)) {
        m[region_code_spec(r)]
    } else {
        Seq::empty()
    }
}

/// A key names an occupied slot of its region's arena.
pub open spec fn key_valid<T>(m: Map<u64, Seq<Option<T>>>, k: Key) -> bool {
    &&& k.slot < arena_in(m, k.region).len()
    &&& arena_in(m, k.region)[k.slot as int] is Some
}

/// The value a valid key points at.
pub open spec fn value_at<T>(m: Map<u64, Seq<Option<T>>>, k: Key) -> T
    recommends
        key_valid(m, k),
{
    arena_in(m, k.region)[k.slot as int].unwrap()
}

/// The model after inserting a value at a region: that region's arena gets
/// the value in its first free slot, all other regions are untouched.
pub open spec fn model_insert<T>(m: Map<u64, Seq<Option<T>>>, r: Region, v: T) -> Map<
    u64,
    Seq<Option<T>>,
> {
    m.insert(region_code_spec(r), arena_after_insert(arena_in(m, r), v))
}

/// The slot [`model_insert`] fills.
pub open spec fn inserted_slot<T>(m: Map<u64, Seq<Option<T>>>, r: Region) -> int {
    first_free(arena_in(m, r))
}

/// The model after removing a valid key: only that slot becomes empty.
pub open spec fn model_remove<T>(m: Map<u64, Seq<Option<T>>>, k: Key) -> Map<
    u64,
    Seq<Option<T>>,
> {
    m.insert(region_code_spec(k.region), arena_in(m, k.region).update(k.slot as int, None))
}

/// The keyed index from region to slot arena, over a square world of extent
/// `[0, size)` subdivided into `cells x cells` grid cells.
pub struct PartitionMap<T> {
    /// Each region's arena, stored under the region's packed code; a region
    /// appears once the first point is inserted into it.
    pub raw_map: HashMap<u64, Vec<Option<T>>>,
    /// World extent: valid points lie in `[0, size)` on both axes.
    pub size: u32,
    /// Cells per axis of the subdivision grid.
    pub cells: u32,
}

impl<T> PartitionMap<T> {
    /// The mathematical content: each present region code maps to the
    /// sequence of its arena's slots.
    pub open spec fn model(self) -> Map<u64, Seq<Option<T>>> {
        Map::new(|k: u64| self.raw_map@.contains_key(k), |k: u64| self.raw_map@[k]@)
    }

    /// The arena of one region (empty if the region is not present).
    pub open spec fn arena(self, r: Region) -> Seq<Option<T>> {
        arena_in(self.model(), r)
    }

    /// The grid is non-degenerate and every stored region code decodes to a
    /// region that an in-bounds point can actually produce.
    pub open spec fn wf(self) -> bool {
        &&& 1 <= self.size
        &&& 1 <= self.cells <= 0x8000_0000u32
        &&& forall|k: u64| #[trigger] self.raw_map@.contains_key(k) ==> {
            &&& region_code_spec(code_region(k)) == k
            &&& code_region(k).x <= max_axis(self.size, self.cells)
            &&& code_region(k).y <= max_axis(self.size, self.cells)
        }
    }

    /// An empty map over a `size`-sized world split into `2^depth` cells per
    /// axis.
    pub fn new(size: u32, depth: u32) -> (r: PartitionMap<T>)
        requires
            1 <= size,
            depth < 32,
        ensures
            r.wf(),
            r.size == size,
            r.cells == (1u32 << depth),
            r.model() == Map::<u64, Seq<Option<T>>>::empty(),
    {
        proof {
            assert(1u32 <= (1u32 << depth) <= 0x8000_0000u32) by (bit_vector)
                requires
                    depth < 32u32,
            ;
        }
        let cells = 1u32 << depth;
        let pm = PartitionMap { raw_map: HashMap::new(), size, cells };
        proof {
            assert(pm.model() =~= Map::<u64, Seq<Option<T>>>::empty());
        }
        pm
    }

    /// The region holding `point`, or which coordinate lies outside the
    /// world. Deterministic: the result is a pure function of the point and
    /// the map's dimensions.
    pub fn point_to_region(&self, point: Vector2d) -> (r: Result<Region, Error>)
        requires
            self.wf(),
        ensures
            match r {
                Ok(reg) => {
                    &&& valid_point(point, self.size)
                    &&& reg == region_of(point, self.size, self.cells)
                    &&& reg.x <= max_axis(self.size, self.cells)
                    &&& reg.y <= max_axis(self.size, self.cells)
                },
                Err(e) => {
                    &&& !valid_point(point, self.size)
                    &&& (e == Error::XOutOfBound <==> !(0 <= point.x < self.size))
                    &&& (e == Error::YOutOfBound <==> (0 <= point.x < self.size) && !(0
                        <= point.y < self.size))
                },
            },
    {
        if point.x >= 0 && point.x < self.size as i64 {
            if point.y >= 0 && point.y < self.size as i64 {
                proof {
                    lemma_region_axis_bounds(point.x as int, self.size, self.cells);
                    lemma_region_axis_bounds(point.y as int, self.size, self.cells);
                    lemma_region_mul_in_u64(point.x as int, self.cells as int);
                    lemma_region_mul_in_u64(point.y as int, self.cells as int);
                }
                let div_x = ((point.x as u64 * self.cells as u64) / self.size as u64) as u32;
                let div_y = ((point.y as u64 * self.cells as u64) / self.size as u64) as u32;
                Ok(Region { x: div_x, y: div_y })
            } else {
                Err(Error::YOutOfBound)
            }
        } else {
            Err(Error::XOutOfBound)
        }
    }
}

impl<T> PartitionMap<T> {
    /// Whether a key is currently valid, and if not, which error describes
    /// it.
    fn check_key(&self, key: &Key) -> (r: Option<Error>)
        requires
            self.wf(),
        ensures
            match r {
                None => key_valid(self.model(), *key),
                Some(e) => {
                    &&& !key_valid(self.model(), *key)
                    &&& (e == Error::RegionNotPresent <==> !self.model().contains_key(
                        region_code_spec(key.region),
                    ))
                    &&& (e == Error::InvalidKey <==> self.model().contains_key(
                        region_code_spec(key.region),
                    ))
                },
            },
    {
        let code = region_code(key.region);
        match self.raw_map.get(&code) {
            None => Some(Error::RegionNotPresent),
            Some(arena) => {
                if key.slot >= arena.len() {
                    Some(Error::InvalidKey)
                } else if arena[key.slot].is_none() {
                    Some(Error::InvalidKey)
                } else {
                    None
                }
            },
        }
    }

    /// Removes the value behind a key known to be valid; only that slot
    /// changes.
    pub(crate) fn take_at(&mut self, key: &Key) -> (v: T)
        requires
            old(self).wf(),
            key_valid(old(self).model(), *key),
        ensures
            final(self).wf(),
            final(self).size == old(self).size,
            final(self).cells == old(self).cells,
            v == value_at(old(self).model(), *key),
            final(self).model() == model_remove(old(self).model(), *key),
    {
        let ghost m0 = self.raw_map@;
        let code = region_code(key.region);
        let mut arena = self.raw_map.remove(&code).unwrap();
        let mut taken: Option<T> = None;
        arena.set_and_swap(key.slot, &mut taken);
        self.raw_map.insert(code, arena);
        proof {
            assert(self.raw_map@ =~= m0.insert(code, self.raw_map@[code]));
            assert(self.model() =~= model_remove(old(self).model(), *key));
        }
        taken.unwrap()
    }

    /// Inserts a value into a region's arena at its first free slot,
    /// creating the arena if the region is not present yet.
    fn insert_at(&mut self, region: Region, value: T) -> (slot: usize)
        requires
            old(self).wf(),
            region.x <= max_axis(old(self).size, old(self).cells),
            region.y <= max_axis(old(self).size, old(self).cells),
        ensures
            final(self).wf(),
            final(self).size == old(self).size,
            final(self).cells == old(self).cells,
            slot == inserted_slot(old(self).model(), region),
            final(self).model() == model_insert(old(self).model(), region, value),
    {
        let ghost m0 = self.raw_map@;
        let code = region_code(region);
        let mut arena: Vec<Option<T>> = match self.raw_map.remove(&code) {
            Some(a) => a,
            None => Vec::new(),
        };
        proof {
            assert(arena@ == arena_in(old(self).model(), region));
        }
        let slot = insert(&mut arena, value);
        self.raw_map.insert(code, arena);
        proof {
            lemma_region_code_roundtrip(region);
            assert(self.raw_map@ =~= m0.insert(code, self.raw_map@[code]));
            assert(self.model() =~= model_insert(old(self).model(), region, value));
        }
        slot
    }

    /// Inserts a value at a world point: resolves the point's region and
    /// fills that region's first free arena slot. Succeeds exactly when the
    /// point lies inside the world.
    pub fn insert_point(&mut self, point: Vector2d, value: T) -> (r: Result<Key, Error>)
        requires
            old(self).wf(),
        ensures
            final(self).wf(),
            final(self).size == old(self).size,
            final(self).cells == old(self).cells,
            match r {
                Ok(k) => {
                    &&& valid_point(point, old(self).size)
                    &&& k.region == region_of(point, old(self).size, old(self).cells)
                    &&& k.slot == inserted_slot(old(self).model(), k.region)
                    &&& final(self).model() == model_insert(old(self).model(), k.region, value)
                    &&& key_valid(final(self).model(), k)
                    &&& value_at(final(self).model(), k) == value
                },
                Err(e) => {
                    &&& *final(self) == *old(self)
                    &&& !valid_point(point, old(self).size)
                    &&& (e == Error::XOutOfBound <==> !(0 <= point.x < old(self).size))
                    &&& (e == Error::YOutOfBound <==> (0 <= point.x < old(self).size) && !(0
                        <= point.y < old(self).size))
                },
            },
    {
        let region = match self.point_to_region(point) {
            Ok(region) => region,
            Err(e) => {
                return Err(e);
            },
        };
        proof {
            lemma_first_free(arena_in(self.model(), region));
        }
        let slot = self.insert_at(region, value);
        proof {
            lemma_region_code_roundtrip(region);
        }
        Ok(Key { region, slot })
    }

    /// Removes the value behind a key. Succeeds exactly when the key is
    /// valid; on failure nothing changes, and the error tells whether the
    /// whole region is absent or only the slot is empty or out of range.
    pub fn remove_point(&mut self, key: Key) -> (r: Result<T, Error>)
        requires
            old(self).wf(),
        ensures
            final(self).wf(),
            final(self).size == old(self).size,
            final(self).cells == old(self).cells,
            match r {
                Ok(v) => {
                    &&& key_valid(old(self).model(), key)
                    &&& v == value_at(old(self).model(), key)
                    &&& final(self).model() == model_remove(old(self).model(), key)
                },
                Err(e) => {
                    &&& *final(self) == *old(self)
                    &&& !key_valid(old(self).model(), key)
                    &&& (e == Error::RegionNotPresent <==> !old(self).model().contains_key(
                        region_code_spec(key.region),
                    ))
                    &&& (e == Error::InvalidKey <==> old(self).model().contains_key(
                        region_code_spec(key.region),
                    ))
                },
            },
    {
        match self.check_key(&key) {
            Some(e) => Err(e),
            None => Ok(self.take_at(&key)),
        }
    }

    /// Moves the value behind a key to a new point: in effect an atomic
    /// remove-and-reinsert that returns the fresh key. The key is checked
    /// first, then the point; if either check fails, nothing changes.
    pub fn move_point(&mut self, key: Key, point: Vector2d) -> (r: Result<Key, Error>)
        requires
            old(self).wf(),
        ensures
            final(self).wf(),
            final(self).size == old(self).size,
            final(self).cells == old(self).cells,
            match r {
                Ok(k2) => {
                    &&& key_valid(old(self).model(), key)
                    &&& valid_point(point, old(self).size)
                    &&& k2.region == region_of(point, old(self).size, old(self).cells)
                    &&& k2.slot == inserted_slot(model_remove(old(self).model(), key), k2.region)
                    &&& final(self).model() == model_insert(
                        model_remove(old(self).model(), key),
                        k2.region,
                        value_at(old(self).model(), key),
                    )
                    &&& key_valid(final(self).model(), k2)
                    &&& value_at(final(self).model(), k2) == value_at(old(self).model(), key)
                },
                Err(e) => {
                    &&& *final(self) == *old(self)
                    &&& (!key_valid(old(self).model(), key) || !valid_point(
                        point,
                        old(self).size,
                    ))
                    &&& (!key_valid(old(self).model(), key) ==> {
                        &&& (e == Error::RegionNotPresent <==> !old(self).model().contains_key(
                            region_code_spec(key.region),
                        ))
                        &&& (e == Error::InvalidKey <==> old(self).model().contains_key(
                            region_code_spec(key.region),
                        ))
                    })
                    &&& (key_valid(old(self).model(), key) ==> {
                        &&& !valid_point(point, old(self).size)
                        &&& (e == Error::XOutOfBound <==> !(0 <= point.x < old(self).size))
                        &&& (e == Error::YOutOfBound <==> (0 <= point.x < old(self).size) && !(
                        0 <= point.y < old(self).size))
                    })
                },
            },
    {
        if let Some(e) = self.check_key(&key) {
            return Err(e);
        }
        let region2 = match self.point_to_region(point) {
            Ok(region) => region,
            Err(e) => {
                return Err(e);
            },
        };
        let v = self.take_at(&key);
        proof {
            lemma_first_free(arena_in(self.model(), region2));
        }
        let slot = self.insert_at(region2, v);
        proof {
            lemma_region_code_roundtrip(region2);
        }
        Ok(Key { region: region2, slot })
    }

    /// Reads the value behind a key without removing it.
    pub fn get_point(&self, key: &Key) -> (r: Option<&T>)
        requires
            self.wf(),
        ensures
            match r {
                Some(v) => {
                    &&& key_valid(self.model(), *key)
                    &&& *v == value_at(self.model(), *key)
                },
                None => !key_valid(self.model(), *key),
            },
    {
        let code = region_code(key.region);
        match self.raw_map.get(&code) {
            None => None,
            Some(arena) => {
                if key.slot >= arena.len() {
                    None
                } else {
                    match &arena[key.slot] {
                        Some(v) => Some(v),
                        None => None,
                    }
                }
            },
        }
    }

    /// The arena of a region, if the region has one.
    pub fn get_arena(&self, region: Region) -> (r: Option<&Vec<Option<T>>>)
        requires
            self.wf(),
        ensures
            match r {
                Some(arena) => {
                    &&& self.model().contains_key(region_code_spec(region))
                    &&& arena@ == arena_in(self.model(), region)
                },
                None => {
                    &&& !self.model().contains_key(region_code_spec(region))
                    &&& arena_in(self.model(), region) == Seq::<Option<T>>::empty()
                },
            },
    {
        let code = region_code(region);
        self.raw_map.get(&code)
    }
}

/// The inclusive rectangular lattice of regions from `(lo_x, lo_y)` to
/// `(hi_x, hi_y)`, enumerated row by row: y outer, x inner.
pub open spec fn lattice_regions(lo_x: int, lo_y: int, hi_x: int, hi_y: int) -> Seq<Region>
    recommends
        0 <= lo_x <= hi_x,
        0 <= lo_y <= hi_y,
{
    Seq::new(
        ((hi_y - lo_y + 1) * (hi_x - lo_x + 1)) as nat,
        |i: int|
            Region {
                x: (lo_x + i % (hi_x - lo_x + 1)) as u32,
                y: (lo_y + i / (hi_x - lo_x + 1)) as u32,
            },
    )
}

/// A lattice enumeration holds exactly the regions of its inclusive box.
pub proof fn lemma_lattice_contains(lo_x: int, lo_y: int, hi_x: int, hi_y: int, r: Region)
    requires
        0 <= lo_x <= hi_x < 0x1_0000_0000,
        0 <= lo_y <= hi_y < 0x1_0000_0000,
    ensures
        lattice_regions(lo_x, lo_y, hi_x, hi_y).contains(r) <==> (lo_x <= r.x <= hi_x && lo_y
            <= r.y <= hi_y),
{
    let w = hi_x - lo_x + 1;
    let h = hi_y - lo_y + 1;
    let s = lattice_regions(lo_x, lo_y, hi_x, hi_y);
    assert(s.len() == h * w);
    if lo_x <= r.x <= hi_x && lo_y <= r.y <= hi_y {
        let i = (r.y - lo_y) * w + (r.x - lo_x);
        vstd::arithmetic::div_mod::lemma_fundamental_div_mod_converse(
            i,
            w,
            r.y as int - lo_y,
            r.x as int - lo_x,
        );
        assert(0 <= i < h * w) by (nonlinear_arith)
            requires
                i == (r.y - lo_y) * w + (r.x - lo_x),
                0 <= r.y - lo_y <= h - 1,
                0 <= r.x - lo_x <= w - 1,
                1 <= w,
                1 <= h,
        ;
        assert(s[i] == r);
        assert(s.contains(r)) by {
            assert(0 <= i < s.len() && s[i] == r);
        }
    }
    if s.contains(r) {
        let i = choose|i: int| 0 <= i < s.len() && s[i] == r;
        vstd::arithmetic::div_mod::lemma_fundamental_div_mod(i, w);
        vstd::arithmetic::div_mod::lemma_mod_bound(i, w);
        vstd::arithmetic::div_mod::lemma_div_pos_is_pos(i, w);
        assert(i < w * h) by (nonlinear_arith)
            requires
                i < h * w,
        ;
        vstd::arithmetic::div_mod::lemma_multiply_divide_lt(i, w, h);
        assert(lo_x <= lo_x + i % w <= hi_x);
        assert(lo_y <= lo_y + i / w <= hi_y);
    }
}

/// A region holds at least one occupied slot.
pub open spec fn region_occupied<T>(m: Map<u64, Seq<Option<T>>>, r: Region) -> bool {
    exists|s: int| 0 <= s < arena_in(m, r).len() && arena_in(m, r)[s] is Some
}

/// In a well-formed map, every region with an occupied slot lies inside the
/// lattice a whole-world camera enumerates: the query misses nothing.
pub proof fn lemma_whole_world_covers_occupied<T>(pm: PartitionMap<T>, r: Region)
    requires
        pm.wf(),
        region_occupied(pm.model(), r),
    ensures
        0 <= r.x <= max_axis(pm.size, pm.cells),
        0 <= r.y <= max_axis(pm.size, pm.cells),
        lattice_regions(
            0,
            0,
            max_axis(pm.size, pm.cells),
            max_axis(pm.size, pm.cells),
        ).contains(r),
{
    assert(arena_in(pm.model(), r).len() > 0);
    assert(pm.model().contains_key(region_code_spec(r)));
    assert(pm.raw_map@.contains_key(region_code_spec(r)));
    lemma_region_code_roundtrip(r);
    lemma_region_axis_bounds(pm.size as int - 1, pm.size, pm.cells);
    lemma_lattice_contains(
        0,
        0,
        max_axis(pm.size, pm.cells),
        max_axis(pm.size, pm.cells),
        r,
    );
}

/// The corner points of a camera that covers the whole world resolve to the
/// extreme regions `(0, 0)` and `(max_axis, max_axis)`.
pub proof fn lemma_whole_world_corners(size: u32, cells: u32)
    requires
        1 <= size,
        1 <= cells,
    ensures
        region_of(Vector2d { x: 0, y: 0 }, size, cells) == (Region { x: 0u32, y: 0u32 }),
        region_of(
            Vector2d { x: (size - 1) as i64, y: (size - 1) as i64 },
            size,
            cells,
        ) == (Region {
            x: max_axis(size, cells) as u32,
            y: max_axis(size, cells) as u32,
        }),
{
    assert(0int * cells == 0);
    vstd::arithmetic::div_mod::lemma_fundamental_div_mod_converse(0, size as int, 0, 0);
}

impl<T> PartitionMap<T> {
    /// Enumerates every region in the inclusive rectangular lattice between
    /// the regions of the two corner points, normalizing per axis to
    /// (min, max) so the caller may hand the corners in either order.
    /// Succeeds exactly when both corners lie inside the world; the top-left
    /// corner is checked first.
    pub fn points_to_regions(&self, top_left: Vector2d, bottom_right: Vector2d) -> (r: Result<
        Vec<Region>,
        Error,
    >)
        requires
            self.wf(),
        ensures
            match r {
                Ok(v) => {
                    &&& valid_point(top_left, self.size)
                    &&& valid_point(bottom_right, self.size)
                    &&& ({
                        let ra = region_of(top_left, self.size, self.cells);
                        let rb = region_of(bottom_right, self.size, self.cells);
                        v@ == lattice_regions(
                            vstd::math::min(ra.x as int, rb.x as int),
                            vstd::math::min(ra.y as int, rb.y as int),
                            vstd::math::max(ra.x as int, rb.x as int),
                            vstd::math::max(ra.y as int, rb.y as int),
                        )
                    })
                },
                Err(e) => {
                    &&& (!valid_point(top_left, self.size) || !valid_point(
                        bottom_right,
                        self.size,
                    ))
                    &&& (!valid_point(top_left, self.size) ==> {
                        &&& (e == Error::XOutOfBound <==> !(0 <= top_left.x < self.size))
                        &&& (e == Error::YOutOfBound <==> (0 <= top_left.x < self.size) && !(0
                            <= top_left.y < self.size))
                    })
                    &&& (valid_point(top_left, self.size) ==> {
                        &&& (e == Error::XOutOfBound <==> !(0 <= bottom_right.x < self.size))
                        &&& (e == Error::YOutOfBound <==> (0 <= bottom_right.x < self.size)
                            && !(0 <= bottom_right.y < self.size))
                    })
                },
            },
    {
        let ra = match self.point_to_region(top_left) {
            Ok(region) => region,
            Err(e) => {
                return Err(e);
            },
        };
        let rb = match self.point_to_region(bottom_right) {
            Ok(region) => region,
            Err(e) => {
                return Err(e);
            },
        };
        let lo_x = if ra.x <= rb.x {
            ra.x
        } else {
            rb.x
        };
        let hi_x = if ra.x <= rb.x {
            rb.x
        } else {
            ra.x
        };
        let lo_y = if ra.y <= rb.y {
            ra.y
        } else {
            rb.y
        };
        let hi_y = if ra.y <= rb.y {
            rb.y
        } else {
            ra.y
        };
        proof {
            lemma_region_axis_bounds(top_left.x as int, self.size, self.cells);
            lemma_region_axis_bounds(top_left.y as int, self.size, self.cells);
            lemma_region_axis_bounds(bottom_right.x as int, self.size, self.cells);
            lemma_region_axis_bounds(bottom_right.y as int, self.size, self.cells);
        }
        let w = hi_x - lo_x + 1;
        let ghost target = lattice_regions(lo_x as int, lo_y as int, hi_x as int, hi_y as int);
        let mut result: Vec<Region> = Vec::new();
        let mut cy = lo_y;
        while cy <= hi_y
            invariant
                lo_y <= cy <= hi_y + 1,
                lo_x <= hi_x < 0x8000_0000,
                lo_y <= hi_y < 0x8000_0000,
                w == hi_x - lo_x + 1,
                result@.len() == (cy - lo_y) * (w as int),
                forall|i: int|
                    0 <= i < result@.len() ==> result@[i] == (Region {
                        x: (lo_x + i % (w as int)) as u32,
                        y: (lo_y + i / (w as int)) as u32,
                    }),
            decreases hi_y + 1 - cy,
        {
            let mut cx = lo_x;
            while cx <= hi_x
                invariant
                    lo_y <= cy <= hi_y,
                    lo_x <= cx <= hi_x + 1,
                    lo_x <= hi_x < 0x8000_0000,
                    lo_y <= hi_y < 0x8000_0000,
                    w == hi_x - lo_x + 1,
                    result@.len() == (cy - lo_y) * (w as int) + (cx - lo_x),
                    forall|i: int|
                        0 <= i < result@.len() ==> result@[i] == (Region {
                            x: (lo_x + i % (w as int)) as u32,
                            y: (lo_y + i / (w as int)) as u32,
                        }),
                decreases hi_x + 1 - cx,
            {
                proof {
                    vstd::arithmetic::div_mod::lemma_fundamental_div_mod_converse(
                        (cy - lo_y) * (w as int) + (cx - lo_x),
                        w as int,
                        cy as int - lo_y,
                        cx as int - lo_x,
                    );
                }
                result.push(Region { x: cx, y: cy });
                cx = cx + 1;
            }
            proof {
                assert((cy + 1 - lo_y) * (w as int) == (cy - lo_y) * (w as int) + (w as int))
                    by (nonlinear_arith);
            }
            cy = cy + 1;
        }
        proof {
            assert((hi_y + 1 - lo_y) * (w as int) == target.len());
            assert(result@ =~= target);
        }
        Ok(result)
    }
}

/// The slot `s` of region `r` holds a value.
pub open spec fn slot_occupied<T>(m: Map<u64, Seq<Option<T>>>, r: Region, s: int) -> bool {
    &&& 0 <= s < arena_in(m, r).len()
    &&& arena_in(m, r)[s] is Some
}

/// The model after overwriting the value behind a valid key in place: the
/// key stays valid and nothing else moves.
pub open spec fn model_update<T>(m: Map<u64, Seq<Option<T>>>, k: Key, v: T) -> Map<
    u64,
    Seq<Option<T>>,
> {
    m.insert(region_code_spec(k.region), arena_in(m, k.region).update(k.slot as int, Some(v)))
}

/// Inserting touches only the first free slot of one region: every valid
/// key stays valid and keeps its value.
pub proof fn lemma_model_insert_preserves<T>(m: Map<u64, Seq<Option<T>>>, r: Region, v: T, k: Key)
    requires
        key_valid(m, k),
    ensures
        key_valid(model_insert(m, r, v), k),
        value_at(model_insert(m, r, v), k) == value_at(m, k),
{
    if k.region == r {
        lemma_first_free(arena_in(m, r));
    } else {
        lemma_region_code_injective(k.region, r);
    }
}

/// A slot occupied after an insert was either occupied before, or is
/// exactly the slot the insert filled.
pub proof fn lemma_model_insert_occupancy<T>(
    m: Map<u64, Seq<Option<T>>>,
    r: Region,
    v: T,
    r2: Region,
    s2: int,
)
    requires
        slot_occupied(model_insert(m, r, v), r2, s2),
    ensures
        slot_occupied(m, r2, s2) || (r2 == r && s2 == inserted_slot(m, r)),
{
    if r2 == r {
        lemma_first_free(arena_in(m, r));
    } else {
        lemma_region_code_injective(r2, r);
    }
}

/// Removing frees only the removed slot: every other valid key stays valid
/// and keeps its value.
pub proof fn lemma_model_remove_preserves<T>(m: Map<u64, Seq<Option<T>>>, k: Key, k2: Key)
    requires
        key_valid(m, k),
        key_valid(m, k2),
        k2 != k,
    ensures
        key_valid(model_remove(m, k), k2),
        value_at(model_remove(m, k), k2) == value_at(m, k2),
{
    if k2.region == k.region {
        assert(k2.slot != k.slot);
    } else {
        lemma_region_code_injective(k2.region, k.region);
    }
}

/// A slot occupied after a remove was occupied before and is not the
/// removed one.
pub proof fn lemma_model_remove_occupancy<T>(m: Map<u64, Seq<Option<T>>>, k: Key, r2: Region, s2: int)
    requires
        key_valid(m, k),
        slot_occupied(model_remove(m, k), r2, s2),
    ensures
        slot_occupied(m, r2, s2),
        !(r2 == k.region && s2 == k.slot),
{
    if r2 == k.region {
    } else {
        lemma_region_code_injective(r2, k.region);
    }
}

/// An in-place overwrite changes only the value behind the key: validity
/// and occupancy everywhere are as before, with the key's value replaced.
pub proof fn lemma_model_update_preserves<T>(m: Map<u64, Seq<Option<T>>>, k: Key, v: T, k2: Key)
    requires
        key_valid(m, k),
        key_valid(m, k2),
    ensures
        key_valid(model_update(m, k, v), k2),
        k2 != k ==> value_at(model_update(m, k, v), k2) == value_at(m, k2),
        value_at(model_update(m, k, v), k) == v,
{
    if k2.region == k.region {
    } else {
        lemma_region_code_injective(k2.region, k.region);
    }
    assert(arena_in(model_update(m, k, v), k.region)[k.slot as int] == Some(v));
}

/// A slot occupied after an in-place overwrite behind a valid key was
/// occupied before.
pub proof fn lemma_model_update_occupancy<T>(
    m: Map<u64, Seq<Option<T>>>,
    k: Key,
    v: T,
    r2: Region,
    s2: int,
)
    requires
        key_valid(m, k),
        slot_occupied(model_update(m, k, v), r2, s2),
    ensures
        slot_occupied(m, r2, s2),
{
    if r2 == k.region {
    } else {
        lemma_region_code_injective(r2, k.region);
    }
}

impl<T> PartitionMap<T> {
    /// Overwrites the value behind a valid key in place, returning the old
    /// value; the key itself and every other slot are untouched.
    pub fn update_at(&mut self, key: &Key, value: T) -> (v: T)
        requires
            old(self).wf(),
            key_valid(old(self).model(), *key),
        ensures
            final(self).wf(),
            final(self).size == old(self).size,
            final(self).cells == old(self).cells,
            v == value_at(old(self).model(), *key),
            final(self).model() == model_update(old(self).model(), *key, value),
    {
        let ghost m0 = self.raw_map@;
        let code = region_code(key.region);
        let mut arena = self.raw_map.remove(&code).unwrap();
        let mut taken: Option<T> = Some(value);
        arena.set_and_swap(key.slot, &mut taken);
        self.raw_map.insert(code, arena);
        proof {
            assert(self.raw_map@ =~= m0.insert(code, self.raw_map@[code]));
            assert(self.model() =~= model_update(old(self).model(), *key, value));
        }
        taken.unwrap()
    }
}

/// Round trip: inserting a value and removing it through the returned key
/// yields the value unchanged, and the freed slot is exactly the one the
/// next insert into that region fills, so the arena does not grow.
///
/// `model_insert`/`model_remove` are the transitions `insert_point` and
/// `remove_point` promise in their contracts, and
/// `Key { region: r, slot: first_free(arena_in(m, r)) }` is the key
/// `insert_point` returns.
pub proof fn lemma_insert_remove_round_trip<T>(m: Map<u64, Seq<Option<T>>>, r: Region, v: T, w: T)
    requires
        first_free(arena_in(m, r)) <= usize::MAX,
    ensures
        ({
            let k = Key { region: r, slot: first_free(arena_in(m, r)) as usize };
            let m1 = model_insert(m, r, v);
            let m2 = model_remove(m1, k);
            &&& key_valid(m1, k)
            &&& value_at(m1, k) == v
            &&& inserted_slot(m2, r) == k.slot
            &&& arena_in(m2, r).len() == arena_in(m1, r).len()
            &&& arena_after_insert(arena_in(m2, r), w).len() == arena_in(m2, r).len()
        }),
{
    let s = arena_in(m, r);
    lemma_first_free(s);
    let k = Key { region: r, slot: first_free(s) as usize };
    let m1 = model_insert(m, r, v);
    let s1 = arena_in(m1, r);
    assert(s1 == arena_after_insert(s, v));
    let m2 = model_remove(m1, k);
    let s2 = arena_in(m2, r);
    assert(s2 == s1.update(k.slot as int, None));
    assert(forall|j: int| 0 <= j < k.slot ==> s2[j] == s[j]);
    lemma_first_free_unique(s2, k.slot as int);
    lemma_first_free(s2);
}

/// After a move, reading through the fresh key yields the original value;
/// and unless the fresh key coincides with the old one (which happens
/// exactly when the region is unchanged and the freed slot is at once
/// reused), the old key is no longer valid.
///
/// The requires describe the fresh key exactly as `move_point` promises it,
/// and the model transition is the one from `move_point`'s contract.
pub proof fn lemma_move_point_reads_back<T>(
    m: Map<u64, Seq<Option<T>>>,
    k: Key,
    r2: Region,
    k2: Key,
)
    requires
        key_valid(m, k),
        k2.region == r2,
        k2.slot == inserted_slot(model_remove(m, k), r2),
    ensures
        ({
            let v = value_at(m, k);
            let m2 = model_insert(model_remove(m, k), r2, v);
            &&& key_valid(m2, k2)
            &&& value_at(m2, k2) == v
            &&& (k2 != k ==> !key_valid(m2, k))
        }),
{
    let v = value_at(m, k);
    let m1 = model_remove(m, k);
    let m2 = model_insert(m1, r2, v);
    let s1 = arena_in(m1, r2);
    lemma_first_free(s1);
    assert(arena_in(m2, r2) == arena_after_insert(s1, v));
    if k2 != k {
        if k.region == r2 {
            assert(k2.slot != k.slot);
            assert(s1[k.slot as int] is None);
            assert(arena_in(m2, r2)[k.slot as int] is None);
        } else {
            lemma_region_code_injective(k.region, r2);
            assert(arena_in(m2, k.region) == arena_in(m1, k.region));
            assert(arena_in(m1, k.region)[k.slot as int] is None);
        }
    }
}

proof fn lemma_region_mul_in_u64(p: int, c: int)
    requires
        0 <= p <= 0xffff_ffff,
        0 <= c <= 0x8000_0000,
    ensures
        0 <= p * c <= 0x7fff_ffff_8000_0000,
{
    assert(0 <= p * c <= 0x7fff_ffff_8000_0000) by (nonlinear_arith)
        requires
            0 <= p <= 0xffff_ffff,
            0 <= c <= 0x8000_0000,
    ;
}

} // verus!
