//! The scene: sprite lifecycle over the partition map, geometry mutation
//! with stable handles, the per-frame visibility query, and the render
//! batch.
//!
//! Every sprite is registered at exactly two partition-map points: its
//! rect's bounding top-left corner, which stores the sprite's data, and
//! its bounding bottom-right corner, which stores a bare marker so the far
//! corner participates in range queries. Sprites are addressed by
//! generation-checked ids; an id of a removed sprite is rejected.

use vstd::prelude::*;

use crate::atlas::SeqTable;
use crate::atlas::TextureAtlas;
use crate::error::Error;
use crate::geom::Frame;
use crate::geom::Origin;
use crate::geom::Rect;
use crate::geom::Vector2d;
use crate::geom::GEOM_LIMIT;
use crate::geom::ORIGIN_LIMIT;
use crate::geom::SCALE_LIMIT;
use crate::geom::SCALE_ONE;
use crate::partition::arena_in;
use crate::partition::inserted_slot;
use crate::partition::key_valid;
use crate::partition::lemma_first_free;
use crate::partition::max_axis;
use crate::partition::model_insert;
use crate::partition::model_remove;
use crate::partition::model_update;
use crate::partition::region_code_spec;
use crate::partition::region_of;
use crate::partition::slot_occupied;
use crate::partition::valid_point;
use crate::partition::value_at;
use crate::partition::Key;
use crate::partition::PartitionMap;
use crate::partition::Region;
use crate::render::RenderData;

verus! {

/// A sprite's stored state: its quad, its texture frame, and an optional
/// binding into the animation-sequence table.
#[derive(Clone, Copy, Debug)]
pub struct SpriteData {
    pub rect: Rect,
    pub frame: Frame,
    pub anim_key: Option<usize>,
}

/// What a partition-map slot holds: a sprite's record at its bounding
/// top-left corner, or the bare marker occupying the bounding bottom-right
/// corner.
pub enum SpriteDataPoint {
    TopLeft(SpriteData),
    BottomRight,
}

/// A client-facing sprite id: an index into the scene's sprite table and
/// the generation under which the slot was handed out. Removing a sprite
/// bumps the slot's generation, so ids of removed sprites are rejected.
#[derive(Clone, Copy, PartialEq, Eq, Structural, Debug)]
pub struct SpriteId {
    pub index: usize,
    pub generation: u64,
}

/// One live sprite's registration: its two partition-map keys and its
/// transform pivot, stored as an offset from its rect's top-left corner.
pub struct SpriteRecord {
    pub key_top_left: Key,
    pub key_bottom_right: Key,
    pub origin: Origin,
}

/// A sprite-table slot: the slot's current generation, and the live
/// registration if one is present.
pub struct SpriteSlot {
    pub generation: u64,
    pub record: Option<SpriteRecord>,
}

/// The generation a sprite slot gets when its sprite is removed.
pub open spec fn next_generation(g: u64) -> u64 {
    if g < u64::MAX {
        (g + 1) as u64
    } else {
        0
    }
}

/// The index the next sprite registration fills: the first table slot
/// without a record, or the table's end.
pub open spec fn first_free_sprite(s: Seq<SpriteSlot>) -> int
    decreases s.len(),
{
    if s.len() == 0 {
        0
    } else if s[0].record is None {
        0
    } else {
        1 + first_free_sprite(s.skip(1))
    }
}

proof fn lemma_first_free_sprite(s: Seq<SpriteSlot>)
    ensures
        0 <= first_free_sprite(s) <= s.len(),
        first_free_sprite(s) < s.len() ==> s[first_free_sprite(s)].record is None,
        forall|j: int| 0 <= j < first_free_sprite(s) ==> s[j].record is Some,
    decreases s.len(),
{
    if s.len() == 0 {
    } else if s[0].record is None {
    } else {
        lemma_first_free_sprite(s.skip(1));
        assert forall|j: int| 0 <= j < first_free_sprite(s) implies s[j].record is Some by {
            if j >= 1 {
                assert(s.skip(1)[j - 1] == s[j]);
            }
        }
        if first_free_sprite(s) < s.len() {
            assert(s.skip(1)[first_free_sprite(s) - 1] == s[first_free_sprite(s)]);
        }
    }
}

proof fn lemma_first_free_sprite_unique(s: Seq<SpriteSlot>, i: int)
    requires
        0 <= i <= s.len(),
        forall|j: int| 0 <= j < i ==> s[j].record is Some,
        i < s.len() ==> s[i].record is None,
    ensures
        first_free_sprite(s) == i,
{
    lemma_first_free_sprite(s);
    if first_free_sprite(s) < i {
        assert(s[first_free_sprite(s)].record is Some);
    }
    if i < first_free_sprite(s) {
        assert(s[i].record is Some);
    }
}

/// The scene: one partition map over sprite data points, the sprite table,
/// the render batch, and the two collaborators.
pub struct Scene {
    /// The accumulated render batch of the most recent update.
    pub vert_attrib: RenderData,
    /// The spatial index over all registered sprite corner points.
    pub part_map: PartitionMap<SpriteDataPoint>,
    /// The texture atlas collaborator.
    pub tex_atlas: TextureAtlas,
    /// The animation-sequence table collaborator.
    pub anim_seq: SeqTable,
    /// The sprite table: each slot holds at most one live registration.
    pub sprites: Vec<SpriteSlot>,
}

impl Scene {
    /// Sprite table index `i` holds a live sprite.
    pub open spec fn live(self, i: int) -> bool {
        &&& 0 <= i < self.sprites@.len()
        &&& self.sprites@[i].record is Some
    }

    /// The registration of live sprite `i`.
    pub open spec fn record_of(self, i: int) -> SpriteRecord
        recommends
            self.live(i),
    {
        self.sprites@[i].record.unwrap()
    }

    /// An id names a live sprite under the generation it was issued with.
    pub open spec fn id_valid(self, id: SpriteId) -> bool {
        &&& id.index < self.sprites@.len()
        &&& self.sprites@[id.index as int].generation == id.generation
        &&& self.sprites@[id.index as int].record is Some
    }

    /// The data stored behind live sprite `i`'s top-left key.
    pub open spec fn data_of(self, i: int) -> SpriteData
        recommends
            self.live(i),
    {
        value_at(self.part_map.model(), self.record_of(i).key_top_left)->TopLeft_0
    }

    /// Live sprite `i`'s keys point at occupied slots of the right kinds,
    /// and its geometry is consistent: both keys sit in the regions of its
    /// rect's bounding corners, which lie inside the world, and the pivot
    /// stays within its range.
    pub open spec fn sprite_ok(self, i: int) -> bool
        recommends
            self.live(i),
    {
        let rec = self.record_of(i);
        let m = self.part_map.model();
        &&& key_valid(m, rec.key_top_left)
        &&& value_at(m, rec.key_top_left) is TopLeft
        &&& key_valid(m, rec.key_bottom_right)
        &&& value_at(m, rec.key_bottom_right) is BottomRight
        &&& ({
            let data = value_at(m, rec.key_top_left)->TopLeft_0;
            let b = data.rect.spec_bounding();
            &&& valid_point(b.top_left, self.part_map.size)
            &&& valid_point(b.bottom_right, self.part_map.size)
            &&& rec.key_top_left.region == region_of(
                b.top_left,
                self.part_map.size,
                self.part_map.cells,
            )
            &&& rec.key_bottom_right.region == region_of(
                b.bottom_right,
                self.part_map.size,
                self.part_map.cells,
            )
            &&& data.rect.coords_bounded(GEOM_LIMIT as int)
            &&& rec.origin.vector2d.bounded(ORIGIN_LIMIT as int)
        })
    }

    /// Distinct live sprites use distinct keys of each kind. (Keys of
    /// different kinds always differ, since they point at values of
    /// different variants.)
    pub open spec fn keys_disjoint(self) -> bool {
        forall|i: int, j: int|
            #![trigger self.record_of(i), self.record_of(j)]
            self.live(i) && self.live(j) && i != j ==> {
                &&& self.record_of(i).key_top_left != self.record_of(j).key_top_left
                &&& self.record_of(i).key_bottom_right != self.record_of(j).key_bottom_right
            }
    }

    /// Every occupied partition-map slot is one of a live sprite's two
    /// keys: nothing leaks.
    pub open spec fn slots_accounted(self) -> bool {
        forall|r: Region, s: int|
            #[trigger] slot_occupied(self.part_map.model(), r, s) ==> exists|i: int|
                {
                    &&& #[trigger] self.live(i)
                    &&& ((self.record_of(i).key_top_left.region == r && self.record_of(
                        i,
                    ).key_top_left.slot == s) || (self.record_of(i).key_bottom_right.region == r
                        && self.record_of(i).key_bottom_right.slot == s))
                }
    }

    pub open spec fn wf(self) -> bool {
        &&& self.part_map.wf()
        &&& self.tex_atlas.wf()
        &&& self.vert_attrib.wf()
        &&& forall|i: int| #[trigger] self.live(i) ==> self.sprite_ok(i)
        &&& self.keys_disjoint()
        &&& self.slots_accounted()
    }


    /// An empty scene over a square world of extent `[0, size)` divided
    /// into `2^depth` cells per axis, with the given texture atlas.
    pub fn new_empty(size: u32, depth: u32, texture_map: TextureAtlas) -> (r: Scene)
        requires
            1 <= size,
            depth < 32,
            texture_map.wf(),
        ensures
            r.wf(),
            r.part_map.size == size,
            r.part_map.cells == (1u32 << depth),
            r.part_map.model() == Map::<u64, Seq<Option<SpriteDataPoint>>>::empty(),
            r.sprites@.len() == 0,
            r.tex_atlas == texture_map,
            r.anim_seq.names@.len() == 0,
            r.anim_seq.elapsed_ms == 0,
            r.vert_attrib.sprite_pos@.len() == 0,
            r.vert_attrib.tex_pos@.len() == 0,
            r.vert_attrib.index@.len() == 6,
    {
        let scene = Scene {
            vert_attrib: RenderData::new(),
            part_map: PartitionMap::new(size, depth),
            tex_atlas: texture_map,
            anim_seq: SeqTable::new(),
            sprites: Vec::new(),
        };
        proof {
            assert forall|r: Region, s: int| !slot_occupied(
                scene.part_map.model(),
                r,
                s,
            ) by {
                assert(!scene.part_map.model().contains_key(region_code_spec(r)));
            }
        }
        scene
    }
}

/// An axis-aligned copy of `base` with its top-left corner moved to `pos`.
pub open spec fn positioned_rect(base: Rect, pos: Vector2d) -> Rect {
    Rect::spec_new_raw(
        pos.x as int,
        pos.y as int,
        base.depth as int,
        base.top_right.x - base.top_left.x,
        base.bottom_left.y - base.top_left.y,
    )
}

/// The out-of-bounds error `add_sprite` reports for a known texture: one
/// corner of the entry's default rect, placed at `pos`, leaves the world.
/// The top-left corner is checked first, the x axis before the y axis.
pub open spec fn sprite_bounds_error(
    atlas: TextureAtlas,
    pos: Vector2d,
    texture: Seq<char>,
    size: u32,
    e: Error,
) -> bool {
    exists|ei: int|
        {
            &&& 0 <= ei < atlas.entries@.len()
            &&& (#[trigger] atlas.entries@[ei]).name@ == texture
            &&& (forall|j: int| 0 <= j < ei ==> (#[trigger] atlas.entries@[j]).name@ != texture)
            &&& ({
                let rect = positioned_rect(atlas.entries@[ei].default_rect, pos);
                &&& (!valid_point(rect.top_left, size) || !valid_point(rect.bottom_right, size))
                &&& (!valid_point(rect.top_left, size) ==> {
                    &&& (e == Error::XOutOfBound <==> !(0 <= rect.top_left.x < size))
                    &&& (e == Error::YOutOfBound <==> (0 <= rect.top_left.x < size) && !(0
                        <= rect.top_left.y < size))
                })
                &&& (valid_point(rect.top_left, size) ==> {
                    &&& (e == Error::XOutOfBound <==> !(0 <= rect.bottom_right.x < size))
                    &&& (e == Error::YOutOfBound <==> (0 <= rect.bottom_right.x < size) && !(0
                        <= rect.bottom_right.y < size))
                })
            })
        }
}

/// Fills the first free sprite-table slot (or appends one) with a fresh
/// registration, returning the index and the generation it is live under.
fn alloc_sprite_slot(sprites: &mut Vec<SpriteSlot>, record: SpriteRecord) -> (r: (usize, u64))
    ensures
        r.0 == first_free_sprite(old(sprites)@),
        r.0 < final(sprites)@.len(),
        old(sprites)@.len() <= final(sprites)@.len() <= old(sprites)@.len() + 1,
        r.0 < old(sprites)@.len() ==> {
            &&& old(sprites)@[r.0 as int].record is None
            &&& r.1 == old(sprites)@[r.0 as int].generation
            &&& final(sprites)@.len() == old(sprites)@.len()
        },
        r.0 >= old(sprites)@.len() ==> {
            &&& r.0 == old(sprites)@.len()
            &&& r.1 == 0
            &&& final(sprites)@.len() == old(sprites)@.len() + 1
        },
        final(sprites)@[r.0 as int].record == Some(record),
        final(sprites)@[r.0 as int].generation == r.1,
        forall|j: int|
            0 <= j < old(sprites)@.len() && j != r.0 ==> final(sprites)@[j] == old(sprites)@[j],
{
    let n = sprites.len();
    let mut i: usize = 0;
    while i < n
        invariant
            i <= n,
            n == sprites@.len(),
            *sprites == *old(sprites),
            forall|j: int| 0 <= j < i ==> sprites@[j].record is Some,
        decreases n - i,
    {
        if sprites[i].record.is_none() {
            proof {
                lemma_first_free_sprite_unique(sprites@, i as int);
            }
            let generation = sprites[i].generation;
            sprites.set(i, SpriteSlot { generation, record: Some(record) });
            return (i, generation);
        }
        i = i + 1;
    }
    proof {
        lemma_first_free_sprite_unique(sprites@, n as int);
    }
    sprites.push(SpriteSlot { generation: 0, record: Some(record) });
    (n, 0)
}

impl Scene {
    /// Registers a sprite: looks the texture up in the atlas, places its
    /// default rect's top-left corner at `pos`, inserts the sprite's data
    /// at that corner's point and the bottom-right marker at the far
    /// corner, and hands out a fresh id. Succeeds exactly when the texture
    /// is known and both corners lie inside the world; on failure nothing
    /// changes. The texture name is checked first, then the top-left
    /// corner, then the bottom-right one.
    pub fn add_sprite(&mut self, pos: Vector2d, texture: &String) -> (r: Result<SpriteId, Error>)
        requires
            old(self).wf(),
            pos.bounded(GEOM_LIMIT as int),
        ensures
            final(self).wf(),
            final(self).part_map.size == old(self).part_map.size,
            final(self).part_map.cells == old(self).part_map.cells,
            final(self).tex_atlas == old(self).tex_atlas,
            final(self).anim_seq == old(self).anim_seq,
            final(self).vert_attrib == old(self).vert_attrib,
            match r {
                Ok(id) => exists|ei: int|
                    {
                        &&& 0 <= ei < old(self).tex_atlas.entries@.len()
                        &&& (#[trigger] old(self).tex_atlas.entries@[ei]).name@ == texture@
                        &&& (forall|j: int|
                            0 <= j < ei ==> (#[trigger] old(self).tex_atlas.entries@[j]).name@
                                != texture@)
                        &&& ({
                            let base = old(self).tex_atlas.entries@[ei].default_rect;
                            let rect = Rect::spec_new_raw(
                                pos.x as int,
                                pos.y as int,
                                base.depth as int,
                                base.top_right.x - base.top_left.x,
                                base.bottom_left.y - base.top_left.y,
                            );
                            let data = SpriteData {
                                rect,
                                frame: old(self).tex_atlas.entries@[ei].frame,
                                anim_key: None,
                            };
                            let m0 = old(self).part_map.model();
                            let rtl = region_of(
                                rect.top_left,
                                old(self).part_map.size,
                                old(self).part_map.cells,
                            );
                            let m1 = model_insert(m0, rtl, SpriteDataPoint::TopLeft(data));
                            let rbr = region_of(
                                rect.bottom_right,
                                old(self).part_map.size,
                                old(self).part_map.cells,
                            );
                            &&& valid_point(rect.top_left, old(self).part_map.size)
                            &&& valid_point(rect.bottom_right, old(self).part_map.size)
                            &&& final(self).part_map.model() == model_insert(
                                m1,
                                rbr,
                                SpriteDataPoint::BottomRight,
                            )
                            &&& id.index == first_free_sprite(old(self).sprites@)
                            &&& final(self).id_valid(id)
                            &&& final(self).data_of(id.index as int) == data
                            &&& final(self).record_of(id.index as int).origin.vector2d == (Vector2d {
                                x: 0,
                                y: 0,
                            })
                            &&& final(self).record_of(id.index as int).key_top_left == (Key {
                                region: rtl,
                                slot: inserted_slot(m0, rtl) as usize,
                            })
                            &&& final(self).record_of(id.index as int).key_bottom_right == (Key {
                                region: rbr,
                                slot: inserted_slot(m1, rbr) as usize,
                            })
                            &&& forall|j: int|
                                0 <= j < old(self).sprites@.len() && j != id.index
                                    ==> final(self).sprites@[j] == old(self).sprites@[j]
                        })
                    },
                Err(e) => {
                    &&& *final(self) == *old(self)
                    &&& (e == Error::UnknownTexture <==> !old(self).tex_atlas.has_name(texture@))
                    &&& (old(self).tex_atlas.has_name(texture@) ==> sprite_bounds_error(
                        old(self).tex_atlas,
                        pos,
                        texture@,
                        old(self).part_map.size,
                        e,
                    ))
                },
            },
    {
        let looked_up = match self.tex_atlas.lookup(texture) {
            Ok(p) => p,
            Err(e) => {
                return Err(e);
            },
        };
        let frame = looked_up.0;
        let mut rect = looked_up.1;
        rect.set_pos_top_left(pos.x, pos.y);
        let tl_pt = rect.top_left();
        let br_pt = rect.bottom_right();
        if let Err(e) = self.part_map.point_to_region(tl_pt) {
            return Err(e);
        }
        if let Err(e) = self.part_map.point_to_region(br_pt) {
            return Err(e);
        }
        let data = SpriteData { rect, frame, anim_key: None };
        let ghost m0 = self.part_map.model();
        let tl_key = match self.part_map.insert_point(tl_pt, SpriteDataPoint::TopLeft(data)) {
            Ok(k) => k,
            Err(e) => {
                proof {
                    assert(false);
                }
                return Err(e);
            },
        };
        let ghost m1 = self.part_map.model();
        let br_key = match self.part_map.insert_point(br_pt, SpriteDataPoint::BottomRight) {
            Ok(k) => k,
            Err(e) => {
                proof {
                    assert(false);
                }
                return Err(e);
            },
        };
        let ghost gk1 = tl_key;
        let ghost gk2 = br_key;
        let record = SpriteRecord {
            key_top_left: tl_key,
            key_bottom_right: br_key,
            origin: Origin::zero(),
        };
        let allocated = alloc_sprite_slot(&mut self.sprites, record);
        let idx = allocated.0;
        let generation = allocated.1;
        proof {
            let s0 = *old(self);
            let sf = *self;
            let m2 = sf.part_map.model();
            lemma_first_free(arena_in(m0, gk1.region));
            lemma_first_free(arena_in(m1, gk2.region));
            crate::partition::lemma_model_insert_preserves(
                m1,
                gk2.region,
                SpriteDataPoint::BottomRight,
                gk1,
            );
            assert(rect.spec_bounding() == rect);
            assert(sf.live(idx as int));
            assert(sf.sprite_ok(idx as int));
            assert forall|i: int| #[trigger] sf.live(i) implies sf.sprite_ok(i) by {
                if i != idx {
                    assert(sf.sprites@[i] == s0.sprites@[i]);
                    assert(s0.live(i));
                    assert(s0.sprite_ok(i));
                    let rec = s0.record_of(i);
                    crate::partition::lemma_model_insert_preserves(
                        m0,
                        gk1.region,
                        SpriteDataPoint::TopLeft(data),
                        rec.key_top_left,
                    );
                    crate::partition::lemma_model_insert_preserves(
                        m0,
                        gk1.region,
                        SpriteDataPoint::TopLeft(data),
                        rec.key_bottom_right,
                    );
                    crate::partition::lemma_model_insert_preserves(
                        m1,
                        gk2.region,
                        SpriteDataPoint::BottomRight,
                        rec.key_top_left,
                    );
                    crate::partition::lemma_model_insert_preserves(
                        m1,
                        gk2.region,
                        SpriteDataPoint::BottomRight,
                        rec.key_bottom_right,
                    );
                    assert(sf.record_of(i) == rec);
                }
            }
            assert(!slot_occupied(m0, gk1.region, gk1.slot as int));
            assert(!slot_occupied(m1, gk2.region, gk2.slot as int));
            assert forall|i: int, j: int|
                #![trigger sf.record_of(i), sf.record_of(j)]
                sf.live(i) && sf.live(j) && i != j implies {
                &&& sf.record_of(i).key_top_left != sf.record_of(j).key_top_left
                &&& sf.record_of(i).key_bottom_right != sf.record_of(j).key_bottom_right
            } by {
                if i == idx || j == idx {
                    let o = if i == idx {
                        j
                    } else {
                        i
                    };
                    assert(sf.sprites@[o] == s0.sprites@[o]);
                    assert(s0.live(o));
                    assert(s0.sprite_ok(o));
                    let rec = s0.record_of(o);
                    crate::partition::lemma_model_insert_preserves(
                        m0,
                        gk1.region,
                        SpriteDataPoint::TopLeft(data),
                        rec.key_top_left,
                    );
                    crate::partition::lemma_model_insert_preserves(
                        m0,
                        gk1.region,
                        SpriteDataPoint::TopLeft(data),
                        rec.key_bottom_right,
                    );
                } else {
                    assert(sf.sprites@[i] == s0.sprites@[i]);
                    assert(sf.sprites@[j] == s0.sprites@[j]);
                    assert(s0.live(i) && s0.live(j));
                    assert(s0.record_of(i) == sf.record_of(i));
                    assert(s0.record_of(j) == sf.record_of(j));
                }
            }
            assert forall|r2: Region, s2: int| #[trigger]
                slot_occupied(m2, r2, s2) implies exists|i: int|
                {
                    &&& #[trigger] sf.live(i)
                    &&& ((sf.record_of(i).key_top_left.region == r2 && sf.record_of(
                        i,
                    ).key_top_left.slot == s2) || (sf.record_of(i).key_bottom_right.region == r2
                        && sf.record_of(i).key_bottom_right.slot == s2))
                } by {
                crate::partition::lemma_model_insert_occupancy(
                    m1,
                    gk2.region,
                    SpriteDataPoint::BottomRight,
                    r2,
                    s2,
                );
                if slot_occupied(m1, r2, s2) {
                    crate::partition::lemma_model_insert_occupancy(
                        m0,
                        gk1.region,
                        SpriteDataPoint::TopLeft(data),
                        r2,
                        s2,
                    );
                    if slot_occupied(m0, r2, s2) {
                        let w = choose|i: int|
                            {
                                &&& #[trigger] s0.live(i)
                                &&& ((s0.record_of(i).key_top_left.region == r2 && s0.record_of(
                                    i,
                                ).key_top_left.slot == s2) || (s0.record_of(
                                    i,
                                ).key_bottom_right.region == r2 && s0.record_of(
                                    i,
                                ).key_bottom_right.slot == s2))
                            };
                        assert(w != idx);
                        assert(sf.sprites@[w] == s0.sprites@[w]);
                        assert(sf.live(w) && sf.record_of(w) == s0.record_of(w));
                    } else {
                        assert(sf.live(idx as int) && sf.record_of(
                            idx as int,
                        ).key_top_left.region == r2 && sf.record_of(idx as int).key_top_left.slot
                            == s2);
                    }
                } else {
                    assert(sf.live(idx as int) && sf.record_of(
                        idx as int,
                    ).key_bottom_right.region == r2 && sf.record_of(idx as int).key_bottom_right.slot
                        == s2);
                }
            }
        }
        Ok(SpriteId { index: idx, generation })
    }
}

/// The partition-map transition [`Scene::update_keys`] performs: both old
/// keys removed, the sprite's data reinserted at the new rect's bounding
/// top-left corner, and the marker at its bounding bottom-right corner.
pub open spec fn reinstalled_model(
    m: Map<u64, Seq<Option<SpriteDataPoint>>>,
    rec: SpriteRecord,
    data2: SpriteData,
    size: u32,
    cells: u32,
) -> Map<u64, Seq<Option<SpriteDataPoint>>> {
    let b = data2.rect.spec_bounding();
    let m1 = model_remove(m, rec.key_top_left);
    let m2 = model_remove(m1, rec.key_bottom_right);
    let m3 = model_insert(m2, region_of(b.top_left, size, cells), SpriteDataPoint::TopLeft(data2));
    model_insert(m3, region_of(b.bottom_right, size, cells), SpriteDataPoint::BottomRight)
}

/// The fresh top-left key [`Scene::update_keys`] installs.
pub open spec fn reinstalled_key_tl(
    m: Map<u64, Seq<Option<SpriteDataPoint>>>,
    rec: SpriteRecord,
    data2: SpriteData,
    size: u32,
    cells: u32,
) -> Key {
    let b = data2.rect.spec_bounding();
    let m2 = model_remove(model_remove(m, rec.key_top_left), rec.key_bottom_right);
    Key {
        region: region_of(b.top_left, size, cells),
        slot: inserted_slot(m2, region_of(b.top_left, size, cells)) as usize,
    }
}

/// The fresh bottom-right key [`Scene::update_keys`] installs.
pub open spec fn reinstalled_key_br(
    m: Map<u64, Seq<Option<SpriteDataPoint>>>,
    rec: SpriteRecord,
    data2: SpriteData,
    size: u32,
    cells: u32,
) -> Key {
    let b = data2.rect.spec_bounding();
    let m2 = model_remove(model_remove(m, rec.key_top_left), rec.key_bottom_right);
    let m3 = model_insert(m2, region_of(b.top_left, size, cells), SpriteDataPoint::TopLeft(data2));
    Key {
        region: region_of(b.bottom_right, size, cells),
        slot: inserted_slot(m3, region_of(b.bottom_right, size, cells)) as usize,
    }
}

/// What a successful re-registration leaves behind: the sprite carries the
/// new rect (frame and animation binding unchanged) and the new pivot, its
/// keys sit at the new bounding corners, the partition map went through
/// exactly the two removes and two inserts, and no other sprite moved.
pub open spec fn reinstall_ok(
    pre: Scene,
    post: Scene,
    id: SpriteId,
    new_rect: Rect,
    new_origin: Origin,
) -> bool {
    let b = new_rect.spec_bounding();
    let data2 = SpriteData {
        rect: new_rect,
        frame: pre.data_of(id.index as int).frame,
        anim_key: pre.data_of(id.index as int).anim_key,
    };
    let m0 = pre.part_map.model();
    let rec0 = pre.record_of(id.index as int);
    &&& new_origin.vector2d.bounded(ORIGIN_LIMIT as int)
    &&& valid_point(b.top_left, pre.part_map.size)
    &&& valid_point(b.bottom_right, pre.part_map.size)
    &&& post.part_map.model() == reinstalled_model(
        m0,
        rec0,
        data2,
        pre.part_map.size,
        pre.part_map.cells,
    )
    &&& post.id_valid(id)
    &&& post.data_of(id.index as int) == data2
    &&& post.record_of(id.index as int).origin == new_origin
    &&& post.record_of(id.index as int).key_top_left == reinstalled_key_tl(
        m0,
        rec0,
        data2,
        pre.part_map.size,
        pre.part_map.cells,
    )
    &&& post.record_of(id.index as int).key_bottom_right == reinstalled_key_br(
        m0,
        rec0,
        data2,
        pre.part_map.size,
        pre.part_map.cells,
    )
    &&& post.sprites@[id.index as int].generation == id.generation
    &&& post.sprites@.len() == pre.sprites@.len()
    &&& forall|j: int|
        0 <= j < pre.sprites@.len() && j != id.index ==> post.sprites@[j] == pre.sprites@[j]
}

/// Why a re-registration fails: the pivot offset leaves its storable
/// range, or a bounding corner of the new rect leaves the world. The pivot
/// is checked first, then the bounding top-left corner (x before y), then
/// the bounding bottom-right corner.
pub open spec fn reinstall_err(pre: Scene, new_rect: Rect, new_origin: Origin, e: Error) -> bool {
    let b = new_rect.spec_bounding();
    let size = pre.part_map.size;
    &&& (e == Error::PivotOutOfRange <==> !new_origin.vector2d.bounded(ORIGIN_LIMIT as int))
    &&& (new_origin.vector2d.bounded(ORIGIN_LIMIT as int) ==> {
        &&& (!valid_point(b.top_left, size) || !valid_point(b.bottom_right, size))
        &&& (!valid_point(b.top_left, size) ==> {
            &&& (e == Error::XOutOfBound <==> !(0 <= b.top_left.x < size))
            &&& (e == Error::YOutOfBound <==> (0 <= b.top_left.x < size) && !(0 <= b.top_left.y
                < size))
        })
        &&& (valid_point(b.top_left, size) ==> {
            &&& (e == Error::XOutOfBound <==> !(0 <= b.bottom_right.x < size))
            &&& (e == Error::YOutOfBound <==> (0 <= b.bottom_right.x < size) && !(0
                <= b.bottom_right.y < size))
        })
    })
}

impl Scene {
    /// Re-registers a live sprite under new geometry: stores `new_rect`
    /// (the sprite's frame and animation binding unchanged) and
    /// `new_origin`, and moves both keys to the new rect's bounding
    /// corners — the step every geometric mutation ends with; skipping it
    /// would leave the spatial index stale. Succeeds exactly when the
    /// pivot offset stays storable and both bounding corners lie inside
    /// the world; on failure nothing changes. The pivot is checked first,
    /// then the bounding top-left corner, then the bounding bottom-right.
    #[verifier::rlimit(100)]
    pub fn update_keys(&mut self, id: SpriteId, new_rect: Rect, new_origin: Origin) -> (r: Result<
        (),
        Error,
    >)
        requires
            old(self).wf(),
            old(self).id_valid(id),
        ensures
            final(self).wf(),
            final(self).part_map.size == old(self).part_map.size,
            final(self).part_map.cells == old(self).part_map.cells,
            final(self).tex_atlas == old(self).tex_atlas,
            final(self).anim_seq == old(self).anim_seq,
            final(self).vert_attrib == old(self).vert_attrib,
            final(self).sprites@.len() == old(self).sprites@.len(),
            forall|j: int|
                0 <= j < old(self).sprites@.len() && j != id.index ==> final(self).sprites@[j]
                    == old(self).sprites@[j],
            match r {
                Ok(()) => reinstall_ok(*old(self), *final(self), id, new_rect, new_origin),
                Err(e) => {
                    &&& *final(self) == *old(self)
                    &&& reinstall_err(*old(self), new_rect, new_origin, e)
                },
            },
    {
        if new_origin.vector2d.x > ORIGIN_LIMIT || new_origin.vector2d.x < -ORIGIN_LIMIT
            || new_origin.vector2d.y > ORIGIN_LIMIT || new_origin.vector2d.y < -ORIGIN_LIMIT {
            return Err(Error::PivotOutOfRange);
        }
        let bound = new_rect.get_bounding_rect();
        let tl_pt = bound.top_left();
        let br_pt = bound.bottom_right();
        if let Err(e) = self.part_map.point_to_region(tl_pt) {
            return Err(e);
        }
        if let Err(e) = self.part_map.point_to_region(br_pt) {
            return Err(e);
        }
        let idx = id.index;
        let keys = match &self.sprites[idx].record {
            Some(rec) => (rec.key_top_left.copy_internal(), rec.key_bottom_right.copy_internal()),
            None => {
                proof {
                    assert(false);
                }
                return Err(Error::StaleHandle);
            },
        };
        let k_tl = keys.0;
        let k_br = keys.1;
        proof {
            assert(old(self).live(idx as int));
            assert(old(self).sprite_ok(idx as int));
        }
        let ghost m0 = self.part_map.model();
        let v_tl = self.part_map.take_at(&k_tl);
        let ghost m1 = self.part_map.model();
        proof {
            crate::partition::lemma_model_remove_preserves(m0, k_tl, k_br);
        }
        let _v_br = self.part_map.take_at(&k_br);
        let ghost m2 = self.part_map.model();
        let data = match v_tl {
            SpriteDataPoint::TopLeft(d) => d,
            SpriteDataPoint::BottomRight => {
                proof {
                    assert(false);
                }
                return Err(Error::InvalidKey);
            },
        };
        let data2 = SpriteData { rect: new_rect, frame: data.frame, anim_key: data.anim_key };
        let k1 = match self.part_map.insert_point(tl_pt, SpriteDataPoint::TopLeft(data2)) {
            Ok(k) => k,
            Err(e) => {
                proof {
                    assert(false);
                }
                return Err(e);
            },
        };
        let ghost m3 = self.part_map.model();
        let k2 = match self.part_map.insert_point(br_pt, SpriteDataPoint::BottomRight) {
            Ok(k) => k,
            Err(e) => {
                proof {
                    assert(false);
                }
                return Err(e);
            },
        };
        let ghost gk1 = k1;
        let ghost gk2 = k2;
        let generation = self.sprites[idx].generation;
        let record = SpriteRecord { key_top_left: k1, key_bottom_right: k2, origin: new_origin };
        self.sprites.set(idx, SpriteSlot { generation, record: Some(record) });
        proof {
            let s0 = *old(self);
            let sf = *self;
            let m4 = sf.part_map.model();
            let rec0 = s0.record_of(idx as int);
            lemma_first_free(arena_in(m2, gk1.region));
            lemma_first_free(arena_in(m3, gk2.region));
            crate::partition::lemma_model_insert_preserves(
                m3,
                gk2.region,
                SpriteDataPoint::BottomRight,
                gk1,
            );
            assert(sf.live(idx as int));
            assert(sf.sprite_ok(idx as int));
            assert forall|i: int| #[trigger] sf.live(i) implies sf.sprite_ok(i) by {
                if i != idx {
                    assert(sf.sprites@[i] == s0.sprites@[i]);
                    assert(s0.live(i));
                    assert(s0.sprite_ok(i));
                    let rec = s0.record_of(i);
                    lemma_keys_preserved_through_reinstall(
                        m0,
                        rec0,
                        data2,
                        rec.key_top_left,
                        s0.part_map.size,
                        s0.part_map.cells,
                    );
                    lemma_keys_preserved_through_reinstall(
                        m0,
                        rec0,
                        data2,
                        rec.key_bottom_right,
                        s0.part_map.size,
                        s0.part_map.cells,
                    );
                    assert(sf.record_of(i) == rec);
                }
            }
            assert(!slot_occupied(m2, gk1.region, gk1.slot as int));
            assert(!slot_occupied(m3, gk2.region, gk2.slot as int));
            assert forall|i: int, j: int|
                #![trigger sf.record_of(i), sf.record_of(j)]
                sf.live(i) && sf.live(j) && i != j implies {
                &&& sf.record_of(i).key_top_left != sf.record_of(j).key_top_left
                &&& sf.record_of(i).key_bottom_right != sf.record_of(j).key_bottom_right
            } by {
                if i == idx || j == idx {
                    let o = if i == idx {
                        j
                    } else {
                        i
                    };
                    assert(sf.sprites@[o] == s0.sprites@[o]);
                    assert(s0.live(o));
                    assert(s0.sprite_ok(o));
                    let rec = s0.record_of(o);
                    lemma_keys_preserved_through_reinstall(
                        m0,
                        rec0,
                        data2,
                        rec.key_top_left,
                        s0.part_map.size,
                        s0.part_map.cells,
                    );
                    lemma_keys_preserved_through_reinstall(
                        m0,
                        rec0,
                        data2,
                        rec.key_bottom_right,
                        s0.part_map.size,
                        s0.part_map.cells,
                    );
                    crate::partition::lemma_model_insert_preserves(
                        m3,
                        gk2.region,
                        SpriteDataPoint::BottomRight,
                        gk1,
                    );
                } else {
                    assert(sf.sprites@[i] == s0.sprites@[i]);
                    assert(sf.sprites@[j] == s0.sprites@[j]);
                    assert(s0.live(i) && s0.live(j));
                    assert(s0.record_of(i) == sf.record_of(i));
                    assert(s0.record_of(j) == sf.record_of(j));
                }
            }
            assert forall|r2: Region, s2: int| #[trigger]
                slot_occupied(m4, r2, s2) implies exists|i: int|
                {
                    &&& #[trigger] sf.live(i)
                    &&& ((sf.record_of(i).key_top_left.region == r2 && sf.record_of(
                        i,
                    ).key_top_left.slot == s2) || (sf.record_of(i).key_bottom_right.region == r2
                        && sf.record_of(i).key_bottom_right.slot == s2))
                } by {
                crate::partition::lemma_model_insert_occupancy(
                    m3,
                    gk2.region,
                    SpriteDataPoint::BottomRight,
                    r2,
                    s2,
                );
                if slot_occupied(m3, r2, s2) {
                    crate::partition::lemma_model_insert_occupancy(
                        m2,
                        gk1.region,
                        SpriteDataPoint::TopLeft(data2),
                        r2,
                        s2,
                    );
                    if slot_occupied(m2, r2, s2) {
                        crate::partition::lemma_model_remove_occupancy(m1, k_br, r2, s2);
                        crate::partition::lemma_model_remove_occupancy(m0, k_tl, r2, s2);
                        let w = choose|i: int|
                            {
                                &&& #[trigger] s0.live(i)
                                &&& ((s0.record_of(i).key_top_left.region == r2 && s0.record_of(
                                    i,
                                ).key_top_left.slot == s2) || (s0.record_of(
                                    i,
                                ).key_bottom_right.region == r2 && s0.record_of(
                                    i,
                                ).key_bottom_right.slot == s2))
                            };
                        assert(w != idx);
                        assert(sf.sprites@[w] == s0.sprites@[w]);
                        assert(sf.live(w) && sf.record_of(w) == s0.record_of(w));
                    } else {
                        assert(sf.live(idx as int) && sf.record_of(
                            idx as int,
                        ).key_top_left.region == r2 && sf.record_of(idx as int).key_top_left.slot
                            == s2);
                    }
                } else {
                    assert(sf.live(idx as int) && sf.record_of(
                        idx as int,
                    ).key_bottom_right.region == r2 && sf.record_of(idx as int).key_bottom_right.slot
                        == s2);
                }
            }
        }
        Ok(())
    }
}

/// A live sprite's pivot in world coordinates: its rect's top-left corner
/// plus its stored origin offset.
pub open spec fn pivot_of(data: SpriteData, origin: Origin) -> Vector2d {
    Vector2d {
        x: (data.rect.top_left.x + origin.vector2d.x) as i64,
        y: (data.rect.top_left.y + origin.vector2d.y) as i64,
    }
}

impl Scene {
    /// The sprite's current data and pivot offset, or a stale-handle error.
    pub fn read_sprite(&self, id: SpriteId) -> (r: Result<(SpriteData, Origin), Error>)
        requires
            self.wf(),
        ensures
            match r {
                Ok(p) => {
                    &&& self.id_valid(id)
                    &&& p.0 == self.data_of(id.index as int)
                    &&& p.1 == self.record_of(id.index as int).origin
                },
                Err(e) => {
                    &&& e == Error::StaleHandle
                    &&& !self.id_valid(id)
                },
            },
    {
        if id.index >= self.sprites.len() {
            return Err(Error::StaleHandle);
        }
        if self.sprites[id.index].generation != id.generation {
            return Err(Error::StaleHandle);
        }
        let rec = match &self.sprites[id.index].record {
            Some(rec) => rec,
            None => {
                return Err(Error::StaleHandle);
            },
        };
        proof {
            assert(self.live(id.index as int));
            assert(self.sprite_ok(id.index as int));
        }
        let data = match self.part_map.get_point(&rec.key_top_left) {
            Some(SpriteDataPoint::TopLeft(d)) => *d,
            _ => {
                proof {
                    assert(false);
                }
                return Err(Error::StaleHandle);
            },
        };
        Ok((data, rec.origin))
    }

    /// The sprite's stored data: its rect, frame, and animation binding.
    pub fn read_data(&self, id: SpriteId) -> (r: Result<SpriteData, Error>)
        requires
            self.wf(),
        ensures
            match r {
                Ok(d) => self.id_valid(id) && d == self.data_of(id.index as int),
                Err(e) => e == Error::StaleHandle && !self.id_valid(id),
            },
    {
        match self.read_sprite(id) {
            Ok(p) => Ok(p.0),
            Err(e) => Err(e),
        }
    }

    /// The sprite's pivot in world coordinates.
    pub fn get_pos_origin_global(&self, id: SpriteId) -> (r: Result<Vector2d, Error>)
        requires
            self.wf(),
        ensures
            match r {
                Ok(p) => self.id_valid(id) && p == pivot_of(
                    self.data_of(id.index as int),
                    self.record_of(id.index as int).origin,
                ),
                Err(e) => e == Error::StaleHandle && !self.id_valid(id),
            },
    {
        let looked = match self.read_sprite(id) {
            Ok(p) => p,
            Err(e) => {
                return Err(e);
            },
        };
        proof {
            assert(self.live(id.index as int));
            assert(self.sprite_ok(id.index as int));
        }
        Ok(
            Vector2d {
                x: looked.0.rect.top_left.x + looked.1.vector2d.x,
                y: looked.0.rect.top_left.y + looked.1.vector2d.y,
            },
        )
    }

    /// The sprite's rect's top-left corner.
    pub fn get_pos_top_left(&self, id: SpriteId) -> (r: Result<Vector2d, Error>)
        requires
            self.wf(),
        ensures
            match r {
                Ok(p) => self.id_valid(id) && p == self.data_of(id.index as int).rect.top_left,
                Err(e) => e == Error::StaleHandle && !self.id_valid(id),
            },
    {
        match self.read_sprite(id) {
            Ok(p) => Ok(p.0.rect.top_left),
            Err(e) => Err(e),
        }
    }

    /// Sets the sprite's pivot to an offset from its rect's top-left
    /// corner. The spatial index is untouched: the pivot carries no
    /// geometry of its own.
    pub fn set_origin(&mut self, id: SpriteId, offset_x: i64, offset_y: i64) -> (r: Result<
        (),
        Error,
    >)
        requires
            old(self).wf(),
            -GEOM_LIMIT <= offset_x <= GEOM_LIMIT,
            -GEOM_LIMIT <= offset_y <= GEOM_LIMIT,
        ensures
            final(self).wf(),
            final(self).part_map == old(self).part_map,
            final(self).tex_atlas == old(self).tex_atlas,
            final(self).anim_seq == old(self).anim_seq,
            final(self).vert_attrib == old(self).vert_attrib,
            match r {
                Ok(()) => {
                    &&& old(self).id_valid(id)
                    &&& final(self).id_valid(id)
                    &&& final(self).record_of(id.index as int) == (SpriteRecord {
                        origin: Origin { vector2d: Vector2d { x: offset_x, y: offset_y } },
                        ..old(self).record_of(id.index as int)
                    })
                    &&& final(self).sprites@.len() == old(self).sprites@.len()
                    &&& forall|j: int|
                        0 <= j < old(self).sprites@.len() && j != id.index
                            ==> final(self).sprites@[j] == old(self).sprites@[j]
                },
                Err(e) => {
                    &&& e == Error::StaleHandle
                    &&& !old(self).id_valid(id)
                    &&& *final(self) == *old(self)
                },
            },
    {
        if id.index >= self.sprites.len() {
            return Err(Error::StaleHandle);
        }
        if self.sprites[id.index].generation != id.generation {
            return Err(Error::StaleHandle);
        }
        let idx = id.index;
        let keys = match &self.sprites[idx].record {
            Some(rec) => (rec.key_top_left.copy_internal(), rec.key_bottom_right.copy_internal()),
            None => {
                return Err(Error::StaleHandle);
            },
        };
        let generation = self.sprites[idx].generation;
        let record = SpriteRecord {
            key_top_left: keys.0,
            key_bottom_right: keys.1,
            origin: Origin { vector2d: Vector2d { x: offset_x, y: offset_y } },
        };
        self.sprites.set(idx, SpriteSlot { generation, record: Some(record) });
        proof {
            let s0 = *old(self);
            let sf = *self;
            assert(s0.live(idx as int));
            assert(s0.sprite_ok(idx as int));
            assert(sf.record_of(idx as int).key_top_left == s0.record_of(idx as int).key_top_left);
            assert(sf.sprite_ok(idx as int));
            assert forall|i: int| #[trigger] sf.live(i) implies sf.sprite_ok(i) by {
                if i != idx {
                    assert(sf.sprites@[i] == s0.sprites@[i]);
                    assert(s0.live(i));
                    assert(s0.sprite_ok(i));
                    assert(sf.record_of(i) == s0.record_of(i));
                }
            }
            assert forall|i: int, j: int|
                #![trigger sf.record_of(i), sf.record_of(j)]
                sf.live(i) && sf.live(j) && i != j implies {
                &&& sf.record_of(i).key_top_left != sf.record_of(j).key_top_left
                &&& sf.record_of(i).key_bottom_right != sf.record_of(j).key_bottom_right
            } by {
                assert(s0.live(i) && s0.live(j));
                assert(sf.record_of(i).key_top_left == s0.record_of(i).key_top_left);
                assert(sf.record_of(j).key_top_left == s0.record_of(j).key_top_left);
                assert(sf.record_of(i).key_bottom_right == s0.record_of(i).key_bottom_right);
                assert(sf.record_of(j).key_bottom_right == s0.record_of(j).key_bottom_right);
            }
            assert forall|r2: Region, s2: int| #[trigger]
                slot_occupied(sf.part_map.model(), r2, s2) implies exists|i: int|
                {
                    &&& #[trigger] sf.live(i)
                    &&& ((sf.record_of(i).key_top_left.region == r2 && sf.record_of(
                        i,
                    ).key_top_left.slot == s2) || (sf.record_of(i).key_bottom_right.region == r2
                        && sf.record_of(i).key_bottom_right.slot == s2))
                } by {
                let w = choose|i: int|
                    {
                        &&& #[trigger] s0.live(i)
                        &&& ((s0.record_of(i).key_top_left.region == r2 && s0.record_of(
                            i,
                        ).key_top_left.slot == s2) || (s0.record_of(i).key_bottom_right.region
                            == r2 && s0.record_of(i).key_bottom_right.slot == s2))
                    };
                assert(sf.live(w));
                assert(sf.record_of(w).key_top_left == s0.record_of(w).key_top_left);
                assert(sf.record_of(w).key_bottom_right == s0.record_of(w).key_bottom_right);
            }
        }
        Ok(())
    }

    /// Resets the sprite's pivot to its rect's top-left corner.
    pub fn reset_origin(&mut self, id: SpriteId) -> (r: Result<(), Error>)
        requires
            old(self).wf(),
        ensures
            final(self).wf(),
            final(self).part_map == old(self).part_map,
            final(self).tex_atlas == old(self).tex_atlas,
            final(self).anim_seq == old(self).anim_seq,
            final(self).vert_attrib == old(self).vert_attrib,
            match r {
                Ok(()) => {
                    &&& old(self).id_valid(id)
                    &&& final(self).id_valid(id)
                    &&& final(self).record_of(id.index as int) == (SpriteRecord {
                        origin: Origin { vector2d: Vector2d { x: 0, y: 0 } },
                        ..old(self).record_of(id.index as int)
                    })
                    &&& final(self).sprites@.len() == old(self).sprites@.len()
                    &&& forall|j: int|
                        0 <= j < old(self).sprites@.len() && j != id.index
                            ==> final(self).sprites@[j] == old(self).sprites@[j]
                },
                Err(e) => {
                    &&& e == Error::StaleHandle
                    &&& !old(self).id_valid(id)
                    &&& *final(self) == *old(self)
                },
            },
    {
        self.set_origin(id, 0, 0)
    }

    /// Moves the sprite so that its pivot comes to rest at `(x, y)`: every
    /// corner shifts by the same offset, and both keys are re-derived.
    pub fn set_pos(&mut self, id: SpriteId, x: i64, y: i64) -> (r: Result<(), Error>)
        requires
            old(self).wf(),
            -GEOM_LIMIT <= x <= GEOM_LIMIT,
            -GEOM_LIMIT <= y <= GEOM_LIMIT,
        ensures
            final(self).wf(),
            final(self).part_map.size == old(self).part_map.size,
            final(self).part_map.cells == old(self).part_map.cells,
            final(self).tex_atlas == old(self).tex_atlas,
            final(self).anim_seq == old(self).anim_seq,
            final(self).vert_attrib == old(self).vert_attrib,
            match r {
                Ok(()) => ({
                    let data = old(self).data_of(id.index as int);
                    let og = pivot_of(data, old(self).record_of(id.index as int).origin);
                    let moved = data.rect.spec_translated(
                        Vector2d { x: (x - og.x) as i64, y: (y - og.y) as i64 },
                    );
                    &&& old(self).id_valid(id)
                    &&& reinstall_ok(
                        *old(self),
                        *final(self),
                        id,
                        moved,
                        old(self).record_of(id.index as int).origin,
                    )
                }),
                Err(e) => {
                    &&& (e == Error::StaleHandle <==> !old(self).id_valid(id))
                    &&& *final(self) == *old(self)
                    &&& (old(self).id_valid(id) ==> ({
                        let data = old(self).data_of(id.index as int);
                        let og = pivot_of(data, old(self).record_of(id.index as int).origin);
                        let moved = data.rect.spec_translated(
                            Vector2d { x: (x - og.x) as i64, y: (y - og.y) as i64 },
                        );
                        reinstall_err(
                            *old(self),
                            moved,
                            old(self).record_of(id.index as int).origin,
                            e,
                        )
                    }))
                },
            },
    {
        let looked = match self.read_sprite(id) {
            Ok(p) => p,
            Err(e) => {
                return Err(e);
            },
        };
        let data = looked.0;
        let origin = looked.1;
        proof {
            assert(self.live(id.index as int));
            assert(self.sprite_ok(id.index as int));
        }
        let og = Vector2d {
            x: data.rect.top_left.x + origin.vector2d.x,
            y: data.rect.top_left.y + origin.vector2d.y,
        };
        let mut moved = data.rect;
        moved.offset_pos(Vector2d { x: x - og.x, y: y - og.y });
        self.update_keys(id, moved, origin)
    }

    /// Shifts the sprite by an offset, preserving its shape, and
    /// re-derives both keys.
    pub fn offset_pos(&mut self, id: SpriteId, offset_x: i64, offset_y: i64) -> (r: Result<
        (),
        Error,
    >)
        requires
            old(self).wf(),
            -GEOM_LIMIT <= offset_x <= GEOM_LIMIT,
            -GEOM_LIMIT <= offset_y <= GEOM_LIMIT,
        ensures
            final(self).wf(),
            final(self).part_map.size == old(self).part_map.size,
            final(self).part_map.cells == old(self).part_map.cells,
            final(self).tex_atlas == old(self).tex_atlas,
            final(self).anim_seq == old(self).anim_seq,
            final(self).vert_attrib == old(self).vert_attrib,
            match r {
                Ok(()) => ({
                    let data = old(self).data_of(id.index as int);
                    let moved = data.rect.spec_translated(
                        Vector2d { x: offset_x, y: offset_y },
                    );
                    &&& old(self).id_valid(id)
                    &&& reinstall_ok(
                        *old(self),
                        *final(self),
                        id,
                        moved,
                        old(self).record_of(id.index as int).origin,
                    )
                }),
                Err(e) => {
                    &&& (e == Error::StaleHandle <==> !old(self).id_valid(id))
                    &&& *final(self) == *old(self)
                    &&& (old(self).id_valid(id) ==> reinstall_err(
                        *old(self),
                        old(self).data_of(id.index as int).rect.spec_translated(
                            Vector2d { x: offset_x, y: offset_y },
                        ),
                        old(self).record_of(id.index as int).origin,
                        e,
                    ))
                },
            },
    {
        let looked = match self.read_sprite(id) {
            Ok(p) => p,
            Err(e) => {
                return Err(e);
            },
        };
        let data = looked.0;
        let origin = looked.1;
        proof {
            assert(self.live(id.index as int));
            assert(self.sprite_ok(id.index as int));
        }
        let mut moved = data.rect;
        moved.offset_pos(Vector2d { x: offset_x, y: offset_y });
        self.update_keys(id, moved, origin)
    }

    /// Sets the sprite's depth from a layer tag: UI layers take the depth
    /// range `0..=127` as given, world layers are shifted up by 128, and
    /// both keys are re-derived.
    pub fn set_layer(&mut self, id: SpriteId, layer: u8, is_ui: bool) -> (r: Result<(), Error>)
        requires
            old(self).wf(),
        ensures
            final(self).wf(),
            final(self).part_map.size == old(self).part_map.size,
            final(self).part_map.cells == old(self).part_map.cells,
            final(self).tex_atlas == old(self).tex_atlas,
            final(self).anim_seq == old(self).anim_seq,
            final(self).vert_attrib == old(self).vert_attrib,
            match r {
                Ok(()) => ({
                    let data = old(self).data_of(id.index as int);
                    let depth: int = if is_ui {
                        layer as int
                    } else {
                        layer as int + 128
                    };
                    let leveled = Rect { depth: depth as i64, ..data.rect };
                    &&& old(self).id_valid(id)
                    &&& reinstall_ok(
                        *old(self),
                        *final(self),
                        id,
                        leveled,
                        old(self).record_of(id.index as int).origin,
                    )
                }),
                Err(e) => {
                    &&& e == Error::StaleHandle
                    &&& !old(self).id_valid(id)
                    &&& *final(self) == *old(self)
                },
            },
            old(self).id_valid(id) ==> r is Ok,
    {
        let looked = match self.read_sprite(id) {
            Ok(p) => p,
            Err(e) => {
                return Err(e);
            },
        };
        let data = looked.0;
        let origin = looked.1;
        proof {
            assert(self.live(id.index as int));
            assert(self.sprite_ok(id.index as int));
        }
        let mut leveled = data.rect;
        if is_ui {
            leveled.set_depth(layer as i64);
        } else {
            leveled.set_depth(layer as i64 + 128);
        }
        let r = self.update_keys(id, leveled, origin);
        proof {
            if r is Err {
                assert(leveled.spec_bounding().top_left == data.rect.spec_bounding().top_left);
                assert(leveled.spec_bounding().bottom_right
                    == data.rect.spec_bounding().bottom_right);
                assert(false);
            }
        }
        r
    }

    /// Scales the sprite about its pivot by the fixed-point factors
    /// `x_scale / SCALE_ONE` and `y_scale / SCALE_ONE`, re-deriving the
    /// pivot offset and both keys. A factor of `-SCALE_ONE` on both axes
    /// is a half-turn about the pivot.
    pub fn set_scale(&mut self, id: SpriteId, x_scale: i64, y_scale: i64) -> (r: Result<(), Error>)
        requires
            old(self).wf(),
            -SCALE_LIMIT <= x_scale <= SCALE_LIMIT,
            -SCALE_LIMIT <= y_scale <= SCALE_LIMIT,
        ensures
            final(self).wf(),
            final(self).part_map.size == old(self).part_map.size,
            final(self).part_map.cells == old(self).part_map.cells,
            final(self).tex_atlas == old(self).tex_atlas,
            final(self).anim_seq == old(self).anim_seq,
            final(self).vert_attrib == old(self).vert_attrib,
            match r {
                Ok(()) => ({
                    let data = old(self).data_of(id.index as int);
                    let og = pivot_of(data, old(self).record_of(id.index as int).origin);
                    let scaled = data.rect.spec_transformed(
                        og,
                        x_scale as int,
                        0,
                        SCALE_ONE as int,
                        0,
                        y_scale as int,
                        SCALE_ONE as int,
                    );
                    &&& old(self).id_valid(id)
                    &&& reinstall_ok(
                        *old(self),
                        *final(self),
                        id,
                        scaled,
                        Origin {
                            vector2d: Vector2d {
                                x: (og.x - scaled.top_left.x) as i64,
                                y: (og.y - scaled.top_left.y) as i64,
                            },
                        },
                    )
                }),
                Err(e) => {
                    &&& (e == Error::StaleHandle <==> !old(self).id_valid(id))
                    &&& *final(self) == *old(self)
                    &&& (old(self).id_valid(id) ==> ({
                        let data = old(self).data_of(id.index as int);
                        let og = pivot_of(data, old(self).record_of(id.index as int).origin);
                        let scaled = data.rect.spec_transformed(
                            og,
                            x_scale as int,
                            0,
                            SCALE_ONE as int,
                            0,
                            y_scale as int,
                            SCALE_ONE as int,
                        );
                        reinstall_err(
                            *old(self),
                            scaled,
                            Origin {
                                vector2d: Vector2d {
                                    x: (og.x - scaled.top_left.x) as i64,
                                    y: (og.y - scaled.top_left.y) as i64,
                                },
                            },
                            e,
                        )
                    }))
                },
            },
    {
        let looked = match self.read_sprite(id) {
            Ok(p) => p,
            Err(e) => {
                return Err(e);
            },
        };
        let data = looked.0;
        let origin = looked.1;
        proof {
            assert(self.live(id.index as int));
            assert(self.sprite_ok(id.index as int));
        }
        let mut scaled = data.rect;
        let new_origin = scaled.set_scale_with_origin(x_scale, y_scale, origin);
        self.update_keys(id, scaled, new_origin)
    }

    /// Rotates the sprite about its pivot. The angle is supplied through
    /// fixed-point coefficients (`SCALE_ONE` = 1): for a clockwise turn by
    /// `angle`, pass `cos_fp = cos(angle) * SCALE_ONE` and `sin_fp =
    /// -sin(angle) * SCALE_ONE`. The pivot offset and both keys are
    /// re-derived. A half-turn (`cos_fp = -SCALE_ONE, sin_fp = 0`) equals
    /// a `(-SCALE_ONE, -SCALE_ONE)` scale about the same pivot.
    pub fn set_rotation(&mut self, id: SpriteId, cos_fp: i64, sin_fp: i64) -> (r: Result<
        (),
        Error,
    >)
        requires
            old(self).wf(),
            -SCALE_LIMIT <= cos_fp <= SCALE_LIMIT,
            -SCALE_LIMIT <= sin_fp <= SCALE_LIMIT,
        ensures
            final(self).wf(),
            final(self).part_map.size == old(self).part_map.size,
            final(self).part_map.cells == old(self).part_map.cells,
            final(self).tex_atlas == old(self).tex_atlas,
            final(self).anim_seq == old(self).anim_seq,
            final(self).vert_attrib == old(self).vert_attrib,
            match r {
                Ok(()) => ({
                    let data = old(self).data_of(id.index as int);
                    let og = pivot_of(data, old(self).record_of(id.index as int).origin);
                    let turned = data.rect.spec_transformed(
                        og,
                        cos_fp as int,
                        -(sin_fp as int),
                        SCALE_ONE as int,
                        sin_fp as int,
                        cos_fp as int,
                        SCALE_ONE as int,
                    );
                    &&& old(self).id_valid(id)
                    &&& reinstall_ok(
                        *old(self),
                        *final(self),
                        id,
                        turned,
                        Origin {
                            vector2d: Vector2d {
                                x: (og.x - turned.top_left.x) as i64,
                                y: (og.y - turned.top_left.y) as i64,
                            },
                        },
                    )
                }),
                Err(e) => {
                    &&& (e == Error::StaleHandle <==> !old(self).id_valid(id))
                    &&& *final(self) == *old(self)
                    &&& (old(self).id_valid(id) ==> ({
                        let data = old(self).data_of(id.index as int);
                        let og = pivot_of(data, old(self).record_of(id.index as int).origin);
                        let turned = data.rect.spec_transformed(
                            og,
                            cos_fp as int,
                            -(sin_fp as int),
                            SCALE_ONE as int,
                            sin_fp as int,
                            cos_fp as int,
                            SCALE_ONE as int,
                        );
                        reinstall_err(
                            *old(self),
                            turned,
                            Origin {
                                vector2d: Vector2d {
                                    x: (og.x - turned.top_left.x) as i64,
                                    y: (og.y - turned.top_left.y) as i64,
                                },
                            },
                            e,
                        )
                    }))
                },
            },
    {
        let looked = match self.read_sprite(id) {
            Ok(p) => p,
            Err(e) => {
                return Err(e);
            },
        };
        let data = looked.0;
        let origin = looked.1;
        proof {
            assert(self.live(id.index as int));
            assert(self.sprite_ok(id.index as int));
        }
        let mut turned = data.rect;
        let new_origin = turned.set_rotation_with_origin(cos_fp, sin_fp, origin);
        self.update_keys(id, turned, new_origin)
    }

    /// Resizes the sprite to the given bounding width and height by
    /// scaling about its pivot with the exact rational factors
    /// `width / current_width` and `height / current_height` (division
    /// truncating toward zero), re-deriving the pivot offset and both
    /// keys. Fails with a degenerate-rect error when the current width or
    /// height is not positive.
    pub fn set_size(&mut self, id: SpriteId, width: i64, height: i64) -> (r: Result<(), Error>)
        requires
            old(self).wf(),
            0 <= width <= SCALE_LIMIT,
            0 <= height <= SCALE_LIMIT,
        ensures
            final(self).wf(),
            final(self).part_map.size == old(self).part_map.size,
            final(self).part_map.cells == old(self).part_map.cells,
            final(self).tex_atlas == old(self).tex_atlas,
            final(self).anim_seq == old(self).anim_seq,
            final(self).vert_attrib == old(self).vert_attrib,
            match r {
                Ok(()) => ({
                    let data = old(self).data_of(id.index as int);
                    let og = pivot_of(data, old(self).record_of(id.index as int).origin);
                    let w0 = data.rect.top_right.x - data.rect.top_left.x;
                    let h0 = data.rect.bottom_left.y - data.rect.top_left.y;
                    let sized = data.rect.spec_transformed(
                        og,
                        width as int,
                        0,
                        w0,
                        0,
                        height as int,
                        h0,
                    );
                    &&& old(self).id_valid(id)
                    &&& w0 > 0
                    &&& h0 > 0
                    &&& reinstall_ok(
                        *old(self),
                        *final(self),
                        id,
                        sized,
                        Origin {
                            vector2d: Vector2d {
                                x: (og.x - sized.top_left.x) as i64,
                                y: (og.y - sized.top_left.y) as i64,
                            },
                        },
                    )
                }),
                Err(e) => {
                    &&& (e == Error::StaleHandle <==> !old(self).id_valid(id))
                    &&& *final(self) == *old(self)
                    &&& (old(self).id_valid(id) ==> ({
                        let data = old(self).data_of(id.index as int);
                        let w0 = data.rect.top_right.x - data.rect.top_left.x;
                        let h0 = data.rect.bottom_left.y - data.rect.top_left.y;
                        &&& (e == Error::DegenerateRect <==> (w0 <= 0 || h0 <= 0))
                        &&& (w0 > 0 && h0 > 0 ==> ({
                            let og = pivot_of(data, old(self).record_of(id.index as int).origin);
                            let sized = data.rect.spec_transformed(
                                og,
                                width as int,
                                0,
                                w0,
                                0,
                                height as int,
                                h0,
                            );
                            reinstall_err(
                                *old(self),
                                sized,
                                Origin {
                                    vector2d: Vector2d {
                                        x: (og.x - sized.top_left.x) as i64,
                                        y: (og.y - sized.top_left.y) as i64,
                                    },
                                },
                                e,
                            )
                        }))
                    }))
                },
            },
    {
        let looked = match self.read_sprite(id) {
            Ok(p) => p,
            Err(e) => {
                return Err(e);
            },
        };
        let data = looked.0;
        let origin = looked.1;
        proof {
            assert(self.live(id.index as int));
            assert(self.sprite_ok(id.index as int));
        }
        let mut sized = data.rect;
        let w0 = sized.width();
        let h0 = sized.height();
        if w0 <= 0 || h0 <= 0 {
            return Err(Error::DegenerateRect);
        }
        let og = Vector2d {
            x: data.rect.top_left.x + origin.vector2d.x,
            y: data.rect.top_left.y + origin.vector2d.y,
        };
        sized.apply_affine(og, width, 0, w0, 0, height, h0);
        let new_origin = Origin {
            vector2d: Vector2d { x: og.x - sized.top_left.x, y: og.y - sized.top_left.y },
        };
        self.update_keys(id, sized, new_origin)
    }
}

impl Scene {
    /// Overwrites a live sprite's stored data in place, without touching
    /// its rect or keys: the spatial index keeps its exact shape.
    fn write_data(&mut self, id: SpriteId, data2: SpriteData)
        requires
            old(self).wf(),
            old(self).id_valid(id),
            data2.rect == old(self).data_of(id.index as int).rect,
        ensures
            final(self).wf(),
            final(self).part_map.size == old(self).part_map.size,
            final(self).part_map.cells == old(self).part_map.cells,
            final(self).tex_atlas == old(self).tex_atlas,
            final(self).anim_seq == old(self).anim_seq,
            final(self).vert_attrib == old(self).vert_attrib,
            final(self).sprites == old(self).sprites,
            final(self).part_map.model() == model_update(
                old(self).part_map.model(),
                old(self).record_of(id.index as int).key_top_left,
                SpriteDataPoint::TopLeft(data2),
            ),
            final(self).id_valid(id),
            final(self).data_of(id.index as int) == data2,
            forall|j: int|
                #![trigger final(self).data_of(j)]
                old(self).live(j) && j != id.index ==> final(self).data_of(j) == old(
                    self,
                ).data_of(j),
    {
        let idx = id.index;
        let k_tl = match &self.sprites[idx].record {
            Some(rec) => rec.key_top_left.copy_internal(),
            None => {
                proof {
                    assert(false);
                }
                return ;
            },
        };
        proof {
            assert(old(self).live(idx as int));
            assert(old(self).sprite_ok(idx as int));
        }
        let ghost m0 = self.part_map.model();
        let _old_value = self.part_map.update_at(&k_tl, SpriteDataPoint::TopLeft(data2));
        proof {
            let s0 = *old(self);
            let sf = *self;
            let mf = sf.part_map.model();
            crate::partition::lemma_model_update_preserves(
                m0,
                k_tl,
                SpriteDataPoint::TopLeft(data2),
                k_tl,
            );
            assert forall|i: int| #[trigger] sf.live(i) implies sf.sprite_ok(i) by {
                assert(s0.live(i));
                assert(s0.sprite_ok(i));
                let rec = s0.record_of(i);
                crate::partition::lemma_model_update_preserves(
                    m0,
                    k_tl,
                    SpriteDataPoint::TopLeft(data2),
                    rec.key_top_left,
                );
                crate::partition::lemma_model_update_preserves(
                    m0,
                    k_tl,
                    SpriteDataPoint::TopLeft(data2),
                    rec.key_bottom_right,
                );
                if i != idx {
                    assert(rec.key_top_left != k_tl) by {
                        assert(s0.live(idx as int) && s0.live(i));
                        assert(s0.record_of(idx as int).key_top_left == k_tl);
                    }
                    assert(rec.key_bottom_right != k_tl) by {
                        assert(value_at(m0, rec.key_bottom_right) is BottomRight);
                        assert(value_at(m0, k_tl) is TopLeft);
                    }
                }
            }
            assert forall|j: int|
                #![trigger sf.data_of(j)]
                s0.live(j) && j != idx implies sf.data_of(j) == s0.data_of(j) by {
                assert(s0.sprite_ok(j));
                let rec = s0.record_of(j);
                crate::partition::lemma_model_update_preserves(
                    m0,
                    k_tl,
                    SpriteDataPoint::TopLeft(data2),
                    rec.key_top_left,
                );
                assert(rec.key_top_left != k_tl) by {
                    assert(s0.live(idx as int) && s0.live(j));
                    assert(s0.record_of(idx as int).key_top_left == k_tl);
                }
            }
            assert forall|i: int, j: int|
                #![trigger sf.record_of(i), sf.record_of(j)]
                sf.live(i) && sf.live(j) && i != j implies {
                &&& sf.record_of(i).key_top_left != sf.record_of(j).key_top_left
                &&& sf.record_of(i).key_bottom_right != sf.record_of(j).key_bottom_right
            } by {
                assert(s0.live(i) && s0.live(j));
                assert(sf.record_of(i) == s0.record_of(i));
                assert(sf.record_of(j) == s0.record_of(j));
            }
            assert forall|r2: Region, s2: int| #[trigger]
                slot_occupied(mf, r2, s2) implies exists|i: int|
                {
                    &&& #[trigger] sf.live(i)
                    &&& ((sf.record_of(i).key_top_left.region == r2 && sf.record_of(
                        i,
                    ).key_top_left.slot == s2) || (sf.record_of(i).key_bottom_right.region == r2
                        && sf.record_of(i).key_bottom_right.slot == s2))
                } by {
                crate::partition::lemma_model_update_occupancy(
                    m0,
                    k_tl,
                    SpriteDataPoint::TopLeft(data2),
                    r2,
                    s2,
                );
                let w = choose|i: int|
                    {
                        &&& #[trigger] s0.live(i)
                        &&& ((s0.record_of(i).key_top_left.region == r2 && s0.record_of(
                            i,
                        ).key_top_left.slot == s2) || (s0.record_of(i).key_bottom_right.region
                            == r2 && s0.record_of(i).key_bottom_right.slot == s2))
                    };
                assert(sf.live(w));
                assert(sf.record_of(w) == s0.record_of(w));
            }
        }
    }

    /// Switches the sprite to another texture's frame; its rect (and thus
    /// both keys) stays as it is. Succeeds exactly when the id is live and
    /// the texture is known; the id is checked first.
    pub fn set_frame(&mut self, id: SpriteId, texture: &String) -> (r: Result<(), Error>)
        requires
            old(self).wf(),
        ensures
            final(self).wf(),
            final(self).part_map.size == old(self).part_map.size,
            final(self).part_map.cells == old(self).part_map.cells,
            final(self).tex_atlas == old(self).tex_atlas,
            final(self).anim_seq == old(self).anim_seq,
            final(self).vert_attrib == old(self).vert_attrib,
            final(self).sprites == old(self).sprites,
            match r {
                Ok(()) => {
                    &&& old(self).id_valid(id)
                    &&& final(self).id_valid(id)
                    &&& exists|ei: int|
                        {
                            &&& 0 <= ei < old(self).tex_atlas.entries@.len()
                            &&& (#[trigger] old(self).tex_atlas.entries@[ei]).name@ == texture@
                            &&& (forall|j: int|
                                0 <= j < ei ==> (#[trigger] old(
                                    self,
                                ).tex_atlas.entries@[j]).name@ != texture@)
                            &&& final(self).data_of(id.index as int) == (SpriteData {
                                frame: old(self).tex_atlas.entries@[ei].frame,
                                ..old(self).data_of(id.index as int)
                            })
                        }
                    &&& forall|j: int|
                        #![trigger final(self).data_of(j)]
                        old(self).live(j) && j != id.index ==> final(self).data_of(j) == old(
                            self,
                        ).data_of(j)
                },
                Err(e) => {
                    &&& *final(self) == *old(self)
                    &&& (e == Error::StaleHandle <==> !old(self).id_valid(id))
                    &&& (old(self).id_valid(id) ==> e == Error::UnknownTexture && !old(
                        self,
                    ).tex_atlas.has_name(texture@))
                },
            },
    {
        let looked = match self.read_sprite(id) {
            Ok(p) => p,
            Err(e) => {
                return Err(e);
            },
        };
        let data = looked.0;
        let frame = match self.tex_atlas.lookup(texture) {
            Ok(p) => p.0,
            Err(e) => {
                return Err(e);
            },
        };
        self.write_data(
            id,
            SpriteData { rect: data.rect, frame, anim_key: data.anim_key },
        );
        Ok(())
    }

    /// Binds the sprite to a registered animation sequence; its geometry
    /// stays as it is. Succeeds exactly when the id is live and the
    /// sequence name is known; the id is checked first.
    pub fn play(&mut self, id: SpriteId, sequence: &String) -> (r: Result<(), Error>)
        requires
            old(self).wf(),
        ensures
            final(self).wf(),
            final(self).part_map.size == old(self).part_map.size,
            final(self).part_map.cells == old(self).part_map.cells,
            final(self).tex_atlas == old(self).tex_atlas,
            final(self).anim_seq == old(self).anim_seq,
            final(self).vert_attrib == old(self).vert_attrib,
            final(self).sprites == old(self).sprites,
            match r {
                Ok(()) => {
                    &&& old(self).id_valid(id)
                    &&& final(self).id_valid(id)
                    &&& exists|si: int|
                        {
                            &&& 0 <= si < old(self).anim_seq.names@.len()
                            &&& (#[trigger] old(self).anim_seq.names@[si])@ == sequence@
                            &&& (forall|j: int|
                                0 <= j < si ==> (#[trigger] old(self).anim_seq.names@[j])@
                                    != sequence@)
                            &&& final(self).data_of(id.index as int) == (SpriteData {
                                anim_key: Some(si as usize),
                                ..old(self).data_of(id.index as int)
                            })
                        }
                    &&& forall|j: int|
                        #![trigger final(self).data_of(j)]
                        old(self).live(j) && j != id.index ==> final(self).data_of(j) == old(
                            self,
                        ).data_of(j)
                },
                Err(e) => {
                    &&& *final(self) == *old(self)
                    &&& (e == Error::StaleHandle <==> !old(self).id_valid(id))
                    &&& (old(self).id_valid(id) ==> e == Error::UnknownSequence && !old(
                        self,
                    ).anim_seq.has_name(sequence@))
                },
            },
    {
        let looked = match self.read_sprite(id) {
            Ok(p) => p,
            Err(e) => {
                return Err(e);
            },
        };
        let data = looked.0;
        let seq_index = match self.anim_seq.add(sequence) {
            Ok(i) => i,
            Err(e) => {
                return Err(e);
            },
        };
        self.write_data(
            id,
            SpriteData { rect: data.rect, frame: data.frame, anim_key: Some(seq_index) },
        );
        Ok(())
    }

    /// Removes a sprite: frees both of its slots exactly once, clears its
    /// table entry, and bumps the slot's generation so the id (and any
    /// copy of it) is rejected from now on. Succeeds exactly when the id
    /// is live; on failure nothing changes.
    pub fn remove_sprite(&mut self, id: SpriteId) -> (r: Result<(), Error>)
        requires
            old(self).wf(),
        ensures
            final(self).wf(),
            final(self).part_map.size == old(self).part_map.size,
            final(self).part_map.cells == old(self).part_map.cells,
            final(self).tex_atlas == old(self).tex_atlas,
            final(self).anim_seq == old(self).anim_seq,
            final(self).vert_attrib == old(self).vert_attrib,
            match r {
                Ok(()) => {
                    &&& old(self).id_valid(id)
                    &&& !final(self).id_valid(id)
                    &&& final(self).part_map.model() == model_remove(
                        model_remove(
                            old(self).part_map.model(),
                            old(self).record_of(id.index as int).key_top_left,
                        ),
                        old(self).record_of(id.index as int).key_bottom_right,
                    )
                    &&& final(self).sprites@.len() == old(self).sprites@.len()
                    &&& final(self).sprites@[id.index as int].record is None
                    &&& final(self).sprites@[id.index as int].generation == next_generation(
                        id.generation,
                    )
                    &&& forall|j: int|
                        0 <= j < old(self).sprites@.len() && j != id.index
                            ==> final(self).sprites@[j] == old(self).sprites@[j]
                },
                Err(e) => {
                    &&& *final(self) == *old(self)
                    &&& e == Error::StaleHandle
                    &&& !old(self).id_valid(id)
                },
            },
    {
        if id.index >= self.sprites.len() {
            return Err(Error::StaleHandle);
        }
        if self.sprites[id.index].generation != id.generation {
            return Err(Error::StaleHandle);
        }
        let idx = id.index;
        let keys = match &self.sprites[idx].record {
            Some(rec) => (rec.key_top_left.copy_internal(), rec.key_bottom_right.copy_internal()),
            None => {
                return Err(Error::StaleHandle);
            },
        };
        let k_tl = keys.0;
        let k_br = keys.1;
        proof {
            assert(old(self).live(idx as int));
            assert(old(self).sprite_ok(idx as int));
        }
        let ghost m0 = self.part_map.model();
        let _v_tl = self.part_map.take_at(&k_tl);
        let ghost m1 = self.part_map.model();
        proof {
            crate::partition::lemma_model_remove_preserves(m0, k_tl, k_br);
        }
        let _v_br = self.part_map.take_at(&k_br);
        let generation = self.sprites[idx].generation;
        let bumped = if generation < u64::MAX {
            generation + 1
        } else {
            0
        };
        self.sprites.set(idx, SpriteSlot { generation: bumped, record: None });
        proof {
            let s0 = *old(self);
            let sf = *self;
            let mf = sf.part_map.model();
            assert forall|i: int| #[trigger] sf.live(i) implies sf.sprite_ok(i) by {
                assert(sf.sprites@[i] == s0.sprites@[i]);
                assert(s0.live(i));
                assert(s0.sprite_ok(i));
                let rec = s0.record_of(i);
                assert(rec.key_top_left != k_tl && rec.key_bottom_right != k_br) by {
                    assert(s0.live(idx as int) && s0.live(i));
                }
                assert(rec.key_bottom_right != k_tl) by {
                    assert(value_at(m0, rec.key_bottom_right) is BottomRight);
                    assert(value_at(m0, k_tl) is TopLeft);
                }
                assert(rec.key_top_left != k_br) by {
                    assert(value_at(m0, rec.key_top_left) is TopLeft);
                    assert(value_at(m0, k_br) is BottomRight);
                }
                crate::partition::lemma_model_remove_preserves(m0, k_tl, rec.key_top_left);
                crate::partition::lemma_model_remove_preserves(m0, k_tl, rec.key_bottom_right);
                crate::partition::lemma_model_remove_preserves(m1, k_br, rec.key_top_left);
                crate::partition::lemma_model_remove_preserves(m1, k_br, rec.key_bottom_right);
                assert(sf.record_of(i) == rec);
            }
            assert forall|i: int, j: int|
                #![trigger sf.record_of(i), sf.record_of(j)]
                sf.live(i) && sf.live(j) && i != j implies {
                &&& sf.record_of(i).key_top_left != sf.record_of(j).key_top_left
                &&& sf.record_of(i).key_bottom_right != sf.record_of(j).key_bottom_right
            } by {
                assert(sf.sprites@[i] == s0.sprites@[i]);
                assert(sf.sprites@[j] == s0.sprites@[j]);
                assert(s0.live(i) && s0.live(j));
                assert(sf.record_of(i) == s0.record_of(i));
                assert(sf.record_of(j) == s0.record_of(j));
            }
            assert forall|r2: Region, s2: int| #[trigger]
                slot_occupied(mf, r2, s2) implies exists|i: int|
                {
                    &&& #[trigger] sf.live(i)
                    &&& ((sf.record_of(i).key_top_left.region == r2 && sf.record_of(
                        i,
                    ).key_top_left.slot == s2) || (sf.record_of(i).key_bottom_right.region == r2
                        && sf.record_of(i).key_bottom_right.slot == s2))
                } by {
                crate::partition::lemma_model_remove_occupancy(m1, k_br, r2, s2);
                crate::partition::lemma_model_remove_occupancy(m0, k_tl, r2, s2);
                let w = choose|i: int|
                    {
                        &&& #[trigger] s0.live(i)
                        &&& ((s0.record_of(i).key_top_left.region == r2 && s0.record_of(
                            i,
                        ).key_top_left.slot == s2) || (s0.record_of(i).key_bottom_right.region
                            == r2 && s0.record_of(i).key_bottom_right.slot == s2))
                    };
                assert(w != idx) by {
                    if w == idx {
                        assert(s0.record_of(idx as int).key_top_left == k_tl);
                        assert(s0.record_of(idx as int).key_bottom_right == k_br);
                    }
                }
                assert(sf.sprites@[w] == s0.sprites@[w]);
                assert(sf.live(w) && sf.record_of(w) == s0.record_of(w));
            }
        }
        Ok(())
    }
}

/// A key of another sprite, valid before a re-registration and distinct
/// from the re-registered sprite's two keys, stays valid with its value
/// through all four steps.
proof fn lemma_keys_preserved_through_reinstall(
    m0: Map<u64, Seq<Option<SpriteDataPoint>>>,
    rec0: SpriteRecord,
    data2: SpriteData,
    k: Key,
    size: u32,
    cells: u32,
)
    requires
        key_valid(m0, rec0.key_top_left),
        key_valid(m0, rec0.key_bottom_right),
        rec0.key_top_left != rec0.key_bottom_right,
        key_valid(m0, k),
        k != rec0.key_top_left,
        k != rec0.key_bottom_right,
    ensures
        ({
            let mf = reinstalled_model(m0, rec0, data2, size, cells);
            &&& key_valid(mf, k)
            &&& value_at(mf, k) == value_at(m0, k)
        }),
{
    let b = data2.rect.spec_bounding();
    let m1 = model_remove(m0, rec0.key_top_left);
    let m2 = model_remove(m1, rec0.key_bottom_right);
    let m3 = model_insert(m2, region_of(b.top_left, size, cells), SpriteDataPoint::TopLeft(data2));
    crate::partition::lemma_model_remove_preserves(m0, rec0.key_top_left, k);
    crate::partition::lemma_model_remove_preserves(m0, rec0.key_top_left, rec0.key_bottom_right);
    crate::partition::lemma_model_remove_preserves(m1, rec0.key_bottom_right, k);
    crate::partition::lemma_model_insert_preserves(
        m2,
        region_of(b.top_left, size, cells),
        SpriteDataPoint::TopLeft(data2),
        k,
    );
    crate::partition::lemma_model_insert_preserves(
        m3,
        region_of(b.bottom_right, size, cells),
        SpriteDataPoint::BottomRight,
        k,
    );
}

/// Largest magnitude a camera rect coordinate may have.
pub const CAM_BOUND: i64 = 0x4_0000_0000;

/// No corner strays farther than `b` from the top-left corner on either
/// axis.
pub open spec fn rect_spread_bounded(r: Rect, b: int) -> bool {
    &&& -b <= r.top_right.x - r.top_left.x <= b
    &&& -b <= r.top_right.y - r.top_left.y <= b
    &&& -b <= r.bottom_left.x - r.top_left.x <= b
    &&& -b <= r.bottom_left.y - r.top_left.y <= b
    &&& -b <= r.bottom_right.x - r.top_left.x <= b
    &&& -b <= r.bottom_right.y - r.top_left.y <= b
}

/// A rect a camera can hold: coordinates within [`CAM_BOUND`] and spread
/// within [`GEOM_LIMIT`].
pub open spec fn cam_rect_wf(r: Rect) -> bool {
    &&& r.coords_bounded(CAM_BOUND as int)
    &&& rect_spread_bounded(r, GEOM_LIMIT as int)
}

/// The camera: a world rect whose corners drive the broad-phase visibility
/// query. Visibility is tested on registered corner cells, not true
/// rect/rect intersection; a caller that needs exactness pads the camera
/// rect by the largest expected sprite extent.
pub struct Camera {
    pub rect: Rect,
}

impl Camera {
    pub open spec fn wf(self) -> bool {
        cam_rect_wf(self.rect)
    }

    /// A camera over the axis-aligned rect with top-left `(x, y)` and the
    /// given extent; depth is irrelevant for occlusion and fixed at zero.
    pub fn new(x: i64, y: i64, width: i64, height: i64) -> (r: Camera)
        requires
            -GEOM_LIMIT <= x <= GEOM_LIMIT,
            -GEOM_LIMIT <= y <= GEOM_LIMIT,
            0 <= width <= GEOM_LIMIT,
            0 <= height <= GEOM_LIMIT,
        ensures
            r.wf(),
            r.rect == Rect::spec_new_raw(x as int, y as int, 0, width as int, height as int),
    {
        Camera { rect: Rect::new_raw(x, y, 0, width, height) }
    }

    /// Centers the camera rect on the world point `(x, y)` (the center
    /// rounding toward zero), preserving its extent.
    pub fn set_center_pos(&mut self, x: i64, y: i64)
        requires
            old(self).wf(),
            -GEOM_LIMIT <= x <= GEOM_LIMIT,
            -GEOM_LIMIT <= y <= GEOM_LIMIT,
        ensures
            final(self).wf(),
            final(self).rect == old(self).rect.spec_translated(
                Vector2d {
                    x: (x - crate::geom::spec_div_trunc(
                        old(self).rect.top_right.x - old(self).rect.top_left.x,
                        2,
                    ) - old(self).rect.top_left.x) as i64,
                    y: (y - crate::geom::spec_div_trunc(
                        old(self).rect.bottom_left.y - old(self).rect.top_left.y,
                        2,
                    ) - old(self).rect.top_left.y) as i64,
                },
            ),
    {
        proof {
            crate::geom::lemma_div_trunc_bound(
                self.rect.top_right.x - self.rect.top_left.x,
                2,
            );
            crate::geom::lemma_div_trunc_bound(
                self.rect.bottom_left.y - self.rect.top_left.y,
                2,
            );
        }
        let c = self.rect.center_origin();
        self.rect.set_pos_with_origin(c, x, y);
    }

    /// Scales the camera rect about its center by `scale_fp / SCALE_ONE`.
    /// Succeeds exactly when the zoomed rect still fits the camera's
    /// coordinate range; on failure the rect is unchanged.
    pub fn set_zoom_level(&mut self, scale_fp: i64) -> (r: Result<(), Error>)
        requires
            old(self).wf(),
            0 <= scale_fp <= SCALE_LIMIT,
        ensures
            match r {
                Ok(()) => {
                    &&& final(self).wf()
                    &&& final(self).rect == old(self).rect.spec_transformed(
                        Vector2d {
                            x: (old(self).rect.top_left.x + crate::geom::spec_div_trunc(
                                old(self).rect.top_right.x - old(self).rect.top_left.x,
                                2,
                            )) as i64,
                            y: (old(self).rect.top_left.y + crate::geom::spec_div_trunc(
                                old(self).rect.bottom_left.y - old(self).rect.top_left.y,
                                2,
                            )) as i64,
                        },
                        scale_fp as int,
                        0,
                        SCALE_ONE as int,
                        0,
                        scale_fp as int,
                        SCALE_ONE as int,
                    )
                },
                Err(e) => {
                    &&& *final(self) == *old(self)
                    &&& e == Error::CameraOutOfRange
                    &&& !cam_rect_wf(
                        old(self).rect.spec_transformed(
                            Vector2d {
                                x: (old(self).rect.top_left.x + crate::geom::spec_div_trunc(
                                    old(self).rect.top_right.x - old(self).rect.top_left.x,
                                    2,
                                )) as i64,
                                y: (old(self).rect.top_left.y + crate::geom::spec_div_trunc(
                                    old(self).rect.bottom_left.y - old(self).rect.top_left.y,
                                    2,
                                )) as i64,
                            },
                            scale_fp as int,
                            0,
                            SCALE_ONE as int,
                            0,
                            scale_fp as int,
                            SCALE_ONE as int,
                        ),
                    )
                },
            },
    {
        proof {
            crate::geom::lemma_div_trunc_bound(
                self.rect.top_right.x - self.rect.top_left.x,
                2,
            );
            crate::geom::lemma_div_trunc_bound(
                self.rect.bottom_left.y - self.rect.top_left.y,
                2,
            );
        }
        let c = self.rect.center_origin();
        let og = Vector2d {
            x: self.rect.top_left.x + c.vector2d.x,
            y: self.rect.top_left.y + c.vector2d.y,
        };
        let mut zoomed = self.rect;
        zoomed.apply_affine(og, scale_fp, 0, SCALE_ONE, 0, scale_fp, SCALE_ONE);
        if !rect_fits_camera(&zoomed) {
            return Err(Error::CameraOutOfRange);
        }
        self.rect = zoomed;
        Ok(())
    }
}

/// Exec check of [`cam_rect_wf`].
fn rect_fits_camera(r: &Rect) -> (ok: bool)
    ensures
        ok == cam_rect_wf(*r),
{
    let in_bounds = r.top_left.x >= -CAM_BOUND && r.top_left.x <= CAM_BOUND && r.top_left.y
        >= -CAM_BOUND && r.top_left.y <= CAM_BOUND && r.bottom_left.x >= -CAM_BOUND
        && r.bottom_left.x <= CAM_BOUND && r.bottom_left.y >= -CAM_BOUND && r.bottom_left.y
        <= CAM_BOUND && r.bottom_right.x >= -CAM_BOUND && r.bottom_right.x <= CAM_BOUND
        && r.bottom_right.y >= -CAM_BOUND && r.bottom_right.y <= CAM_BOUND && r.top_right.x
        >= -CAM_BOUND && r.top_right.x <= CAM_BOUND && r.top_right.y >= -CAM_BOUND
        && r.top_right.y <= CAM_BOUND;
    if !in_bounds {
        return false;
    }
    let g = GEOM_LIMIT;
    r.top_right.x - r.top_left.x >= -g && r.top_right.x - r.top_left.x <= g && r.top_right.y
        - r.top_left.y >= -g && r.top_right.y - r.top_left.y <= g && r.bottom_left.x
        - r.top_left.x >= -g && r.bottom_left.x - r.top_left.x <= g && r.bottom_left.y
        - r.top_left.y >= -g && r.bottom_left.y - r.top_left.y <= g && r.bottom_right.x
        - r.top_left.x >= -g && r.bottom_right.x - r.top_left.x <= g && r.bottom_right.y
        - r.top_left.y >= -g && r.bottom_right.y - r.top_left.y <= g
}

/// The sprite data the visibility query collects from one arena: each
/// occupied top-left entry in slot order; markers and empty slots
/// contribute nothing.
pub open spec fn visible_in_arena(s: Seq<Option<SpriteDataPoint>>) -> Seq<SpriteData>
    decreases s.len(),
{
    if s.len() == 0 {
        Seq::empty()
    } else {
        visible_in_arena(s.drop_last()) + (match s.last() {
            Some(SpriteDataPoint::TopLeft(d)) => seq![d],
            _ => Seq::empty(),
        })
    }
}

/// The sprite data the visibility query collects over a region list:
/// region enumeration order first, slot order within each arena.
pub open spec fn visible_in_regions(
    m: Map<u64, Seq<Option<SpriteDataPoint>>>,
    regions: Seq<Region>,
) -> Seq<SpriteData>
    decreases regions.len(),
{
    if regions.len() == 0 {
        Seq::empty()
    } else {
        visible_in_regions(m, regions.drop_last()) + visible_in_arena(
            arena_in(m, regions.last()),
        )
    }
}

proof fn lemma_visible_arena_step(s: Seq<Option<SpriteDataPoint>>, k: int)
    requires
        0 <= k < s.len(),
    ensures
        visible_in_arena(s.take(k + 1)) == visible_in_arena(s.take(k)) + (match s[k] {
            Some(SpriteDataPoint::TopLeft(d)) => seq![d],
            _ => Seq::empty(),
        }),
{
    assert(s.take(k + 1).drop_last() =~= s.take(k));
    assert(s.take(k + 1).last() == s[k]);
}

proof fn lemma_visible_regions_step(
    m: Map<u64, Seq<Option<SpriteDataPoint>>>,
    l: Seq<Region>,
    k: int,
)
    requires
        0 <= k < l.len(),
    ensures
        visible_in_regions(m, l.take(k + 1)) == visible_in_regions(m, l.take(k))
            + visible_in_arena(arena_in(m, l[k])),
{
    assert(l.take(k + 1).drop_last() =~= l.take(k));
    assert(l.take(k + 1).last() == l[k]);
}

proof fn lemma_visible_arena_take_len(s: Seq<Option<SpriteDataPoint>>, k: int)
    requires
        0 <= k <= s.len(),
    ensures
        visible_in_arena(s.take(k)).len() <= visible_in_arena(s).len(),
    decreases s.len() - k,
{
    if k == s.len() {
        assert(s.take(k) =~= s);
    } else {
        lemma_visible_arena_step(s, k);
        lemma_visible_arena_take_len(s, k + 1);
    }
}

proof fn lemma_visible_regions_take_len(
    m: Map<u64, Seq<Option<SpriteDataPoint>>>,
    l: Seq<Region>,
    k: int,
)
    requires
        0 <= k <= l.len(),
    ensures
        visible_in_regions(m, l.take(k)).len() <= visible_in_regions(m, l).len(),
    decreases l.len() - k,
{
    if k == l.len() {
        assert(l.take(k) =~= l);
    } else {
        lemma_visible_regions_step(m, l, k);
        lemma_visible_regions_take_len(m, l, k + 1);
    }
}

/// The region list a camera's corners select: the inclusive lattice
/// between the two corner regions, normalized per axis.
pub open spec fn camera_regions(cam: Camera, size: u32, cells: u32) -> Seq<Region> {
    let ra = region_of(cam.rect.top_left, size, cells);
    let rb = region_of(cam.rect.bottom_right, size, cells);
    crate::partition::lattice_regions(
        vstd::math::min(ra.x as int, rb.x as int),
        vstd::math::min(ra.y as int, rb.y as int),
        vstd::math::max(ra.x as int, rb.x as int),
        vstd::math::max(ra.y as int, rb.y as int),
    )
}

impl Scene {
    /// One frame step: advances the animation clock, clears the per-frame
    /// buffers, and rebuilds the render batch from every sprite whose
    /// registered top-left corner cell falls inside the camera's cell
    /// range — a broad-phase test keyed on corner cells, not true
    /// rect/rect intersection. Sprites enter the batch in region
    /// enumeration order, then arena slot order. The index buffer is grown
    /// (never shrunk) to cover the batch. Fails, changing nothing, when a
    /// camera corner lies outside the world; fails with a too-large batch
    /// once more sprites are visible than one batch can index, the
    /// partition map and sprite table still untouched.
    #[verifier::rlimit(40)]
    pub fn update(&mut self, cam: &Camera, delta_ms: u64) -> (r: Result<(), Error>)
        requires
            old(self).wf(),
        ensures
            final(self).wf(),
            final(self).part_map == old(self).part_map,
            final(self).sprites == old(self).sprites,
            final(self).tex_atlas == old(self).tex_atlas,
            final(self).anim_seq.names == old(self).anim_seq.names,
            match r {
                Ok(()) => ({
                    let size = old(self).part_map.size;
                    let vis = visible_in_regions(
                        old(self).part_map.model(),
                        camera_regions(*cam, size, old(self).part_map.cells),
                    );
                    &&& valid_point(cam.rect.top_left, size)
                    &&& valid_point(cam.rect.bottom_right, size)
                    &&& vis.len() <= 16384
                    &&& final(self).vert_attrib.sprite_pos@ == vis.map_values(
                        |d: SpriteData| d.rect,
                    )
                    &&& final(self).vert_attrib.tex_pos@ == vis.map_values(
                        |d: SpriteData| d.frame,
                    )
                    &&& final(self).vert_attrib.index@.len() >= 6 * vis.len()
                    &&& final(self).vert_attrib.index@.len()
                        >= old(self).vert_attrib.index@.len()
                    &&& (old(self).anim_seq.elapsed_ms + delta_ms <= u64::MAX
                        ==> final(self).anim_seq.elapsed_ms == old(self).anim_seq.elapsed_ms
                        + delta_ms)
                    &&& (old(self).anim_seq.elapsed_ms + delta_ms > u64::MAX
                        ==> final(self).anim_seq.elapsed_ms == u64::MAX)
                }),
                Err(e) => ({
                    let size = old(self).part_map.size;
                    let tl = cam.rect.top_left;
                    let br = cam.rect.bottom_right;
                    &&& ((!valid_point(tl, size) || !valid_point(br, size)) ==> {
                        &&& *final(self) == *old(self)
                        &&& (!valid_point(tl, size) ==> {
                            &&& (e == Error::XOutOfBound <==> !(0 <= tl.x < size))
                            &&& (e == Error::YOutOfBound <==> (0 <= tl.x < size) && !(0 <= tl.y
                                < size))
                        })
                        &&& (valid_point(tl, size) ==> {
                            &&& (e == Error::XOutOfBound <==> !(0 <= br.x < size))
                            &&& (e == Error::YOutOfBound <==> (0 <= br.x < size) && !(0 <= br.y
                                < size))
                        })
                    })
                    &&& (valid_point(tl, size) && valid_point(br, size) ==> {
                        &&& e == Error::BatchTooLarge
                        &&& visible_in_regions(
                            old(self).part_map.model(),
                            camera_regions(*cam, size, old(self).part_map.cells),
                        ).len() > 16384
                        &&& final(self).vert_attrib.index == old(self).vert_attrib.index
                    })
                    &&& (e == Error::BatchTooLarge ==> valid_point(tl, size) && valid_point(
                        br,
                        size,
                    ))
                }),
            },
    {
        let regions = match self.part_map.points_to_regions(
            cam.rect.top_left(),
            cam.rect.bottom_right(),
        ) {
            Ok(v) => v,
            Err(e) => {
                return Err(e);
            },
        };
        self.anim_seq.advance(delta_ms);
        self.vert_attrib.clear();
        let ghost m = self.part_map.model();
        let ghost rs = regions@;
        proof {
            assert(rs == camera_regions(*cam, self.part_map.size, self.part_map.cells));
        }
        let n_regions = regions.len();
        let mut ri: usize = 0;
        while ri < n_regions
            invariant
                old(self).wf(),
                self.part_map.wf(),
                self.vert_attrib.wf(),
                valid_point(cam.rect.top_left, old(self).part_map.size),
                valid_point(cam.rect.bottom_right, old(self).part_map.size),
                rs == camera_regions(*cam, old(self).part_map.size, old(self).part_map.cells),
                ri <= n_regions,
                n_regions == rs.len(),
                regions@ == rs,
                m == self.part_map.model(),
                self.part_map == old(self).part_map,
                self.sprites == old(self).sprites,
                self.tex_atlas == old(self).tex_atlas,
                self.anim_seq.names == old(self).anim_seq.names,
                self.vert_attrib.index == old(self).vert_attrib.index,
                self.vert_attrib.sprite_pos@ == visible_in_regions(m, rs.take(ri as int)).map_values(
                    |d: SpriteData| d.rect,
                ),
                self.vert_attrib.tex_pos@ == visible_in_regions(m, rs.take(ri as int)).map_values(
                    |d: SpriteData| d.frame,
                ),
                self.vert_attrib.sprite_pos@.len() <= 16384,
                self.anim_seq == final_anim(*old(self), delta_ms),
            decreases n_regions - ri,
        {
            let region = regions[ri];
            let arena_opt = self.part_map.get_arena(region);
            match arena_opt {
                None => {
                    proof {
                        lemma_visible_regions_step(m, rs, ri as int);
                        assert(visible_in_arena(arena_in(m, rs[ri as int]))
                            == Seq::<SpriteData>::empty());
                        assert(visible_in_regions(m, rs.take(ri as int + 1)) =~= visible_in_regions(
                            m,
                            rs.take(ri as int),
                        ));
                    }
                },
                Some(arena) => {
                    let n_slots = arena.len();
                    let mut si: usize = 0;
                    while si < n_slots
                        invariant
                            si <= n_slots,
                            0 <= ri < rs.len(),
                            n_slots == arena@.len(),
                            arena@ == arena_in(m, rs[ri as int]),
                            old(self).wf(),
                            self.part_map.wf(),
                            self.vert_attrib.wf(),
                            valid_point(cam.rect.top_left, old(self).part_map.size),
                            valid_point(cam.rect.bottom_right, old(self).part_map.size),
                            rs == camera_regions(
                                *cam,
                                old(self).part_map.size,
                                old(self).part_map.cells,
                            ),
                            m == self.part_map.model(),
                            self.part_map == old(self).part_map,
                            self.sprites == old(self).sprites,
                            self.tex_atlas == old(self).tex_atlas,
                            self.anim_seq.names == old(self).anim_seq.names,
                            self.vert_attrib.index == old(self).vert_attrib.index,
                            self.vert_attrib.sprite_pos@ == (visible_in_regions(
                                m,
                                rs.take(ri as int),
                            ) + visible_in_arena(arena@.take(si as int))).map_values(
                                |d: SpriteData| d.rect,
                            ),
                            self.vert_attrib.tex_pos@ == (visible_in_regions(
                                m,
                                rs.take(ri as int),
                            ) + visible_in_arena(arena@.take(si as int))).map_values(
                                |d: SpriteData| d.frame,
                            ),
                            self.vert_attrib.sprite_pos@.len() <= 16384,
                            self.anim_seq == final_anim(*old(self), delta_ms),
                        decreases n_slots - si,
                    {
                        proof {
                            lemma_visible_arena_step(arena@, si as int);
                        }
                        match &arena[si] {
                            Some(SpriteDataPoint::TopLeft(d)) => {
                                if self.vert_attrib.sprite_pos.len() >= 16384 {
                                    proof {
                                        lemma_visible_arena_take_len(arena@, si as int + 1);
                                        lemma_visible_regions_step(m, rs, ri as int);
                                        lemma_visible_regions_take_len(m, rs, ri as int + 1);
                                        lemma_wf_scratch_independent(*old(self), *self);
                                    }
                                    return Err(Error::BatchTooLarge);
                                }
                                let rect = d.rect;
                                let frame = d.frame;
                                self.vert_attrib.load(rect, frame);
                            },
                            _ => {},
                        }
                        si = si + 1;
                    }
                    proof {
                        assert(arena@.take(n_slots as int) =~= arena@);
                        lemma_visible_regions_step(m, rs, ri as int);
                    }
                },
            }
            ri = ri + 1;
        }
        proof {
            assert(rs.take(n_regions as int) =~= rs);
        }
        let quads = self.vert_attrib.sprite_pos.len();
        self.vert_attrib.ensure_index_len(6 * quads);
        proof {
            lemma_wf_scratch_independent(*old(self), *self);
        }
        Ok(())
    }
}

/// Well-formedness does not depend on the render batch or the animation
/// clock: a scene with the same partition map, sprite table, and atlas,
/// and a well-formed batch, is well-formed.
proof fn lemma_wf_scratch_independent(a: Scene, b: Scene)
    requires
        a.wf(),
        b.part_map == a.part_map,
        b.sprites == a.sprites,
        b.tex_atlas == a.tex_atlas,
        b.vert_attrib.wf(),
    ensures
        b.wf(),
{
    assert forall|i: int| #[trigger] b.live(i) implies b.sprite_ok(i) by {
        assert(a.live(i));
        assert(a.sprite_ok(i));
        assert(b.record_of(i) == a.record_of(i));
    }
    assert forall|i: int, j: int|
        #![trigger b.record_of(i), b.record_of(j)]
        b.live(i) && b.live(j) && i != j implies {
        &&& b.record_of(i).key_top_left != b.record_of(j).key_top_left
        &&& b.record_of(i).key_bottom_right != b.record_of(j).key_bottom_right
    } by {
        assert(a.live(i) && a.live(j));
        assert(b.record_of(i) == a.record_of(i));
        assert(b.record_of(j) == a.record_of(j));
    }
    assert forall|r2: Region, s2: int| #[trigger]
        slot_occupied(b.part_map.model(), r2, s2) implies exists|i: int|
        {
            &&& #[trigger] b.live(i)
            &&& ((b.record_of(i).key_top_left.region == r2 && b.record_of(i).key_top_left.slot
                == s2) || (b.record_of(i).key_bottom_right.region == r2 && b.record_of(
                i,
            ).key_bottom_right.slot == s2))
        } by {
        let w = choose|i: int|
            {
                &&& #[trigger] a.live(i)
                &&& ((a.record_of(i).key_top_left.region == r2 && a.record_of(i).key_top_left.slot
                    == s2) || (a.record_of(i).key_bottom_right.region == r2 && a.record_of(
                    i,
                ).key_bottom_right.slot == s2))
            };
        assert(b.live(w));
        assert(b.record_of(w) == a.record_of(w));
    }
}

/// The animation table after one update's advance.
pub open spec fn final_anim(pre: Scene, delta_ms: u64) -> SeqTable {
    SeqTable {
        names: pre.anim_seq.names,
        elapsed_ms: if pre.anim_seq.elapsed_ms + delta_ms <= u64::MAX {
            (pre.anim_seq.elapsed_ms + delta_ms) as u64
        } else {
            u64::MAX
        },
    }
}

impl Scene {
    /// The render batch of the most recent update: positions, UVs, and the
    /// quad index buffer, for read-only consumption by a renderer.
    pub fn render_data(&self) -> (r: &RenderData)
        ensures
            r == &self.vert_attrib,
    {
        &self.vert_attrib
    }
}

proof fn lemma_visible_arena_contains(s: Seq<Option<SpriteDataPoint>>, k: int, d: SpriteData)
    requires
        0 <= k < s.len(),
        s[k] == Some(SpriteDataPoint::TopLeft(d)),
    ensures
        visible_in_arena(s).contains(d),
    decreases s.len(),
{
    if k == s.len() - 1 {
        assert(visible_in_arena(s).last() == d);
    } else {
        assert(s.drop_last()[k] == s[k]);
        lemma_visible_arena_contains(s.drop_last(), k, d);
        let j = choose|j: int|
            0 <= j < visible_in_arena(s.drop_last()).len() && visible_in_arena(s.drop_last())[j]
                == d;
        assert(visible_in_arena(s)[j] == d);
    }
}

proof fn lemma_visible_regions_contains(
    m: Map<u64, Seq<Option<SpriteDataPoint>>>,
    l: Seq<Region>,
    k: int,
    slot: int,
    d: SpriteData,
)
    requires
        0 <= k < l.len(),
        0 <= slot < arena_in(m, l[k]).len(),
        arena_in(m, l[k])[slot] == Some(SpriteDataPoint::TopLeft(d)),
    ensures
        visible_in_regions(m, l).contains(d),
    decreases l.len(),
{
    if k == l.len() - 1 {
        lemma_visible_arena_contains(arena_in(m, l[k]), slot, d);
        let j = choose|j: int|
            0 <= j < visible_in_arena(arena_in(m, l[k])).len() && visible_in_arena(
                arena_in(m, l[k]),
            )[j] == d;
        assert(visible_in_regions(m, l)[visible_in_regions(m, l.drop_last()).len() + j] == d);
    } else {
        assert(l.drop_last()[k] == l[k]);
        lemma_visible_regions_contains(m, l.drop_last(), k, slot, d);
        let j = choose|j: int|
            0 <= j < visible_in_regions(m, l.drop_last()).len() && visible_in_regions(
                m,
                l.drop_last(),
            )[j] == d;
        assert(visible_in_regions(m, l)[j] == d);
    }
}

/// A camera whose corner points resolve to the extreme regions `(0, 0)`
/// and `(max_axis, max_axis)` — one that covers the whole world — has
/// every live sprite's data in its visibility collection: the broad-phase
/// query misses nothing that is registered. Together with `update`'s
/// contract (the batch holds exactly the occupied top-left entries of the
/// enumerated regions, and a camera corner outside the world is an
/// error), the whole-world query reports exactly the occupied regions.
pub proof fn lemma_whole_world_sees_every_sprite(scene: Scene, cam: Camera, i: int)
    requires
        scene.wf(),
        scene.live(i),
        region_of(cam.rect.top_left, scene.part_map.size, scene.part_map.cells) == (Region {
            x: 0u32,
            y: 0u32,
        }),
        region_of(cam.rect.bottom_right, scene.part_map.size, scene.part_map.cells) == (Region {
            x: max_axis(scene.part_map.size, scene.part_map.cells) as u32,
            y: max_axis(scene.part_map.size, scene.part_map.cells) as u32,
        }),
    ensures
        visible_in_regions(
            scene.part_map.model(),
            camera_regions(cam, scene.part_map.size, scene.part_map.cells),
        ).contains(scene.data_of(i)),
{
    let m = scene.part_map.model();
    let size = scene.part_map.size;
    let cells = scene.part_map.cells;
    assert(scene.sprite_ok(i));
    let k = scene.record_of(i).key_top_left;
    let d = scene.data_of(i);
    assert(crate::partition::region_occupied(m, k.region)) by {
        assert(crate::partition::slot_occupied(m, k.region, k.slot as int));
    }
    crate::partition::lemma_whole_world_covers_occupied(scene.part_map, k.region);
    let regions = camera_regions(cam, size, cells);
    crate::partition::lemma_region_axis_bounds(size as int - 1, size, cells);
    assert(regions == crate::partition::lattice_regions(
        0,
        0,
        max_axis(size, cells),
        max_axis(size, cells),
    ));
    let ri = choose|ri: int| 0 <= ri < regions.len() && regions[ri] == k.region;
    assert(arena_in(m, regions[ri])[k.slot as int] == Some(SpriteDataPoint::TopLeft(d)));
    lemma_visible_regions_contains(m, regions, ri, k.slot as int, d);
}

/// With no live sprites, no slot anywhere in the partition map is
/// occupied: creating sprites and then disposing them all leaves the map
/// fully empty of values.
pub proof fn lemma_no_sprites_no_occupancy(scene: Scene, r: Region, s: int)
    requires
        scene.wf(),
        forall|i: int| !scene.live(i),
    ensures
        !slot_occupied(scene.part_map.model(), r, s),
{
    if slot_occupied(scene.part_map.model(), r, s) {
        let i = choose|i: int|
            #[trigger] scene.live(i) && ((scene.record_of(i).key_top_left.region == r
                && scene.record_of(i).key_top_left.slot == s) || (scene.record_of(
                i,
            ).key_bottom_right.region == r && scene.record_of(i).key_bottom_right.slot == s));
        assert(false);
    }
}

} // verus!
