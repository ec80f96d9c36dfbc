//! The static world: entities bucketed by layer, and the incremental sweep
//! collision query that the player integrates its motion against.

use vstd::prelude::*;

use crate::collider::Collider;
use crate::geom::{isqrt, lemma_sqrt_floor, rect_ok, rects_overlap, sqrt_floor, Point, Rect};

verus! {

/// Which side of the mover first touched an obstacle, named after the probe
/// axis and the sign of the movement along it.
#[derive(Clone, Copy, PartialEq, Eq, Structural, Debug)]
pub enum Direction {
    Left,
    Right,
    Top,
    Bottom,
}

/// A placed piece of world geometry: a position, an opaque sprite key, and an
/// optional collision box. Degenerate boxes are dropped at construction, so a
/// stored box always takes part in collision.
#[derive(Clone, Debug)]
pub struct StaticEntity {
    pub pos: Point,
    pub collider: Option<Collider>,
    pub sprite: String,
}

impl StaticEntity {
    /// In-bounds position; a stored collider is well-formed and never
    /// degenerate.
    pub open spec fn wf(self) -> bool {
        &&& self.pos.in_bounds()
        &&& match self.collider {
            Some(c) => c.wf() && c.width + c.height >= 1,
            None => true,
        }
    }

    /// Keeps the collider only when it is not degenerate.
    pub fn new(pos: Point, sprite: String, collider: Collider) -> (e: StaticEntity)
        requires
            pos.in_bounds(),
            collider.wf(),
        ensures
            e.pos == pos,
            e.sprite == sprite,
            collider.width + collider.height < 1 ==> e.collider is None,
            collider.width + collider.height >= 1 ==> e.collider == Some(collider),
            e.wf(),
    {
        if collider.is_zero() {
            StaticEntity { pos, collider: None, sprite }
        } else {
            StaticEntity { pos, collider: Some(collider), sprite }
        }
    }
}

/// One layer bucket: its id and the entities placed in it, in insertion
/// order.
#[derive(Clone, Debug)]
pub struct Layer {
    pub z_index: i32,
    pub entities: Vec<StaticEntity>,
}

/// Static world geometry bucketed by integer layer id. Buckets are created
/// lazily, are never empty, and keep insertion order; collision queries
/// always target one explicit layer.
#[derive(Clone, Debug)]
pub struct StaticLayers {
    pub layers: Vec<Layer>,
}

impl StaticLayers {
    /// Unique layer ids, no empty bucket, every stored entity well-formed.
    pub open spec fn wf(self) -> bool {
        &&& forall|i: int, j: int|
            0 <= i < j < self.layers@.len() ==> self.layers@[i].z_index != self.layers@[j].z_index
        &&& forall|i: int| 0 <= i < self.layers@.len() ==> self.layers@[i].entities@.len() > 0
        &&& forall|i: int, k: int|
            0 <= i < self.layers@.len() && 0 <= k < self.layers@[i].entities@.len()
                ==> #[trigger] self.layers@[i].entities@[k].wf()
    }

    /// Whether a bucket with this layer id exists.
    pub open spec fn has_layer(self, z: int) -> bool {
        exists|i: int| 0 <= i < self.layers@.len() && self.layers@[i].z_index == z
    }

    /// The entities of layer `z`, or the empty sequence for an unregistered
    /// layer.
    pub open spec fn layer_seq(self, z: int) -> Seq<StaticEntity> {
        if self.has_layer(z) {
            self.layers@[choose|i: int|
                0 <= i < self.layers@.len() && self.layers@[i].z_index == z].entities@
        } else {
            Seq::empty()
        }
    }

    pub fn new() -> (s: StaticLayers)
        ensures
            s.wf(),
            s.layers@.len() == 0,
            forall|z: int| s.layer_seq(z) == Seq::<StaticEntity>::empty(),
    {
        StaticLayers { layers: Vec::new() }
    }

    /// The position of the bucket with id `z_index`, if one exists.
    fn find_layer_index(&self, z_index: i32) -> (r: Option<usize>)
        requires
            self.wf(),
        ensures
            match r {
                Some(i) => i < self.layers@.len() && self.layers@[i as int].z_index == z_index,
                None => !self.has_layer(z_index as int),
            },
    {
        let mut i: usize = 0;
        while i < self.layers.len()
            invariant
                i <= self.layers@.len(),
                forall|j: int| 0 <= j < i ==> self.layers@[j].z_index != z_index,
            decreases self.layers@.len() - i,
        {
            if self.layers[i].z_index == z_index {
                return Some(i);
            }
            i += 1;
        }
        None
    }

    /// Appends the entity to its layer, creating the bucket lazily; other
    /// layers are untouched.
    pub fn add_entity(&mut self, z_index: i32, entity: StaticEntity)
        requires
            old(self).wf(),
            entity.wf(),
        ensures
            final(self).wf(),
            final(self).layer_seq(z_index as int) == old(self).layer_seq(z_index as int).push(
                entity,
            ),
            forall|w: int|
                w != z_index as int ==> final(self).layer_seq(w) == old(self).layer_seq(w),
    {
        let ghost old_s = *self;
        match self.find_layer_index(z_index) {
            Some(i) => {
                proof {
                    lemma_layer_seq_at(*self, i as int);
                }
                let bucket = &mut self.layers[i];
                bucket.entities.push(entity);
                proof {
                    assert(self.layers@ =~= old_s.layers@.update(
                        i as int,
                        Layer {
                            z_index,
                            entities: self.layers@[i as int].entities,
                        },
                    ));
                    lemma_layer_seq_at(*self, i as int);
                    assert(self.layer_seq(z_index as int) =~= old_s.layer_seq(
                        z_index as int,
                    ).push(entity));
                    assert forall|w: int| w != z_index as int implies self.layer_seq(w)
                        == old_s.layer_seq(w) by {
                        lemma_layer_seq_other(old_s, *self, w);
                    }
                }
            },
            None => {
                let mut entities: Vec<StaticEntity> = Vec::new();
                entities.push(entity);
                self.layers.push(Layer { z_index, entities });
                proof {
                    let n = old_s.layers@.len() as int;
                    lemma_layer_seq_at(*self, n);
                    assert(self.layer_seq(z_index as int) =~= old_s.layer_seq(
                        z_index as int,
                    ).push(entity));
                    assert forall|w: int| w != z_index as int implies self.layer_seq(w)
                        == old_s.layer_seq(w) by {
                        lemma_layer_seq_other(old_s, *self, w);
                    }
                }
            },
        }
    }

    /// What, if anything, obstructs the movement of `collider` from
    /// `start_position` to `end_position` within the given layer, and where
    /// the mover ends up: the obstructing entity's index in the layer, the
    /// contact direction, and the probe position of the contact. Equals the
    /// `sweep` of the layer's entities.
    pub fn get_collision(
        &self,
        collider: &Collider,
        start_position: Point,
        end_position: Point,
        layer: i32,
    ) -> (r: Option<(usize, Direction, Point)>)
        requires
            self.wf(),
            collider.wf(),
            start_position.in_bounds(),
            end_position.in_bounds(),
        ensures
            ({
                let s = sweep(
                    self.layer_seq(layer as int),
                    *collider,
                    start_position,
                    end_position,
                );
                match r {
                    Some(h) => s == Some((h.0 as int, h.1, h.2)),
                    None => s is None,
                }
            }),
    {
        let start = start_position;
        let end = end_position;
        let ents: &Vec<StaticEntity> = match self.find_layer_index(layer) {
            Some(i) => {
                proof {
                    lemma_layer_seq_at(*self, i as int);
                }
                &self.layers[i].entities
            },
            None => {
                proof {
                    lemma_sweep_trivial(
                        self.layer_seq(layer as int),
                        *collider,
                        start,
                        end,
                        0,
                    );
                }
                return None;
            },
        };
        let ghost gents = self.layer_seq(layer as int);
        let dx: i64 = end.x - start.x;
        let dy: i64 = end.y - start.y;
        let adx: u64 = (if dx < 0 {
            -dx
        } else {
            dx
        }) as u64;
        let ady: u64 = (if dy < 0 {
            -dy
        } else {
            dy
        }) as u64;
        proof {
            assert(adx as int * adx as int == dx as int * dx as int
                && adx as int * adx as int <= 4_000_000_000_000_000_000) by (nonlinear_arith)
                requires
                    adx == abs_of(dx as int) && abs_of(dx as int) <= 2_000_000_000,
            ;
            assert(ady as int * ady as int == dy as int * dy as int
                && ady as int * ady as int <= 4_000_000_000_000_000_000) by (nonlinear_arith)
                requires
                    ady == abs_of(dy as int) && abs_of(dy as int) <= 2_000_000_000,
            ;
        }
        let sq: u64 = adx * adx + ady * ady;
        let len: u64 = isqrt(sq);
        proof {
            lemma_sqrt_floor(sq as nat);
            assert(len <= 2_900_000_000) by (nonlinear_arith)
                requires
                    len as int * len as int <= 8_000_000_000_000_000_000,
            ;
            assert(path_len(start, end) == len as int);
        }
        let mut step: u64 = 0;
        while step < len
            invariant
                step <= len,
                len <= 2_900_000_000,
                collider.wf(),
                start == start_position,
                end == end_position,
                start.in_bounds(),
                end.in_bounds(),
                dx == end.x - start.x,
                dy == end.y - start.y,
                adx == abs_of(dx as int),
                ady == abs_of(dy as int),
                len as int == path_len(start, end),
                gents == ents@,
                gents == self.layer_seq(layer as int),
                forall|k: int| 0 <= k < gents.len() ==> (#[trigger] gents[k]).wf(),
                sweep(gents, *collider, start, end) == sweep_from(
                    gents,
                    *collider,
                    start,
                    end,
                    step as int,
                ),
            decreases len - step,
        {
            proof {
                assert(step * adx <= 6_100_000_000_000_000_000 && step * ady
                    <= 6_100_000_000_000_000_000) by (nonlinear_arith)
                    requires
                        step <= 2_900_000_000 && adx <= 2_000_000_001 && ady <= 2_000_000_001,
                ;
                lemma_step_frac_bound(step as int, adx as int, len as int);
                lemma_step_frac_bound(step as int, ady as int, len as int);
            }
            let mx: u64 = (step * adx) / len;
            let my: u64 = (step * ady) / len;
            let ox: i64 = if dx < 0 {
                -(mx as i64)
            } else {
                mx as i64
            };
            let oy: i64 = if dy < 0 {
                -(my as i64)
            } else {
                my as i64
            };
            let px = Point { x: start.x + ox, y: start.y };
            let py = Point { x: start.x, y: start.y + oy };
            proof {
                assert(px == x_probe(start, end, step as int));
                assert(py == y_probe(start, end, step as int));
            }
            let rect_x = collider.rect(px);
            let rect_y = collider.rect(py);
            proof {
                assert(rect_ok(rect_x));
                assert(rect_ok(rect_y));
            }
            let mut k: usize = 0;
            while k < ents.len()
                invariant
                    k <= ents@.len(),
                    collider.wf(),
                    start == start_position,
                    end == end_position,
                    start.in_bounds(),
                    end.in_bounds(),
                    dx == end.x - start.x,
                    dy == end.y - start.y,
                    0 <= step < len,
                    len as int == path_len(start, end),
                    gents == ents@,
                    gents == self.layer_seq(layer as int),
                    forall|m: int| 0 <= m < gents.len() ==> (#[trigger] gents[m]).wf(),
                    px == x_probe(start, end, step as int),
                    py == y_probe(start, end, step as int),
                    rect_x == collider.spec_rect(px),
                    rect_y == collider.spec_rect(py),
                    rect_ok(rect_x),
                    rect_ok(rect_y),
                    sweep(gents, *collider, start, end) == sweep_from(
                        gents,
                        *collider,
                        start,
                        end,
                        step as int,
                    ),
                    scan_entities(gents, *collider, start, end, step as int, 0) == scan_entities(
                        gents,
                        *collider,
                        start,
                        end,
                        step as int,
                        k as int,
                    ),
                decreases ents@.len() - k,
            {
                let e = &ents[k];
                match &e.collider {
                    Some(col) => {
                        let er = col.rect(e.pos);
                        if rect_x.overlaps(&er) {
                            let d = if dx > 0 {
                                Direction::Right
                            } else {
                                Direction::Left
                            };
                            proof {
                                assert(xhit(gents, *collider, start, end, step as int, k as int));
                                assert(scan_entities(
                                    gents,
                                    *collider,
                                    start,
                                    end,
                                    step as int,
                                    k as int,
                                ) == entity_hit(gents, *collider, start, end, step as int, k as int));
                                assert(entity_hit(gents, *collider, start, end, step as int, k as int)
                                    == Some((k as int, d, px)));
                                assert(sweep_from(gents, *collider, start, end, step as int)
                                    == Some((k as int, d, px)));
                            }
                            return Some((k, d, px));
                        }
                        if rect_y.overlaps(&er) {
                            let d = if dy > 0 {
                                Direction::Bottom
                            } else {
                                Direction::Top
                            };
                            proof {
                                assert(!xhit(gents, *collider, start, end, step as int, k as int));
                                assert(yhit(gents, *collider, start, end, step as int, k as int));
                                assert(scan_entities(
                                    gents,
                                    *collider,
                                    start,
                                    end,
                                    step as int,
                                    k as int,
                                ) == entity_hit(gents, *collider, start, end, step as int, k as int));
                                assert(entity_hit(gents, *collider, start, end, step as int, k as int)
                                    == Some((k as int, d, py)));
                                assert(sweep_from(gents, *collider, start, end, step as int)
                                    == Some((k as int, d, py)));
                            }
                            return Some((k, d, py));
                        }
                        proof {
                            assert(entity_hit(gents, *collider, start, end, step as int, k as int)
                                is None);
                        }
                    },
                    None => {
                        proof {
                            assert(entity_hit(gents, *collider, start, end, step as int, k as int)
                                is None);
                        }
                    },
                }
                k += 1;
            }
            proof {
                assert(scan_entities(gents, *collider, start, end, step as int, gents.len() as int)
                    is None);
            }
            step += 1;
        }
        proof {
            assert(sweep_from(gents, *collider, start, end, len as int) is None);
        }
        None
    }

    /// Relocates a singleton marker within layer 0: overwrites the first
    /// entity sharing the new entity's sprite key, else appends it, creating
    /// the layer lazily. Other layers are untouched.
    pub fn replace(&mut self, entity: StaticEntity)
        requires
            old(self).wf(),
            entity.wf(),
        ensures
            final(self).wf(),
            forall|w: int| w != 0 ==> final(self).layer_seq(w) == old(self).layer_seq(w),
            ({
                let s = old(self).layer_seq(0);
                if exists|k: int| 0 <= k < s.len() && (#[trigger] s[k]).sprite@ == entity.sprite@ {
                    exists|k: int|
                        {
                            &&& 0 <= k < s.len()
                            &&& (#[trigger] s[k]).sprite@ == entity.sprite@
                            &&& forall|j: int| 0 <= j < k ==> (#[trigger] s[j]).sprite@ != entity.sprite@
                            &&& final(self).layer_seq(0) == s.update(k, entity)
                        }
                } else {
                    final(self).layer_seq(0) == s.push(entity)
                }
            }),
    {
        let ghost old_s = *self;
        match self.find_layer_index(0) {
            Some(i) => {
                proof {
                    lemma_layer_seq_at(*self, i as int);
                }
                let ghost s = self.layer_seq(0);
                let pos = self.find_in_bucket(i, &entity.sprite);
                match pos {
                    Some(k) => {
                        let ghost kk = k as int;
                        let bucket = &mut self.layers[i];
                        bucket.entities[k] = entity;
                        proof {
                            assert(self.layers@ =~= old_s.layers@.update(
                                i as int,
                                Layer { z_index: 0, entities: self.layers@[i as int].entities },
                            ));
                            lemma_layer_seq_at(*self, i as int);
                            assert(self.layer_seq(0) =~= s.update(kk, entity));
                            assert forall|w: int| w != 0 implies self.layer_seq(w)
                                == old_s.layer_seq(w) by {
                                lemma_layer_seq_other(old_s, *self, w);
                            }
                            assert(0 <= kk < s.len() && s[kk].sprite@ == entity.sprite@);
                        }
                    },
                    None => {
                        let bucket = &mut self.layers[i];
                        bucket.entities.push(entity);
                        proof {
                            assert(self.layers@ =~= old_s.layers@.update(
                                i as int,
                                Layer { z_index: 0, entities: self.layers@[i as int].entities },
                            ));
                            lemma_layer_seq_at(*self, i as int);
                            assert(self.layer_seq(0) =~= s.push(entity));
                            assert forall|w: int| w != 0 implies self.layer_seq(w)
                                == old_s.layer_seq(w) by {
                                lemma_layer_seq_other(old_s, *self, w);
                            }
                        }
                    },
                }
            },
            None => {
                let mut entities: Vec<StaticEntity> = Vec::new();
                entities.push(entity);
                self.layers.push(Layer { z_index: 0, entities });
                proof {
                    let n = old_s.layers@.len() as int;
                    lemma_layer_seq_at(*self, n);
                    assert(self.layer_seq(0) =~= old_s.layer_seq(0).push(entity));
                    assert forall|w: int| w != 0 implies self.layer_seq(w) == old_s.layer_seq(w) by {
                        lemma_layer_seq_other(old_s, *self, w);
                    }
                }
            },
        }
    }

    /// The position of the first entity of bucket `i` carrying this sprite
    /// key, if any.
    fn find_in_bucket(&self, i: usize, name: &String) -> (r: Option<usize>)
        requires
            i < self.layers@.len(),
        ensures
            match r {
                Some(k) => k < self.layers@[i as int].entities@.len()
                    && self.layers@[i as int].entities@[k as int].sprite@ == name@ && forall|j: int|
                    0 <= j < k ==> (#[trigger] self.layers@[i as int].entities@[j]).sprite@
                        != name@,
                None => forall|j: int|
                    0 <= j < self.layers@[i as int].entities@.len()
                        ==> (#[trigger] self.layers@[i as int].entities@[j]).sprite@ != name@,
            },
    {
        let bucket = &self.layers[i];
        let mut k: usize = 0;
        while k < bucket.entities.len()
            invariant
                k <= bucket.entities@.len(),
                bucket == &self.layers@[i as int],
                i < self.layers@.len(),
                forall|j: int|
                    0 <= j < k ==> (#[trigger] bucket.entities@[j]).sprite@ != name@,
            decreases bucket.entities@.len() - k,
        {
            if bucket.entities[k].sprite == *name {
                return Some(k);
            }
            k += 1;
        }
        None
    }

    /// The first entity carrying this sprite key, searched bucket by bucket
    /// in storage order, or `None` when no entity carries it.
    pub fn find(&self, name: &str) -> (r: Option<&StaticEntity>)
        requires
            self.wf(),
        ensures
            match r {
                Some(e) => exists|i: int, k: int|
                    {
                        &&& 0 <= i < self.layers@.len()
                        &&& 0 <= k < self.layers@[i].entities@.len()
                        &&& *e == (#[trigger] self.layers@[i].entities@[k])
                        &&& e.sprite@ == name@
                        &&& forall|i2: int, k2: int|
                            0 <= i2 < self.layers@.len() && 0 <= k2
                                < self.layers@[i2].entities@.len() && (i2 < i || (i2 == i && k2 < k))
                                ==> (#[trigger] self.layers@[i2].entities@[k2]).sprite@ != name@
                    },
                None => forall|i: int, k: int|
                    0 <= i < self.layers@.len() && 0 <= k < self.layers@[i].entities@.len()
                        ==> (#[trigger] self.layers@[i].entities@[k]).sprite@ != name@,
            },
    {
        let target: String = name.to_string();
        let mut i: usize = 0;
        while i < self.layers.len()
            invariant
                i <= self.layers@.len(),
                target@ == name@,
                forall|i2: int, k2: int|
                    0 <= i2 < i && 0 <= k2 < self.layers@[i2].entities@.len()
                        ==> (#[trigger] self.layers@[i2].entities@[k2]).sprite@ != name@,
            decreases self.layers@.len() - i,
        {
            let bucket = &self.layers[i];
            let mut k: usize = 0;
            while k < bucket.entities.len()
                invariant
                    k <= bucket.entities@.len(),
                    target@ == name@,
                    bucket == &self.layers@[i as int],
                    i < self.layers@.len(),
                    forall|i2: int, k2: int|
                        0 <= i2 < i && 0 <= k2 < self.layers@[i2].entities@.len()
                            ==> (#[trigger] self.layers@[i2].entities@[k2]).sprite@ != name@,
                    forall|k2: int|
                        0 <= k2 < k ==> (#[trigger] bucket.entities@[k2]).sprite@ != name@,
                decreases bucket.entities@.len() - k,
            {
                if bucket.entities[k].sprite == target {
                    proof {
                        let ii = i as int;
                        let kk = k as int;
                        assert(self.layers@[ii].entities@[kk].sprite@ == name@);
                        assert(forall|i2: int, k2: int|
                            0 <= i2 < self.layers@.len() && 0 <= k2
                                < self.layers@[i2].entities@.len() && (i2 < ii || (i2 == ii && k2
                                < kk)) ==> (#[trigger] self.layers@[i2].entities@[k2]).sprite@
                                != name@);
                    }
                    return Some(&bucket.entities[k]);
                }
                k += 1;
            }
            i += 1;
        }
        None
    }

    /// The sweep collision query in the shape callers read it: the contact
    /// direction if anything obstructs, paired with the adjusted end point —
    /// the requested end point itself on a clear path.
    pub fn get_collision_point(
        &self,
        collider: &Collider,
        start_position: Point,
        end_position: Point,
        layer: i32,
    ) -> (r: (Option<Direction>, Point))
        requires
            self.wf(),
            collider.wf(),
            start_position.in_bounds(),
            end_position.in_bounds(),
        ensures
            ({
                let s = sweep(
                    self.layer_seq(layer as int),
                    *collider,
                    start_position,
                    end_position,
                );
                match s {
                    Some(h) => r == (Some(h.1), h.2),
                    None => r == (None::<Direction>, end_position),
                }
            }),
    {
        match self.get_collision(collider, start_position, end_position, layer) {
            Some((_, d, p)) => (Some(d), p),
            None => (None, end_position),
        }
    }
}

/// Sweeping an empty layer, or from any step, never hits: scanning no
/// entities yields nothing at every remaining step.
proof fn lemma_sweep_trivial(
    ents: Seq<StaticEntity>,
    c: Collider,
    start: Point,
    end: Point,
    step: int,
)
    requires
        ents.len() == 0,
    ensures
        sweep_from(ents, c, start, end, step) is None,
    decreases path_len(start, end) - step,
{
    if step < 0 || step >= path_len(start, end) {
    } else {
        lemma_sweep_trivial(ents, c, start, end, step + 1);
    }
}

// --- The sweep collision query, as a mathematical function. ---
//
// The movement from `start` to `end` is probed one unit step at a time, up to
// the floor of its Euclidean length. Each step yields two separate probe
// positions, one offset purely along the movement's x component and one
// purely along y, and each is tested against every stored collider of the
// layer in storage order, x before y. The first intersecting probe decides:
// its axis and the sign of the movement along it give the direction, and the
// probe's position is the adjusted end point.

pub open spec fn abs_of(v: int) -> int {
    if v < 0 {
        -v
    } else {
        v
    }
}

pub open spec fn delta_x(start: Point, end: Point) -> int {
    end.x - start.x
}

pub open spec fn delta_y(start: Point, end: Point) -> int {
    end.y - start.y
}

/// Number of unit steps the sweep takes: the floor of the movement's length.
pub open spec fn path_len(start: Point, end: Point) -> int {
    sqrt_floor((delta_x(start, end) * delta_x(start, end) + delta_y(start, end) * delta_y(
        start,
        end,
    )) as nat) as int
}

/// How far along one axis the probe has come after `step` unit steps of the
/// normalized direction, rounded towards zero.
pub open spec fn axis_offset(step: int, d: int, len: int) -> int {
    let m = (step * abs_of(d)) / len;
    if d < 0 {
        -m
    } else {
        m
    }
}

/// Probe position offset purely along the movement's x component.
pub open spec fn x_probe(start: Point, end: Point, step: int) -> Point {
    Point {
        x: (start.x + axis_offset(step, delta_x(start, end), path_len(start, end))) as i64,
        y: start.y,
    }
}

/// Probe position offset purely along the movement's y component.
pub open spec fn y_probe(start: Point, end: Point, step: int) -> Point {
    Point {
        x: start.x,
        y: (start.y + axis_offset(step, delta_y(start, end), path_len(start, end))) as i64,
    }
}

/// Whether this entity's stored collider meets the mover's box.
pub open spec fn blocks(e: StaticEntity, mover: Rect) -> bool {
    match e.collider {
        Some(c) => rects_overlap(mover, c.spec_rect(e.pos)),
        None => false,
    }
}

pub open spec fn xhit(
    ents: Seq<StaticEntity>,
    c: Collider,
    start: Point,
    end: Point,
    step: int,
    i: int,
) -> bool {
    blocks(ents[i], c.spec_rect(x_probe(start, end, step)))
}

pub open spec fn yhit(
    ents: Seq<StaticEntity>,
    c: Collider,
    start: Point,
    end: Point,
    step: int,
    i: int,
) -> bool {
    blocks(ents[i], c.spec_rect(y_probe(start, end, step)))
}

/// What checking entity `i` at `step` yields: the x probe is tested before
/// the y probe.
pub open spec fn entity_hit(
    ents: Seq<StaticEntity>,
    c: Collider,
    start: Point,
    end: Point,
    step: int,
    i: int,
) -> Option<(int, Direction, Point)> {
    if xhit(ents, c, start, end, step, i) {
        Some(
            (
                i,
                if delta_x(start, end) > 0 {
                    Direction::Right
                } else {
                    Direction::Left
                },
                x_probe(start, end, step),
            ),
        )
    } else if yhit(ents, c, start, end, step, i) {
        Some(
            (
                i,
                if delta_y(start, end) > 0 {
                    Direction::Bottom
                } else {
                    Direction::Top
                },
                y_probe(start, end, step),
            ),
        )
    } else {
        None
    }
}

/// First hit at `step` among entities from index `i` on, in storage order.
pub open spec fn scan_entities(
    ents: Seq<StaticEntity>,
    c: Collider,
    start: Point,
    end: Point,
    step: int,
    i: int,
) -> Option<(int, Direction, Point)>
    decreases ents.len() - i,
{
    if i < 0 || i >= ents.len() {
        None
    } else {
        match entity_hit(ents, c, start, end, step, i) {
            Some(h) => Some(h),
            None => scan_entities(ents, c, start, end, step, i + 1),
        }
    }
}

/// First hit from `step` on; the march stops at the path length.
pub open spec fn sweep_from(
    ents: Seq<StaticEntity>,
    c: Collider,
    start: Point,
    end: Point,
    step: int,
) -> Option<(int, Direction, Point)>
    decreases path_len(start, end) - step,
{
    if step < 0 || step >= path_len(start, end) {
        None
    } else {
        match scan_entities(ents, c, start, end, step, 0) {
            Some(h) => Some(h),
            None => sweep_from(ents, c, start, end, step + 1),
        }
    }
}

/// The first obstruction of the movement from `start` to `end` against the
/// given entities: the obstructing entity's index, the contact direction and
/// the probe position of the contact; `None` on a clear path. A movement
/// shorter than one unit takes no step and is never obstructed.
pub open spec fn sweep(ents: Seq<StaticEntity>, c: Collider, start: Point, end: Point) -> Option<
    (int, Direction, Point),
> {
    sweep_from(ents, c, start, end, 0)
}

/// Scanning entities none of which hits at this step yields nothing.
proof fn lemma_scan_none_from(
    ents: Seq<StaticEntity>,
    c: Collider,
    start: Point,
    end: Point,
    step: int,
    i: int,
)
    requires
        forall|i2: int|
            i <= i2 < ents.len() ==> entity_hit(ents, c, start, end, step, i2) is None,
    ensures
        scan_entities(ents, c, start, end, step, i) is None,
    decreases ents.len() - i,
{
    if i < 0 || i >= ents.len() {
    } else {
        lemma_scan_none_from(ents, c, start, end, step, i + 1);
    }
}

/// Steps on which nothing hits can be skipped: the sweep from `s` equals the
/// sweep from `s0`.
proof fn lemma_sweep_from_skip(
    ents: Seq<StaticEntity>,
    c: Collider,
    start: Point,
    end: Point,
    s: int,
    s0: int,
)
    requires
        0 <= s <= s0 <= path_len(start, end),
        forall|s2: int, i: int|
            s <= s2 < s0 && 0 <= i < ents.len() ==> entity_hit(ents, c, start, end, s2, i)
                is None,
    ensures
        sweep_from(ents, c, start, end, s) == sweep_from(ents, c, start, end, s0),
    decreases s0 - s,
{
    if s < s0 {
        lemma_scan_none_from(ents, c, start, end, s, 0);
        lemma_sweep_from_skip(ents, c, start, end, s + 1, s0);
    }
}

/// A clear straight path is never obstructed: when no probe of any step
/// meets any entity, the sweep reports nothing, and the collision query
/// returns the requested end point.
pub proof fn lemma_sweep_clear_path(ents: Seq<StaticEntity>, c: Collider, start: Point, end: Point)
    requires
        forall|s: int, i: int|
            0 <= s < path_len(start, end) && 0 <= i < ents.len() ==> !xhit(
                ents,
                c,
                start,
                end,
                s,
                i,
            ) && !yhit(ents, c, start, end, s, i),
    ensures
        sweep(ents, c, start, end) is None,
{
    assert forall|s: int, i: int|
        0 <= s < path_len(start, end) && 0 <= i < ents.len() implies entity_hit(
        ents,
        c,
        start,
        end,
        s,
        i,
    ) is None by {
        assert(!xhit(ents, c, start, end, s, i));
        assert(!yhit(ents, c, start, end, s, i));
    }
    lemma_sweep_from_skip(ents, c, start, end, 0, path_len(start, end));
}

/// A single obstacle directly ahead on the horizontal axis is reported as a
/// `Right` contact, at an adjusted point strictly before the obstacle's
/// near edge, never past it.
pub proof fn lemma_sweep_single_obstacle_beside(
    ents: Seq<StaticEntity>,
    c: Collider,
    start: Point,
    end: Point,
    obs: Collider,
)
    requires
        ents.len() == 1,
        ents[0].collider == Some(obs),
        start.in_bounds(),
        end.in_bounds(),
        ents[0].pos.in_bounds(),
        1 <= c.width,
        0 <= c.height,
        0 <= obs.width,
        0 <= obs.height,
        start.y == end.y,
        start.x < end.x,
        start.y <= ents[0].pos.y + obs.height,
        ents[0].pos.y <= start.y + c.height,
        start.x + c.width < ents[0].pos.x,
        end.x + c.width > ents[0].pos.x,
    ensures
        sweep(ents, c, start, end) == Some(
            (
                0int,
                Direction::Right,
                Point { x: (ents[0].pos.x - c.width) as i64, y: start.y },
            ),
        ),
        ((ents[0].pos.x - c.width) as i64) < ents[0].pos.x,
{
    let o = ents[0];
    let dx = end.x - start.x as int;
    let s0 = o.pos.x - start.x - c.width;
    assert(delta_y(start, end) == 0);
    assert(delta_x(start, end) == dx);
    assert(dx * dx <= dx * dx && dx * dx < (dx + 1) * (dx + 1)) by (nonlinear_arith)
        requires
            dx >= 1,
    ;
    crate::geom::lemma_sqrt_floor_unique((dx * dx) as nat, dx as nat);
    assert(path_len(start, end) == dx);
    assert forall|s: int| 0 <= s < dx implies y_probe(start, end, s) == start by {
        assert(abs_of(0) == 0);
        assert(s * 0 == 0) by (nonlinear_arith);
        vstd::arithmetic::div_mod::lemma_div_of0(dx);
        assert(axis_offset(s, 0, dx) == 0);
    }
    assert forall|s: int| 0 <= s < dx implies x_probe(start, end, s) == (Point {
        x: (start.x + s) as i64,
        y: start.y,
    }) by {
        assert(s * abs_of(dx) == dx * s) by (nonlinear_arith)
            requires
                abs_of(dx) == dx,
        ;
        vstd::arithmetic::div_mod::lemma_div_multiples_vanish(s, dx);
        assert(axis_offset(s, dx, dx) == s);
    }
    assert forall|s: int, i: int| 0 <= s < s0 && 0 <= i < ents.len() implies entity_hit(
        ents,
        c,
        start,
        end,
        s,
        i,
    ) is None by {
        assert(i == 0);
        assert(y_probe(start, end, s) == start);
        assert(!rects_overlap(c.spec_rect(x_probe(start, end, s)), obs.spec_rect(o.pos)));
        assert(!rects_overlap(c.spec_rect(start), obs.spec_rect(o.pos)));
    }
    lemma_sweep_from_skip(ents, c, start, end, 0, s0);
    let hit_point = Point { x: (o.pos.x - c.width) as i64, y: start.y };
    assert(x_probe(start, end, s0) == hit_point);
    assert(xhit(ents, c, start, end, s0, 0));
    assert(entity_hit(ents, c, start, end, s0, 0) == Some((0int, Direction::Right, hit_point)));
    assert(scan_entities(ents, c, start, end, s0, 0) == Some(
        (0int, Direction::Right, hit_point),
    ));
    assert(sweep_from(ents, c, start, end, s0) == Some((0int, Direction::Right, hit_point)));
}

/// A downward movement that stays strictly above a single obstacle's near
/// edge for its whole length is never obstructed by it.
pub proof fn lemma_sweep_vertical_clear(
    ents: Seq<StaticEntity>,
    c: Collider,
    start: Point,
    end: Point,
    obs: Collider,
)
    requires
        ents.len() == 1,
        ents[0].collider == Some(obs),
        start.in_bounds(),
        end.in_bounds(),
        ents[0].pos.in_bounds(),
        0 <= c.width,
        0 <= c.height,
        0 <= obs.width,
        0 <= obs.height,
        start.x == end.x,
        start.y < end.y,
        end.y + c.height <= ents[0].pos.y,
    ensures
        sweep(ents, c, start, end) is None,
{
    let o = ents[0];
    let dy = end.y - start.y as int;
    assert(delta_x(start, end) == 0);
    assert(delta_y(start, end) == dy);
    assert(dy * dy <= dy * dy && dy * dy < (dy + 1) * (dy + 1)) by (nonlinear_arith)
        requires
            dy >= 1,
    ;
    crate::geom::lemma_sqrt_floor_unique((dy * dy) as nat, dy as nat);
    assert(path_len(start, end) == dy);
    assert forall|s: int| 0 <= s < dy implies x_probe(start, end, s) == start by {
        assert(abs_of(0) == 0);
        assert(s * 0 == 0) by (nonlinear_arith);
        vstd::arithmetic::div_mod::lemma_div_of0(dy);
        assert(axis_offset(s, 0, dy) == 0);
    }
    assert forall|s: int| 0 <= s < dy implies y_probe(start, end, s) == (Point {
        x: start.x,
        y: (start.y + s) as i64,
    }) by {
        assert(s * abs_of(dy) == dy * s) by (nonlinear_arith)
            requires
                abs_of(dy) == dy,
        ;
        vstd::arithmetic::div_mod::lemma_div_multiples_vanish(s, dy);
        assert(axis_offset(s, dy, dy) == s);
    }
    assert forall|s: int, i: int| 0 <= s < path_len(start, end) && 0 <= i < ents.len() implies !xhit(
        ents,
        c,
        start,
        end,
        s,
        i,
    ) && !yhit(ents, c, start, end, s, i) by {
        assert(i == 0);
        assert(x_probe(start, end, s) == start);
        assert(y_probe(start, end, s) == (Point { x: start.x, y: (start.y + s) as i64 }));
        assert(!rects_overlap(c.spec_rect(start), obs.spec_rect(o.pos)));
        assert(!rects_overlap(c.spec_rect(y_probe(start, end, s)), obs.spec_rect(o.pos)));
    }
    lemma_sweep_clear_path(ents, c, start, end);
}

/// A single obstacle directly ahead of a leftward movement is reported as a
/// `Left` contact, at an adjusted point never past the obstacle's near edge
/// (its right side): with edges counting as contact, the first hit stands
/// exactly on it.
pub proof fn lemma_sweep_single_obstacle_leftward(
    ents: Seq<StaticEntity>,
    c: Collider,
    start: Point,
    end: Point,
    obs: Collider,
)
    requires
        ents.len() == 1,
        ents[0].collider == Some(obs),
        start.in_bounds(),
        end.in_bounds(),
        ents[0].pos.in_bounds(),
        0 <= c.width,
        0 <= c.height,
        0 <= obs.width,
        0 <= obs.height,
        start.y == end.y,
        end.x < start.x,
        start.y <= ents[0].pos.y + obs.height,
        ents[0].pos.y <= start.y + c.height,
        ents[0].pos.x + obs.width < start.x,
        end.x < ents[0].pos.x + obs.width,
    ensures
        sweep(ents, c, start, end) == Some(
            (
                0int,
                Direction::Left,
                Point { x: (ents[0].pos.x + obs.width) as i64, y: start.y },
            ),
        ),
        ents[0].pos.x + obs.width <= ((ents[0].pos.x + obs.width) as i64),
{
    let o = ents[0];
    let dx = end.x - start.x as int;
    let adx = -dx;
    let s0 = start.x - (o.pos.x + obs.width);
    assert(delta_y(start, end) == 0);
    assert(delta_x(start, end) == dx);
    assert(abs_of(dx) == adx);
    assert(dx * dx <= adx * adx && adx * adx < (adx + 1) * (adx + 1) && dx * dx == adx * adx)
        by (nonlinear_arith)
        requires
            adx == -dx && adx >= 1,
    ;
    crate::geom::lemma_sqrt_floor_unique((dx * dx) as nat, adx as nat);
    assert(path_len(start, end) == adx);
    assert forall|s: int| 0 <= s < adx implies y_probe(start, end, s) == start by {
        assert(abs_of(0) == 0);
        assert(s * 0 == 0) by (nonlinear_arith);
        vstd::arithmetic::div_mod::lemma_div_of0(adx);
        assert(axis_offset(s, 0, adx) == 0);
    }
    assert forall|s: int| 0 <= s < adx implies x_probe(start, end, s) == (Point {
        x: (start.x - s) as i64,
        y: start.y,
    }) by {
        assert(s * abs_of(dx) == adx * s) by (nonlinear_arith)
            requires
                abs_of(dx) == adx,
        ;
        vstd::arithmetic::div_mod::lemma_div_multiples_vanish(s, adx);
        assert(axis_offset(s, dx, adx) == -s);
    }
    assert forall|s: int, i: int| 0 <= s < s0 && 0 <= i < ents.len() implies entity_hit(
        ents,
        c,
        start,
        end,
        s,
        i,
    ) is None by {
        assert(i == 0);
        assert(y_probe(start, end, s) == start);
        assert(!rects_overlap(c.spec_rect(x_probe(start, end, s)), obs.spec_rect(o.pos)));
        assert(!rects_overlap(c.spec_rect(start), obs.spec_rect(o.pos)));
    }
    lemma_sweep_from_skip(ents, c, start, end, 0, s0);
    let hit_point = Point { x: (o.pos.x + obs.width) as i64, y: start.y };
    assert(x_probe(start, end, s0) == hit_point);
    assert(xhit(ents, c, start, end, s0, 0));
    assert(entity_hit(ents, c, start, end, s0, 0) == Some((0int, Direction::Left, hit_point)));
    assert(scan_entities(ents, c, start, end, s0, 0) == Some((0int, Direction::Left, hit_point)));
    assert(sweep_from(ents, c, start, end, s0) == Some((0int, Direction::Left, hit_point)));
}

/// A single obstacle directly ahead of an upward movement is reported as a
/// `Top` contact, at an adjusted point never past the obstacle's near edge
/// (its underside): with edges counting as contact, the first hit stands
/// exactly on it.
pub proof fn lemma_sweep_single_obstacle_above(
    ents: Seq<StaticEntity>,
    c: Collider,
    start: Point,
    end: Point,
    obs: Collider,
)
    requires
        ents.len() == 1,
        ents[0].collider == Some(obs),
        start.in_bounds(),
        end.in_bounds(),
        ents[0].pos.in_bounds(),
        0 <= c.width,
        0 <= c.height,
        0 <= obs.width,
        0 <= obs.height,
        start.x == end.x,
        end.y < start.y,
        start.x <= ents[0].pos.x + obs.width,
        ents[0].pos.x <= start.x + c.width,
        ents[0].pos.y + obs.height < start.y,
        end.y < ents[0].pos.y + obs.height,
    ensures
        sweep(ents, c, start, end) == Some(
            (
                0int,
                Direction::Top,
                Point { x: start.x, y: (ents[0].pos.y + obs.height) as i64 },
            ),
        ),
        ents[0].pos.y + obs.height <= ((ents[0].pos.y + obs.height) as i64),
{
    let o = ents[0];
    let dy = end.y - start.y as int;
    let ady = -dy;
    let s0 = start.y - (o.pos.y + obs.height);
    assert(delta_x(start, end) == 0);
    assert(delta_y(start, end) == dy);
    assert(abs_of(dy) == ady);
    assert(dy * dy <= ady * ady && ady * ady < (ady + 1) * (ady + 1) && dy * dy == ady * ady)
        by (nonlinear_arith)
        requires
            ady == -dy && ady >= 1,
    ;
    crate::geom::lemma_sqrt_floor_unique((dy * dy) as nat, ady as nat);
    assert(path_len(start, end) == ady);
    assert forall|s: int| 0 <= s < ady implies x_probe(start, end, s) == start by {
        assert(abs_of(0) == 0);
        assert(s * 0 == 0) by (nonlinear_arith);
        vstd::arithmetic::div_mod::lemma_div_of0(ady);
        assert(axis_offset(s, 0, ady) == 0);
    }
    assert forall|s: int| 0 <= s < ady implies y_probe(start, end, s) == (Point {
        x: start.x,
        y: (start.y - s) as i64,
    }) by {
        assert(s * abs_of(dy) == ady * s) by (nonlinear_arith)
            requires
                abs_of(dy) == ady,
        ;
        vstd::arithmetic::div_mod::lemma_div_multiples_vanish(s, ady);
        assert(axis_offset(s, dy, ady) == -s);
    }
    assert forall|s: int, i: int| 0 <= s < s0 && 0 <= i < ents.len() implies entity_hit(
        ents,
        c,
        start,
        end,
        s,
        i,
    ) is None by {
        assert(i == 0);
        assert(x_probe(start, end, s) == start);
        assert(!rects_overlap(c.spec_rect(start), obs.spec_rect(o.pos)));
        assert(!rects_overlap(c.spec_rect(y_probe(start, end, s)), obs.spec_rect(o.pos)));
    }
    lemma_sweep_from_skip(ents, c, start, end, 0, s0);
    let hit_point = Point { x: start.x, y: (o.pos.y + obs.height) as i64 };
    assert(y_probe(start, end, s0) == hit_point);
    assert(x_probe(start, end, s0) == start);
    assert(!xhit(ents, c, start, end, s0, 0));
    assert(yhit(ents, c, start, end, s0, 0));
    assert(entity_hit(ents, c, start, end, s0, 0) == Some((0int, Direction::Top, hit_point)));
    assert(scan_entities(ents, c, start, end, s0, 0) == Some((0int, Direction::Top, hit_point)));
    assert(sweep_from(ents, c, start, end, s0) == Some((0int, Direction::Top, hit_point)));
}

/// A single obstacle directly ahead on the vertical axis is reported as a
/// `Bottom` contact, at an adjusted point strictly before the obstacle's
/// near edge, never past it.
pub proof fn lemma_sweep_single_obstacle_ahead(
    ents: Seq<StaticEntity>,
    c: Collider,
    start: Point,
    end: Point,
    obs: Collider,
)
    requires
        ents.len() == 1,
        ents[0].collider == Some(obs),
        start.in_bounds(),
        end.in_bounds(),
        ents[0].pos.in_bounds(),
        0 <= c.width,
        1 <= c.height,
        0 <= obs.width,
        0 <= obs.height,
        start.x == end.x,
        start.y < end.y,
        start.x <= ents[0].pos.x + obs.width,
        ents[0].pos.x <= start.x + c.width,
        start.y + c.height < ents[0].pos.y,
        end.y + c.height > ents[0].pos.y,
    ensures
        sweep(ents, c, start, end) == Some(
            (
                0int,
                Direction::Bottom,
                Point { x: start.x, y: (ents[0].pos.y - c.height) as i64 },
            ),
        ),
        ((ents[0].pos.y - c.height) as i64) < ents[0].pos.y,
{
    let o = ents[0];
    let dy = end.y - start.y as int;
    let s0 = o.pos.y - start.y - c.height;
    assert(delta_x(start, end) == 0);
    assert(delta_y(start, end) == dy);
    assert(dy * dy <= dy * dy && dy * dy < (dy + 1) * (dy + 1)) by (nonlinear_arith)
        requires
            dy >= 1,
    ;
    crate::geom::lemma_sqrt_floor_unique((dy * dy) as nat, dy as nat);
    assert(path_len(start, end) == dy);
    assert forall|s: int| 0 <= s < dy implies x_probe(start, end, s) == start by {
        assert(abs_of(0) == 0);
        assert(s * 0 == 0) by (nonlinear_arith);
        vstd::arithmetic::div_mod::lemma_div_of0(dy);
        assert(axis_offset(s, 0, dy) == 0);
    }
    assert forall|s: int| 0 <= s < dy implies y_probe(start, end, s) == (Point {
        x: start.x,
        y: (start.y + s) as i64,
    }) by {
        assert(s * abs_of(dy) == dy * s) by (nonlinear_arith)
            requires
                abs_of(dy) == dy,
        ;
        vstd::arithmetic::div_mod::lemma_div_multiples_vanish(s, dy);
        assert(axis_offset(s, dy, dy) == s);
    }
    assert forall|s: int, i: int| 0 <= s < s0 && 0 <= i < ents.len() implies entity_hit(
        ents,
        c,
        start,
        end,
        s,
        i,
    ) is None by {
        assert(i == 0);
        assert(x_probe(start, end, s) == start);
        assert(!rects_overlap(c.spec_rect(start), obs.spec_rect(o.pos)));
        assert(!rects_overlap(c.spec_rect(y_probe(start, end, s)), obs.spec_rect(o.pos)));
    }
    lemma_sweep_from_skip(ents, c, start, end, 0, s0);
    let hit_point = Point { x: start.x, y: (o.pos.y - c.height) as i64 };
    assert(y_probe(start, end, s0) == hit_point);
    assert(x_probe(start, end, s0) == start);
    assert(!xhit(ents, c, start, end, s0, 0));
    assert(yhit(ents, c, start, end, s0, 0));
    assert(entity_hit(ents, c, start, end, s0, 0) == Some(
        (0int, Direction::Bottom, hit_point),
    ));
    assert(scan_entities(ents, c, start, end, s0, 0) == Some(
        (0int, Direction::Bottom, hit_point),
    ));
    assert(sweep_from(ents, c, start, end, s0) == Some((0int, Direction::Bottom, hit_point)));
}

/// Any reported contact point lies within the axis-aligned box spanned by
/// the requested movement: each coordinate stays between its start and end
/// values.
pub proof fn lemma_sweep_point_in_box(
    ents: Seq<StaticEntity>,
    c: Collider,
    start: Point,
    end: Point,
)
    requires
        start.in_bounds(),
        end.in_bounds(),
    ensures
        ({
            match sweep(ents, c, start, end) {
                Some(h) => {
                    let p = h.2;
                    &&& start.x - abs_of(delta_x(start, end)) <= p.x <= start.x + abs_of(
                        delta_x(start, end),
                    )
                    &&& start.y - abs_of(delta_y(start, end)) <= p.y <= start.y + abs_of(
                        delta_y(start, end),
                    )
                },
                None => true,
            }
        }),
{
    lemma_sweep_from_point_in_box(ents, c, start, end, 0);
}

proof fn lemma_sweep_from_point_in_box(
    ents: Seq<StaticEntity>,
    c: Collider,
    start: Point,
    end: Point,
    s: int,
)
    requires
        start.in_bounds(),
        end.in_bounds(),
    ensures
        ({
            match sweep_from(ents, c, start, end, s) {
                Some(h) => {
                    let p = h.2;
                    &&& start.x - abs_of(delta_x(start, end)) <= p.x <= start.x + abs_of(
                        delta_x(start, end),
                    )
                    &&& start.y - abs_of(delta_y(start, end)) <= p.y <= start.y + abs_of(
                        delta_y(start, end),
                    )
                },
                None => true,
            }
        }),
    decreases path_len(start, end) - s,
{
    if s < 0 || s >= path_len(start, end) {
    } else {
        lemma_scan_point_in_box(ents, c, start, end, s, 0);
        lemma_sweep_from_point_in_box(ents, c, start, end, s + 1);
    }
}

proof fn lemma_scan_point_in_box(
    ents: Seq<StaticEntity>,
    c: Collider,
    start: Point,
    end: Point,
    s: int,
    i: int,
)
    requires
        start.in_bounds(),
        end.in_bounds(),
        0 <= s < path_len(start, end),
    ensures
        ({
            match scan_entities(ents, c, start, end, s, i) {
                Some(h) => {
                    let p = h.2;
                    &&& start.x - abs_of(delta_x(start, end)) <= p.x <= start.x + abs_of(
                        delta_x(start, end),
                    )
                    &&& start.y - abs_of(delta_y(start, end)) <= p.y <= start.y + abs_of(
                        delta_y(start, end),
                    )
                },
                None => true,
            }
        }),
    decreases ents.len() - i,
{
    let len = path_len(start, end);
    lemma_step_frac_bound(s, abs_of(delta_x(start, end)), len);
    lemma_step_frac_bound(s, abs_of(delta_y(start, end)), len);
    if i < 0 || i >= ents.len() {
    } else {
        lemma_scan_point_in_box(ents, c, start, end, s, i + 1);
    }
}

/// A step fraction of a non-negative quantity stays between zero and the
/// quantity.
proof fn lemma_step_frac_bound(step: int, a: int, len: int)
    requires
        0 <= step < len,
        0 <= a,
    ensures
        0 <= (step * a) / len <= a,
{
    assert(0 <= step * a <= len * a) by (nonlinear_arith)
        requires
            0 <= step < len && 0 <= a,
    ;
    vstd::arithmetic::div_mod::lemma_div_is_ordered(0, step * a, len);
    vstd::arithmetic::div_mod::lemma_div_is_ordered(step * a, len * a, len);
    vstd::arithmetic::div_mod::lemma_div_multiples_vanish(a, len);
}

/// A bucket that exists is the one `layer_seq` denotes: layer ids are unique,
/// so the chosen index is the given one.
proof fn lemma_layer_seq_at(s: StaticLayers, i: int)
    requires
        s.wf(),
        0 <= i < s.layers@.len(),
    ensures
        s.has_layer(s.layers@[i].z_index as int),
        s.layer_seq(s.layers@[i].z_index as int) == s.layers@[i].entities@,
{
    let z = s.layers@[i].z_index as int;
    assert(s.has_layer(z));
    let j = choose|j: int| 0 <= j < s.layers@.len() && s.layers@[j].z_index == z;
    assert(j == i);
}

/// Two well-formed states whose buckets for ids other than the changed ones
/// agree also agree on `layer_seq` there.
proof fn lemma_layer_seq_other(a: StaticLayers, b: StaticLayers, w: int)
    requires
        a.wf(),
        b.wf(),
        forall|j: int|
            0 <= j < a.layers@.len() ==> b.layers@.len() > j && (#[trigger] a.layers@[j]).z_index
                == b.layers@[j].z_index,
        forall|j: int|
            0 <= j < b.layers@.len() ==> (#[trigger] b.layers@[j]).z_index != w || (
            a.layers@.len() > j && a.layers@[j] == b.layers@[j]),
    ensures
        a.layer_seq(w) == b.layer_seq(w),
{
    if b.has_layer(w) {
        let j = choose|j: int| 0 <= j < b.layers@.len() && b.layers@[j].z_index == w;
        assert(a.layers@[j] == b.layers@[j]);
        assert(a.has_layer(w));
        let k = choose|k: int| 0 <= k < a.layers@.len() && a.layers@[k].z_index == w;
        assert(b.layers@[k].z_index == w);
        assert(k == j);
    } else {
        if a.has_layer(w) {
            let k = choose|k: int| 0 <= k < a.layers@.len() && a.layers@[k].z_index == w;
            assert(b.layers@[k].z_index == w);
        }
    }
}

} // verus!
