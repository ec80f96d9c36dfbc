//! The player: a state machine over Idle, Running, Jumping and Falling, two
//! curve samplers for the speed ramp and the jump arc, and the fixed-step
//! integrator that resolves its motion against the static world.

use vstd::prelude::*;

use crate::collider::Collider;
use crate::geom::{Point, COORD_LIMIT};
use crate::static_layers::{sweep, Direction, StaticLayers};
use crate::tween::{Tween, TWEEN_PERIOD};

verus! {

/// Sample index of the jump arc past which releasing the jump key splices
/// into the falling segment (the short-hop).
pub const JUMP_START_OFFSET: usize = 10;

/// Sample index of the start of the jump arc's falling segment; also the
/// apex timeout past which the jump turns into a fall by itself.
pub const JUMP_END_OFFSET: usize = 54;

/// Largest frame delta `update` accepts, in time units of a third of a
/// millisecond: one hundred seconds.
pub const MAX_FRAME_DELTA: u64 = 300_000;

/// Largest position magnitude from which `update` integrates: far enough
/// from the world bound that one frame's displacement stays inside it.
pub const PLAYER_POS_LIMIT: i64 = 995_000_000;

#[derive(Clone, Copy, PartialEq, Eq, Structural, Debug)]
pub enum PlayerState {
    Idle,
    Running,
    Jumping,
    Falling,
}

/// The speed ramp: eased percentages of full speed, one sample per period.
pub open spec fn speed_waveform_spec() -> Seq<i64> {
    seq![0, 25, 38, 50, 60, 70, 80, 84, 87, 90, 93, 96, 97, 98, 99, 100]
}

/// The jump arc: rise, hover and falling segment, in sixths of the height
/// percentage so the thirds of the profile stay exact integers.
pub open spec fn jump_waveform_spec() -> Seq<i64> {
    seq![
        6, 101, 205, 307, 389, 475, 516, 531, 545, 548, 555, 559, 561, 564, 569, 573, 576, 584,
        588, 590, 592, 594, 597, 600, 598, 595, 593, 584, 582, 581, 581, 578, 578, 577, 577, 573,
        573, 570, 570, 568, 568, 564, 564, 560, 560, 555, 555, 553, 553, 546, 546, 544, 544, 540,
        540, 480, 390, 270, 150, 0,
    ]
}

pub proof fn lemma_speed_waveform_bounds()
    ensures
        speed_waveform_spec().len() == 16,
        forall|i: int|
            0 <= i < speed_waveform_spec().len() ==> 0 <= #[trigger] speed_waveform_spec()[i]
                <= 100,
{
}

pub proof fn lemma_jump_waveform_bounds()
    ensures
        jump_waveform_spec().len() == 60,
        forall|i: int|
            0 <= i < jump_waveform_spec().len() ==> 0 <= #[trigger] jump_waveform_spec()[i]
                <= 600,
{
}

fn speed_waveform() -> (w: Vec<i64>)
    ensures
        w@ == speed_waveform_spec(),
{
    let w: Vec<i64> = vec![0, 25, 38, 50, 60, 70, 80, 84, 87, 90, 93, 96, 97, 98, 99, 100];
    proof {
        assert(w@ =~= speed_waveform_spec());
    }
    w
}

fn jump_waveform() -> (w: Vec<i64>)
    ensures
        w@ == jump_waveform_spec(),
{
    let w: Vec<i64> = vec![
        6, 101, 205, 307, 389, 475, 516, 531, 545, 548, 555, 559, 561, 564, 569, 573, 576, 584,
        588, 590, 592, 594, 597, 600, 598, 595, 593, 584, 582, 581, 581, 578, 578, 577, 577, 573,
        573, 570, 570, 568, 568, 564, 564, 560, 560, 555, 555, 553, 553, 546, 546, 544, 544, 540,
        540, 480, 390, 270, 150, 0,
    ];
    proof {
        assert(w@ =~= jump_waveform_spec());
    }
    w
}

/// Where the short downward ground probe ends: twenty pixels below.
pub open spec fn ground_probe_end(p: Player) -> Point {
    Point { x: p.pos.x, y: (p.pos.y + 20) as i64 }
}

/// Whether the ground probe of the player's collider reports a `Bottom`
/// contact in layer 0.
pub open spec fn spec_on_ground(p: Player, layers: StaticLayers) -> bool {
    match sweep(layers.layer_seq(0), p.collider, p.pos, ground_probe_end(p)) {
        Some(h) => h.1 == Direction::Bottom,
        None => false,
    }
}

/// This frame's horizontal displacement: the sampled percentage of a speed
/// of twenty pixels per hundredth of a second, signed by the facing.
pub open spec fn spec_speed_offset(value: i64, right: bool, delta: u64) -> int {
    let m = (value * delta) / 150;
    if right {
        m
    } else {
        -m
    }
}

/// This frame's upward displacement while jumping: five times the sampled
/// height percentage, the sample being stored in sixths.
pub open spec fn spec_jump_offset(value: i64) -> int {
    -((value * 5) / 6)
}

/// This frame's downward displacement while airborne without a jump: the
/// gravity fallback of twenty-five hundred pixels per second.
pub open spec fn spec_gravity_offset(delta: u64) -> int {
    (5 * delta) / 6
}

/// Whether the exemption set holds this entity index.
pub open spec fn spec_skip_contains(skip: Seq<usize>, i: int) -> bool {
    exists|j: int| 0 <= j < skip.len() && (#[trigger] skip[j]) == i
}

/// How one `update` step relates the player before the frame (`p`) to the
/// player after it (`q`) and to the landing-sound event: the ground probe,
/// both curves advanced and rewound when run out, the frame's displacement,
/// the sweep against layer 0, and the bounce, landing or pass-through
/// policy, closed by the apex timeout.
pub open spec fn update_rel(
    p: Player,
    layers: StaticLayers,
    delta: u64,
    q: Player,
    sound: bool,
) -> bool {
    &&& q.wf()
    &&& q.collider == p.collider
    &&& q.sprites == p.sprites
    &&& ({
        let grounded = spec_on_ground(p, layers);
        let st0 = p.speed_tween.updated_spec(delta);
        let st1 = if st0.time >= st0.waveform@.len() * TWEEN_PERIOD {
            st0.reset_spec()
        } else {
            st0
        };
        let st = st1.sampled();
        let jt0 = p.jump_tween.updated_spec(delta);
        let jt1 = if jt0.time >= jt0.waveform@.len() * TWEEN_PERIOD {
            jt0.reset_spec()
        } else {
            jt0
        };
        let jumping = p.state == PlayerState::Jumping;
        let jt2 = if jumping {
            jt1.sampled()
        } else {
            jt1
        };
        let jump_offset = if jumping {
            spec_jump_offset(jt1.sampled().value)
        } else if grounded {
            0int
        } else {
            spec_gravity_offset(delta)
        };
        let state1 = if !jumping && !grounded {
            PlayerState::Falling
        } else {
            p.state
        };
        let sjy1: int = if !jumping && !grounded {
            p.pos.y as int
        } else {
            p.start_jumping_y as int
        };
        let speed_offset = spec_speed_offset(st.value, p.right, delta);
        &&& q.speed_tween == st
        &&& q.jump_tween == jt2
        &&& q.on_ground == grounded
        &&& q.state == (if jt2.time > JUMP_END_OFFSET * TWEEN_PERIOD {
            PlayerState::Falling
        } else {
            state1
        })
        &&& if speed_offset == 0 && jump_offset == 0 {
            &&& q.pos == p.pos
            &&& q.right == p.right
            &&& q.start_jumping_y == sjy1
            &&& q.skip_collision_entities@ == p.skip_collision_entities@
            &&& !sound
        } else {
            let end = Point {
                x: (p.pos.x + speed_offset) as i64,
                y: (sjy1 + jump_offset) as i64,
            };
            match sweep(layers.layer_seq(0), p.collider, p.pos, end) {
                Some(h) => {
                    if spec_skip_contains(p.skip_collision_entities@, h.0) {
                        &&& q.pos == end
                        &&& q.right == p.right
                        &&& q.start_jumping_y == sjy1
                        &&& q.skip_collision_entities@
                            == p.skip_collision_entities@
                        &&& !sound
                    } else {
                        let bounced = Point {
                            x: (p.pos.x - (end.x - h.2.x)) as i64,
                            y: (p.pos.y - (end.y - h.2.y)) as i64,
                        };
                        match h.1 {
                            Direction::Left | Direction::Right => {
                                &&& q.pos == bounced
                                &&& q.right == !p.right
                                &&& q.start_jumping_y == sjy1
                                &&& q.skip_collision_entities@
                                    == p.skip_collision_entities@
                                &&& !sound
                            },
                            Direction::Bottom => {
                                &&& q.pos == bounced
                                &&& q.right == p.right
                                &&& q.start_jumping_y == p.pos.y
                                &&& q.skip_collision_entities@
                                    == p.skip_collision_entities@
                                &&& sound == (end.x != h.2.x || end.y != h.2.y)
                            },
                            Direction::Top => {
                                &&& q.pos == end
                                &&& q.right == p.right
                                &&& q.start_jumping_y == sjy1
                                &&& q.skip_collision_entities@
                                    == p.skip_collision_entities@.push(h.0 as usize)
                                &&& !sound
                            },
                        }
                    }
                },
                None => {
                    &&& q.pos == end
                    &&& q.right == p.right
                    &&& q.start_jumping_y == sjy1
                    &&& q.skip_collision_entities@
                        == Seq::<usize>::empty()
                    &&& !sound
                },
            }
        }
    })
}

/// Whether the vector holds this entity index.
fn contains_id(v: &Vec<usize>, x: usize) -> (r: bool)
    ensures
        r == spec_skip_contains(v@, x as int),
{
    let mut i: usize = 0;
    while i < v.len()
        invariant
            i <= v@.len(),
            forall|j: int| 0 <= j < i ==> (#[trigger] v@[j]) != x,
        decreases v@.len() - i,
    {
        if v[i] == x {
            proof {
                assert(v@[i as int] == x);
            }
            return true;
        }
        i += 1;
    }
    false
}

/// The player-controlled body: its state, position, facing, the two curve
/// samplers, its collision box, the sprite keys rendering reads, and the
/// transient set of entities it is allowed to pass through.
#[derive(Clone, Debug)]
pub struct Player {
    pub state: PlayerState,
    pub pos: Point,
    pub right: bool,
    pub speed_tween: Tween,
    pub start_jumping_y: i64,
    pub jump_tween: Tween,
    pub collider: Collider,
    pub sprites: Vec<String>,
    pub skip_collision_entities: Vec<usize>,
    pub on_ground: bool,
}

impl Player {
    /// Both samplers run their fixed waveforms; the collider is usable and
    /// there is at least one sprite key.
    pub open spec fn wf(self) -> bool {
        &&& self.speed_tween.wf()
        &&& self.speed_tween.waveform@ == speed_waveform_spec()
        &&& self.jump_tween.wf()
        &&& self.jump_tween.waveform@ == jump_waveform_spec()
        &&& self.collider.wf()
        &&& self.sprites@.len() > 0
    }

    /// A spawn-time player: idle, facing right, both curves at their start
    /// and stopped.
    pub fn new(pos: Point, collider: Collider, sprites: Vec<String>) -> (p: Player)
        requires
            pos.in_bounds(),
            collider.wf(),
            sprites@.len() > 0,
        ensures
            p.wf(),
            p.state == PlayerState::Idle,
            p.pos == pos,
            p.right,
            p.start_jumping_y == pos.y,
            p.collider == collider,
            p.sprites == sprites,
            p.skip_collision_entities@.len() == 0,
            !p.on_ground,
            p.speed_tween == (Tween {
                stopped: true,
                time: 0,
                waveform: p.speed_tween.waveform,
                value: 0,
            }),
            p.jump_tween == (Tween {
                stopped: true,
                time: 0,
                waveform: p.jump_tween.waveform,
                value: 6,
            }),
    {
        let speed_wave = speed_waveform();
        let sv0 = speed_wave[0];
        let speed_tween = Tween { stopped: true, time: 0, waveform: speed_wave, value: sv0 };
        let jump_wave = jump_waveform();
        let jv0 = jump_wave[0];
        let jump_tween = Tween { stopped: true, time: 0, waveform: jump_wave, value: jv0 };
        Player {
            state: PlayerState::Idle,
            pos,
            right: true,
            speed_tween,
            start_jumping_y: pos.y,
            jump_tween,
            collider,
            sprites,
            skip_collision_entities: Vec::new(),
            on_ground: false,
        }
    }

    /// Starts a jump: only while the jump curve is stopped and the player is
    /// not already falling. Restarts the curve and anchors the jump baseline
    /// at the current height.
    pub fn jump(&mut self)
        requires
            old(self).wf(),
        ensures
            final(self).wf(),
            (old(self).jump_tween.stopped && old(self).state != PlayerState::Falling)
                ==> *final(self) == (Player {
                state: PlayerState::Jumping,
                jump_tween: (Tween { stopped: false, ..old(self).jump_tween }),
                start_jumping_y: old(self).pos.y,
                ..*old(self)
            }),
            !(old(self).jump_tween.stopped && old(self).state != PlayerState::Falling)
                ==> *final(self) == *old(self),
    {
        if self.jump_tween.stopped && self.state != PlayerState::Falling {
            self.state = PlayerState::Jumping;
            self.jump_tween.stopped = false;
            self.start_jumping_y = self.pos.y;
        }
    }

    /// Releasing the jump key past the short-hop threshold splices the jump
    /// curve straight to its falling segment.
    pub fn jump_stop(&mut self)
        requires
            old(self).wf(),
        ensures
            final(self).wf(),
            (old(self).state == PlayerState::Jumping && old(self).jump_tween.time
                > JUMP_START_OFFSET * TWEEN_PERIOD) ==> *final(self) == (Player {
                state: PlayerState::Falling,
                jump_tween: (Tween {
                    time: (JUMP_END_OFFSET * TWEEN_PERIOD) as u64,
                    ..old(self).jump_tween
                }).resampled(),
                ..*old(self)
            }),
            !(old(self).state == PlayerState::Jumping && old(self).jump_tween.time
                > JUMP_START_OFFSET * TWEEN_PERIOD) ==> *final(self) == *old(self),
    {
        if self.state == PlayerState::Jumping {
            if self.jump_tween.time > (JUMP_START_OFFSET as u64) * TWEEN_PERIOD {
                self.state = PlayerState::Falling;
                self.jump_tween.set_offset(JUMP_END_OFFSET);
            }
        }
    }

    /// Holding left: restarts the speed ramp, faces left, and runs unless a
    /// jump is in flight.
    pub fn left(&mut self)
        requires
            old(self).wf(),
        ensures
            final(self).wf(),
            *final(self) == (Player {
                right: false,
                speed_tween: (Tween { stopped: false, ..old(self).speed_tween }),
                state: if old(self).state == PlayerState::Jumping {
                    PlayerState::Jumping
                } else {
                    PlayerState::Running
                },
                ..*old(self)
            }),
    {
        self.speed_tween.stopped = false;
        self.right = false;
        if self.state != PlayerState::Jumping {
            self.state = PlayerState::Running;
        }
    }

    /// Holding right: restarts the speed ramp, faces right, and runs unless
    /// a jump is in flight.
    pub fn right(&mut self)
        requires
            old(self).wf(),
        ensures
            final(self).wf(),
            *final(self) == (Player {
                right: true,
                speed_tween: (Tween { stopped: false, ..old(self).speed_tween }),
                state: if old(self).state == PlayerState::Jumping {
                    PlayerState::Jumping
                } else {
                    PlayerState::Running
                },
                ..*old(self)
            }),
    {
        self.speed_tween.stopped = false;
        self.right = true;
        if self.state != PlayerState::Jumping {
            self.state = PlayerState::Running;
        }
    }

    /// No horizontal input: the speed ramp rewinds, and on the ground the
    /// player settles into Idle with the jump curve rewound too.
    pub fn stop(&mut self)
        requires
            old(self).wf(),
        ensures
            final(self).wf(),
            old(self).on_ground ==> *final(self) == (Player {
                state: PlayerState::Idle,
                jump_tween: old(self).jump_tween.reset_spec(),
                speed_tween: old(self).speed_tween.reset_spec(),
                ..*old(self)
            }),
            !old(self).on_ground ==> *final(self) == (Player {
                speed_tween: old(self).speed_tween.reset_spec(),
                ..*old(self)
            }),
    {
        if self.on_ground {
            self.state = PlayerState::Idle;
            self.jump_tween.reset();
        }
        self.speed_tween.reset();
    }

    /// Whether the short downward probe reports ground contact: the collider
    /// swept twenty pixels down in layer 0, a `Bottom` hit meaning ground.
    pub fn on_ground(&self, static_layers: &StaticLayers) -> (r: bool)
        requires
            self.collider.wf(),
            static_layers.wf(),
            -PLAYER_POS_LIMIT <= self.pos.x <= PLAYER_POS_LIMIT,
            -PLAYER_POS_LIMIT <= self.pos.y <= PLAYER_POS_LIMIT,
        ensures
            r == spec_on_ground(*self, *static_layers),
    {
        let probe_end = Point { x: self.pos.x, y: self.pos.y + 20 };
        match static_layers.get_collision(&self.collider, self.pos, probe_end, 0) {
            Some((_, d, _)) => d == Direction::Bottom,
            None => false,
        }
    }

    /// One fixed step of the integrator; the result reports whether a landing
    /// sound should be played. Per frame: take the ground probe, advance both
    /// curves, turn them into this frame's displacement, ask the static
    /// world for the first obstruction, and apply the bounce, landing or
    /// pass-through policy; finally take the apex timeout. The position may
    /// drift: a caller checks the position bound again before the next frame.
    #[verifier::rlimit(100)]
    pub fn update(&mut self, static_layers: &StaticLayers, delta: u64) -> (played_sound: bool)
        requires
            old(self).wf(),
            static_layers.wf(),
            delta <= MAX_FRAME_DELTA,
            -PLAYER_POS_LIMIT <= old(self).pos.x <= PLAYER_POS_LIMIT,
            -PLAYER_POS_LIMIT <= old(self).pos.y <= PLAYER_POS_LIMIT,
            -PLAYER_POS_LIMIT <= old(self).start_jumping_y <= PLAYER_POS_LIMIT,
            old(self).speed_tween.time + delta <= u64::MAX,
            old(self).jump_tween.time + delta <= u64::MAX,
        ensures
            update_rel(*old(self), *static_layers, delta, *final(self), played_sound),
    {
        let grounded = self.on_ground(static_layers);
        self.on_ground = grounded;
        // Horizontal: advance the speed ramp, rewinding it once it has run
        // out, and resample.
        self.speed_tween.update(delta);
        if self.speed_tween.is_over() {
            self.speed_tween.reset();
        }
        let sv = self.speed_tween.value();
        proof {
            lemma_speed_waveform_bounds();
            assert(0 <= sv <= 100);
        }
        proof {
            assert((sv as int) * (delta as int) <= 30_000_000) by (nonlinear_arith)
                requires
                    0 <= sv <= 100 && delta <= 300_000,
            ;
        }
        let so_mag: u64 = ((sv as u64) * delta) / 150;
        proof {
            vstd::arithmetic::div_mod::lemma_div_is_ordered(
                (sv as u64 * delta) as int,
                30_000_000,
                150,
            );
        }
        let so: i64 = if self.right {
            so_mag as i64
        } else {
            -(so_mag as i64)
        };
        // Vertical: advance the jump arc, rewinding it once it has run out.
        self.jump_tween.update(delta);
        if self.jump_tween.is_over() {
            self.jump_tween.reset();
        }
        let jump_offset: i64 = if self.state == PlayerState::Jumping {
            let jv = self.jump_tween.value();
            proof {
                lemma_jump_waveform_bounds();
                assert(0 <= jv <= 600);
                vstd::arithmetic::div_mod::lemma_div_is_ordered((jv as u64 * 5) as int, 3000, 6);
            }
            -((((jv as u64) * 5) / 6) as i64)
        } else if grounded {
            0
        } else {
            // Airborne without a jump in flight: gravity fallback.
            self.start_jumping_y = self.pos.y;
            self.state = PlayerState::Falling;
            proof {
                vstd::arithmetic::div_mod::lemma_div_is_ordered((5 * delta) as int, 1_500_000, 6);
            }
            ((5 * delta) / 6) as i64
        };
        let mut played = false;
        if so != 0 || jump_offset != 0 {
            let end = Point { x: self.pos.x + so, y: self.start_jumping_y + jump_offset };
            proof {
                assert(end.in_bounds());
            }
            played = self.resolve_collision(static_layers, end);
        }
        // Apex timeout: a jump that has outlived the rising segment falls.
        if self.jump_tween.time > (JUMP_END_OFFSET as u64) * TWEEN_PERIOD {
            self.state = PlayerState::Falling;
        }
        played
    }


    /// Applies the bounce, landing or pass-through policy for one candidate
    /// movement of this frame, and reports whether a landing sound is due.
    fn resolve_collision(&mut self, static_layers: &StaticLayers, end: Point) -> (sound: bool)
        requires
            static_layers.wf(),
            old(self).collider.wf(),
            old(self).pos.in_bounds(),
            end.in_bounds(),
        ensures
            final(self).state == old(self).state,
            final(self).speed_tween == old(self).speed_tween,
            final(self).jump_tween == old(self).jump_tween,
            final(self).collider == old(self).collider,
            final(self).sprites == old(self).sprites,
            final(self).on_ground == old(self).on_ground,
            ({
                let p = *old(self);
                match sweep(static_layers.layer_seq(0), p.collider, p.pos, end) {
                    Some(h) => {
                        if spec_skip_contains(p.skip_collision_entities@, h.0) {
                            &&& final(self).pos == end
                            &&& final(self).right == p.right
                            &&& final(self).start_jumping_y == p.start_jumping_y
                            &&& final(self).skip_collision_entities@
                                == p.skip_collision_entities@
                            &&& !sound
                        } else {
                            let bounced = Point {
                                x: (p.pos.x - (end.x - h.2.x)) as i64,
                                y: (p.pos.y - (end.y - h.2.y)) as i64,
                            };
                            match h.1 {
                                Direction::Left | Direction::Right => {
                                    &&& final(self).pos == bounced
                                    &&& final(self).right == !p.right
                                    &&& final(self).start_jumping_y == p.start_jumping_y
                                    &&& final(self).skip_collision_entities@
                                        == p.skip_collision_entities@
                                    &&& !sound
                                },
                                Direction::Bottom => {
                                    &&& final(self).pos == bounced
                                    &&& final(self).right == p.right
                                    &&& final(self).start_jumping_y == p.pos.y
                                    &&& final(self).skip_collision_entities@
                                        == p.skip_collision_entities@
                                    &&& sound == (end.x != h.2.x || end.y != h.2.y)
                                },
                                Direction::Top => {
                                    &&& final(self).pos == end
                                    &&& final(self).right == p.right
                                    &&& final(self).start_jumping_y == p.start_jumping_y
                                    &&& final(self).skip_collision_entities@
                                        == p.skip_collision_entities@.push(h.0 as usize)
                                    &&& !sound
                                },
                            }
                        }
                    },
                    None => {
                        &&& final(self).pos == end
                        &&& final(self).right == p.right
                        &&& final(self).start_jumping_y == p.start_jumping_y
                        &&& final(self).skip_collision_entities@ == Seq::<usize>::empty()
                        &&& !sound
                    },
                }
            }),
    {
        let mut played = false;
        proof {
            crate::static_layers::lemma_sweep_point_in_box(
                static_layers.layer_seq(0),
                self.collider,
                self.pos,
                end,
            );
        }
        match static_layers.get_collision(&self.collider, self.pos, end, 0) {
            Some((idx, dir, pt)) => {
                if contains_id(&self.skip_collision_entities, idx) {
                    self.pos = end;
                } else {
                    let bx = end.x - pt.x;
                    let by = end.y - pt.y;
                    match dir {
                        Direction::Left | Direction::Right => {
                            self.right = !self.right;
                            self.pos = Point { x: self.pos.x - bx, y: self.pos.y - by };
                        },
                        Direction::Bottom => {
                            self.start_jumping_y = self.pos.y;
                            self.pos = Point { x: self.pos.x - bx, y: self.pos.y - by };
                            if bx != 0 || by != 0 {
                                played = true;
                            }
                        },
                        Direction::Top => {
                            self.skip_collision_entities.push(idx);
                            self.pos = end;
                        },
                    }
                }
            },
            None => {
                self.pos = end;
                self.skip_collision_entities = Vec::new();
            },
        }
        played
    }

    /// Which sprite rendering should draw, and whether mirrored: 0 for Idle
    /// and Running, 1 for Jumping, 2 for Falling; mirrored when facing left.
    pub fn sprite_index(&self) -> (r: (usize, bool))
        ensures
            r.0 == match self.state {
                PlayerState::Idle => 0int,
                PlayerState::Running => 0int,
                PlayerState::Jumping => 1int,
                PlayerState::Falling => 2int,
            },
            r.1 == !self.right,
    {
        let idx: usize = match self.state {
            PlayerState::Idle => 0,
            PlayerState::Running => 0,
            PlayerState::Jumping => 1,
            PlayerState::Falling => 2,
        };
        (idx, !self.right)
    }
}

// --- Landing: a passive fall over a single floor reaches the ground. ---

/// The shape of a player passively falling down a clear column over a single
/// floor entity: layer 0 holds exactly that entity, no jump is in flight,
/// the speed ramp is stopped at zero, the mover's column overlaps the
/// floor's, and the mover stands strictly above the floor's near edge,
/// within the world bounds.
pub open spec fn fall_scene(p: Player, layers: StaticLayers, obs: Collider) -> bool {
    let e = layers.layer_seq(0)[0];
    &&& layers.layer_seq(0).len() == 1
    &&& e.collider == Some(obs)
    &&& e.pos.in_bounds()
    &&& 0 <= obs.width <= COORD_LIMIT
    &&& 0 <= obs.height <= COORD_LIMIT
    &&& p.wf()
    &&& p.state != PlayerState::Jumping
    &&& p.speed_tween.stopped
    &&& p.speed_tween.value == 0
    &&& p.jump_tween.stopped
    &&& 1 <= p.collider.height
    &&& p.pos.x <= e.pos.x + obs.width
    &&& e.pos.x <= p.pos.x + p.collider.width
    &&& -PLAYER_POS_LIMIT <= p.pos.x <= PLAYER_POS_LIMIT
    &&& -PLAYER_POS_LIMIT <= p.pos.y
    &&& p.pos.y + p.collider.height < e.pos.y
    &&& e.pos.y <= PLAYER_POS_LIMIT
}

/// One frame of a passive fall: within twenty pixels of the floor the ground
/// probe reports `Bottom` and the frame grounds the player; farther up, the
/// frame is one clear gravity step down that keeps the fall scene.
proof fn lemma_fall_step(
    p: Player,
    layers: StaticLayers,
    obs: Collider,
    delta: u64,
    q: Player,
    snd: bool,
)
    requires
        fall_scene(p, layers, obs),
        2 <= delta <= 23,
        update_rel(p, layers, delta, q, snd),
    ensures
        ({
            let e = layers.layer_seq(0)[0];
            let g = spec_gravity_offset(delta);
            if p.pos.y + p.collider.height + 20 > e.pos.y {
                q.on_ground
            } else {
                &&& fall_scene(q, layers, obs)
                &&& q.pos.x == p.pos.x
                &&& q.pos.y == p.pos.y + g
                &&& q.collider == p.collider
                &&& !q.on_ground
            }
        }),
{
    let ents = layers.layer_seq(0);
    let e = ents[0];
    let g = spec_gravity_offset(delta);
    assert(1 <= g <= 19) by {
        vstd::arithmetic::div_mod::lemma_div_is_ordered(10, 5 * delta, 6);
        vstd::arithmetic::div_mod::lemma_div_is_ordered(5 * delta, 115, 6);
    }
    let probe_end = ground_probe_end(p);
    assert(probe_end == (Point { x: p.pos.x, y: (p.pos.y + 20) as i64 }));
    if p.pos.y + p.collider.height + 20 > e.pos.y {
        crate::static_layers::lemma_sweep_single_obstacle_ahead(
            ents,
            p.collider,
            p.pos,
            probe_end,
            obs,
        );
        assert(spec_on_ground(p, layers));
    } else {
        crate::static_layers::lemma_sweep_vertical_clear(
            ents,
            p.collider,
            p.pos,
            probe_end,
            obs,
        );
        assert(!spec_on_ground(p, layers));
        // The stopped speed ramp contributes nothing.
        let st0 = p.speed_tween.updated_spec(delta);
        let st1 = if st0.time >= st0.waveform@.len() * TWEEN_PERIOD {
            st0.reset_spec()
        } else {
            st0
        };
        let st = st1.sampled();
        assert(st.stopped && st.value == 0);
        assert(0 * (delta as int) == 0) by (nonlinear_arith);
        vstd::arithmetic::div_mod::lemma_div_of0(150);
        assert(spec_speed_offset(st.value, p.right, delta) == 0);
        // The frame is a pure gravity move, and it is clear.
        let end = Point { x: (p.pos.x + 0) as i64, y: (p.pos.y as int + g) as i64 };
        crate::static_layers::lemma_sweep_vertical_clear(ents, p.collider, p.pos, end, obs);
        assert(q.pos == end);
        assert(q.pos.y == p.pos.y + g);
    }
}

/// Landing: a player passively falling under the gravity fallback toward a
/// floor, frame after frame of `update` at a fixed moderate delta, is
/// grounded within finitely many frames — one more frame than its distance
/// to the floor covers it. The trace is given as the chain of states that
/// consecutive `update` calls relate.
pub proof fn lemma_fall_lands(
    states: Seq<Player>,
    sounds: Seq<bool>,
    layers: StaticLayers,
    obs: Collider,
    delta: u64,
)
    requires
        states.len() >= 2,
        sounds.len() == states.len() - 1,
        forall|i: int|
            0 <= i < states.len() - 1 ==> update_rel(
                #[trigger] states[i],
                layers,
                delta,
                states[i + 1],
                sounds[i],
            ),
        2 <= delta <= 23,
        fall_scene(states[0], layers, obs),
        states.len() >= layers.layer_seq(0)[0].pos.y - states[0].collider.height
            - states[0].pos.y + 2,
    ensures
        exists|i: int| 0 <= i < states.len() && (#[trigger] states[i]).on_ground,
{
    lemma_fall_lands_from(states, sounds, layers, obs, delta, 0);
}

proof fn lemma_fall_lands_from(
    states: Seq<Player>,
    sounds: Seq<bool>,
    layers: StaticLayers,
    obs: Collider,
    delta: u64,
    i: int,
)
    requires
        states.len() >= 2,
        sounds.len() == states.len() - 1,
        forall|k: int|
            0 <= k < states.len() - 1 ==> update_rel(
                #[trigger] states[k],
                layers,
                delta,
                states[k + 1],
                sounds[k],
            ),
        2 <= delta <= 23,
        0 <= i < states.len() - 1,
        fall_scene(states[i], layers, obs),
        states.len() - i >= layers.layer_seq(0)[0].pos.y - states[i].collider.height
            - states[i].pos.y + 2,
    ensures
        exists|j: int| 0 <= j < states.len() && (#[trigger] states[j]).on_ground,
    decreases layers.layer_seq(0)[0].pos.y - states[i].collider.height - states[i].pos.y,
{
    let e = layers.layer_seq(0)[0];
    assert(update_rel(states[i], layers, delta, states[i + 1], sounds[i]));
    lemma_fall_step(states[i], layers, obs, delta, states[i + 1], sounds[i]);
    if states[i].pos.y + states[i].collider.height + 20 > e.pos.y {
        assert(states[i + 1].on_ground);
    } else {
        lemma_fall_lands_from(states, sounds, layers, obs, delta, i + 1);
    }
}

} // verus!
