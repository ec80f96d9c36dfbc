use platformer::collider::Collider;
use platformer::entity::Entities;
use platformer::geom::Point;
use platformer::player::{Player, PlayerState};
use platformer::static_layers::{StaticEntity, StaticLayers};

const FRAME: u64 = 50;

fn player_at(x: i64, y: i64) -> Player {
    Player::new(
        Point::new(x, y),
        Collider::new(10, 10),
        vec!["idle".to_string(), "jump".to_string(), "fall".to_string()],
    )
}

fn world_with(entities: Vec<StaticEntity>) -> StaticLayers {
    let mut layers = StaticLayers::new();
    for e in entities {
        layers.add_entity(0, e);
    }
    layers
}

fn floor(x: i64, y: i64, w: i64, h: i64) -> StaticEntity {
    StaticEntity::new(Point::new(x, y), "floor".to_string(), Collider::new(w, h))
}

#[test]
fn spawned_player_is_idle_facing_right() {
    let p = player_at(3, 4);
    assert_eq!(p.state, PlayerState::Idle);
    assert_eq!(p.pos, Point::new(3, 4));
    assert!(p.right);
    assert!(!p.on_ground);
    assert!(p.speed_tween.stopped);
    assert!(p.jump_tween.stopped);
}

#[test]
fn gravity_pulls_an_airborne_player_down() {
    let layers = world_with(vec![floor(0, 1000, 100, 10)]);
    let mut p = player_at(0, 40);
    let sound = p.update(&layers, FRAME);
    // Airborne without a jump: the gravity fallback of 5 * delta / 6 pixels.
    assert_eq!(p.pos, Point::new(0, 81));
    assert_eq!(p.state, PlayerState::Falling);
    assert!(!p.on_ground);
    assert!(!sound);
}

#[test]
fn landing_grounds_the_player_and_stop_settles_into_idle() {
    let layers = world_with(vec![floor(0, 100, 100, 10)]);
    let mut p = player_at(0, 40);
    let mut grounded_after = None;
    for frame in 0..5 {
        p.update(&layers, FRAME);
        if p.on_ground {
            grounded_after = Some(frame);
            break;
        }
    }
    assert_eq!(grounded_after, Some(1), "one fall of 41 pixels reaches the probe band");
    assert_eq!(p.pos, Point::new(0, 81), "the clear fall is accepted in full");
    assert_eq!(p.state, PlayerState::Falling);
    p.stop();
    assert_eq!(p.state, PlayerState::Idle, "grounded and without input the player idles");
}

#[test]
fn landing_hit_reanchors_the_baseline_and_plays_a_sound() {
    // From y=65 a 41 pixel fall crosses the floor's near edge at y=100:
    // the Bottom contact subtracts the overshoot and signals the landing.
    let layers = world_with(vec![floor(0, 100, 100, 10)]);
    let mut p = player_at(0, 65);
    let sound = p.update(&layers, FRAME);
    assert!(sound, "a bounce of sixteen pixels is loud enough");
    assert_eq!(p.pos, Point::new(0, 49), "the overshoot is subtracted from the position");
    assert_eq!(p.start_jumping_y, 65, "the baseline re-anchors at the pre-move height");
}

#[test]
fn one_way_platform_is_entered_from_below_and_the_exemption_clears() {
    let layers = world_with(vec![floor(0, 40, 100, 10)]);
    let mut p = player_at(0, 70);
    p.jump();
    assert_eq!(p.state, PlayerState::Jumping);

    // First frame of the jump: five pixels up, still below the platform.
    p.update(&layers, FRAME);
    assert_eq!(p.pos, Point::new(0, 65));
    assert!(p.skip_collision_entities.is_empty());

    // Second frame: the arc reaches through the platform; the Top contact
    // admits the platform to the exemption set and the move is accepted.
    p.update(&layers, FRAME);
    assert_eq!(p.pos, Point::new(0, -14));
    assert_eq!(p.skip_collision_entities, vec![0]);

    // Next unobstructed move: the exemption set is cleared again.
    p.update(&layers, FRAME);
    assert!(p.skip_collision_entities.is_empty());
}

#[test]
fn short_hop_splices_the_jump_curve_to_its_falling_segment() {
    let mut p = player_at(0, 0);
    p.jump();
    // Not yet past the short-hop threshold: releasing does nothing.
    p.jump_stop();
    assert_eq!(p.state, PlayerState::Jumping);
    p.jump_tween.time = 1001;
    p.jump_stop();
    assert_eq!(p.state, PlayerState::Falling);
    assert_eq!(p.jump_tween.time, 5400);
}

#[test]
fn jump_is_refused_while_falling_or_mid_flight() {
    let mut p = player_at(0, 0);
    p.state = PlayerState::Falling;
    p.jump();
    assert_eq!(p.state, PlayerState::Falling);

    let mut q = player_at(0, 0);
    q.jump();
    let baseline = q.start_jumping_y;
    q.pos = Point::new(0, -30);
    q.jump();
    assert_eq!(q.start_jumping_y, baseline, "a running jump cannot be restarted");
}

#[test]
fn apex_timeout_turns_the_jump_into_a_fall() {
    let layers = world_with(vec![floor(0, 5000, 100, 10)]);
    let mut p = player_at(0, 0);
    p.jump();
    p.jump_tween.time = 5401;
    p.update(&layers, 1);
    assert_eq!(p.state, PlayerState::Falling);
}

#[test]
fn running_sets_facing_and_state() {
    let mut p = player_at(0, 0);
    p.left();
    assert!(!p.right);
    assert_eq!(p.state, PlayerState::Running);
    p.right();
    assert!(p.right);
    assert_eq!(p.state, PlayerState::Running);
    assert!(!p.speed_tween.stopped);
}

#[test]
fn wall_contact_flips_the_facing_and_bounces() {
    let layers = world_with(vec![
        StaticEntity::new(Point::new(30, 0), "wall".to_string(), Collider::new(10, 40)),
    ]);
    let mut p = player_at(0, 0);
    p.right();
    // Ramp the speed up so one frame covers the gap to the wall.
    p.speed_tween.time = 1500;
    let _ = p.update(&layers, FRAME);
    assert!(!p.right, "the wall bounce flips the facing");
    assert!(p.pos.x < 30, "the overshoot is subtracted");
}

#[test]
fn sprite_index_maps_states_and_mirrors_by_facing() {
    let mut p = player_at(0, 0);
    assert_eq!(p.sprite_index(), (0, false));
    p.state = PlayerState::Running;
    p.right = false;
    assert_eq!(p.sprite_index(), (0, true));
    p.state = PlayerState::Jumping;
    assert_eq!(p.sprite_index(), (1, true));
    p.state = PlayerState::Falling;
    assert_eq!(p.sprite_index(), (2, true));
}

#[test]
fn entity_catalogue_finds_by_key_and_index() {
    let mut catalogue = Entities::new();
    assert!(catalogue.get(0).is_none());
    catalogue.add(floor(0, 0, 10, 10));
    catalogue.add(StaticEntity::new(
        Point::new(1, 2),
        "char1-idle".to_string(),
        Collider::new(8, 8),
    ));
    assert_eq!(catalogue.get(1).unwrap().sprite, "char1-idle");
    assert_eq!(catalogue.find("char1-idle").unwrap().pos, Point::new(1, 2));
    assert!(catalogue.find("absent").is_none());
}

#[test]
fn exempt_platform_is_passed_through_unchanged() {
    let layers = world_with(vec![floor(0, 40, 100, 10)]);
    let mut p = player_at(0, 65);
    p.jump();
    p.jump_tween.time = 100;
    p.skip_collision_entities = vec![0];
    p.update(&layers, 0);
    assert_eq!(p.pos, Point::new(0, -19), "the exempt platform does not obstruct");
    assert_eq!(p.skip_collision_entities, vec![0], "the exemption set is kept on a pass-through");
}

#[test]
fn small_delta_fall_lands_within_its_distance_bound() {
    // At moderate frame deltas a gravity step (here 5 * 20 / 6 = 16 pixels)
    // cannot jump over the twenty-pixel ground probe band, so a passive fall
    // is grounded within one frame more than its distance to the floor.
    let layers = world_with(vec![floor(0, 100, 100, 10)]);
    let mut p = player_at(0, 40);
    let bound = 100 - 10 - 40 + 2;
    let mut grounded = false;
    for _ in 0..bound {
        p.update(&layers, 20);
        if p.on_ground {
            grounded = true;
            break;
        }
    }
    assert!(grounded);
    assert_eq!(p.pos, Point::new(0, 72), "the fall rests inside the probe band");
}
