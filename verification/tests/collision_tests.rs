use platformer::collider::Collider;
use platformer::geom::Point;
use platformer::static_layers::{Direction, StaticEntity, StaticLayers};

fn block(x: i64, y: i64, w: i64, h: i64, sprite: &str) -> StaticEntity {
    StaticEntity::new(Point::new(x, y), sprite.to_string(), Collider::new(w, h))
}

fn world_with(entities: Vec<StaticEntity>) -> StaticLayers {
    let mut layers = StaticLayers::new();
    for e in entities {
        layers.add_entity(0, e);
    }
    layers
}

#[test]
fn clear_path_returns_the_requested_end_point() {
    let layers = world_with(vec![block(500, 500, 10, 10, "far")]);
    let mover = Collider::new(10, 10);
    let (dir, point) = layers.get_collision_point(&mover, Point::new(0, 0), Point::new(100, 0), 0);
    assert!(dir.is_none());
    assert_eq!(point, Point::new(100, 0));
}

#[test]
fn query_against_unregistered_layer_is_clear() {
    let layers = world_with(vec![block(0, 50, 10, 10, "floor")]);
    let mover = Collider::new(10, 10);
    let (dir, point) = layers.get_collision_point(&mover, Point::new(0, 0), Point::new(0, 100), 7);
    assert!(dir.is_none());
    assert_eq!(point, Point::new(0, 100));
}

#[test]
fn downward_sweep_stops_before_the_obstacle() {
    // Mover 10x10 from (0,0) toward (0,100) against a static 10x10 at (0,50):
    // a Bottom contact strictly before the obstacle's near edge.
    let layers = world_with(vec![block(0, 50, 10, 10, "floor")]);
    let mover = Collider::new(10, 10);
    let (dir, point) = layers.get_collision_point(&mover, Point::new(0, 0), Point::new(0, 100), 0);
    assert_eq!(dir, Some(Direction::Bottom));
    assert!(point.y < 50);
    assert_eq!(point, Point::new(0, 40));
}

#[test]
fn rightward_sweep_reports_a_right_contact() {
    let layers = world_with(vec![block(30, 0, 10, 10, "wall")]);
    let mover = Collider::new(10, 10);
    let (dir, point) = layers.get_collision_point(&mover, Point::new(0, 0), Point::new(50, 0), 0);
    assert_eq!(dir, Some(Direction::Right));
    assert_eq!(point, Point::new(20, 0));
}

#[test]
fn leftward_sweep_reports_a_left_contact() {
    let layers = world_with(vec![block(0, 0, 10, 10, "wall")]);
    let mover = Collider::new(10, 10);
    let (dir, point) = layers.get_collision_point(&mover, Point::new(40, 0), Point::new(-10, 0), 0);
    assert_eq!(dir, Some(Direction::Left));
    assert_eq!(point, Point::new(10, 0));
}

#[test]
fn upward_sweep_reports_a_top_contact() {
    let layers = world_with(vec![block(0, 0, 10, 10, "platform")]);
    let mover = Collider::new(10, 10);
    let (dir, point) = layers.get_collision_point(&mover, Point::new(0, 40), Point::new(0, -10), 0);
    assert_eq!(dir, Some(Direction::Top));
    assert_eq!(point, Point::new(0, 10));
}

#[test]
fn zero_length_movement_is_never_obstructed() {
    let layers = world_with(vec![block(0, 0, 10, 10, "wall")]);
    let mover = Collider::new(10, 10);
    let (dir, point) = layers.get_collision_point(&mover, Point::new(2, 2), Point::new(2, 2), 0);
    assert!(dir.is_none());
    assert_eq!(point, Point::new(2, 2));
}

#[test]
fn storage_order_decides_between_overlapping_obstacles() {
    let first = block(0, 50, 100, 10, "first");
    let second = block(0, 50, 100, 10, "second");
    let layers = world_with(vec![first, second]);
    let mover = Collider::new(10, 10);
    let hit = layers.get_collision(&mover, Point::new(0, 0), Point::new(0, 100), 0);
    let (index, dir, _) = hit.expect("the sweep must hit");
    assert_eq!(index, 0, "the earlier entity wins");
    assert_eq!(dir, Direction::Bottom);
}

#[test]
fn degenerate_colliders_take_part_in_nothing() {
    let ghost_wall = StaticEntity::new(
        Point::new(0, 50),
        "marker".to_string(),
        Collider::new(0, 0),
    );
    assert!(ghost_wall.collider.is_none());
    let layers = world_with(vec![ghost_wall]);
    let mover = Collider::new(10, 10);
    let (dir, point) = layers.get_collision_point(&mover, Point::new(0, 0), Point::new(0, 100), 0);
    assert!(dir.is_none());
    assert_eq!(point, Point::new(0, 100));
}

#[test]
fn find_sees_the_first_entity_with_the_key() {
    let mut layers = StaticLayers::new();
    layers.add_entity(0, block(0, 0, 10, 10, "stone"));
    layers.add_entity(0, block(20, 0, 10, 10, "spawn"));
    layers.add_entity(1, block(40, 0, 10, 10, "spawn"));
    let found = layers.find("spawn").expect("spawn exists");
    assert_eq!(found.pos, Point::new(20, 0));
    assert!(layers.find("missing").is_none());
}

#[test]
fn replace_overwrites_the_first_matching_sprite() {
    let mut layers = StaticLayers::new();
    layers.add_entity(0, block(0, 0, 10, 10, "stone"));
    layers.add_entity(0, block(20, 0, 10, 10, "spawn"));
    layers.replace(block(99, 99, 10, 10, "spawn"));
    let found = layers.find("spawn").expect("spawn exists");
    assert_eq!(found.pos, Point::new(99, 99));
    // The stone is untouched.
    assert_eq!(layers.find("stone").expect("stone exists").pos, Point::new(0, 0));
}

#[test]
fn replace_appends_when_nothing_matches() {
    let mut layers = StaticLayers::new();
    layers.add_entity(0, block(0, 0, 10, 10, "stone"));
    layers.replace(block(5, 5, 10, 10, "spawn"));
    assert_eq!(layers.find("spawn").expect("appended").pos, Point::new(5, 5));
}

#[test]
fn replace_creates_the_layer_lazily() {
    let mut layers = StaticLayers::new();
    layers.replace(block(5, 5, 10, 10, "spawn"));
    assert_eq!(layers.find("spawn").expect("created").pos, Point::new(5, 5));
}

#[test]
fn overlap_at_the_start_is_reported_at_step_zero() {
    let layers = world_with(vec![block(5, 0, 10, 10, "wall")]);
    let mover = Collider::new(10, 10);
    let (dir, point) = layers.get_collision_point(&mover, Point::new(0, 0), Point::new(20, 0), 0);
    assert_eq!(dir, Some(Direction::Right));
    assert_eq!(point, Point::new(0, 0));
}
