use std::collections::HashMap;

use parry3d_f64::bounding_volume::Aabb;
use parry3d_f64::math::{Pose, Vector};
use parry3d_f64::query::{Ray, RayCast};
use valence_raycast::{stepper_answer, Action, Cell, Event, Hit, Impact, Traversal, Vec3};
use voxel_tile_raycast::na::Vector3;

const FULL: [f64; 6] = [0.0, 0.0, 0.0, 1.0, 1.0, 1.0];

/// A world of blocks, each a list of collision boxes in the cell's own
/// space, that counts how often it is asked for a block.
struct World {
    blocks: HashMap<(i32, i32, i32), Vec<[f64; 6]>>,
    lookups: usize,
}

impl World {
    fn new() -> World {
        World { blocks: HashMap::new(), lookups: 0 }
    }

    fn with(mut self, cell: (i32, i32, i32), boxes: &[[f64; 6]]) -> World {
        self.blocks.insert(cell, boxes.to_vec());
        self
    }
}

fn bits(v: Vector) -> Vec3 {
    Vec3::new(v.x.to_bits(), v.y.to_bits(), v.z.to_bits())
}

fn floats(v: Vec3) -> [f64; 3] {
    [f64::from_bits(v.x), f64::from_bits(v.y), f64::from_bits(v.z)]
}

fn close(a: [f64; 3], b: [f64; 3]) -> bool {
    (0..3).all(|i| (a[i] - b[i]).abs() < 1e-12)
}

fn cast_box(ray: &Ray, max_dist: f64, cell: Cell, shape: [f64; 6]) -> Option<Impact> {
    let aabb = Aabb::new(
        Vector::new(shape[0], shape[1], shape[2]),
        Vector::new(shape[3], shape[4], shape[5]),
    );
    let at = Pose::translation(cell.x as f64, cell.y as f64, cell.z as f64);
    aabb.cast_ray_and_get_normal(&at, ray, max_dist, true).map(|found| Impact {
        point: bits(ray.point_at(found.time_of_impact)),
        normal: bits(found.normal),
    })
}

/// Runs one ray cast: the stepper proposes the cells, the machine decides,
/// and this function looks up, casts and visits as the machine asks.
fn cast(
    world: &mut World,
    origin: [f64; 3],
    dir: [f64; 3],
    max_dist: f64,
    mut visitor: impl FnMut(&mut World, Hit) -> bool,
) {
    let na_origin = Vector3::new(origin[0], origin[1], origin[2]);
    let na_dir = Vector3::new(dir[0], dir[1], dir[2]);
    let mut state = Traversal::start(na_dir.norm().to_bits());
    if state.is_stopped() {
        return;
    }
    let na_dir = na_dir.normalize();
    let ray = Ray::new(
        Vector::new(origin[0], origin[1], origin[2]),
        Vector::new(na_dir.x, na_dir.y, na_dir.z),
    );
    voxel_tile_raycast::voxel_raycast(na_origin, na_dir, max_dist, |index, _, _| {
        state = state.step(Event::Entered(Cell::new(index.x, index.y, index.z)));
        let mut boxes: Vec<[f64; 6]> = Vec::new();
        let mut next = 0;
        loop {
            let event = match state.pending() {
                Action::Advance => return stepper_answer(true),
                Action::Stop => return stepper_answer(false),
                Action::Lookup(cell) => {
                    world.lookups += 1;
                    match world.blocks.get(&(cell.x, cell.y, cell.z)) {
                        Some(found) => {
                            boxes = found.clone();
                            next = 0;
                            Event::Occupied
                        }
                        None => Event::Vacant,
                    }
                }
                Action::Cast(cell) => {
                    if next < boxes.len() {
                        next += 1;
                        Event::Cast(cast_box(&ray, max_dist, cell, boxes[next - 1]))
                    } else {
                        Event::Swept
                    }
                }
                Action::Visit(hit) => Event::Visited(visitor(world, hit)),
            };
            state = state.step(event);
        }
    });
}

/// Casts under a visitor that goes on until the first hit, and returns
/// every report.
fn reports_until_hit(world: &mut World, origin: [f64; 3], dir: [f64; 3], max: f64) -> Vec<Hit> {
    let mut reports = Vec::new();
    cast(world, origin, dir, max, |_, hit| {
        reports.push(hit);
        !hit.is_hit()
    });
    reports
}

/// Casts under a visitor that always goes on, and returns every report.
fn reports_of_all(world: &mut World, origin: [f64; 3], dir: [f64; 3], max: f64) -> Vec<Hit> {
    let mut reports = Vec::new();
    cast(world, origin, dir, max, |_, hit| {
        reports.push(hit);
        true
    });
    reports
}

#[test]
fn full_box_is_hit_once_on_its_entry_face() {
    let mut world = World::new().with((3, 0, 0), &[FULL]);
    let reports = reports_until_hit(&mut world, [0.5, 0.5, 0.5], [1.0, 0.0, 0.0], 10.0);
    let hits: Vec<&Hit> = reports.iter().filter(|hit| hit.is_hit()).collect();
    assert_eq!(hits.len(), 1);
    assert_eq!(hits[0].cell, Cell::new(3, 0, 0));
    assert_eq!(floats(hits[0].normal), [-1.0, 0.0, 0.0]);
    assert!(close(floats(hits[0].point), [3.0, 0.5, 0.5]));
    assert_eq!(reports.len(), 4);
    assert_eq!(reports.last().unwrap().cell, Cell::new(3, 0, 0));
}

#[test]
fn floor_is_hit_from_above_on_its_top_face() {
    let mut world = World::new().with((0, 0, 0), &[FULL]);
    let reports = reports_until_hit(&mut world, [0.5, 3.5, 0.5], [0.0, -1.0, 0.0], 10.0);
    let hit = *reports.last().unwrap();
    assert!(hit.is_hit());
    assert_eq!(hit.cell, Cell::new(0, 0, 0));
    assert_eq!(floats(hit.normal), [0.0, 1.0, 0.0]);
    assert!(close(floats(hit.point), [0.5, 1.0, 0.5]));
}

#[test]
fn each_of_the_six_faces_gives_its_own_normal() {
    let cases: [([f64; 3], [f64; 3], [f64; 3]); 6] = [
        ([-2.5, 0.5, 0.5], [1.0, 0.0, 0.0], [-1.0, 0.0, 0.0]),
        ([3.5, 0.5, 0.5], [-1.0, 0.0, 0.0], [1.0, 0.0, 0.0]),
        ([0.5, -2.5, 0.5], [0.0, 1.0, 0.0], [0.0, -1.0, 0.0]),
        ([0.5, 3.5, 0.5], [0.0, -1.0, 0.0], [0.0, 1.0, 0.0]),
        ([0.5, 0.5, -2.5], [0.0, 0.0, 1.0], [0.0, 0.0, -1.0]),
        ([0.5, 0.5, 3.5], [0.0, 0.0, -1.0], [0.0, 0.0, 1.0]),
    ];
    for (origin, dir, normal) in cases {
        let mut world = World::new().with((0, 0, 0), &[FULL]);
        let reports = reports_until_hit(&mut world, origin, dir, 10.0);
        let hit = *reports.last().unwrap();
        assert!(hit.is_hit());
        assert_eq!(hit.cell, Cell::new(0, 0, 0));
        assert_eq!(floats(hit.normal), normal);
    }
}

#[test]
fn direction_need_not_have_unit_length() {
    let mut world = World::new().with((3, 0, 0), &[FULL]);
    let unit = reports_until_hit(&mut world, [0.5, 0.5, 0.5], [1.0, 0.0, 0.0], 10.0);
    let long = reports_until_hit(&mut world, [0.5, 0.5, 0.5], [4.0, 0.0, 0.0], 10.0);
    assert_eq!(unit, long);
}

#[test]
fn empty_path_reports_the_zero_normal_for_every_cell() {
    let mut world = World::new();
    let reports = reports_of_all(&mut world, [0.5, 0.5, 0.5], [1.0, 0.0, 0.0], 5.0);
    let expected: Vec<Hit> = (0..7).map(|x| Hit::nothing(Cell::new(x, 0, 0))).collect();
    assert_eq!(reports, expected);
    assert!(reports.iter().all(|hit| !hit.is_hit() && hit.normal.is_zero() && hit.point.is_zero()));
    assert_eq!(world.lookups, 7);
    let again = reports_of_all(&mut world, [0.5, 0.5, 0.5], [1.0, 0.0, 0.0], 5.0);
    assert_eq!(again, reports);
}

#[test]
fn last_box_in_the_list_wins_over_the_nearer_one() {
    let near = [0.0, 0.0, 0.0, 0.25, 1.0, 1.0];
    let far = [0.75, 0.0, 0.0, 1.0, 1.0, 1.0];
    let mut world = World::new().with((2, 0, 0), &[near, far]);
    let reports = reports_until_hit(&mut world, [0.5, 0.5, 0.5], [1.0, 0.0, 0.0], 10.0);
    let hit = *reports.last().unwrap();
    assert!(hit.is_hit());
    assert_eq!(hit.cell, Cell::new(2, 0, 0));
    assert!(close(floats(hit.point), [2.75, 0.5, 0.5]));
    assert_eq!(floats(hit.normal), [-1.0, 0.0, 0.0]);

    let mut world = World::new().with((2, 0, 0), &[far, near]);
    let reports = reports_until_hit(&mut world, [0.5, 0.5, 0.5], [1.0, 0.0, 0.0], 10.0);
    let hit = *reports.last().unwrap();
    assert!(hit.is_hit());
    assert!(close(floats(hit.point), [2.0, 0.5, 0.5]));
}

#[test]
fn box_beside_the_ray_does_not_replace_a_hit() {
    let ahead = [0.0, 0.0, 0.0, 0.25, 1.0, 1.0];
    let beside = [0.0, 0.75, 0.0, 1.0, 1.0, 1.0];
    let mut world = World::new().with((2, 0, 0), &[ahead, beside]);
    let reports = reports_until_hit(&mut world, [0.5, 0.5, 0.5], [1.0, 0.0, 0.0], 10.0);
    let hit = *reports.last().unwrap();
    assert!(hit.is_hit());
    assert!(close(floats(hit.point), [2.0, 0.5, 0.5]));
}

#[test]
fn block_that_the_ray_misses_is_reported_as_nothing() {
    let beside = [0.0, 0.75, 0.0, 1.0, 1.0, 1.0];
    let mut world = World::new().with((2, 0, 0), &[beside]);
    let reports = reports_of_all(&mut world, [0.5, 0.5, 0.5], [1.0, 0.0, 0.0], 3.0);
    assert_eq!(reports[2], Hit::nothing(Cell::new(2, 0, 0)));
    assert!(reports.iter().all(|hit| !hit.is_hit()));
}

#[test]
fn stop_at_the_third_cell_ends_lookups_and_visits() {
    let mut world = World::new().with((4, 0, 0), &[FULL]);
    let mut visited = 0;
    cast(&mut world, [0.5, 0.5, 0.5], [1.0, 0.0, 0.0], 10.0, |_, _| {
        visited += 1;
        visited < 3
    });
    assert_eq!(visited, 3);
    assert_eq!(world.lookups, 3);
}

#[test]
fn stop_at_the_first_cell_ends_lookups_and_visits() {
    let mut world = World::new();
    let mut visited = 0;
    cast(&mut world, [0.5, 0.5, 0.5], [1.0, 0.0, 0.0], 10.0, |_, _| {
        visited += 1;
        false
    });
    assert_eq!(visited, 1);
    assert_eq!(world.lookups, 1);
}

#[test]
fn geometry_beyond_the_maximum_distance_is_not_hit() {
    let mut world = World::new().with((4, 0, 0), &[FULL]).with((9, 0, 0), &[FULL]);
    let reports = reports_of_all(&mut world, [0.5, 0.5, 0.5], [1.0, 0.0, 0.0], 3.0);
    assert!(!reports.is_empty());
    assert!(reports.iter().all(|hit| !hit.is_hit()));
    assert!(reports.iter().any(|hit| hit.cell == Cell::new(4, 0, 0)));

    let reports = reports_of_all(&mut world, [0.5, 0.5, 0.5], [1.0, 0.0, 0.0], 4.0);
    let hits: Vec<&Hit> = reports.iter().filter(|hit| hit.is_hit()).collect();
    assert_eq!(hits.len(), 1);
    assert_eq!(hits[0].cell, Cell::new(4, 0, 0));
}

#[test]
fn removing_the_first_block_hit_uncovers_the_next() {
    let mut world = World::new().with((2, 0, 0), &[FULL]).with((4, 0, 0), &[FULL]);
    let mut first = None;
    cast(&mut world, [0.5, 0.5, 0.5], [1.0, 0.0, 0.0], 10.0, |world, hit| {
        if hit.is_hit() {
            world.blocks.remove(&(hit.cell.x, hit.cell.y, hit.cell.z));
            first = Some(hit);
            false
        } else {
            true
        }
    });
    let first = first.unwrap();
    assert_eq!(first.cell, Cell::new(2, 0, 0));
    assert!(close(floats(first.point), [2.0, 0.5, 0.5]));
    assert!(!world.blocks.contains_key(&(2, 0, 0)));

    let reports = reports_until_hit(&mut world, [0.5, 0.5, 0.5], [1.0, 0.0, 0.0], 10.0);
    let second = *reports.last().unwrap();
    assert!(second.is_hit());
    assert_eq!(second.cell, Cell::new(4, 0, 0));
    assert!(close(floats(second.point), [4.0, 0.5, 0.5]));
}

#[test]
fn mutation_is_seen_later_in_the_same_cast() {
    let mut world = World::new().with((2, 0, 0), &[FULL]).with((4, 0, 0), &[FULL]);
    let mut reports = Vec::new();
    cast(&mut world, [0.5, 0.5, 0.5], [1.0, 0.0, 0.0], 5.0, |world, hit| {
        if hit.is_hit() {
            world.blocks.remove(&(4, 0, 0));
        }
        reports.push(hit);
        true
    });
    let hits: Vec<&Hit> = reports.iter().filter(|hit| hit.is_hit()).collect();
    assert_eq!(hits.len(), 1);
    assert_eq!(hits[0].cell, Cell::new(2, 0, 0));
    assert!(reports.contains(&Hit::nothing(Cell::new(4, 0, 0))));
}

#[test]
fn zero_direction_visits_nothing() {
    let mut world = World::new().with((0, 0, 0), &[FULL]);
    let reports = reports_of_all(&mut world, [0.5, 0.5, 0.5], [0.0, 0.0, 0.0], 10.0);
    assert!(reports.is_empty());
    assert_eq!(world.lookups, 0);
    let reports = reports_of_all(&mut world, [0.5, 0.5, 0.5], [0.0, -0.0, 0.0], 10.0);
    assert!(reports.is_empty());
    assert_eq!(world.lookups, 0);
}

#[test]
fn direction_too_short_to_measure_visits_nothing() {
    let mut world = World::new().with((0, 0, 0), &[FULL]);
    let reports = reports_of_all(&mut world, [0.5, 0.5, 0.5], [1e-200, 0.0, 0.0], 10.0);
    assert!(reports.is_empty());
    assert_eq!(world.lookups, 0);
}

#[test]
fn ray_that_starts_inside_a_box_reports_a_zero_normal() {
    let mut world = World::new().with((0, 0, 0), &[FULL]);
    let reports = reports_of_all(&mut world, [0.5, 0.5, 0.5], [1.0, 0.0, 0.0], 0.25);
    assert_eq!(reports[0].cell, Cell::new(0, 0, 0));
    assert!(!reports[0].is_hit());
    assert!(close(floats(reports[0].point), [0.5, 0.5, 0.5]));
}

#[test]
fn cells_are_visited_in_the_order_the_stepper_proposes_them() {
    let mut proposed = Vec::new();
    let dir = Vector3::new(1.0, 0.5, 0.25).normalize();
    voxel_tile_raycast::voxel_raycast(Vector3::new(0.5, 0.5, 0.5), dir, 6.0, |index, _, _| {
        proposed.push(Cell::new(index.x, index.y, index.z));
        false
    });
    let mut world = World::new();
    let reports = reports_of_all(&mut world, [0.5, 0.5, 0.5], [1.0, 0.5, 0.25], 6.0);
    let visited: Vec<Cell> = reports.iter().map(|hit| hit.cell).collect();
    assert!(visited.len() > 6);
    assert_eq!(visited, proposed);
}
