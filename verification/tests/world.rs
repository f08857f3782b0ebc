use particle_life::contact::MIN_DIST_SQ;
use particle_life::grid::{cell_of, insert};
use particle_life::motion::{drift_of, GRAVITY_Y};
use particle_life::particle::Particle;
use particle_life::simulation::tick;
use particle_life::units::UNIT;
use particle_life::world::World;

const RED: (u8, u8, u8) = (255, 0, 0);

fn at(x: i64, y: i64) -> Particle {
    Particle::new(x, y, 0, 0, RED)
}

fn gap_sq(a: &Particle, b: &Particle) -> i128 {
    let dx = a.x as i128 - b.x as i128;
    let dy = a.y as i128 - b.y as i128;
    dx * dx + dy * dy
}

fn assert_coherent(world: &World) {
    for i in 0..world.width() {
        for j in 0..world.height() {
            for p in world.cell(i, j) {
                assert_eq!(cell_of(p.x, world.width()), i);
                assert_eq!(cell_of(p.y, world.height()), j);
            }
        }
    }
}

/// A crowd of particles spread over the world by a small generator.
fn crowd(w: usize, h: usize, n: usize) -> World {
    let mut world = World::new(w, h);
    let mut seed: u64 = 0x2545_f491_4f6c_dd1d;
    for _ in 0..n {
        seed ^= seed << 13;
        seed ^= seed >> 7;
        seed ^= seed << 17;
        let x = (seed % (w as u64 * UNIT as u64)) as i64;
        seed ^= seed << 13;
        seed ^= seed >> 7;
        seed ^= seed << 17;
        let y = (seed % (h as u64 * UNIT as u64)) as i64;
        world.add_particle(at(x, y));
    }
    world
}

#[test]
fn new_world_is_empty() {
    let world = World::new(3, 4);
    assert_eq!(world.width(), 3);
    assert_eq!(world.height(), 4);
    for i in 0..3 {
        for j in 0..4 {
            assert!(world.cell(i, j).is_empty());
        }
    }
    assert!(world.particles().is_empty());
}

#[test]
fn cell_of_rounds_down_and_clamps() {
    assert_eq!(cell_of(0, 10), 0);
    assert_eq!(cell_of(UNIT - 1, 10), 0);
    assert_eq!(cell_of(UNIT, 10), 1);
    assert_eq!(cell_of(5_500_000_000, 10), 5);
    assert_eq!(cell_of(10 * UNIT, 10), 9);
    assert_eq!(cell_of(i64::MAX, 10), 9);
    assert_eq!(cell_of(-1, 10), 0);
    assert_eq!(cell_of(i64::MIN, 10), 0);
    assert_eq!(cell_of(3 * UNIT, 1), 0);
}

#[test]
fn add_particle_goes_to_the_cell_of_its_position() {
    let mut world = World::new(10, 10);
    let p = at(5_500_000_000, 2_250_000_000);
    world.add_particle(p);
    assert_eq!(world.cell(5, 2), &vec![p]);
    let q = at(5_999_999_999, 2_000_000_000);
    world.add_particle(q);
    assert_eq!(world.cell(5, 2), &vec![p, q]);
    assert_eq!(world.particles().len(), 2);
}

#[test]
fn add_particle_clamps_positions_outside_the_world() {
    let mut world = World::new(10, 8);
    let far = at(25 * UNIT, -4 * UNIT);
    let corner = at(-1, 8 * UNIT);
    world.add_particle(far);
    world.add_particle(corner);
    assert_eq!(world.cell(9, 0), &vec![far]);
    assert_eq!(world.cell(0, 7), &vec![corner]);
}

#[test]
fn insert_appends_to_the_cell() {
    let mut cells: Vec<Vec<Vec<Particle>>> = vec![vec![Vec::new(); 2]; 3];
    insert(&mut cells, at(2 * UNIT + 1, 1 * UNIT + 1));
    insert(&mut cells, at(2 * UNIT + 2, 1 * UNIT + 2));
    insert(&mut cells, at(0, 0));
    assert_eq!(cells[2][1], vec![at(2 * UNIT + 1, 1 * UNIT + 1), at(2 * UNIT + 2, 1 * UNIT + 2)]);
    assert_eq!(cells[0][0], vec![at(0, 0)]);
    assert!(cells[1][0].is_empty());
}

#[test]
fn particles_lists_columns_then_cells() {
    let mut world = World::new(3, 3);
    let a = at(2 * UNIT, 0);
    let b = at(0, 2 * UNIT);
    let c = at(0, 1 * UNIT);
    let d = at(0, 2 * UNIT + 9);
    world.add_particle(a);
    world.add_particle(b);
    world.add_particle(c);
    world.add_particle(d);
    assert_eq!(world.particles(), vec![c, b, d, a]);
}

#[test]
fn single_particle_short_tick() {
    let mut world = World::new(10, 10);
    world.add_particle(at(5_500_000_000, 5_500_000_000));
    // a sub-step of a hundred-thousandth of a time unit: ten microseconds
    tick(&mut world, 10);
    let cell = world.cell(5, 5);
    assert_eq!(cell.len(), 1);
    let p = cell[0];
    assert_eq!(p.x, 5_500_000_000);
    // four steps more in every sub-step: 4 * (1 + 2 + ... + 10)
    assert_eq!(p.y, 5_500_000_000 + 220);
    assert_eq!(p.py, 5_500_000_000 + 220 - 40);
    assert_eq!((p.ax, p.ay), (0, 0));
    assert_eq!(world.particles().len(), 1);
}

#[test]
fn particle_falls_to_the_floor() {
    let mut world = World::new(10, 10);
    world.add_particle(at(5 * UNIT, 0));
    let mut shown: i64 = 0;
    for _ in 0..500 {
        tick(&mut world, 5000);
        let all = world.particles();
        assert_eq!(all.len(), 1);
        let p = all[0];
        // what the boundary stage left is never below the floor
        assert!(0 <= p.py && p.py <= 9 * UNIT);
        assert_eq!(p.x, 5 * UNIT);
        let now = p.y.min(9 * UNIT);
        assert!(now >= shown);
        shown = now;
        assert_eq!(world.cell(5, cell_of(p.y, 10)).len(), 1);
    }
    let p = world.cell(5, 9)[0];
    assert_eq!(p.py, 9 * UNIT);
    assert_eq!(p.y as i128, 9 * UNIT as i128 + drift_of(GRAVITY_Y, 5000));
}

#[test]
fn overlapping_pair_moves_apart() {
    let mut world = World::new(10, 10);
    let a = at(5 * UNIT, 5 * UNIT);
    let b = at(5_400_000_000, 5 * UNIT);
    world.add_particle(a);
    world.add_particle(b);
    tick(&mut world, 1000);
    let all = world.particles();
    assert_eq!(all.len(), 2);
    assert!(gap_sq(&all[0], &all[1]) > gap_sq(&a, &b));
    // the resolver has left no more than half of the trigger distance missing
    assert!(2 * gap_sq(&all[0], &all[1]) >= MIN_DIST_SQ as i128);
    assert!(all[0].x < a.x);
    assert!(all[1].x > b.x);
    assert_eq!(all[0].y, all[1].y);
}

#[test]
fn coincident_pair_is_left_together() {
    let mut world = World::new(10, 10);
    let a = at(5 * UNIT, 5 * UNIT);
    world.add_particle(a);
    world.add_particle(a);
    tick(&mut world, 5000);
    let all = world.particles();
    assert_eq!(all.len(), 2);
    assert_eq!(all[0], all[1]);
    assert_eq!(all[0].x, 5 * UNIT);
    assert_eq!(all[0].y as i128, 5 * UNIT as i128 + 55 * drift_of(GRAVITY_Y, 5000));
}

#[test]
fn tick_keeps_buckets_coherent() {
    let mut world = crowd(12, 9, 400);
    assert_coherent(&world);
    for round in 0..20 {
        tick(&mut world, 500 + 450 * round);
        assert_coherent(&world);
    }
}

#[test]
fn tick_conserves_the_population() {
    let mut world = crowd(12, 9, 400);
    assert_eq!(world.particles().len(), 400);
    for round in 0..20 {
        tick(&mut world, 9999 - 300 * round);
        assert_eq!(world.particles().len(), 400);
    }
}

#[test]
fn tick_resets_acceleration_and_remembers_contained_positions() {
    let mut world = crowd(12, 9, 300);
    world.add_particle(Particle::new(3 * UNIT, 3 * UNIT, 77, -88, RED));
    world.add_particle(Particle::new(-30 * UNIT, 90 * UNIT, 0, 0, RED));
    for _ in 0..10 {
        tick(&mut world, 7000);
        for p in world.particles() {
            assert_eq!((p.ax, p.ay), (0, 0));
            assert!(0 <= p.px && p.px <= 11 * UNIT);
            assert!(0 <= p.py && p.py <= 8 * UNIT);
        }
    }
}

#[test]
fn tick_can_leave_a_particle_beyond_the_wall() {
    // The walls hold a particle before it moves, so one that rests on the
    // floor ends the tick below it, by what gravity adds in a sub-step.
    let mut world = World::new(10, 10);
    world.add_particle(at(5 * UNIT, 9 * UNIT));
    tick(&mut world, 5000);
    let q = world.cell(5, 9)[0];
    assert_eq!(q.y, 9 * UNIT + 1_226_250);
    assert!(q.y > 9 * UNIT);
    assert_eq!(q.py, 9 * UNIT);
}

#[test]
fn tick_with_no_frame_time_counts_one_microsecond() {
    let mut a = crowd(8, 8, 50);
    let mut b = crowd(8, 8, 50);
    tick(&mut a, 0);
    tick(&mut b, 1);
    assert_eq!(a.particles(), b.particles());
}

#[test]
fn lone_particle_never_rises() {
    let mut world = World::new(6, 40);
    world.add_particle(at(3 * UNIT + 5, 0));
    let mut last: i64 = 0;
    let mut frame: u32 = 100;
    for _ in 0..300 {
        tick(&mut world, frame);
        frame = (frame * 7 + 13) % 10_000;
        let p = world.particles()[0];
        assert!(p.y >= p.py);
        let shown = p.y.min(39 * UNIT);
        assert!(shown >= last);
        last = shown;
    }
    assert_eq!(last, 39 * UNIT);
}

#[test]
fn tick_on_the_smallest_world() {
    let mut world = World::new(1, 1);
    world.add_particle(at(5, 5));
    world.add_particle(at(6, 5));
    tick(&mut world, 9000);
    let all = world.particles();
    assert_eq!(all.len(), 2);
    assert_eq!((all[0].px, all[0].py), (0, 0));
}

#[test]
fn relocate_puts_a_particle_behind_the_others_of_its_cell() {
    let a = at(1 * UNIT + 1, 1 * UNIT + 1);
    let b = at(1 * UNIT + 2, 1 * UNIT + 2);
    let c = at(3 * UNIT + 9, 2 * UNIT + 9);
    let mut world = World::new(4, 4);
    world.add_particle(a);
    world.add_particle(b);
    world.add_particle(c);
    world.relocate(1, 1, 0);
    assert_eq!(world.cell(1, 1), &vec![b, a]);
    assert_eq!(world.cell(3, 2), &vec![c]);
    world.relocate(3, 2, 0);
    assert_eq!(world.cell(3, 2), &vec![c]);
    assert_eq!(world.particles(), vec![b, a, c]);
}
