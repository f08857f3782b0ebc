use particle_life::brush::{brush, jitter_of, reach_of};
use particle_life::color::{hsv_to_rgb, FULL_TURN, SECTOR};
use particle_life::display::{snapshot, whole_of, Pixel};
use particle_life::driver::{hue_of, Event, Frame, Sandbox, STALL_MICROS};
use particle_life::particle::Particle;
use particle_life::simulation::tick;
use particle_life::units::UNIT;
use particle_life::world::World;

fn idle() -> Frame {
    Frame {
        event: None,
        pointer_x: 0,
        pointer_y: 0,
        pressed: false,
        clock_ms: 0,
        elapsed_micros: 1000,
        rolls: [0; 50],
    }
}

fn rolls() -> [u32; 50] {
    let mut r = [0u32; 50];
    let mut seed: u32 = 0x9e37_79b9;
    for slot in r.iter_mut() {
        seed ^= seed << 13;
        seed ^= seed >> 17;
        seed ^= seed << 5;
        *slot = seed;
    }
    r
}

#[test]
fn hue_zero_is_red() {
    assert_eq!(hsv_to_rgb(0, UNIT, UNIT), (255, 0, 0));
}

#[test]
fn hue_120_is_green() {
    assert_eq!(hsv_to_rgb(120 * UNIT, UNIT, UNIT), (0, 255, 0));
}

#[test]
fn hue_240_is_blue() {
    assert_eq!(hsv_to_rgb(240 * UNIT, UNIT, UNIT), (0, 0, 255));
}

#[test]
fn hsv_without_saturation_is_grey() {
    assert_eq!(hsv_to_rgb(77 * UNIT, 0, UNIT), (255, 255, 255));
    assert_eq!(hsv_to_rgb(77 * UNIT, 0, 0), (0, 0, 0));
    assert_eq!(hsv_to_rgb(-5 * UNIT, 0, UNIT / 2), (127, 127, 127));
    assert_eq!(hsv_to_rgb(300 * UNIT, 0, 200_000_000), (51, 51, 51));
}

#[test]
fn hsv_walks_the_six_sectors() {
    assert_eq!(hsv_to_rgb(30 * UNIT, UNIT, UNIT), (255, 127, 0));
    assert_eq!(hsv_to_rgb(60 * UNIT, UNIT, UNIT), (255, 255, 0));
    assert_eq!(hsv_to_rgb(90 * UNIT, UNIT, UNIT), (127, 255, 0));
    assert_eq!(hsv_to_rgb(150 * UNIT, UNIT, UNIT), (0, 255, 127));
    assert_eq!(hsv_to_rgb(180 * UNIT, UNIT, UNIT), (0, 255, 255));
    assert_eq!(hsv_to_rgb(210 * UNIT, UNIT, UNIT), (0, 127, 255));
    assert_eq!(hsv_to_rgb(270 * UNIT, UNIT, UNIT), (127, 0, 255));
    assert_eq!(hsv_to_rgb(300 * UNIT, UNIT, UNIT), (255, 0, 255));
    assert_eq!(hsv_to_rgb(330 * UNIT, UNIT, UNIT), (255, 0, 127));
    assert_eq!(hsv_to_rgb(FULL_TURN - 1, UNIT, UNIT), (255, 0, 0));
    assert_eq!(SECTOR * 6, FULL_TURN);
}

#[test]
fn hsv_scales_with_saturation_and_value() {
    // half saturation, hue 0: red at the value, the others half way up
    assert_eq!(hsv_to_rgb(0, UNIT / 2, UNIT), (255, 127, 127));
    // half value
    assert_eq!(hsv_to_rgb(120 * UNIT, UNIT, UNIT / 2), (0, 127, 0));
    // hue 45, saturation 0.8, value 0.6: 153, 0.6 * (1 - 0.8 * 0.25) * 255 = 122.4, 0.6 * 0.2 * 255 = 30.6
    assert_eq!(hsv_to_rgb(45 * UNIT, 800_000_000, 600_000_000), (153, 122, 30));
    // hue 200: sector 3, a third of the way: green falls, 0.6 * (1 - 0.8 / 3) * 255 = 112.2
    assert_eq!(hsv_to_rgb(200 * UNIT, 800_000_000, 600_000_000), (30, 112, 153));
}

#[test]
fn hsv_ignores_whole_turns() {
    let mut h: i64 = -725 * UNIT;
    while h < 725 * UNIT {
        let folded = h.rem_euclid(FULL_TURN);
        let base = hsv_to_rgb(folded, UNIT, UNIT);
        assert_eq!(hsv_to_rgb(h, UNIT, UNIT), base);
        for k in [-3i64, -1, 1, 2, 1000] {
            assert_eq!(hsv_to_rgb(h + k * FULL_TURN, UNIT, UNIT), base);
            assert_eq!(
                hsv_to_rgb(h + k * FULL_TURN, 700_000_000, 300_000_000),
                hsv_to_rgb(folded, 700_000_000, 300_000_000)
            );
        }
        h += 7_300_000_001;
    }
    assert_eq!(hsv_to_rgb(FULL_TURN, UNIT, UNIT), (255, 0, 0));
    assert_eq!(hsv_to_rgb(i64::MIN, UNIT, UNIT), hsv_to_rgb(i64::MIN.rem_euclid(FULL_TURN), UNIT, UNIT));
}

#[test]
fn hue_turns_one_degree_in_fifty_milliseconds() {
    assert_eq!(hue_of(0), 0);
    assert_eq!(hue_of(50), UNIT);
    assert_eq!(hue_of(25), UNIT / 2);
    assert_eq!(hue_of(1), 20_000_000);
    assert_eq!(hue_of(17_999), FULL_TURN - 20_000_000);
    assert_eq!(hue_of(18_000), 0);
    assert_eq!(hue_of(18_000 * 1_000_000 + 6_000), 120 * UNIT);
    assert!(hue_of(u64::MAX) < FULL_TURN);
}

#[test]
fn jitter_is_a_fraction_of_a_cell() {
    assert_eq!(jitter_of(0), 0);
    assert_eq!(jitter_of(1 << 31), UNIT / 2);
    assert_eq!(jitter_of(1 << 30), UNIT / 4);
    assert_eq!(jitter_of(u32::MAX), UNIT - 1);
    assert_eq!(jitter_of(1), 0);
    assert_eq!(jitter_of(5), 1);
}

#[test]
fn reach_is_cut_at_the_edges() {
    assert_eq!(reach_of(100, 200), (98, 5));
    assert_eq!(reach_of(0, 200), (0, 3));
    assert_eq!(reach_of(1, 200), (0, 4));
    assert_eq!(reach_of(199, 200), (197, 3));
    assert_eq!(reach_of(201, 200), (199, 1));
    assert_eq!(reach_of(202, 200).1, 0);
    assert_eq!(reach_of(-2, 200), (0, 1));
    assert_eq!(reach_of(-3, 200).1, 0);
    assert_eq!(reach_of(i32::MAX, 200).1, 0);
    assert_eq!(reach_of(i32::MIN, 200).1, 0);
    assert_eq!(reach_of(0, 1), (0, 1));
    assert_eq!(reach_of(i32::MAX, usize::MAX), (i32::MAX as i64 - 2, 5));
}

#[test]
fn brush_fills_the_square_column_by_column() {
    let mut world = World::new(200, 200);
    let r = rolls();
    brush(&mut world, 100, 100, &r, (9, 8, 7));
    let all = world.particles();
    assert_eq!(all.len(), 25);
    for (n, p) in all.iter().enumerate() {
        let x = 98 + (n / 5) as i64;
        let y = 98 + (n % 5) as i64;
        assert_eq!(p.x, x * UNIT + jitter_of(r[2 * n]));
        assert_eq!(p.y, y * UNIT + jitter_of(r[2 * n + 1]));
        assert_eq!((p.px, p.py), (p.x, p.y));
        assert_eq!((p.ax, p.ay), (0, 0));
        assert_eq!(p.color, (9, 8, 7));
        assert_eq!(world.cell(x as usize, y as usize), &vec![*p]);
    }
}

#[test]
fn brush_at_the_corner_is_cut() {
    let mut world = World::new(10, 10);
    brush(&mut world, 0, 9, &[0; 50], (1, 1, 1));
    assert_eq!(world.particles().len(), 9);
    for i in 0..10 {
        for j in 0..10 {
            let inside = i <= 2 && j >= 7;
            assert_eq!(world.cell(i, j).len(), if inside { 1 } else { 0 });
        }
    }
    let mut far = World::new(10, 10);
    brush(&mut far, 12, 5, &[0; 50], (1, 1, 1));
    assert_eq!(far.particles().len(), 0);
    brush(&mut far, 11, -1, &[0; 50], (1, 1, 1));
    assert_eq!(far.particles().len(), 2);
    assert_eq!(far.cell(9, 0).len(), 1);
    assert_eq!(far.cell(9, 1).len(), 1);
}

#[test]
fn whole_rounds_down() {
    assert_eq!(whole_of(0), 0);
    assert_eq!(whole_of(UNIT - 1), 0);
    assert_eq!(whole_of(5_500_000_000), 5);
    assert_eq!(whole_of(-1), -1);
    assert_eq!(whole_of(-UNIT), -1);
    assert_eq!(whole_of(-UNIT - 1), -2);
    assert_eq!(whole_of(i64::MAX), i32::MAX);
    assert_eq!(whole_of(i64::MIN), i32::MIN);
}

#[test]
fn snapshot_has_a_pixel_for_each_particle() {
    let mut world = World::new(10, 10);
    world.add_particle(Particle::new(5_500_000_000, 2_999_999_999, 0, 0, (1, 2, 3)));
    world.add_particle(Particle::new(0, 9 * UNIT, 0, 0, (4, 5, 6)));
    world.add_particle(Particle::new(12 * UNIT, -1, 0, 0, (7, 8, 9)));
    let before = world.particles();
    let pixels = snapshot(&world);
    assert_eq!(
        pixels,
        vec![
            Pixel { x: 0, y: 9, color: (4, 5, 6) },
            Pixel { x: 5, y: 2, color: (1, 2, 3) },
            Pixel { x: 12, y: -1, color: (7, 8, 9) },
        ]
    );
    assert_eq!(world.particles(), before);
}

#[test]
fn brush_for_one_frame() {
    let mut sandbox = Sandbox::new(200, 200);
    let mut frame = idle();
    frame.pointer_x = 100;
    frame.pointer_y = 100;
    frame.pressed = true;
    frame.rolls = rolls();
    frame.clock_ms = 6_000;
    assert!(sandbox.frame(&frame));
    let all = sandbox.world.particles();
    assert_eq!(all.len(), 25);
    for p in &all {
        assert_eq!(p.color, all[0].color);
        assert_eq!((p.ax, p.ay), (0, 0));
        // the tick has moved them, falling and making room for each other,
        // but each is in the cell of its position
        let i = (p.x / UNIT) as usize;
        let j = (p.y / UNIT) as usize;
        assert!(sandbox.world.cell(i, j).contains(p));
    }
    assert_eq!(all[0].color, (0, 255, 0));
    // the same frame without the tick leaves them where the brush put them
    let mut still = Sandbox::new(200, 200);
    frame.elapsed_micros = STALL_MICROS;
    assert!(still.frame(&frame));
    let put = still.world.particles();
    assert_eq!(put.len(), 25);
    for p in &put {
        assert!(98 * UNIT <= p.x && p.x < 103 * UNIT);
        assert!(98 * UNIT <= p.y && p.y < 103 * UNIT);
        assert_eq!(p.color, (0, 255, 0));
    }
    for i in 98..=102 {
        for j in 98..=102 {
            assert_eq!(still.world.cell(i, j).len(), 1);
        }
    }
}

#[test]
fn frame_brushes_before_it_ticks() {
    let mut sandbox = Sandbox::new(50, 50);
    let mut frame = idle();
    frame.pointer_x = 20;
    frame.pointer_y = 30;
    frame.pressed = true;
    frame.rolls = rolls();
    frame.clock_ms = 123_456;
    frame.elapsed_micros = 4_000;
    assert!(sandbox.frame(&frame));
    let mut world = World::new(50, 50);
    brush(&mut world, 20, 30, &frame.rolls, hsv_to_rgb(hue_of(123_456), UNIT, UNIT));
    tick(&mut world, 4_000);
    assert_eq!(sandbox.world.particles(), world.particles());
    assert!(!sandbox.paused);
}

#[test]
fn frame_skips_the_tick_after_a_stall() {
    assert_eq!(STALL_MICROS, 10_000);
    let mut sandbox = Sandbox::new(10, 10);
    let p = Particle::new(5 * UNIT, 5 * UNIT, 0, 0, (1, 1, 1));
    sandbox.world.add_particle(p);
    let mut frame = idle();
    frame.elapsed_micros = 10_000;
    assert!(sandbox.frame(&frame));
    assert_eq!(sandbox.world.particles(), vec![p]);
    frame.elapsed_micros = u64::MAX;
    assert!(sandbox.frame(&frame));
    assert_eq!(sandbox.world.particles(), vec![p]);
    frame.elapsed_micros = 9_999;
    assert!(sandbox.frame(&frame));
    let mut world = World::new(10, 10);
    world.add_particle(p);
    tick(&mut world, 9_999);
    assert_eq!(sandbox.world.particles(), world.particles());
    assert_ne!(sandbox.world.particles(), vec![p]);
}

#[test]
fn frame_toggles_pause() {
    let mut sandbox = Sandbox::new(10, 10);
    let p = Particle::new(5 * UNIT, 5 * UNIT, 0, 0, (1, 1, 1));
    sandbox.world.add_particle(p);
    let mut toggle = idle();
    toggle.event = Some(Event::TogglePause);
    toggle.pressed = true;
    toggle.pointer_x = 3;
    toggle.pointer_y = 3;
    assert!(sandbox.frame(&toggle));
    assert!(sandbox.paused);
    assert_eq!(sandbox.world.particles(), vec![p]);
    let mut held = idle();
    held.pressed = true;
    assert!(sandbox.frame(&held));
    assert!(sandbox.paused);
    assert_eq!(sandbox.world.particles(), vec![p]);
    toggle.pressed = false;
    assert!(sandbox.frame(&toggle));
    assert!(!sandbox.paused);
    assert_ne!(sandbox.world.particles(), vec![p]);
    assert_eq!(sandbox.world.particles().len(), 1);
}

#[test]
fn frame_quits_without_a_change() {
    let mut sandbox = Sandbox::new(10, 10);
    let p = Particle::new(5 * UNIT, 5 * UNIT, 0, 0, (1, 1, 1));
    sandbox.world.add_particle(p);
    let mut quit = idle();
    quit.event = Some(Event::Quit);
    quit.pressed = true;
    assert!(!sandbox.frame(&quit));
    assert!(!sandbox.paused);
    assert_eq!(sandbox.world.particles(), vec![p]);
    sandbox.paused = true;
    assert!(!sandbox.frame(&quit));
    assert!(sandbox.paused);
}

#[test]
fn frame_without_the_brush_keeps_the_population() {
    let mut sandbox = Sandbox::new(20, 20);
    let mut frame = idle();
    frame.pointer_x = 10;
    frame.pointer_y = 10;
    frame.pressed = true;
    frame.rolls = rolls();
    assert!(sandbox.frame(&frame));
    assert_eq!(sandbox.world.particles().len(), 25);
    frame.pointer_x = 0;
    assert!(sandbox.frame(&frame));
    assert_eq!(sandbox.world.particles().len(), 25 + 15);
    frame.pressed = false;
    for micros in [1u64, 500, 9_999, 10_000, 3_000] {
        frame.elapsed_micros = micros;
        assert!(sandbox.frame(&frame));
        assert_eq!(sandbox.world.particles().len(), 40);
    }
}

#[test]
fn hsv_holds_channels_to_a_byte() {
    // a value above one is brighter than a byte can say
    assert_eq!(hsv_to_rgb(0, 0, 2 * UNIT), (255, 255, 255));
    assert_eq!(hsv_to_rgb(0, 0, -UNIT), (0, 0, 0));
    assert_eq!(hsv_to_rgb(0, UNIT, i64::MAX), (255, 0, 0));
    // hue 30, saturation two: green is 1 - 2 * 0.5, blue is 1 - 2
    assert_eq!(hsv_to_rgb(30 * UNIT, 2 * UNIT, UNIT), (255, 0, 0));
    // saturation one half: green is 1 - 0.5 * 0.5, blue 1 - 0.5
    assert_eq!(hsv_to_rgb(30 * UNIT, UNIT / 2, UNIT), (255, 191, 127));
    // value minus one and saturation two: red -1, green and blue -1 * (1 - 2)
    assert_eq!(hsv_to_rgb(0, 2 * UNIT, -UNIT), (0, 255, 255));
    // negative saturation lifts the low channels above the value
    assert_eq!(hsv_to_rgb(0, -UNIT, UNIT / 2), (127, 255, 255));
    assert_eq!(hsv_to_rgb(i64::MIN, i64::MIN, i64::MIN), hsv_to_rgb(i64::MIN, i64::MIN, i64::MIN));
    assert_eq!(hsv_to_rgb(i64::MAX, i64::MAX, i64::MAX).0, 255);
    assert_eq!(hsv_to_rgb(90 * UNIT, i64::MAX, 1), (0, 0, 0));
}
