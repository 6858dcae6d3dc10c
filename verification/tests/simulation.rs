use std::f64::consts::PI;
use wave_2d::buffer::ArrBuffer;
use wave_2d::buffer::GeometryError;
use wave_2d::controlblock::ControlBlock;
use wave_2d::controlblock::SceneItem;
use wave_2d::driver::compute_next;
use wave_2d::driver::setup_tile;
use wave_2d::frame::publish_tile;
use wave_2d::geometry::compute_neighbors;
use wave_2d::geometry::global_edges;
use wave_2d::halo::outgoing_halos;
use wave_2d::halo::HaloInbox;
use wave_2d::halo::HaloMessage;
use wave_2d::halo::HaloOutcome;
use wave_2d::stencil::AbsorbInput;
use wave_2d::stencil::StencilInput;
use wave_2d::stimulus::trigger_stimuli;
use wave_2d::stimulus::Stimulus;
use wave_2d::stimulus::WaveInput;

const KAPPA: f64 = 0.2899999999999999;

fn kernel(i: StencilInput<f64>) -> f64 {
    i.alpha * (i.above + i.below + i.left + i.right - 4.0 * i.here) + 2.0 * i.here - i.before
}

fn absorb(a: AbsorbInput<f64>) -> f64 {
    a.inward + ((KAPPA - 1.0) / (KAPPA + 1.0)) * (a.inward_next - a.edge)
}

fn wave(w: WaveInput) -> f64 {
    w.amplitude as f64 * (2.0 * PI * w.tick as f64 / w.period as f64).sin()
}

fn block(n: usize, px: usize, py: usize, niters: usize, scene: Vec<SceneItem>) -> ControlBlock {
    ControlBlock {
        m: n,
        n,
        stats_freq: 0,
        plot_freq: 0,
        px,
        py,
        niters,
        scene,
        ignored: Vec::new(),
    }
}

/// Runs the whole simulation in one thread, tile after tile, and returns the
/// frame of every iteration.
fn run(cb: &ControlBlock) -> Vec<Vec<f64>> {
    assert_eq!(cb.check_geometry(), Ok(()));
    let tiles = cb.px * cb.py;
    let mut buffers: Vec<ArrBuffer<f64>> = Vec::new();
    let mut sources: Vec<Vec<Stimulus>> = Vec::new();
    for t in 0..tiles {
        match setup_tile(cb, t as i32, 0.0, 0.29 * 0.29) {
            Ok((buf, stimuli)) => {
                buffers.push(buf);
                sources.push(stimuli);
            }
            Err(e) => panic!("tile {} refused: {:?}", t, e),
        }
    }
    let mut frames = Vec::new();
    let mut frame = vec![0.0; cb.m * cb.n];
    for iter in 0..cb.niters {
        for t in 0..tiles {
            trigger_stimuli(&mut sources[t], &mut buffers[t], iter as i32, &wave);
        }
        if tiles != 1 {
            let mut boxes: Vec<Vec<HaloMessage<f64>>> = (0..tiles).map(|_| Vec::new()).collect();
            for t in 0..tiles {
                let (top, bottom, left, right) =
                    compute_neighbors(t as i32, cb.px as i32, cb.py as i32);
                for out in outgoing_halos(&buffers[t], top, bottom, left, right) {
                    boxes[out.dest].push(out.message);
                }
            }
            for t in 0..tiles {
                let (top, bottom, left, right) =
                    compute_neighbors(t as i32, cb.px as i32, cb.py as i32);
                let mut inbox = HaloInbox::new(top, bottom, left, right);
                for message in boxes[t].iter() {
                    assert!(inbox.pending());
                    assert_eq!(inbox.deliver(&mut buffers[t], message), HaloOutcome::Filled);
                }
                assert!(!inbox.pending());
            }
        }
        for t in 0..tiles {
            let edges = global_edges(t, cb.px, cb.py);
            compute_next(&mut buffers[t], edges, &kernel, &absorb);
            publish_tile(&buffers[t], &mut frame, cb.n);
        }
        frames.push(frame.clone());
        for t in 0..tiles {
            buffers[t].adv_buffers();
        }
    }
    frames
}

fn sine(start: i32, duration: i32, row: usize, col: usize, period: i32) -> SceneItem {
    SceneItem::Sine { start, duration, row, col, period }
}

#[test]
fn empty_scene_stays_zero() {
    let frames = run(&block(10, 1, 1, 1, Vec::new()));
    assert_eq!(frames.len(), 1);
    assert_eq!(frames[0], vec![0.0; 100]);
}

#[test]
fn single_source_samples() {
    let frames = run(&block(10, 1, 1, 3, vec![sine(0, 100, 5, 5, 4)]));
    assert_eq!(frames.len(), 3);
    assert_eq!(frames[0][5 * 10 + 5], 0.0);
    assert!((frames[1][5 * 10 + 5] - 10.0).abs() < 1e-12);
    assert!(frames[2][5 * 10 + 5].abs() < 1e-12);
    // Frame 0 is all zero: the first sample is sin 0.
    assert_eq!(frames[0], vec![0.0; 100]);
    // In frame 1 the source is the only cell that moved.
    for k in 0..100 {
        if k != 55 {
            assert_eq!(frames[1][k], 0.0);
        }
    }
}

#[test]
fn four_tiles_match_one_tile() {
    let scene = vec![sine(0, 100, 4, 4, 4)];
    let one = run(&block(8, 1, 1, 2, scene.clone()));
    let four = run(&block(8, 2, 2, 2, scene));
    assert_eq!(one.len(), 2);
    assert_eq!(four.len(), 2);
    for k in 0..2 {
        for cell in 0..64 {
            assert!((one[k][cell] - four[k][cell]).abs() <= 1e-12);
        }
    }
}

#[test]
fn tilings_agree_over_many_steps() {
    let scene = vec![
        sine(0, 30, 5, 6, 5),
        sine(3, 10, 0, 0, 7),
        SceneItem::RectObstacle { row: 7, col: 2, width: 3, height: 2 },
    ];
    let one = run(&block(12, 1, 1, 25, scene.clone()));
    for (px, py) in [(2, 2), (3, 2), (4, 1), (1, 5), (3, 4)] {
        let many = run(&block(12, px, py, 25, scene.clone()));
        for k in 0..25 {
            for cell in 0..144 {
                assert!(
                    (one[k][cell] - many[k][cell]).abs() <= 1e-9,
                    "{} by {} tiles, frame {}, cell {}: {} and {}",
                    px,
                    py,
                    k,
                    cell,
                    one[k][cell],
                    many[k][cell]
                );
            }
        }
    }
}

#[test]
fn obstacle_stays_still() {
    let scene = vec![
        SceneItem::RectObstacle { row: 2, col: 2, width: 2, height: 2 },
        sine(0, 100, 5, 5, 4),
    ];
    let cb = block(6, 1, 1, 5, scene);
    match setup_tile(&cb, 0, 0.0, 0.29 * 0.29) {
        Ok((buf, stimuli)) => {
            assert_eq!(stimuli.len(), 1);
            for r in 0..8usize {
                for c in 0..8usize {
                    let inside = (3..5).contains(&r) && (3..5).contains(&c);
                    assert_eq!(buf.alp_v(r, c), if inside { 0.0 } else { 0.29 * 0.29 });
                }
            }
        }
        Err(e) => panic!("refused: {:?}", e),
    }
    let frames = run(&cb);
    assert_eq!(frames.len(), 5);
    for frame in frames.iter() {
        for gr in 2..4 {
            for gc in 2..4 {
                assert_eq!(frame[gr * 6 + gc], 0.0);
            }
        }
    }
    assert!(frames[4].iter().any(|v| *v != 0.0));
}

#[test]
fn edges_absorb_within_ten_steps() {
    let frames = run(&block(20, 4, 1, 10, vec![sine(0, 100, 10, 10, 4)]));
    assert_eq!(frames.len(), 10);
    for frame in frames.iter() {
        for gr in 0..20 {
            assert!(frame[gr * 20].abs() < 10.0);
            assert!(frame[gr * 20 + 19].abs() < 10.0);
        }
        for v in frame.iter() {
            assert!(v.is_finite());
        }
    }
}

#[test]
fn wave_reaches_the_edges_and_stays_below_the_source() {
    let frames = run(&block(20, 4, 1, 30, vec![sine(0, 100, 10, 10, 4)]));
    let mut reached_left = false;
    let mut reached_right = false;
    for frame in frames.iter() {
        for gr in 0..20 {
            assert!(frame[gr * 20].abs() < 10.0);
            assert!(frame[gr * 20 + 19].abs() < 10.0);
            reached_left = reached_left || frame[gr * 20] != 0.0;
            reached_right = reached_right || frame[gr * 20 + 19] != 0.0;
        }
    }
    assert!(reached_left && reached_right);
    // One cell a step: the right edge, nine cells away, is still at rest in frame 9.
    for gr in 0..20 {
        assert_eq!(frames[9][gr * 20 + 19], 0.0);
    }
    assert!(frames[10][10 * 20 + 19] != 0.0);
}

#[test]
fn setup_makes_sources_in_scene_order() {
    let scene = vec![
        sine(1, 2, 3, 4, 5),
        SceneItem::RectObstacle { row: 0, col: 0, width: 1, height: 1 },
        sine(6, 7, 8, 9, 10),
    ];
    match setup_tile::<f64>(&block(10, 1, 1, 1, scene), 0, 0.0, 1.0) {
        Ok((buf, stimuli)) => {
            assert_eq!(stimuli.len(), 2);
            assert_eq!(
                (stimuli[0].start_time(), stimuli[0].duration(), stimuli[0].row(), stimuli[0].col(), stimuli[0].period()),
                (1, 2, 3, 4, 5)
            );
            assert_eq!((stimuli[1].start_time(), stimuli[1].period()), (6, 10));
            assert_eq!((stimuli[0].tick(), stimuli[0].amplitude()), (0, 10));
            assert_eq!(buf.alp_v(1, 1), 0.0);
            assert_eq!(buf.alp_v(1, 2), 1.0);
            assert_eq!(buf.cur_v(1, 1), 0.0);
        }
        Err(e) => panic!("refused: {:?}", e),
    }
}

#[test]
fn setup_refuses_what_the_tile_refuses() {
    match setup_tile::<f64>(&block(10, 2, 2, 1, Vec::new()), 4, 0.0, 1.0) {
        Ok(_) => panic!("accepted"),
        Err(e) => assert_eq!(e, GeometryError::NoSuchTile),
    }
    match setup_tile::<f64>(&block(10, 0, 2, 1, Vec::new()), 0, 0.0, 1.0) {
        Ok(_) => panic!("accepted"),
        Err(e) => assert_eq!(e, GeometryError::NoTiles),
    }
}
