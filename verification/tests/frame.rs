use wave_2d::buffer::ArrBuffer;
use wave_2d::controlblock::ControlBlock;
use wave_2d::frame::publish_tile;

fn tiles(m: usize, n: usize, px: usize, py: usize) -> Vec<ArrBuffer<f64>> {
    let cb = ControlBlock {
        m,
        n,
        stats_freq: 0,
        plot_freq: 0,
        px,
        py,
        niters: 1,
        scene: Vec::new(),
        ignored: Vec::new(),
    };
    let mut all = Vec::new();
    for t in 0..(px * py) as i32 {
        let mut buf = match ArrBuffer::new(&cb, t, 0.0, 0.25) {
            Ok(buf) => buf,
            Err(e) => panic!("refused: {:?}", e),
        };
        for r in 0..buf.grid_m() {
            for c in 0..buf.grid_n() {
                *buf.cur(r, c).unwrap() = (1000 * (t as usize + 1) + 10 * r + c) as f64;
                *buf.prev(r, c).unwrap() = -7.0;
            }
        }
        all.push(buf);
    }
    all
}

#[test]
fn single_tile_publishes_its_interior() {
    let all = tiles(2, 3, 1, 1);
    let mut frame = vec![-1.0; 6];
    publish_tile(&all[0], &mut frame, 3);
    assert_eq!(frame, vec![1011.0, 1012.0, 1013.0, 1021.0, 1022.0, 1023.0]);
}

#[test]
fn tile_writes_its_own_cells_only() {
    let all = tiles(4, 4, 2, 2);
    let mut frame = vec![-1.0; 16];
    publish_tile(&all[3], &mut frame, 4);
    let mut want = vec![-1.0; 16];
    want[10] = 4011.0;
    want[11] = 4012.0;
    want[14] = 4021.0;
    want[15] = 4022.0;
    assert_eq!(frame, want);
}

#[test]
fn frame_cell_equals_cur_of_its_tile() {
    for (m, n, px, py) in [(8usize, 8usize, 2usize, 2usize), (7, 10, 3, 2), (5, 9, 4, 5), (20, 20, 4, 1)] {
        let all = tiles(m, n, px, py);
        let mut frame = vec![f64::NAN; m * n];
        for buf in all.iter().rev() {
            publish_tile(buf, &mut frame, n);
        }
        for gr in 0..m {
            for gc in 0..n {
                let owners: Vec<&ArrBuffer<f64>> =
                    all.iter().filter(|buf| buf.check_bounds(gr, gc)).collect();
                assert_eq!(owners.len(), 1);
                let (r, c) = owners[0].map_to_local(gr as i32, gc as i32);
                assert_eq!(frame[gr * n + gc], owners[0].cur_v(r, c));
            }
        }
    }
}

#[test]
fn frame_may_be_longer_than_the_domain() {
    let all = tiles(2, 2, 1, 1);
    let mut frame = vec![-1.0; 6];
    publish_tile(&all[0], &mut frame, 2);
    assert_eq!(frame, vec![1011.0, 1012.0, 1021.0, 1022.0, -1.0, -1.0]);
}
