use wave_2d::buffer::ArrBuffer;
use wave_2d::controlblock::ControlBlock;
use wave_2d::obstacle::clear_alpha_region;

const KAPPA_SQ: f64 = 0.29 * 0.29;

fn tile(m: usize, n: usize, px: usize, py: usize, t: i32) -> ArrBuffer<f64> {
    let cb = ControlBlock {
        m,
        n,
        stats_freq: 0,
        plot_freq: 0,
        px,
        py,
        niters: 1,
        scene: Vec::new(),
        ignored: Vec::new(),
    };
    match ArrBuffer::new(&cb, t, 0.0, KAPPA_SQ) {
        Ok(buf) => buf,
        Err(e) => panic!("refused: {:?}", e),
    }
}

fn alpha(buf: &ArrBuffer<f64>) -> Vec<Vec<f64>> {
    (0..buf.grid_m())
        .map(|r| (0..buf.grid_n()).map(|c| buf.alp_v(r, c)).collect())
        .collect()
}

#[test]
fn clears_exactly_the_rectangle() {
    let mut buf = tile(6, 6, 1, 1, 0);
    clear_alpha_region(&mut buf, 2, 2, 2, 2);
    for r in 0..8usize {
        for c in 0..8usize {
            let inside = (3..5).contains(&r) && (3..5).contains(&c);
            assert_eq!(buf.alp_v(r, c), if inside { 0.0 } else { KAPPA_SQ });
        }
    }
}

#[test]
fn width_is_columns_and_height_is_rows() {
    let mut buf = tile(6, 6, 1, 1, 0);
    clear_alpha_region(&mut buf, 1, 2, 3, 1);
    for r in 0..8usize {
        for c in 0..8usize {
            let inside = r == 2 && (3..6).contains(&c);
            assert_eq!(buf.alp_v(r, c), if inside { 0.0 } else { KAPPA_SQ });
        }
    }
}

#[test]
fn clearing_twice_equals_once() {
    let mut once = tile(7, 9, 1, 1, 0);
    let mut twice = tile(7, 9, 1, 1, 0);
    clear_alpha_region(&mut once, 1, 3, 4, 2);
    clear_alpha_region(&mut twice, 1, 3, 4, 2);
    clear_alpha_region(&mut twice, 1, 3, 4, 2);
    assert_eq!(alpha(&once), alpha(&twice));
}

#[test]
fn coefficients_stay_two_valued() {
    let mut buf = tile(9, 9, 1, 1, 0);
    clear_alpha_region(&mut buf, 0, 0, 3, 3);
    clear_alpha_region(&mut buf, 2, 2, 4, 4);
    clear_alpha_region(&mut buf, 8, 8, 5, 5);
    for row in alpha(&buf) {
        for a in row {
            assert!(a == 0.0 || a == KAPPA_SQ);
        }
    }
}

#[test]
fn ghost_cells_keep_their_coefficient() {
    let mut buf = tile(4, 4, 1, 1, 0);
    clear_alpha_region(&mut buf, 0, 0, 100, 100);
    for r in 0..6usize {
        for c in 0..6usize {
            let interior = (1..5).contains(&r) && (1..5).contains(&c);
            assert_eq!(buf.alp_v(r, c), if interior { 0.0 } else { KAPPA_SQ });
        }
    }
}

#[test]
fn rectangle_is_cut_at_the_tile() {
    // Tile 3 of a 2 by 2 tiling of 8 by 8 holds rows 4..8 and columns 4..8.
    let mut buf = tile(8, 8, 2, 2, 3);
    clear_alpha_region(&mut buf, 3, 3, 3, 2);
    for r in 0..6usize {
        for c in 0..6usize {
            // Domain row 4, columns 4 and 5 are local row 1, columns 1 and 2.
            let inside = r == 1 && (c == 1 || c == 2);
            assert_eq!(buf.alp_v(r, c), if inside { 0.0 } else { KAPPA_SQ });
        }
    }
    let mut other = tile(8, 8, 2, 2, 0);
    clear_alpha_region(&mut other, 3, 3, 3, 2);
    for r in 0..6usize {
        for c in 0..6usize {
            let inside = r == 4 && c == 4;
            assert_eq!(other.alp_v(r, c), if inside { 0.0 } else { KAPPA_SQ });
        }
    }
}

#[test]
fn empty_and_far_rectangles_clear_nothing() {
    let mut buf = tile(4, 4, 1, 1, 0);
    let before = alpha(&buf);
    clear_alpha_region(&mut buf, 1, 1, 0, 3);
    clear_alpha_region(&mut buf, 1, 1, 3, 0);
    clear_alpha_region(&mut buf, 4, 0, 2, 2);
    clear_alpha_region(&mut buf, usize::MAX, usize::MAX, usize::MAX, usize::MAX);
    assert_eq!(alpha(&buf), before);
}

#[test]
fn huge_rectangle_does_not_overflow() {
    let mut buf = tile(4, 4, 1, 1, 0);
    clear_alpha_region(&mut buf, 2, 3, usize::MAX, usize::MAX);
    for r in 0..6usize {
        for c in 0..6usize {
            let inside = (3..5).contains(&r) && c == 4;
            assert_eq!(buf.alp_v(r, c), if inside { 0.0 } else { KAPPA_SQ });
        }
    }
}

#[test]
fn clearing_leaves_the_field() {
    let mut buf = tile(4, 4, 1, 1, 0);
    *buf.cur(2, 2).unwrap() = 3.0;
    clear_alpha_region(&mut buf, 0, 0, 4, 4);
    assert_eq!(buf.cur_v(2, 2), 3.0);
    assert_eq!(buf.prev_v(2, 2), 0.0);
}
