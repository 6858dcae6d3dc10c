use wave_2d::buffer::ArrBuffer;
use wave_2d::buffer::GeometryError;
use wave_2d::controlblock::ControlBlock;

fn block(m: usize, n: usize, px: usize, py: usize) -> ControlBlock {
    ControlBlock {
        m,
        n,
        stats_freq: 0,
        plot_freq: 0,
        px,
        py,
        niters: 1,
        scene: Vec::new(),
        ignored: Vec::new(),
    }
}

fn tile(m: usize, n: usize, px: usize, py: usize, t: i32) -> ArrBuffer<f64> {
    match ArrBuffer::new(&block(m, n, px, py), t, 0.0, 0.29 * 0.29) {
        Ok(buf) => buf,
        Err(e) => panic!("tile {} refused: {:?}", t, e),
    }
}

fn refusal(m: usize, n: usize, px: usize, py: usize, t: i32) -> Option<GeometryError> {
    match ArrBuffer::new(&block(m, n, px, py), t, 0.0, 1.0) {
        Ok(_) => None,
        Err(e) => Some(e),
    }
}

#[test]
fn single_tile_geometry() {
    let buf = tile(10, 10, 1, 1, 0);
    assert_eq!(buf.t_id(), 0);
    assert_eq!(buf.m(), 10);
    assert_eq!(buf.n(), 10);
    assert_eq!(buf.grid_m(), 12);
    assert_eq!(buf.grid_n(), 12);
    assert_eq!(buf.start_row(), 0);
    assert_eq!(buf.start_col(), 0);
}

#[test]
fn remainder_goes_to_the_first_tiles() {
    // 10 columns over 3 tiles: 4, 3, 3. 7 rows over 2 tiles: 4, 3.
    let expected = [
        (0, 4, 4, 0, 0),
        (1, 4, 3, 0, 4),
        (2, 4, 3, 0, 7),
        (3, 3, 4, 4, 0),
        (4, 3, 3, 4, 4),
        (5, 3, 3, 4, 7),
    ];
    for (t, m, n, start_row, start_col) in expected {
        let buf = tile(7, 10, 3, 2, t);
        assert_eq!(buf.m(), m);
        assert_eq!(buf.n(), n);
        assert_eq!(buf.grid_m(), m + 2);
        assert_eq!(buf.grid_n(), n + 2);
        assert_eq!(buf.start_row(), start_row);
        assert_eq!(buf.start_col(), start_col);
    }
}

#[test]
fn start_row_sums_row_heights_when_tiles_are_side_by_side() {
    // 5 rows over 2 tile rows of a grid 3 tiles wide: heights 3 and 2.
    let buf = tile(5, 9, 3, 2, 4);
    assert_eq!(buf.m(), 2);
    assert_eq!(buf.start_row(), 3);
    assert_eq!(buf.start_col(), 3);
}

#[test]
fn tiles_partition_the_domain() {
    for (m, n, px, py) in [(7usize, 10usize, 3usize, 2usize), (8, 8, 2, 2), (5, 9, 4, 5), (20, 20, 4, 1)] {
        let mut owners = vec![0usize; m * n];
        for t in 0..(px * py) as i32 {
            let buf = tile(m, n, px, py, t);
            for gr in 0..m {
                for gc in 0..n {
                    if buf.check_bounds(gr, gc) {
                        owners[gr * n + gc] += 1;
                    }
                }
            }
            assert!(buf.start_row() + buf.m() <= m);
            assert!(buf.start_col() + buf.n() <= n);
        }
        assert!(owners.iter().all(|&count| count == 1));
    }
}

#[test]
fn new_tile_is_at_rest() {
    let buf = tile(4, 5, 1, 1, 0);
    for r in 0..buf.grid_m() {
        for c in 0..buf.grid_n() {
            assert_eq!(buf.prev_v(r, c), 0.0);
            assert_eq!(buf.cur_v(r, c), 0.0);
            assert_eq!(buf.nxt_v(r, c), 0.0);
            assert_eq!(buf.alp_v(r, c), 0.29 * 0.29);
        }
    }
}

#[test]
fn refuses_a_tiling_without_tiles() {
    assert_eq!(refusal(10, 10, 0, 1, 0), Some(GeometryError::NoTiles));
    assert_eq!(refusal(10, 10, 1, 0, 0), Some(GeometryError::NoTiles));
    assert_eq!(refusal(0, 0, 0, 0, 0), Some(GeometryError::NoTiles));
}

#[test]
fn refuses_an_empty_domain() {
    assert_eq!(refusal(0, 10, 1, 1, 0), Some(GeometryError::EmptyDomain));
    assert_eq!(refusal(10, 0, 1, 1, 0), Some(GeometryError::EmptyDomain));
}

#[test]
fn refuses_more_tiles_than_cells() {
    assert_eq!(refusal(3, 10, 1, 4, 0), Some(GeometryError::EmptyTile));
    assert_eq!(refusal(10, 3, 4, 1, 0), Some(GeometryError::EmptyTile));
}

#[test]
fn refuses_a_tile_outside_the_grid() {
    assert_eq!(refusal(10, 10, 2, 2, 4), Some(GeometryError::NoSuchTile));
    assert_eq!(refusal(10, 10, 2, 2, -1), Some(GeometryError::NoSuchTile));
    assert_eq!(refusal(10, 10, 2, 2, 3), None);
}

#[test]
fn refuses_a_tile_too_large_to_index() {
    assert_eq!(refusal(usize::MAX, usize::MAX, 1, 1, 0), Some(GeometryError::TooLarge));
    assert_eq!(refusal(usize::MAX / 2, usize::MAX / 2, 1, 1, 0), Some(GeometryError::TooLarge));
}

#[test]
fn offsets_start_in_order() {
    let buf = tile(3, 4, 1, 1, 0);
    let g = 5 * 6;
    assert_eq!(buf.prev_offset(), 0);
    assert_eq!(buf.curr_offset(), g);
    assert_eq!(buf.next_offset(), 2 * g);
}

#[test]
fn offsets_stay_a_permutation() {
    let mut buf = tile(3, 4, 1, 1, 0);
    let g = 5 * 6;
    for _ in 0..10 {
        buf.adv_buffers();
        let mut offsets = [buf.prev_offset(), buf.curr_offset(), buf.next_offset()];
        offsets.sort();
        assert_eq!(offsets, [0, g, 2 * g]);
    }
}

#[test]
fn three_rotations_come_back() {
    let mut buf = tile(3, 4, 1, 1, 0);
    let before = (buf.prev_offset(), buf.curr_offset(), buf.next_offset());
    buf.adv_buffers();
    assert_eq!(
        (buf.prev_offset(), buf.curr_offset(), buf.next_offset()),
        (before.1, before.2, before.0)
    );
    buf.adv_buffers();
    buf.adv_buffers();
    assert_eq!((buf.prev_offset(), buf.curr_offset(), buf.next_offset()), before);
}

#[test]
fn rotation_renames_the_planes() {
    let mut buf = tile(3, 3, 1, 1, 0);
    *buf.prev(1, 1).unwrap() = 1.0;
    *buf.cur(1, 1).unwrap() = 2.0;
    *buf.nxt(1, 1).unwrap() = 3.0;
    buf.adv_buffers();
    assert_eq!(buf.prev_v(1, 1), 2.0);
    assert_eq!(buf.cur_v(1, 1), 3.0);
    assert_eq!(buf.nxt_v(1, 1), 1.0);
}

#[test]
fn cell_access_is_by_plane() {
    let mut buf = tile(3, 4, 1, 1, 0);
    *buf.cur(2, 3).unwrap() = 7.5;
    assert_eq!(buf.cur_v(2, 3), 7.5);
    assert_eq!(buf.prev_v(2, 3), 0.0);
    assert_eq!(buf.nxt_v(2, 3), 0.0);
    assert_eq!(buf.cur_v(3, 2), 0.0);
    *buf.prev(0, 0).unwrap() = -1.0;
    *buf.nxt(4, 5).unwrap() = 9.0;
    assert_eq!(buf.prev_v(0, 0), -1.0);
    assert_eq!(buf.nxt_v(4, 5), 9.0);
    assert_eq!(buf.cur_v(0, 0), 0.0);
    assert_eq!(buf.cur_v(4, 5), 0.0);
}

#[test]
fn cell_outside_the_grid_is_none() {
    let mut buf = tile(3, 4, 1, 1, 0);
    assert!(buf.cur(5, 0).is_none());
    assert!(buf.cur(0, 6).is_none());
    assert!(buf.prev(5, 5).is_none());
    assert!(buf.nxt(usize::MAX, usize::MAX).is_none());
    // A column past the end of a row is no cell, though the slab has one there.
    assert!(buf.cur(0, 7).is_none());
    assert!(buf.cur(4, 5).is_some());
}

#[test]
fn check_bounds_is_the_interior_in_domain_cells() {
    let buf = tile(7, 10, 3, 2, 4);
    // Tile 4 holds rows 4..7 and columns 4..7.
    assert!(buf.check_bounds(4, 4));
    assert!(buf.check_bounds(6, 6));
    assert!(!buf.check_bounds(3, 4));
    assert!(!buf.check_bounds(7, 4));
    assert!(!buf.check_bounds(4, 3));
    assert!(!buf.check_bounds(4, 7));
    assert!(!buf.check_bounds(usize::MAX, usize::MAX));
}

#[test]
fn map_to_local_adds_the_ghost_ring() {
    let buf = tile(7, 10, 3, 2, 4);
    assert_eq!(buf.map_to_local(4, 4), (1, 1));
    assert_eq!(buf.map_to_local(6, 5), (3, 2));
    assert_eq!(buf.map_to_local(3, 4), (usize::MAX, usize::MAX));
    assert_eq!(buf.map_to_local(4, 7), (usize::MAX, usize::MAX));
    assert_eq!(buf.map_to_local(-1, 4), (usize::MAX, usize::MAX));
    assert_eq!(buf.map_to_local(4, -1), (usize::MAX, usize::MAX));
}

#[test]
fn rows_are_read_and_written_whole() {
    let mut buf = tile(2, 3, 1, 1, 0);
    buf.update_row(2, &[1.0, 2.0, 3.0, 4.0, 5.0]);
    assert_eq!(buf.extract_row(2), vec![1.0, 2.0, 3.0, 4.0, 5.0]);
    assert_eq!(buf.extract_row(1), vec![0.0; 5]);
    assert_eq!(buf.extract_row(3), vec![0.0; 5]);
    assert_eq!(buf.cur_v(2, 4), 5.0);
    assert_eq!(buf.prev_v(2, 4), 0.0);
    assert_eq!(buf.extract_row(0).len(), buf.grid_n());
}

#[test]
fn columns_are_read_and_written_whole() {
    let mut buf = tile(2, 3, 1, 1, 0);
    buf.update_col(4, &[1.0, 2.0, 3.0, 4.0]);
    assert_eq!(buf.extract_col(4), vec![1.0, 2.0, 3.0, 4.0]);
    assert_eq!(buf.extract_col(3), vec![0.0; 4]);
    assert_eq!(buf.extract_col(0), vec![0.0; 4]);
    assert_eq!(buf.cur_v(3, 4), 4.0);
    assert_eq!(buf.nxt_v(3, 4), 0.0);
    assert_eq!(buf.extract_col(0).len(), buf.grid_m());
}

#[test]
fn short_column_leaves_the_rows_below() {
    let mut buf = tile(2, 3, 1, 1, 0);
    buf.update_col(1, &[9.0, 9.0, 9.0, 9.0]);
    buf.update_col(1, &[1.0, 2.0]);
    assert_eq!(buf.extract_col(1), vec![1.0, 2.0, 9.0, 9.0]);
}

#[test]
fn rows_and_columns_follow_the_cur_plane() {
    let mut buf = tile(2, 2, 1, 1, 0);
    buf.update_row(1, &[1.0, 2.0, 3.0, 4.0]);
    buf.adv_buffers();
    assert_eq!(buf.extract_row(1), vec![0.0; 4]);
    assert_eq!(buf.prev_v(1, 2), 3.0);
}

#[test]
fn clear_alpha_sets_one_coefficient() {
    let mut buf = tile(2, 2, 1, 1, 0);
    buf.clear_alpha(1, 2);
    assert_eq!(buf.alp_v(1, 2), 0.0);
    assert_eq!(buf.alp_v(1, 1), 0.29 * 0.29);
    assert_eq!(buf.alp_v(2, 2), 0.29 * 0.29);
    assert_eq!(buf.cur_v(1, 2), 0.0);
}
