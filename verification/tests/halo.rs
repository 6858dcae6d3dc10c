use wave_2d::buffer::ArrBuffer;
use wave_2d::controlblock::ControlBlock;
use wave_2d::geometry::compute_neighbors;
use wave_2d::halo::exchange_ghost_cells;
use wave_2d::halo::outgoing_halos;
use wave_2d::halo::receive_halo;
use wave_2d::halo::HaloInbox;
use wave_2d::halo::HaloMessage;
use wave_2d::halo::HaloOutcome;
use wave_2d::halo::MAILBOX_CAPACITY;
use wave_2d::halo::TAG_BOTTOM;
use wave_2d::halo::TAG_LEFT;
use wave_2d::halo::TAG_RIGHT;
use wave_2d::halo::TAG_TOP;

fn tiles(m: usize, n: usize, px: usize, py: usize) -> Vec<ArrBuffer<f64>> {
    let cb = ControlBlock {
        m,
        n,
        stats_freq: 0,
        plot_freq: 0,
        px,
        py,
        niters: 1,
        scene: Vec::new(),
        ignored: Vec::new(),
    };
    let mut all = Vec::new();
    for t in 0..(px * py) as i32 {
        let mut buf = match ArrBuffer::new(&cb, t, 0.0, 0.25) {
            Ok(buf) => buf,
            Err(e) => panic!("refused: {:?}", e),
        };
        for r in 0..buf.grid_m() {
            for c in 0..buf.grid_n() {
                *buf.cur(r, c).unwrap() = (1000 * (t as usize + 1) + 10 * r + c) as f64;
            }
        }
        all.push(buf);
    }
    all
}

/// One exchange among all tiles; `reversed` delivers each mailbox backwards.
fn exchange(all: &mut Vec<ArrBuffer<f64>>, px: i32, py: i32, reversed: bool) {
    let mut boxes: Vec<Vec<HaloMessage<f64>>> = Vec::new();
    for _ in 0..all.len() {
        boxes.push(Vec::new());
    }
    for t in 0..all.len() {
        let (top, bottom, left, right) = compute_neighbors(t as i32, px, py);
        for out in outgoing_halos(&all[t], top, bottom, left, right) {
            boxes[out.dest].push(out.message);
        }
    }
    for t in 0..all.len() {
        let (top, bottom, left, right) = compute_neighbors(t as i32, px, py);
        let mut inbox = HaloInbox::new(top, bottom, left, right);
        let mut mail = std::mem::take(&mut boxes[t]);
        if reversed {
            mail.reverse();
        }
        assert_eq!(mail.len(), inbox.expected());
        for message in mail.iter() {
            assert!(inbox.pending());
            assert_eq!(inbox.deliver(&mut all[t], message), HaloOutcome::Filled);
        }
        assert!(!inbox.pending());
    }
}

#[test]
fn tags_and_capacity() {
    assert_eq!((TAG_TOP, TAG_BOTTOM, TAG_LEFT, TAG_RIGHT), (1, 2, 3, 4));
    assert_eq!(MAILBOX_CAPACITY, 4);
}

#[test]
fn single_tile_sends_nothing() {
    let all = tiles(4, 4, 1, 1);
    assert!(outgoing_halos(&all[0], -1, -1, -1, -1).is_empty());
    assert_eq!(HaloInbox::new(-1, -1, -1, -1).expected(), 0);
    assert!(!HaloInbox::new(-1, -1, -1, -1).pending());
}

#[test]
fn outgoing_rows_and_columns() {
    let all = tiles(3, 4, 1, 1);
    let buf = &all[0];
    let out = outgoing_halos(buf, 7, 8, 5, 6);
    assert_eq!(out.len(), 4);
    assert_eq!((out[0].dest, out[0].message.tag), (7, 1));
    assert_eq!((out[1].dest, out[1].message.tag), (8, 2));
    assert_eq!((out[2].dest, out[2].message.tag), (5, 3));
    assert_eq!((out[3].dest, out[3].message.tag), (6, 4));
    assert_eq!(out[0].message.data, buf.extract_row(1));
    assert_eq!(out[1].message.data, buf.extract_row(3));
    assert_eq!(out[2].message.data, buf.extract_col(1));
    assert_eq!(out[3].message.data, buf.extract_col(4));
    assert_eq!(out[0].message.data, vec![1010.0, 1011.0, 1012.0, 1013.0, 1014.0, 1015.0]);
    assert_eq!(out[3].message.data, vec![1004.0, 1014.0, 1024.0, 1034.0, 1044.0]);
}

#[test]
fn outgoing_skips_missing_neighbors() {
    let all = tiles(3, 4, 1, 1);
    let out = outgoing_halos(&all[0], -1, 2, -1, 1);
    assert_eq!(out.len(), 2);
    assert_eq!((out[0].dest, out[0].message.tag), (2, 2));
    assert_eq!((out[1].dest, out[1].message.tag), (1, 4));
}

#[test]
fn inbox_counts_the_neighbors() {
    assert_eq!(HaloInbox::new(0, 1, 2, 3).expected(), 4);
    assert_eq!(HaloInbox::new(-1, 1, -1, 3).expected(), 2);
    assert_eq!(HaloInbox::new(0, -1, -1, -1).expected(), 1);
    assert_eq!(HaloInbox::new(0, -1, -1, -1).received(), 0);
}

#[test]
fn tag_selects_the_ghost_slot() {
    let mut all = tiles(2, 3, 1, 1);
    let buf = &mut all[0];
    let row = vec![1.0, 2.0, 3.0, 4.0, 5.0];
    let col = vec![6.0, 7.0, 8.0, 9.0];
    assert_eq!(receive_halo(buf, &HaloMessage { tag: 1, data: row.clone() }), HaloOutcome::Filled);
    assert_eq!(buf.extract_row(3), row);
    assert_eq!(receive_halo(buf, &HaloMessage { tag: 2, data: row.clone() }), HaloOutcome::Filled);
    assert_eq!(buf.extract_row(0), row);
    assert_eq!(receive_halo(buf, &HaloMessage { tag: 3, data: col.clone() }), HaloOutcome::Filled);
    assert_eq!(buf.extract_col(4), col);
    assert_eq!(receive_halo(buf, &HaloMessage { tag: 4, data: col.clone() }), HaloOutcome::Filled);
    assert_eq!(buf.extract_col(0), col);
    // The interior is as it was.
    for r in 1..3 {
        for c in 1..4 {
            assert_eq!(buf.cur_v(r, c), (1000 + 10 * r + c) as f64);
        }
    }
}

#[test]
fn unknown_tag_is_dropped_and_counted() {
    let mut all = tiles(2, 3, 1, 1);
    let buf = &mut all[0];
    let before: Vec<Vec<f64>> = (0..4).map(|r| buf.extract_row(r)).collect();
    let mut inbox = HaloInbox::new(0, -1, -1, 5);
    assert_eq!(inbox.expected(), 2);
    let stray = HaloMessage { tag: 9, data: vec![1.0; 5] };
    assert_eq!(inbox.deliver(buf, &stray), HaloOutcome::UnknownTag);
    assert_eq!(inbox.received(), 1);
    assert!(inbox.pending());
    let zero = HaloMessage { tag: 0, data: vec![1.0; 5] };
    assert_eq!(inbox.deliver(buf, &zero), HaloOutcome::UnknownTag);
    assert_eq!(inbox.received(), 2);
    assert!(!inbox.pending());
    let after: Vec<Vec<f64>> = (0..4).map(|r| buf.extract_row(r)).collect();
    assert_eq!(before, after);
}

#[test]
fn wrong_length_is_dropped() {
    let mut all = tiles(2, 3, 1, 1);
    let buf = &mut all[0];
    let before: Vec<Vec<f64>> = (0..4).map(|r| buf.extract_row(r)).collect();
    assert_eq!(
        receive_halo(buf, &HaloMessage { tag: 1, data: vec![1.0; 4] }),
        HaloOutcome::BadLength
    );
    assert_eq!(
        receive_halo(buf, &HaloMessage { tag: 2, data: vec![1.0; 6] }),
        HaloOutcome::BadLength
    );
    assert_eq!(
        receive_halo(buf, &HaloMessage { tag: 3, data: vec![1.0; 5] }),
        HaloOutcome::BadLength
    );
    assert_eq!(receive_halo(buf, &HaloMessage { tag: 4, data: vec![] }), HaloOutcome::BadLength);
    let after: Vec<Vec<f64>> = (0..4).map(|r| buf.extract_row(r)).collect();
    assert_eq!(before, after);
}

fn check_reciprocity(all: &Vec<ArrBuffer<f64>>, px: i32, py: i32) {
    for t in 0..all.len() {
        let (top, bottom, left, right) = compute_neighbors(t as i32, px, py);
        let me = &all[t];
        let gm = me.grid_m();
        let gn = me.grid_n();
        if top >= 0 {
            let other = &all[top as usize];
            for c in 1..gn - 1 {
                assert_eq!(me.cur_v(0, c), other.cur_v(other.grid_m() - 2, c));
            }
        }
        if bottom >= 0 {
            let other = &all[bottom as usize];
            for c in 1..gn - 1 {
                assert_eq!(me.cur_v(gm - 1, c), other.cur_v(1, c));
            }
        }
        if left >= 0 {
            let other = &all[left as usize];
            for r in 1..gm - 1 {
                assert_eq!(me.cur_v(r, 0), other.cur_v(r, other.grid_n() - 2));
            }
        }
        if right >= 0 {
            let other = &all[right as usize];
            for r in 1..gm - 1 {
                assert_eq!(me.cur_v(r, gn - 1), other.cur_v(r, 1));
            }
        }
    }
}

#[test]
fn ghost_cells_equal_neighbor_interior() {
    let mut all = tiles(8, 8, 2, 2);
    exchange(&mut all, 2, 2, false);
    check_reciprocity(&all, 2, 2);
}

#[test]
fn arrival_order_does_not_matter_between_corners() {
    let mut forward = tiles(7, 10, 3, 2);
    let mut backward = tiles(7, 10, 3, 2);
    exchange(&mut forward, 3, 2, false);
    exchange(&mut backward, 3, 2, true);
    check_reciprocity(&forward, 3, 2);
    check_reciprocity(&backward, 3, 2);
    for t in 0..forward.len() {
        let gm = forward[t].grid_m();
        let gn = forward[t].grid_n();
        for r in 0..gm {
            for c in 0..gn {
                let corner = (r == 0 || r == gm - 1) && (c == 0 || c == gn - 1);
                if !corner {
                    assert_eq!(forward[t].cur_v(r, c), backward[t].cur_v(r, c));
                }
            }
        }
    }
}

#[test]
fn exchange_writes_ghost_cells_only() {
    let mut all = tiles(6, 6, 3, 3);
    exchange(&mut all, 3, 3, false);
    for t in 0..all.len() {
        for r in 1..all[t].grid_m() - 1 {
            for c in 1..all[t].grid_n() - 1 {
                assert_eq!(all[t].cur_v(r, c), (1000 * (t + 1) + 10 * r + c) as f64);
            }
        }
    }
}

#[test]
fn top_ghost_row_of_lower_tile_exact() {
    let mut all = tiles(4, 4, 1, 2);
    exchange(&mut all, 1, 2, false);
    // Tile 1 lies below tile 0, whose last interior row is row 2.
    assert_eq!(all[1].extract_row(0), vec![1020.0, 1021.0, 1022.0, 1023.0, 1024.0, 1025.0]);
    // Tile 0 gets the first interior row of tile 1 as its bottom ghost row.
    assert_eq!(all[0].extract_row(3), vec![2010.0, 2011.0, 2012.0, 2013.0, 2014.0, 2015.0]);
}

#[test]
fn exchange_sends_from_the_state_before_delivery() {
    let mut all = tiles(2, 3, 1, 1);
    let buf = &mut all[0];
    let row_before = buf.extract_row(1);
    let mailbox = vec![
        HaloMessage { tag: 4, data: vec![-1.0, -2.0, -3.0, -4.0] },
        HaloMessage { tag: 2, data: vec![5.0; 5] },
        HaloMessage { tag: 1, data: vec![6.0; 5] },
    ];
    let (out, inbox) = exchange_ghost_cells(buf, &mailbox, 7, -1, 3, -1);
    assert_eq!(out.len(), 2);
    assert_eq!((out[0].dest, out[0].message.tag), (7, 1));
    assert_eq!(out[0].message.data, row_before);
    assert_eq!((out[1].dest, out[1].message.tag), (3, 3));
    // Two neighbours: two messages are delivered, the third stays.
    assert_eq!((inbox.expected(), inbox.received()), (2, 2));
    assert!(!inbox.pending());
    // The row came after the column: their common corner holds the cell of the row.
    assert_eq!(buf.extract_col(0), vec![5.0, -2.0, -3.0, -4.0]);
    assert_eq!(buf.extract_row(0), vec![5.0; 5]);
    assert_eq!(buf.extract_row(3)[1], 1031.0);
}

#[test]
fn exchange_with_too_few_messages_stays_pending() {
    let mut all = tiles(2, 3, 1, 1);
    let buf = &mut all[0];
    let mailbox = vec![HaloMessage { tag: 9, data: vec![1.0] }];
    let (out, inbox) = exchange_ghost_cells(buf, &mailbox, 0, 1, 2, 3);
    assert_eq!(out.len(), 4);
    assert_eq!((inbox.expected(), inbox.received()), (4, 1));
    assert!(inbox.pending());
    let empty: Vec<HaloMessage<f64>> = Vec::new();
    let (out, inbox) = exchange_ghost_cells(buf, &empty, -1, -1, -1, -1);
    assert!(out.is_empty());
    assert_eq!((inbox.expected(), inbox.received()), (0, 0));
    assert!(!inbox.pending());
}
