use buddhabrot::histogram::Histogram;

fn bump(h: &mut Histogram, x: usize, y: usize, times: u32) {
    for _ in 0..times {
        h.record(x, y);
    }
}

#[test]
fn new_grid_is_all_zero() {
    let h = Histogram::new(4, 3);
    assert_eq!(h.width(), 4);
    assert_eq!(h.height(), 3);
    assert_eq!(h.len(), 12);
    for y in 0..3 {
        for x in 0..4 {
            assert_eq!(h.cell(x, y), 0);
        }
    }
}

#[test]
fn record_bumps_exactly_one_cell() {
    let mut h = Histogram::new(4, 3);
    h.record(2, 1);
    for y in 0..3 {
        for x in 0..4 {
            let expected: u16 = if (x, y) == (2, 1) { 1 } else { 0 };
            assert_eq!(h.cell(x, y), expected);
        }
    }
    assert_eq!(h.counter(2 + 1 * 4), 1);
}

#[test]
fn record_out_of_frame_is_dropped() {
    let mut h = Histogram::new(4, 3);
    h.record(4, 0);
    h.record(0, 3);
    h.record(usize::MAX, usize::MAX);
    for i in 0..h.len() {
        assert_eq!(h.counter(i), 0);
    }
}

#[test]
fn counter_saturates_at_max_and_never_wraps() {
    let mut h = Histogram::new(1, 1);
    bump(&mut h, 0, 0, 65535);
    assert_eq!(h.cell(0, 0), u16::MAX);
    // Incrementing past the 16-bit maximum stays at the maximum.
    h.record(0, 0);
    assert_eq!(h.cell(0, 0), u16::MAX);
    bump(&mut h, 0, 0, 1000);
    assert_eq!(h.cell(0, 0), u16::MAX);
}

#[test]
fn merge_adds_elementwise() {
    let mut a = Histogram::new(2, 2);
    let mut b = Histogram::new(2, 2);
    bump(&mut a, 0, 0, 3);
    bump(&mut a, 1, 1, 7);
    bump(&mut b, 0, 0, 5);
    bump(&mut b, 0, 1, 2);
    a.merge(&b);
    assert_eq!(a.cell(0, 0), 8);
    assert_eq!(a.cell(1, 0), 0);
    assert_eq!(a.cell(0, 1), 2);
    assert_eq!(a.cell(1, 1), 7);
}

#[test]
fn merge_saturates() {
    let mut a = Histogram::new(1, 1);
    let mut b = Histogram::new(1, 1);
    bump(&mut a, 0, 0, 40000);
    bump(&mut b, 0, 0, 40000);
    a.merge(&b);
    assert_eq!(a.cell(0, 0), u16::MAX);
}

#[test]
fn merge_is_order_independent() {
    // Three 2x2 grids, one of them close to saturation, merged in three
    // different orders: the combined grid is identical each time.
    let mut parts: Vec<Histogram> = Vec::new();
    for seed in 0..3u32 {
        let mut h = Histogram::new(2, 2);
        bump(&mut h, 0, 0, 30000 + seed);
        bump(&mut h, 1, 0, 3 * seed + 1);
        bump(&mut h, 0, 1, 17 * seed);
        bump(&mut h, 1, 1, seed);
        parts.push(h);
    }
    let orders: [[usize; 3]; 3] = [[0, 1, 2], [2, 1, 0], [1, 2, 0]];
    let mut results: Vec<Histogram> = Vec::new();
    for order in orders.iter() {
        let mut sum = Histogram::new(2, 2);
        for &k in order.iter() {
            sum.merge(&parts[k]);
        }
        results.push(sum);
    }
    for i in 0..results[0].len() {
        assert_eq!(results[0].counter(i), results[1].counter(i));
        assert_eq!(results[0].counter(i), results[2].counter(i));
    }
    // The (0, 0) cell sums past the 16-bit maximum and clamps there.
    assert_eq!(results[0].cell(0, 0), u16::MAX);
}

#[test]
fn empty_grid_has_no_cells() {
    let h = Histogram::new(0, 7);
    assert_eq!(h.len(), 0);
    let g = Histogram::new(7, 0);
    assert_eq!(g.len(), 0);
}
