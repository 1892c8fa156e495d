use manokeso::world::swap_buffer::{delta_cell, set_bit, SwapBuffer};
use rand::rngs::StdRng;
use rand::SeedableRng;

#[test]
fn from_arr_fills_both_halves() {
    let sb = SwapBuffer::from_arr(vec![1, 2, 3, 4], 2);
    assert_eq!(sb.r, vec![1, 2, 3, 4]);
    assert_eq!(sb.w, vec![1, 2, 3, 4]);
    assert_eq!(sb.width(), 2);
    assert_eq!(sb.read(), &vec![1, 2, 3, 4]);
}

#[test]
fn swap_exchanges_halves_and_twice_restores() {
    let mut sb = SwapBuffer::from_arr(vec![1u8, 2], 2);
    sb.w[0] = 7;
    sb.swap();
    assert_eq!(sb.r, vec![7, 2]);
    assert_eq!(sb.w, vec![1, 2]);
    sb.swap();
    assert_eq!(sb.r, vec![1, 2]);
    assert_eq!(sb.w, vec![7, 2]);
}

#[test]
fn swap_cell_exchanges_read_cells() {
    let mut sb = SwapBuffer::from_arr(vec![10, 20, 30], 3);
    sb.swap_cell(0, 2);
    assert_eq!(sb.r, vec![30, 20, 10]);
    assert_eq!(sb.w, vec![10, 20, 30]);
    sb.swap_cell(1, 1);
    assert_eq!(sb.r, vec![30, 20, 10]);
    sb.swap_cell(2, 0);
    assert_eq!(sb.r, vec![10, 20, 30]);
}

#[test]
fn set_bit_sets_one_bit() {
    assert_eq!(set_bit(0, 0), 1);
    assert_eq!(set_bit(0, 63), 1u64 << 63);
    assert_eq!(set_bit(0b100, 1), 0b110);
    assert_eq!(set_bit(0b100, 2), 0b100);
}

#[test]
fn gen_delta_has_board_size() {
    let mut rng = StdRng::seed_from_u64(7);
    let sb = SwapBuffer::gen_delta(&mut rng, 300, 200);
    assert_eq!(sb.r.len(), 60_000);
    assert_eq!(sb.r, sb.w);
    assert_eq!(sb.width(), 300);
    // about 20 in 10001 cells are non-zero
    let nonzero = sb.r.iter().filter(|&&m| m != 0).count();
    assert!(nonzero > 30 && nonzero < 300, "{}", nonzero);
}

#[test]
fn from_rand_stays_in_range() {
    let mut rng = StdRng::seed_from_u64(42);
    let sb = SwapBuffer::from_rand(&mut rng, 20, 10, [10, 1000]);
    assert_eq!(sb.r.len(), 200);
    assert_eq!(sb.r, sb.w);
    assert!(sb.r.iter().all(|&v| (10..=1000).contains(&v)));
    assert!(sb.r.iter().any(|&v| v != sb.r[0]));
    let single = SwapBuffer::from_rand(&mut rng, 3, 3, [5, 5]);
    assert_eq!(single.r, vec![5; 9]);
}

#[test]
fn delta_cell_follows_the_draws() {
    // no spawn: zero whatever else was drawn
    assert_eq!(delta_cell(20, 5, &vec![(0, 7)]), 0);
    assert_eq!(delta_cell(10000, 0, &vec![]), 0);
    // spawn: the first bit, then further bits while the continue draw is 0
    assert_eq!(delta_cell(19, 5, &vec![]), 1 << 5);
    assert_eq!(delta_cell(0, 5, &vec![(0, 7), (0, 63), (3, 0)]), (1 << 5) | (1 << 7) | (1 << 63));
    // a continue draw of 1 or more stops, later pairs are ignored
    assert_eq!(delta_cell(0, 1, &vec![(1, 7), (0, 9)]), 1 << 1);
    assert_eq!(delta_cell(0, 4, &vec![(0, 4)]), 1 << 4);
}
