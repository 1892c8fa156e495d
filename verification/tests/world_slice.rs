use manokeso::util::point::Point;
use manokeso::world::swap_buffer::SwapBuffer;
use manokeso::world::world::{copy_swap_buf, ilog2, slice_around, BoardSlice};

#[test]
fn point_index_is_row_major() {
    assert_eq!(Point::new(3usize, 2usize).index(10), 23);
    assert_eq!(Point::new(0usize, 0usize).index(7), 0);
}

#[test]
fn board_slice_new_dimensions() {
    let s = BoardSlice::new(Point::new(2, 3), Point::new(7, 5));
    assert_eq!(s.width, 5);
    assert_eq!(s.height, 2);
    assert_eq!(s.size, 10);
    assert_eq!(s.start, Point::new(2, 3));
    assert_eq!(s.end, Point::new(7, 5));
    let empty = BoardSlice::new(Point::new(4, 4), Point::new(4, 9));
    assert_eq!(empty.size, 0);
}

#[test]
fn ilog2_values() {
    assert_eq!(ilog2(1), 0);
    assert_eq!(ilog2(2), 1);
    assert_eq!(ilog2(3), 1);
    assert_eq!(ilog2(8), 3);
    assert_eq!(ilog2(1000), 9);
    assert_eq!(ilog2(u32::MAX), 31);
}

#[test]
fn slice_around_camera_in_board() {
    // extent 8 -> chunks of 8; camera chunk starts at 8
    let s = slice_around(10, 10, 8, 100, 100);
    assert_eq!(s, BoardSlice::new(Point::new(0, 0), Point::new(24, 24)));
    assert_eq!(s.size, 576);
    // extent 20 -> chunks of 16
    let s = slice_around(50, 37, 20, 60, 100);
    assert_eq!(s.start, Point::new(32, 16));
    assert_eq!(s.end, Point::new(60, 64));
    assert_eq!(s.width, 28);
    assert_eq!(s.height, 48);
}

#[test]
fn slice_around_camera_off_board() {
    let s = slice_around(-5, 3, 1, 10, 10);
    assert_eq!(s.start, Point::new(0, 2));
    assert_eq!(s.end, Point::new(0, 5));
    assert_eq!(s.size, 0);
    // extent 0 counts as 1
    let t = slice_around(-5, 3, 0, 10, 10);
    assert_eq!(s, t);
    // far beyond the board
    let u = slice_around(500, 500, 64, 100, 100);
    assert_eq!(u.start, Point::new(100, 100));
    assert_eq!(u.end, Point::new(100, 100));
}

#[test]
fn copy_swap_buf_copies_rectangle() {
    // 4 x 3 board holding 0..12
    let sb = SwapBuffer::from_arr((0u32..12).collect(), 4);
    let slice = BoardSlice::new(Point::new(1, 1), Point::new(3, 3));
    let mut dest = vec![99u32; 1];
    copy_swap_buf(&mut dest, &sb, &slice);
    assert_eq!(dest, vec![5, 6, 9, 10]);
    // reusing a destination of the right length
    let slice = BoardSlice::new(Point::new(0, 0), Point::new(2, 2));
    copy_swap_buf(&mut dest, &sb, &slice);
    assert_eq!(dest, vec![0, 1, 4, 5]);
    // an empty row range leaves an empty destination
    let slice = BoardSlice::new(Point::new(0, 2), Point::new(4, 2));
    copy_swap_buf(&mut dest, &sb, &slice);
    assert!(dest.is_empty());
}

#[test]
fn slice_around_holds_the_camera_cell() {
    for &(x, y, extent) in &[(0, 0, 1u32), (99, 0, 3), (37, 81, 17), (64, 64, 64), (5, 95, 1000)] {
        let s = slice_around(x, y, extent, 100, 100);
        assert!(s.start.x <= x as usize && (x as usize) < s.end.x);
        assert!(s.start.y <= y as usize && (y as usize) < s.end.y);
        assert!(s.end.x <= 100 && s.end.y <= 100);
        assert_eq!(s.size, s.width * s.height);
    }
}
