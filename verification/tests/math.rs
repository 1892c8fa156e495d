use manokeso::util::math::SaturatingAdd;

#[test]
fn sat_add_u32_adds_in_range() {
    assert_eq!(10u32.sat_add(5), 15);
    assert_eq!(10u32.sat_add(-4), 6);
    assert_eq!(10u32.sat_add(0), 10);
}

#[test]
fn sat_add_u32_saturates() {
    assert_eq!(3u32.sat_add(-4), 0);
    assert_eq!((u32::MAX - 1).sat_add(5), u32::MAX);
    assert_eq!(7u32.sat_add(i32::MIN), 0);
}

#[test]
fn sat_add_assign_u32_matches_sat_add() {
    let mut a = 100u32;
    a.sat_add_assign(-30);
    assert_eq!(a, 70);
    a.sat_add_assign(-100);
    assert_eq!(a, 0);
    let mut b = u32::MAX;
    b.sat_add_assign(1);
    assert_eq!(b, u32::MAX);
}

#[test]
fn sat_add_usize_and_u64() {
    assert_eq!(5usize.sat_add(-2), 3);
    assert_eq!(5usize.sat_add(-6), 0);
    assert_eq!(usize::MAX.sat_add(1), usize::MAX);
    assert_eq!(5u64.sat_add(7), 12);
    assert_eq!(5u64.sat_add(-7), 0);
    assert_eq!(u64::MAX.sat_add(i32::MAX), u64::MAX);
    let mut c = 9u64;
    c.sat_add_assign(-9);
    assert_eq!(c, 0);
    let mut d = 1usize;
    d.sat_add_assign(i32::MAX);
    assert_eq!(d, 1 + i32::MAX as usize);
}
