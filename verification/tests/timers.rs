use manokeso::timer::Timer as FrameTimer;
use manokeso::util::span::Span;
use manokeso::util::timer::Timer;

fn ms(v: u64) -> Span {
    Span::from_parts(v / 1000, ((v % 1000) * 1_000_000) as u32)
}

#[test]
fn span_parts_and_add() {
    let a = Span::from_parts(1, 600_000_000);
    assert_eq!(a.as_secs(), 1);
    assert_eq!(a.subsec_nanos(), 600_000_000);
    let b = a.checked_add(a).unwrap();
    assert_eq!(b.as_secs(), 3);
    assert_eq!(b.subsec_nanos(), 200_000_000);
    assert!(b.longer_than(&a));
    assert!(!a.longer_than(&b));
    assert!(!a.longer_than(&a));
    assert!(Span::zero().is_zero());
    assert!(!a.is_zero());
    let max = Span::from_parts(u64::MAX, 999_999_999);
    assert_eq!(max.checked_add(Span::zero()), Some(max));
    assert_eq!(max.checked_add(Span::from_parts(0, 1)), None);
    assert_eq!(Span::from_parts(u64::MAX, 500_000_000).checked_add(Span::from_parts(0, 600_000_000)), None);
}

#[test]
fn frame_timer_ring_and_avg() {
    let mut t = FrameTimer::new(3);
    assert_eq!(t.avg(), None);
    t.push(ms(10));
    // the last slot is still empty
    assert_eq!(t.avg(), None);
    t.push(ms(20));
    assert_eq!(t.avg(), Some(ms(10)));
    t.push(ms(30));
    assert_eq!(t.avg(), Some(ms(20)));
    // slots now hold 30, 10, 20; the next push overwrites the 10
    t.push(ms(60));
    assert_eq!(t.avg(), Some(Span::from_parts(0, 36_666_666)));
}

#[test]
fn frame_timer_avg_of_empty_ring() {
    let t = FrameTimer::new(0);
    assert_eq!(t.avg(), None);
}

#[test]
fn frame_timer_start_end_records() {
    let mut t = FrameTimer::new(2);
    // ending without a start records nothing
    t.end();
    assert_eq!(t.avg(), None);
    t.start();
    t.end();
    t.start();
    t.end();
    // two measurements were pushed; their mean is defined unless both were zero
    let _ = t.avg();
}

#[test]
fn util_timer_avg_over_all_slots() {
    let mut t = Timer::new(ms(1000), 4);
    assert_eq!(t.avg(), Span::zero());
    t.push(ms(100));
    t.push(ms(100));
    t.push(ms(100));
    assert_eq!(t.avg(), ms(100));
    t.push(ms(300));
    assert_eq!(t.avg(), ms(150));
}

#[test]
fn util_timer_avg_stops_after_duration() {
    let mut t = Timer::new(ms(1000), 5);
    t.push(ms(600));
    t.push(ms(600));
    t.push(ms(600));
    // slot 3 was written last; the walk starts there, meets the empty slot 4
    assert_eq!(t.avg(), ms(600));
    t.push(ms(100));
    t.push(ms(500));
    // newest first: 500, 100, then 600 -> 1200 > 1000, stop: mean of three
    assert_eq!(t.avg(), ms(400));
}

#[test]
fn util_timer_avg_takes_the_newest_samples() {
    let mut t = Timer::new(ms(1000), 3);
    t.push(ms(10));
    t.push(ms(20));
    assert!(t.avg_defined());
    assert_eq!(t.avg(), ms(15));

    let mut u = Timer::new(ms(35), 3);
    u.push(ms(10));
    u.push(ms(20));
    u.push(ms(30));
    // 30, then 20 -> 50 > 35: the mean of the two newest
    assert_eq!(u.avg(), ms(25));
}

#[test]
fn util_timer_without_slots_averages_zero() {
    let t = Timer::new(ms(1000), 0);
    assert!(t.avg_defined());
    assert_eq!(t.avg(), Span::zero());
}

#[test]
fn util_timer_avg_defined_on_overflow() {
    let mut t = Timer::new(Span::from_parts(u64::MAX, 999_999_999), 2);
    t.push(Span::from_parts(u64::MAX, 0));
    t.push(Span::from_parts(u64::MAX, 0));
    assert!(!t.avg_defined());
}

#[test]
fn util_timer_start_stop() {
    let mut t = Timer::new(ms(1000), 3);
    t.stop();
    assert_eq!(t.avg(), Span::zero());
    t.start();
    t.stop();
    let _ = t.avg();
}

#[test]
fn span_division_rounds_like_duration() {
    let mut t = Timer::new(Span::from_parts(10, 0), 3);
    t.push(Span::from_parts(0, 1));
    t.push(Span::from_parts(0, 1));
    t.push(Span::from_parts(1, 0));
    // (1 s + 2 ns) / 3
    let expect = std::time::Duration::new(1, 2) / 3;
    let got = t.avg();
    assert_eq!((got.as_secs(), got.subsec_nanos()), (expect.as_secs(), expect.subsec_nanos()));
}
