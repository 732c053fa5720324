use torus_life::region::{Point, Quadrant, Rect, Square};
use torus_life::scheduler::{frame_rate, FrameMeter, FrameScheduler, Pace};

#[test]
fn sixty_hertz_defaults() {
    let s = FrameScheduler::sixty_hertz();
    assert_eq!(s.budget_micros, 16600);
    assert_eq!(s.report_millis, 200);
    assert_eq!(s.limit_secs, None);
}

#[test]
fn sleeps_for_the_rest_of_the_budget() {
    let s = FrameScheduler::sixty_hertz();
    assert_eq!(s.pace(0, 0), Pace { sleep_micros: 16600, report: false });
    assert_eq!(s.pace(4000, 0).sleep_micros, 12600);
    assert_eq!(s.pace(16599, 0).sleep_micros, 1);
    assert_eq!(s.pace(16600, 0).sleep_micros, 0);
    assert_eq!(s.pace(1_000_000, 0).sleep_micros, 0);
    assert_eq!(s.pace(u128::MAX, 0).sleep_micros, 0);
}

#[test]
fn reports_when_the_interval_is_over() {
    let s = FrameScheduler::sixty_hertz();
    assert!(!s.pace(100, 0).report);
    assert!(!s.pace(100, 200).report);
    assert!(s.pace(100, 201).report);
    assert!(s.pace(100, u128::MAX).report);
    let often = FrameScheduler { budget_micros: 1000, report_millis: 0, limit_secs: None };
    assert_eq!(often.pace(250, 1), Pace { sleep_micros: 750, report: true });
    assert_eq!(often.pace(250, 0), Pace { sleep_micros: 750, report: false });
}

#[test]
fn runs_until_closed_or_out_of_time() {
    let free = FrameScheduler::sixty_hertz();
    assert!(free.keep_running(true, false, 0));
    assert!(free.keep_running(true, false, u64::MAX));
    assert!(!free.keep_running(false, false, 0));
    assert!(!free.keep_running(true, true, 0));
    assert!(!free.keep_running(false, true, 0));
    let timed = FrameScheduler { budget_micros: 16600, report_millis: 200, limit_secs: Some(5) };
    assert!(timed.keep_running(true, false, 4));
    assert!(!timed.keep_running(true, false, 5));
    assert!(!timed.keep_running(true, false, 6));
    assert!(!timed.keep_running(true, true, 1));
}

#[test]
fn frame_rate_in_thousandths() {
    assert_eq!(frame_rate(0), None);
    assert_eq!(frame_rate(16600), Some(60240));
    assert_eq!(frame_rate(1_000_000), Some(1000));
    assert_eq!(frame_rate(1), Some(1_000_000_000));
    assert_eq!(frame_rate(3_000_000_000), Some(0));
}

#[test]
fn quadrant_of_a_point() {
    let region = Square::new(0, 0, 10);
    assert_eq!(Quadrant::new(region.rect(), Point { x: 1, y: 1 }), Quadrant::TopLeft);
    assert_eq!(Quadrant::new(region.rect(), Point { x: 7, y: 2 }), Quadrant::TopRight);
    assert_eq!(Quadrant::new(region.rect(), Point { x: 4, y: 5 }), Quadrant::BottomLeft);
    assert_eq!(Quadrant::new(region.rect(), Point { x: 5, y: 5 }), Quadrant::BottomRight);
    assert_eq!(Quadrant::new(region.rect(), Point { x: -3, y: 40 }), Quadrant::BottomLeft);
    assert_eq!(Quadrant::new(region.rect(), Point { x: 40, y: -3 }), Quadrant::TopRight);
}

#[test]
fn quadrant_of_a_rectangle_that_is_no_square() {
    // Centre at (5, 52).
    let region = Rect { x: 0, y: 50, w: 10, h: 4 };
    assert_eq!(Quadrant::new(&region, Point { x: 4, y: 51 }), Quadrant::TopLeft);
    assert_eq!(Quadrant::new(&region, Point { x: 4, y: 52 }), Quadrant::BottomLeft);
    assert_eq!(Quadrant::new(&region, Point { x: 5, y: 51 }), Quadrant::TopRight);
    assert_eq!(Quadrant::new(&region, Point { x: 5, y: 52 }), Quadrant::BottomRight);
    assert_eq!(Quadrant::new(&region, Point { x: 3, y: 3 }), Quadrant::TopLeft);
}

#[test]
fn quadrant_with_a_centre_between_two_cells() {
    // The centre of a square of side 5 at (10, 20) is (12.5, 22.5).
    let region = Square::new(10, 20, 5);
    assert_eq!(Quadrant::new(&region.0, Point { x: 12, y: 22 }), Quadrant::TopLeft);
    assert_eq!(Quadrant::new(&region.0, Point { x: 13, y: 22 }), Quadrant::TopRight);
    assert_eq!(Quadrant::new(&region.0, Point { x: 12, y: 23 }), Quadrant::BottomLeft);
    assert_eq!(Quadrant::new(&region.0, Point { x: 13, y: 23 }), Quadrant::BottomRight);
}

#[test]
fn quadrant_at_the_ends_of_the_plane() {
    let region = Square::new(i64::MIN, i64::MAX, i64::MAX);
    assert_eq!(Quadrant::new(region.rect(), Point { x: i64::MAX, y: i64::MIN }), Quadrant::TopRight);
    assert_eq!(Quadrant::new(region.rect(), Point { x: i64::MIN, y: i64::MAX }), Quadrant::TopLeft);
    let empty = Square::zero(Point { x: 3, y: 4 });
    assert_eq!(Quadrant::new(empty.rect(), Point { x: 3, y: 4 }), Quadrant::BottomRight);
    assert_eq!(Quadrant::new(empty.rect(), Point { x: 2, y: 3 }), Quadrant::TopLeft);
}

#[test]
fn quadrant_index_orders_the_children() {
    assert_eq!(Quadrant::TopLeft.index(), 0);
    assert_eq!(Quadrant::TopRight.index(), 1);
    assert_eq!(Quadrant::BottomLeft.index(), 2);
    assert_eq!(Quadrant::BottomRight.index(), 3);
}

#[test]
fn squares() {
    assert_eq!(Square::new(1, 2, 3), Square(Rect { x: 1, y: 2, w: 3, h: 3 }));
    assert_eq!(Square::zero(Point { x: -5, y: 9 }), Square(Rect { x: -5, y: 9, w: 0, h: 0 }));
    let s = Square::new(10, 20, 8);
    assert_eq!(*s.rect(), Rect { x: 10, y: 20, w: 8, h: 8 });
    assert_eq!(s.modify(Point { x: 4, y: -4 }, 2), Some(Square::new(14, 16, 2)));
    assert_eq!(s.modify(Point { x: 0, y: 0 }, 16), Some(Square::new(10, 20, 16)));
    assert_eq!(s.modify(Point { x: i64::MAX, y: 0 }, 2), None);
    assert_eq!(s.modify(Point { x: 0, y: i64::MAX }, 2), None);
    assert_eq!(Square::new(-10, 0, 1).modify(Point { x: i64::MIN, y: 0 }, 2), None);
}

#[test]
fn meter_averages_over_the_window() {
    let mut m = FrameMeter::new();
    assert_eq!(m, FrameMeter { frames: 0, micros: 0 });
    assert_eq!(m.average(), None);
    m.record(10_000);
    assert_eq!(m.average(), Some(100_000));
    assert_eq!(m.average(), frame_rate(10_000));
    m.record(30_000);
    assert_eq!(m, FrameMeter { frames: 2, micros: 40_000 });
    assert_eq!(m.average(), Some(50_000));
    m.record(20_000);
    assert_eq!(m.average(), Some(50_000));
    m.record(7);
    assert_eq!(m.average(), Some(66_658));
    m.reset();
    assert_eq!(m, FrameMeter { frames: 0, micros: 0 });
    assert_eq!(m.average(), None);
    m.record(0);
    assert_eq!(m, FrameMeter { frames: 1, micros: 0 });
    assert_eq!(m.average(), None);
}

#[test]
fn meter_stops_at_the_largest_values() {
    let mut m = FrameMeter { frames: u64::MAX - 1, micros: u128::MAX - 5 };
    m.record(5);
    assert_eq!(m, FrameMeter { frames: u64::MAX, micros: u128::MAX });
    m.record(1);
    assert_eq!(m, FrameMeter { frames: u64::MAX, micros: u128::MAX });
    assert_eq!(m.average(), Some(0));
    let mut m = FrameMeter { frames: u64::MAX, micros: 1 };
    assert_eq!(m.average(), Some(u64::MAX as u128 * 1_000_000_000));
    m.record(u128::MAX);
    assert_eq!(m.micros, u128::MAX);
}
