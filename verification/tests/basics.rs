use bad_spaceship::geom::{cross, floor_div, integer_sqrt, Long, Point};
use bad_spaceship::lists::{contains, order_by_key};
use bad_spaceship::text::{parse_number, to_decimal};

fn at(x: i64, y: i64, z: i64) -> Point {
    Point { x, y, z }
}

#[test]
fn roots_are_rounded_down() {
    assert_eq!(integer_sqrt(0), 0);
    assert_eq!(integer_sqrt(15), 3);
    assert_eq!(integer_sqrt(16), 4);
    assert_eq!(integer_sqrt(1_000_000_000_000_000_000_000_000), 1_000_000_000_000);
}

#[test]
fn distances_are_those_of_pythagoras() {
    let (a, b) = (at(1, 2, 3), at(4, 6, 3));
    assert_eq!(a.distance_squared(&b), 25);
    assert_eq!(a.distance(&b), 5);
    assert_eq!(b.relative_to(&a), at(3, 4, 0));
    assert_eq!(at(0, 0, 0).lerp(&at(10, -10, 100), 1, 4), at(2, -2, 25));
}

#[test]
fn a_clamped_vector_is_short() {
    let long = at(300, 400, 0);
    assert_eq!(long.clamp_length(500), long);
    let c = long.clamp_length(100);
    assert_eq!(c, at(60, 80, 0));
    let odd = at(123_457, -98_765, 55_555).clamp_length(1_000);
    assert!(odd.length_squared() <= 1_000_000);
}

#[test]
fn a_unit_vector_is_a_million_long() {
    assert_eq!(at(3, 4, 0).normalize_or_zero(), at(600_000, 800_000, 0));
    assert_eq!(at(0, 0, -7).normalize_or_zero(), at(0, 0, -1_000_000));
    assert_eq!(at(0, 0, 0).normalize_or_zero(), Point::zero());
}

#[test]
fn division_rounds_down() {
    assert_eq!(floor_div(7, 2), 3);
    assert_eq!(floor_div(-7, 2), -4);
    assert_eq!(floor_div(-8, 2), -4);
    assert_eq!(floor_div(0, 5), 0);
}

#[test]
fn a_triangle_has_its_normal() {
    let n = cross(&at(0, 0, 0), &at(2, 0, 0), &at(0, 3, 0));
    assert_eq!(n, Long { x: 0, y: 0, z: 6 });
}

#[test]
fn numbers_are_written_and_read() {
    assert_eq!(to_decimal(0), "0");
    assert_eq!(to_decimal(1_234_567_890), "1234567890");
    assert_eq!(to_decimal(u64::MAX), "18446744073709551615");
    assert_eq!(parse_number("18446744073709551615"), Some(u64::MAX));
    assert_eq!(parse_number("18446744073709551616"), None);
    assert_eq!(parse_number("007"), Some(7));
    assert_eq!(parse_number("+5"), Some(5));
    assert_eq!(parse_number("+"), None);
    assert_eq!(parse_number(""), None);
    assert_eq!(parse_number("-1"), None);
    assert_eq!(parse_number("1x"), None);
    for n in [0u64, 9, 10, 99, 100, 12_345] {
        assert_eq!(parse_number(&to_decimal(n)), Some(n));
    }
}

#[test]
fn an_order_is_stable() {
    assert!(contains(&[1, 2, 3], 2));
    assert!(!contains(&[], 2));
    assert_eq!(order_by_key(&[30, 10, 20]), vec![1, 2, 0]);
    assert_eq!(order_by_key(&[5, 5, 1]), vec![2, 0, 1]);
}
