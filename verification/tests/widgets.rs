use modscope::widgets::{format_position, format_time};

#[test]
fn positions_are_padded_to_three_characters() {
    assert_eq!(format_position(0, 0), "Ord:000 Row:000");
    assert_eq!(format_position(7, 63), "Ord:007 Row:063");
    assert_eq!(format_position(123, 1000), "Ord:123 Row:1000");
    assert_eq!(format_position(-5, -123), "Ord:-05 Row:-123");
    assert_eq!(format_position(i32::MIN, i32::MAX), "Ord:-2147483648 Row:2147483647");
}

#[test]
fn positions_agree_with_the_standard_formatter() {
    for n in [-100_000, -1000, -999, -100, -99, -10, -9, -1, 0, 1, 9, 10, 99, 100, 999, 1000] {
        let m = 7 - n;
        assert_eq!(format_position(n, m), format!("Ord:{n:03} Row:{m:03}"));
    }
}

#[test]
fn times_are_minutes_and_seconds() {
    assert_eq!(format_time(0.0f64.to_bits()), "00:00");
    assert_eq!(format_time(59.999f64.to_bits()), "00:59");
    assert_eq!(format_time(60.0f64.to_bits()), "01:00");
    assert_eq!(format_time(3599.5f64.to_bits()), "59:59");
    assert_eq!(format_time(6000.0f64.to_bits()), "100:00");
    assert_eq!(format_time((-3.0f64).to_bits()), "00:00");
    assert_eq!(format_time(f64::NAN.to_bits()), "00:00");
}

#[test]
fn times_agree_with_the_standard_formatter() {
    for seconds in [
        0.0,
        -0.0,
        0.999,
        1.0,
        61.75,
        1e9,
        1e15 + 0.5,
        1e18,
        1.8e19,
        1e20,
        -1e20,
        5e-324,
        f64::INFINITY,
        f64::NEG_INFINITY,
        f64::NAN,
    ] {
        let total = seconds.max(0.0) as u64;
        let (mins, secs) = (total / 60, total % 60);
        assert_eq!(format_time(f64::to_bits(seconds)), format!("{mins:02}:{secs:02}"));
    }
}

#[test]
fn positions_read_back() {
    for order in [-2000, -999, -100, -99, -1, 0, 5, 99, 100, 12_345] {
        for row in [-1234, -10, 0, 63, 1000] {
            let text = format_position(order, row);
            let (left, right) = text.split_once(' ').unwrap();
            assert_eq!(left.strip_prefix("Ord:").unwrap().parse::<i32>().unwrap(), order);
            assert_eq!(right.strip_prefix("Row:").unwrap().parse::<i32>().unwrap(), row);
        }
    }
}

#[test]
fn times_read_back() {
    for seconds in [0u32, 1, 59, 60, 61, 3599, 3600, 5999, 6000, 100_000] {
        let text = format_time(f64::from(seconds).to_bits());
        let (minutes, rest) = text.split_once(':').unwrap();
        assert_eq!(rest.len(), 2);
        let total = 60 * minutes.parse::<u32>().unwrap() + rest.parse::<u32>().unwrap();
        assert_eq!(total, seconds);
    }
}
