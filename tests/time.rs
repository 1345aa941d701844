use feed_parser::error::FeedError;
use feed_parser::time_funcs::{
    decimal2hhmmssnnn, s2hhmmss_32, s2hhmmss_64, sms2hhmmsnn, time_dec_string, time_to_dec, Hhmmss,
};
use rust_decimal::prelude::{FromPrimitive, ToPrimitive};
use rust_decimal::Decimal;

#[test]
fn test_decimal2hhmmssnnn() {
    let inp = Decimal::from_f64(5430.123456789).unwrap();
    let nanos = (inp * Decimal::from(1_000_000_000)).round().to_i64().unwrap();
    let result = decimal2hhmmssnnn(nanos);
    assert_eq!(result, "01:30:30.123456789");
}

#[test]
fn test_time_dec_string() {
    let time = "07:00:00.044382720";
    let dec = time_dec_string(time).unwrap();
    assert_eq!(dec, "25200.044382720");
}

#[test]
fn test_time_to_dec() {
    let time = "09:30:01.00005090000";
    let dec = time_to_dec(time).unwrap();
    assert_eq!(dec, 34_201_000_050_900);
}

#[test]
fn time_round_trip_keeps_every_nanosecond() {
    for t in ["09:30:00.100000000", "00:00:00.000000001", "23:59:59.999999999", "12:34:56.123456789"] {
        let n = time_to_dec(t).unwrap();
        assert_eq!(decimal2hhmmssnnn(n), t);
    }
}

#[test]
fn time_without_fraction_is_whole_seconds() {
    assert_eq!(time_to_dec("01:00:00"), Ok(3_600_000_000_000));
    assert_eq!(time_to_dec("00:00:01.5"), Ok(1_500_000_000));
}

#[test]
fn malformed_times_are_refused() {
    assert_eq!(time_to_dec("09:30"), Err(FeedError::MalformedTime));
    assert_eq!(time_to_dec("09:30:00:00"), Err(FeedError::MalformedTime));
    assert_eq!(time_to_dec("09:3a:00"), Err(FeedError::MalformedTime));
    assert_eq!(time_to_dec("09::00"), Err(FeedError::MalformedTime));
    assert_eq!(time_to_dec("09:30:00."), Err(FeedError::MalformedTime));
    assert_eq!(time_to_dec("09:30:00.1.2"), Err(FeedError::MalformedTime));
    assert_eq!(time_to_dec(""), Err(FeedError::MalformedTime));
    assert_eq!(time_dec_string("x"), Err(FeedError::MalformedTime));
}

#[test]
fn hhmmss_of_whole_seconds() {
    assert_eq!(s2hhmmss_64(3661), "01:01:01");
    assert_eq!(s2hhmmss_64(0), "00:00:00");
    assert_eq!(s2hhmmss_64(-3661), "-01:01:01");
    assert_eq!(s2hhmmss_64(360_000), "100:00:00");
    assert_eq!(s2hhmmss_32(34_200), "09:30:00");
}

#[test]
fn hhmmss_with_nanoseconds() {
    assert_eq!(sms2hhmmsnn(3661, 534_100_100), "01:01:01.534100100");
    assert_eq!(sms2hhmmsnn(-3661, -534_100_100), "-01:01:01.534100100");
    assert_eq!(sms2hhmmsnn(5, 7), "00:00:05.000000007");
}

#[test]
fn test_all() {
    let std_duration = std::time::Duration::new(3661, 534_100_100);
    assert_eq!(&std_duration.hhmmss(), "01:01:01");
    assert_eq!(&std_duration.hhmmssnn(), "01:01:01.534100100");
    let chrono_duration = chrono::Duration::from_std(std_duration).unwrap();
    assert_eq!(&chrono_duration.hhmmss(), "01:01:01");
    assert_eq!(&chrono_duration.hhmmssnn(), "01:01:01.534100100");
    let time_duration = time::Duration::new(3661, 534_100_100);
    assert_eq!(&time_duration.hhmmss(), "01:01:01");
    assert_eq!(&time_duration.hhmmssnn(), "01:01:01.534100100");
}

#[test]
fn negative_durations_carry_a_sign() {
    let c = chrono::Duration::milliseconds(-3_661_500);
    assert_eq!(c.sns(), (-3661, -500_000_000));
    assert_eq!(&c.hhmmss(), "-01:01:01");
    assert_eq!(&c.hhmmssnn(), "-01:01:01.500000000");
    assert_eq!(&chrono::Duration::milliseconds(-500).hhmmssnn(), "-00:00:00.500000000");
    let t = time::Duration::new(-3661, -5);
    assert_eq!(&t.hhmmssnn(), "-01:01:01.000000005");
    assert_eq!(sms2hhmmsnn(0, -1), "-00:00:00.000000001");
}
