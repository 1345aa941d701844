use feed_parser::error::{FeedError, TradeField};
use feed_parser::event_structs::{get_prices, parse_price, Event, EventList, EMPTY_MIN_PRICE};
use rust_decimal::Decimal;

/// A price or time in units of 10^-9 as a decimal.
fn dec(units: i64) -> Decimal {
    Decimal::from_i128_with_scale(units as i128, 9)
}

fn dec_series(v: Vec<(i64, i64, i32)>) -> Vec<(Decimal, Decimal, i32)> {
    v.into_iter().map(|(t, p, q)| (dec(t), dec(p), q)).collect()
}

#[test]
fn test_event_list() {
    let el = EventList::new();
    assert_eq!(el.events.len(), 0);
}

#[test]
fn test_event_list_insert() {
    let mut el = EventList::new();
    el.update("07:01:45.491720704", "1.0", 1).unwrap();
    assert_eq!(el.events.len(), 1);
}

#[test]
fn test_event_list_update() {
    let mut el = EventList::new();
    el.update("07:01:45.491720704", "1.15", 1).unwrap();
    el.update("07:01:45.491720704", "1.257", 1).unwrap();
    assert_eq!(el.events.len(), 1);
}

#[test]
fn test_event_list_volume() {
    let mut el = EventList::new();
    el.update("07:01:45.491720704", "1.15", 1).unwrap();
    el.update("07:01:45.491720704", "1.257", 1).unwrap();
    assert_eq!(el.get_volume(), 2);
    el.update("07:01:47.493720704", "1.257", 5).unwrap();
    assert_eq!(el.get_volume(), 7);
}

#[test]
fn test_event_list_average_price() {
    let mut el = EventList::new();
    el.update("07:01:45.491720704", "6.0", 1).unwrap();
    el.update("07:01:45.491720705", "12.0", 1).unwrap();
    assert_eq!(dec(el.get_average_price()), Decimal::new(90, 1));
}

#[test]
fn test_get_full_time_series() {
    let mut el = EventList::new();
    el.update("09:20:00.491720704", "6.0", 1).unwrap();
    el.update("09:20:00.491720705", "12.0", 1).unwrap();
    el.update("09:20:00.491730704", "11.37", 1).unwrap();
    let ans: Vec<(Decimal, Decimal, i32)> = vec![
        (Decimal::new(33600491720704, 9), Decimal::new(60, 1), 1),
        (Decimal::new(33600491720705, 9), Decimal::new(120, 1), 1),
        (Decimal::new(33600491730704, 9), Decimal::new(1137, 2), 1),
    ];
    assert_eq!(dec_series(el.get_full_time_series()), ans);
}

#[test]
fn test_get_time_series2() {
    let mut el = EventList::new();
    el.update("09:20:00.491720704", "6.0", 1).unwrap();
    el.update("09:20:00.491720705", "12.0", 1).unwrap();
    el.update("09:20:00.491730704", "11.37", 1).unwrap();
    el.update("09:21:00.491730707", "11.38", 1).unwrap();
    let ans: Vec<(Decimal, Decimal, i32)> = vec![
        (Decimal::new(33600491720704, 9), Decimal::new(60, 1), 1),
        (Decimal::new(33600491720705, 9), Decimal::new(120, 1), 1),
        (Decimal::new(33600491730704, 9), Decimal::new(1137, 2), 1),
        (Decimal::new(33660491730707, 9), Decimal::new(1138, 2), 1),
    ];
    assert_eq!(dec_series(el.get_full_time_series()), ans);
}

#[test]
fn test_get_time_series4() {
    let mut el = EventList::new();
    el.update("09:20:00.491720704", "6.0", 1).unwrap();
    el.update("09:20:00.491720705", "12.0", 2).unwrap();
    el.update("09:20:00.491730704", "11.37", 3).unwrap();
    el.update("09:21:00.491730707", "11.38", 4).unwrap();
    el.update("09:21:02.491720704", "6.0", 5).unwrap();
    el.update("09:21:02.491720705", "12.0", 6).unwrap();
    el.update("09:21:04.491730704", "11.37", 7).unwrap();
    el.update("09:21:05.491730707", "11.38", 8).unwrap();
    el.update("09:22:05.491730708", "11.38", 9).unwrap();
    el.update("09:23:05.491730709", "11.38", 10).unwrap();
    let ans: Vec<(Decimal, Decimal, i32)> = vec![
        (Decimal::new(33600491720704, 9), Decimal::new(60, 1), 1),
        (Decimal::new(33660491730707, 9), Decimal::new(1138, 2), 4),
        (Decimal::new(33662491720704, 9), Decimal::new(60, 1), 5),
        (Decimal::new(33664491730704, 9), Decimal::new(1137, 2), 7),
        (Decimal::new(33665491730707, 9), Decimal::new(1138, 2), 8),
        (Decimal::new(33725491730708, 9), Decimal::new(1138, 2), 9),
        (Decimal::new(33785491730709, 9), Decimal::new(1138, 2), 10),
    ];
    println!("{:?}", el.get_time_series(1));
    assert_eq!(dec_series(el.get_time_series(1)), ans);
}

#[test]
fn time_series_with_a_step_takes_every_other_bucket() {
    let mut el = EventList::new();
    for t in ["09:00:00.1", "09:00:01.1", "09:00:02.1", "09:00:03.1", "09:00:04.1"] {
        el.update(t, "1", 1).unwrap();
    }
    let s = el.get_time_series(2);
    assert_eq!(s.len(), 3);
    assert_eq!(s[1].0, 32_402_100_000_000);
    assert_eq!(el.get_time_series(5).len(), 1);
    assert_eq!(el.get_time_series(7).len(), 1);
}

#[test]
fn test_get_sec_avg_time_series() {
    let mut el = EventList::new();
    el.update("09:20:00.491720704", "3.0", 10).unwrap();
    el.update("09:20:00.491720705", "6.0", 10).unwrap();
    el.update("09:20:00.491730704", "9.0", 10).unwrap();
    let ts: Vec<(Decimal, Decimal, i128)> =
        el.get_sec_avg_time_series().into_iter().map(|(s, p, v)| (Decimal::from(s), dec(p), v)).collect();
    assert_eq!(ts, vec![(Decimal::new(33_600, 0), Decimal::new(60, 1), 30)]);
}

#[test]
fn test_get_sec_avg_time_series2() {
    let mut el: EventList = EventList::new();
    el.update("09:20:00.491720704", "3.0", 10).unwrap();
    el.update("09:20:00.496720704", "6.0", 10).unwrap();
    el.update("09:20:00.491920704", "9.0", 10).unwrap();
    el.update("09:20:01.496720704", "3.0", 20).unwrap();
    el.update("09:20:01.496720784", "3.0", 20).unwrap();
    el.update("09:20:11.496720784", "9.0", 20).unwrap();
    let ts: Vec<(Decimal, Decimal, i128)> =
        el.get_sec_avg_time_series().into_iter().map(|(s, p, v)| (Decimal::from(s), dec(p), v)).collect();
    let ans: Vec<(Decimal, Decimal, i128)> = vec![
        (Decimal::new(33_600, 0), Decimal::new(60, 1), 30),
        (Decimal::new(33_601, 0), Decimal::new(30, 1), 40),
        (Decimal::new(33_611, 0), Decimal::new(90, 1), 20),
    ];
    assert_eq!(ts, ans)
}

#[test]
fn sec_avg_series_as_text() {
    let mut el = EventList::new();
    el.update("09:20:00.5", "3.0", 10).unwrap();
    el.update("09:20:11.5", "9.0", 20).unwrap();
    let ts = el.get_sec_avg_time_series_s();
    assert_eq!(ts[0], ("09:20:00".to_string(), 3_000_000_000, 10));
    assert_eq!(ts[1], ("09:20:11".to_string(), 9_000_000_000, 20));
    let full = el.get_full_time_series_s();
    assert_eq!(full[1], ("09:20:11.500000000".to_string(), 9_000_000_000, 20));
}

#[test]
fn test_get_min_max_() {
    let mut el: EventList = EventList::new();
    el.update("09:20:00.491720704", "3.0", 10).unwrap();
    el.update("09:20:00.496720704", "6.0", 10).unwrap();
    el.update("09:20:00.491920704", "9.0", 10).unwrap();
    el.update("09:20:01.496720704", "3.0", 20).unwrap();
    el.update("09:20:01.496720784", "3.0", 20).unwrap();
    el.update("09:20:11.496720784", "9.0", 20).unwrap();
    let (min_p, max_p, min_vol, max_vol) = el.get_min_max_price_volume();
    assert_eq!(dec(min_p), Decimal::new(30, 1));
    assert_eq!(dec(max_p), Decimal::new(90, 1));
    assert_eq!(min_vol, 10);
    assert_eq!(max_vol, 20);
}

#[test]
fn test_get_time_series() {}

#[test]
fn empty_list_reports_neutral_figures() {
    let el = EventList::new();
    assert_eq!(el.get_min_max_price_volume(), (EMPTY_MIN_PRICE, 0, i32::MAX, 0));
    assert_eq!(el.get_average_price(), 0);
    assert_eq!(el.get_event_count(), 0);
    assert!(el.get_full_time_series().is_empty());
}

#[test]
fn out_of_order_buckets_are_kept_in_key_order() {
    let mut el = EventList::new();
    el.update("09:00:05.0", "2", 1).unwrap();
    el.update("09:00:01.0", "1", 1).unwrap();
    el.update("09:00:03.0", "3", 1).unwrap();
    assert_eq!(el.keys, vec![32_401, 32_403, 32_405]);
    let prices: Vec<i64> = el.get_full_time_series().into_iter().map(|t| t.1).collect();
    assert_eq!(prices, vec![1_000_000_000, 3_000_000_000, 2_000_000_000]);
}

#[test]
fn bucket_invariant_holds_after_each_insertion() {
    let mut el = EventList::new();
    let prices = ["10.5", "9.25", "11", "10"];
    let mut sum: i128 = 0;
    for (i, p) in prices.iter().enumerate() {
        el.update("10:00:00.25", p, (i as i32) + 1).unwrap();
        sum += parse_price(p).unwrap() as i128;
        let e: &Event = &el.events[0];
        assert_eq!(e.tic_count, e.tics.len());
        assert_eq!(e.total_price, sum);
        assert_eq!(e.total_volume, e.tics.iter().map(|t| t.volume as i128).sum::<i128>());
    }
    assert_eq!(el.events[0].get_min_max_price(), (9_250_000_000, 11_000_000_000));
    assert_eq!(el.events[0].get_min_max_volume(), (1, 4));
    assert_eq!(el.events[0].get_avg_price(), 10_187_500_000);
}

#[test]
fn bad_price_or_time_leaves_the_list_unchanged() {
    let mut el = EventList::new();
    el.update("09:00:00.0", "1", 1).unwrap();
    assert_eq!(el.update("09:00:00.0", "1.0000000001", 1), Err(FeedError::FieldParseError(TradeField::Price)));
    assert_eq!(el.update("09:00:00.0", "-1", 1), Err(FeedError::FieldParseError(TradeField::Price)));
    assert_eq!(el.update("9h", "1", 1), Err(FeedError::MalformedTime));
    assert_eq!(el.get_event_count(), 1);
}

#[test]
fn prices_parse_to_nano_units() {
    assert_eq!(parse_price("99.95"), Some(99_950_000_000));
    assert_eq!(parse_price("12"), Some(12_000_000_000));
    assert_eq!(parse_price("0.000000001"), Some(1));
    assert_eq!(parse_price("9223372036.854775807"), Some(i64::MAX));
    assert_eq!(parse_price("9223372036.854775808"), None);
    assert_eq!(parse_price(""), None);
    assert_eq!(parse_price("1."), None);
    assert_eq!(parse_price("1,5"), None);
}

#[test]
fn prices_of_a_series() {
    let v = vec![("a".to_string(), 5, 1), ("b".to_string(), 7, 2)];
    assert_eq!(get_prices(v), vec![5, 7]);
}
