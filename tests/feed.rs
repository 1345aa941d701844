use feed_parser::base_funcs::{NYSEMsg, Stats};
use feed_parser::error::{FeedError, TradeField};
use feed_parser::parsing::process_line;

fn feed(stats: &mut Stats, line: &str) -> Result<(), FeedError> {
    process_line(line.to_string(), stats)
}

fn trade(time: &str, symbol: &str, price: &str, volume: i32, cond2: &str, cond4: &str) -> String {
    format!("220,1,{},{},1,1,{},{},@,{}, ,{}", time, symbol, price, volume, cond2, cond4)
}

#[test]
fn bucketed_series_of_three_trades() {
    let mut s = Stats::new();
    feed(&mut s, "3,1,IBM,1,1,N,C,100").unwrap();
    feed(&mut s, &trade("09:30:00.100000000", "IBM", "10.00", 1, " ", " ")).unwrap();
    feed(&mut s, &trade("09:30:00.900000000", "IBM", "10.00", 2, " ", " ")).unwrap();
    feed(&mut s, &trade("09:30:01.000000000", "IBM", "12.00", 3, " ", " ")).unwrap();
    let el = s.event_stats.get("IBM").unwrap();
    assert_eq!(
        el.get_sec_avg_time_series(),
        vec![(34200, 10_000_000_000, 3), (34201, 12_000_000_000, 3)]
    );
}

#[test]
fn trade_for_unregistered_symbol_is_refused() {
    let mut s = Stats::new();
    feed(&mut s, "3,1,IBM").unwrap();
    feed(&mut s, &trade("09:30:00.1", "IBM", "10", 5, " ", " ")).unwrap();
    let before = s.trade_stats.get_total_volume();
    assert_eq!(
        feed(&mut s, &trade("09:30:00.2", "ZZZ", "10", 7, " ", " ")),
        Err(FeedError::UnknownSymbol)
    );
    assert_eq!(s.trade_stats.get_total_volume(), before);
    assert_eq!(before, 5);
}

#[test]
fn message_counts_by_kind() {
    let mut s = Stats::new();
    feed(&mut s, "3,1,IBM").unwrap();
    feed(&mut s, "34,1,09:30:00,IBM").unwrap();
    for i in 0..5 {
        feed(&mut s, &trade(&format!("09:30:0{}.0", i), "IBM", "1", 1, " ", " ")).unwrap();
    }
    assert_eq!(s.msg_stats.count(NYSEMsg::T003), 1);
    assert_eq!(s.msg_stats.count(NYSEMsg::T034), 1);
    assert_eq!(s.msg_stats.count(NYSEMsg::T220), 5);
    assert_eq!(s.msg_stats.count(NYSEMsg::ERROR), 0);
}

#[test]
fn excluded_trades_are_counted_but_not_aggregated() {
    let mut s = Stats::new();
    feed(&mut s, "3,1,IBM").unwrap();
    feed(&mut s, &trade("09:30:00.1", "IBM", "10", 5, " ", "M")).unwrap();
    feed(&mut s, &trade("09:30:00.1", "IBM", "10", 5, " ", "Q")).unwrap();
    feed(&mut s, &trade("09:30:00.1", "IBM", "10", 5, "6", " ")).unwrap();
    feed(&mut s, &trade("09:30:00.1", "IBM", "10", 5, "O", " ")).unwrap();
    assert_eq!(s.msg_stats.count(NYSEMsg::T220), 4);
    assert_eq!(s.event_stats.get("IBM").unwrap().get_event_count(), 0);
    assert_eq!(s.trade_stats.get_total_volume(), 0);
    feed(&mut s, &trade("09:30:00.1", "IBM", "10", 5, "F", "I")).unwrap();
    assert_eq!(s.event_stats.get("IBM").unwrap().get_event_count(), 1);
}

#[test]
fn top_active_is_a_snapshot() {
    let mut s = Stats::new();
    feed(&mut s, "3,1,IBM").unwrap();
    feed(&mut s, "3,2,AAPL").unwrap();
    feed(&mut s, &trade("09:30:00.1", "AAPL", "10", 5, " ", " ")).unwrap();
    let first = s.symbol_stats.get_most_active(10);
    let second = s.symbol_stats.get_most_active(10);
    assert_eq!(first, second);
    assert_eq!(first, vec![("AAPL".to_string(), 1), ("IBM".to_string(), 0)]);
}

#[test]
fn each_error_kind_from_a_line() {
    let mut s = Stats::new();
    assert_eq!(feed(&mut s, "999,1"), Err(FeedError::UnknownMessageType));
    assert_eq!(feed(&mut s, ""), Err(FeedError::UnknownMessageType));
    assert_eq!(feed(&mut s, "3,1"), Err(FeedError::FieldCountError));
    feed(&mut s, "3,1,IBM").unwrap();
    assert_eq!(feed(&mut s, "220,1,09:30:00,IBM"), Err(FeedError::FieldCountError));
    assert_eq!(
        feed(&mut s, "220,x,09:30:00,IBM,1,1,10,5,@, , , "),
        Err(FeedError::FieldParseError(TradeField::SeqNum))
    );
    assert_eq!(
        feed(&mut s, &trade("09:30", "IBM", "10", 5, " ", " ")),
        Err(FeedError::MalformedTime)
    );
    assert_eq!(
        feed(&mut s, &trade("09:30:00", "IBM", "ten", 5, " ", " ")),
        Err(FeedError::FieldParseError(TradeField::Price))
    );
    assert_eq!(s.msg_stats.count(NYSEMsg::ERROR), 2);
    assert_eq!(s.trade_stats.get_total_volume(), 0);
    assert_eq!(s.event_stats.get("IBM").unwrap().get_event_count(), 0);
}

#[test]
fn registering_twice_keeps_the_events() {
    let mut s = Stats::new();
    feed(&mut s, "3,1,IBM").unwrap();
    feed(&mut s, &trade("09:30:00.1", "IBM", "10", 5, " ", " ")).unwrap();
    feed(&mut s, "3,2,IBM").unwrap();
    assert_eq!(s.event_stats.get("IBM").unwrap().get_event_count(), 1);
    assert_eq!(s.symbol_stats.get_symbol_count(), 1);
}

#[test]
fn replaying_the_same_lines_gives_the_same_series() {
    let lines = [
        "3,1,IBM".to_string(),
        trade("09:30:00.5", "IBM", "10.25", 3, " ", " "),
        trade("09:30:02.5", "IBM", "10.5", 4, " ", " "),
        trade("09:30:01.5", "IBM", "10.75", 5, " ", " "),
    ];
    let mut a = Stats::new();
    let mut b = Stats::new();
    for l in lines.iter() {
        feed(&mut a, l).unwrap();
        feed(&mut b, l).unwrap();
    }
    let ea = a.event_stats.get("IBM").unwrap();
    let eb = b.event_stats.get("IBM").unwrap();
    assert_eq!(ea, eb);
    let times: Vec<i64> = ea.get_full_time_series().into_iter().map(|t| t.0).collect();
    assert_eq!(times, vec![34_200_500_000_000, 34_201_500_000_000, 34_202_500_000_000]);
    assert_eq!(ea.get_min_max_price_volume(), (10_250_000_000, 10_750_000_000, 3, 5));
}

#[test]
fn unknown_symbol_on_fresh_statistics() {
    let mut s = Stats::new();
    assert_eq!(
        feed(&mut s, "220,1,09:30:00.100000000,XYZ,1,1,10.00,100,@,F, ,I"),
        Err(FeedError::UnknownSymbol)
    );
    assert_eq!(s.trade_stats.get_total_volume(), 0);
    assert!(s.event_stats.get("XYZ").is_none());
}

#[test]
fn a_bad_price_is_a_decode_error_before_filtering() {
    let mut s = Stats::new();
    feed(&mut s, "3,1,IBM").unwrap();
    assert_eq!(
        feed(&mut s, &trade("09:30:00.1", "IBM", "abc", 5, " ", "M")),
        Err(FeedError::FieldParseError(TradeField::Price))
    );
    assert_eq!(
        feed(&mut s, &trade("09:30:00.1", "ZZZ", "abc", 5, " ", " ")),
        Err(FeedError::FieldParseError(TradeField::Price))
    );
    assert_eq!(s.event_stats.get("IBM").unwrap().get_event_count(), 0);
}

#[test]
fn mapping_a_new_symbol_starts_it_empty() {
    let mut s = Stats::new();
    feed(&mut s, "3,1,IBM").unwrap();
    feed(&mut s, &trade("09:30:00.1", "IBM", "10", 5, " ", " ")).unwrap();
    feed(&mut s, "3,2,AAPL").unwrap();
    assert_eq!(s.symbol_stats.get_symbol_count(), 2);
    assert_eq!(s.event_stats.get("AAPL").unwrap(), &feed_parser::event_structs::EventList::new());
    assert_eq!(s.event_stats.get("IBM").unwrap().get_event_count(), 1);
    assert_eq!(s.symbol_stats.get_most_active(5), vec![("IBM".to_string(), 1), ("AAPL".to_string(), 0)]);
}
