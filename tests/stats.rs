use feed_parser::base_funcs::{MsgStats, NYSEMsg, SymbolStats, TradeStats};
use feed_parser::error::{FeedError, TradeField};
use feed_parser::mt220::{Tc1, Tc2, Tc3, Tc4, T220};

fn trade_tokens(time: &str, symbol: &str, price: &str, volume: &str) -> Vec<String> {
    vec![
        "220".to_string(),
        "12345".to_string(),
        time.to_string(),
        symbol.to_string(),
        "100".to_string(),
        "1001".to_string(),
        price.to_string(),
        volume.to_string(),
        "@".to_string(),
        "F".to_string(),
        "T".to_string(),
        "I".to_string(),
    ]
}

#[test]
fn test_msg_stats() {
    let mut stats = MsgStats::new();
    stats.add(NYSEMsg::T003);
    stats.add(NYSEMsg::T003);
    stats.add(NYSEMsg::T034);
    stats.add(NYSEMsg::T034);
    stats.add(NYSEMsg::T034);
    stats.add(NYSEMsg::T220);
    stats.add(NYSEMsg::T220);
    stats.add(NYSEMsg::T220);
    stats.add(NYSEMsg::T220);
    stats.add(NYSEMsg::T220);
    stats.add(NYSEMsg::T220);
    stats.add(NYSEMsg::T220);
    assert_eq!(stats.count(NYSEMsg::T003), 2);
    assert_eq!(stats.count(NYSEMsg::T034), 3);
    assert_eq!(stats.count(NYSEMsg::T220), 7);
}

#[test]
fn test_t220() {
    let a = T220 {
        msg_type: 220,
        seq_num: 12345,
        source_time: "09:30:01.00005090000".to_string(),
        symbol: "IBM".to_string(),
        symbol_seq_num: 100,
        trade_id: 1001,
        price: "99.95".to_string(),
        volume: 1000,
        trade_cond1: Tc1::RegularSale,
        trade_cond2: Tc2::ISO,
        trade_cond3: Tc3::ExtendedHoursTrade,
        trade_cond4: Tc4::OddLotTrade,
    };
    let b = trade_tokens("09:30:01.00005090000", "IBM", "99.95", "1000");
    let c = T220::new(b).unwrap();
    assert_eq!(c, a);
}

#[test]
fn trade_decoding_errors_name_the_field() {
    let mut t = trade_tokens("09:30:01", "IBM", "1", "10");
    t.truncate(11);
    assert_eq!(T220::new(t), Err(FeedError::FieldCountError));
    let mut t = trade_tokens("09:30:01", "IBM", "1", "10");
    t[1] = "x".to_string();
    assert_eq!(T220::new(t), Err(FeedError::FieldParseError(TradeField::SeqNum)));
    let mut t = trade_tokens("09:30:01", "IBM", "1", "10");
    t[4] = "".to_string();
    assert_eq!(T220::new(t), Err(FeedError::FieldParseError(TradeField::SymbolSeqNum)));
    let mut t = trade_tokens("09:30:01", "IBM", "1", "10");
    t[5] = "2147483648".to_string();
    assert_eq!(T220::new(t), Err(FeedError::FieldParseError(TradeField::TradeId)));
    let t = trade_tokens("09:30:01", "IBM", "abc", "10");
    assert_eq!(T220::new(t), Err(FeedError::FieldParseError(TradeField::Price)));
    let t = trade_tokens("09:30:01", "IBM", "abc", "x");
    assert_eq!(T220::new(t), Err(FeedError::FieldParseError(TradeField::Price)));
    let mut t = trade_tokens("09:30:01", "IBM", "abc", "10");
    t[5] = "y".to_string();
    assert_eq!(T220::new(t), Err(FeedError::FieldParseError(TradeField::TradeId)));
    let t = trade_tokens("09:30:01", "IBM", "1", "1e3");
    assert_eq!(T220::new(t), Err(FeedError::FieldParseError(TradeField::Volume)));
    let t = trade_tokens("09:30:01", "IBM", "1", "-2147483648");
    assert_eq!(T220::new(t).unwrap().volume, i32::MIN);
    let t = trade_tokens("09:30:01", "IBM", "1", "+7");
    assert_eq!(T220::new(t).unwrap().volume, 7);
}

#[test]
fn unknown_condition_codes_decode_as_invalid() {
    let mut t = trade_tokens("09:30:01", "IBM", "1", "10");
    t[8] = "?".to_string();
    t[11] = "".to_string();
    let r = T220::new(t).unwrap();
    assert_eq!(r.trade_cond1, Tc1::Error);
    assert_eq!(r.trade_cond4, Tc4::Error);
}

#[test]
fn test_trade_stats_symbol() {
    let mut stats = TradeStats::new();
    let trade = T220::new(trade_tokens("09:30:01.00005090000", "IBM", "99.95", "1000")).unwrap();
    stats.add(&trade).unwrap();
    assert_eq!(stats.get_symbol_count(), 1);

    stats.add(&T220::new(trade_tokens("09:30:01.00005090000", "AAPL", "99.95", "1000")).unwrap()).unwrap();
    assert_eq!(stats.get_symbol_count(), 2);

    stats.add(&T220::new(trade_tokens("09:30:01.00005090000", "MSFT", "99.95", "1000")).unwrap()).unwrap();
    assert_eq!(stats.get_symbol_count(), 3);

    stats.add(&T220::new(trade_tokens("09:30:01.00005090000", "MSFT", "99.95", "1500")).unwrap()).unwrap();
    assert_eq!(stats.get_symbol_count(), 3);

    assert_eq!(stats.get_count_per_symbol("IBM"), 1000);
    assert_eq!(stats.get_count_per_symbol("MSFT"), 2500);
    assert_eq!(stats.get_total_volume(), 4500);
    let (trades, seconds) = stats.get_average_rate();
    assert_eq!((trades as f32 / seconds as f32).round(), 4.0);
}

#[test]
fn trade_stats_count_the_second_that_contains_the_trade() {
    let mut stats = TradeStats::new();
    stats.add(&T220::new(trade_tokens("09:30:01.4", "IBM", "1", "1")).unwrap()).unwrap();
    stats.add(&T220::new(trade_tokens("09:30:01.7", "IBM", "1", "1")).unwrap()).unwrap();
    assert_eq!(stats.get_average_rate(), (2, 1));
    stats.add(&T220::new(trade_tokens("09:30:02.2", "IBM", "1", "1")).unwrap()).unwrap();
    assert_eq!(stats.get_average_rate(), (3, 2));
    assert_eq!(stats.get_trade_count("IBM"), 3);
    assert_eq!(stats.get_trade_count("AAPL"), 0);
    assert_eq!(stats.get_count_per_symbol("AAPL"), 0);
    let bad = T220::new(trade_tokens("0930", "IBM", "1", "1")).unwrap();
    assert_eq!(stats.add(&bad), Err(FeedError::MalformedTime));
    assert_eq!(stats.get_total_volume(), 3);
}

#[test]
fn test_symbol_stats_add() {
    let mut stats = SymbolStats::new();
    stats.add("IBM");
    stats.add("AAPL");
    stats.add("MSFT");
    assert_eq!(stats.get_symbol_count(), 3);
}

#[test]
fn test_symbol_stats_add_volume() {
    let mut stats = SymbolStats::new();
    stats.add("IBM");
    stats.add("AAPL");
    stats.add("MSFT");
    stats.update("IBM", 1000);
    stats.update("AAPL", 2000);
    stats.update("AAPL", 2000);
    stats.update("IBM", 10);
    stats.update("IBM", 10);
    stats.update("IBM", 10);
    stats.update("IBM", 10);
    stats.update("IBM", 10);
    stats.update("IBM", 10);
    assert_eq!(stats.get_highest_volume(50)[0], ("AAPL".to_string(), 4000));
}

#[test]
fn test_symbol_stat_add_active() {
    let mut stats = SymbolStats::new();
    stats.add("IBM");
    stats.add("AAPL");
    stats.add("MSFT");
    stats.update("IBM", 1000);
    stats.update("AAPL", 2000);
    stats.update("AAPL", 2000);
    stats.update("IBM", 10);
    stats.update("IBM", 10);
    stats.update("IBM", 10);
    stats.update("IBM", 10);
    stats.update("IBM", 10);
    stats.update("IBM", 10);
    assert_eq!(stats.get_most_active(50)[0], ("IBM".to_string(), 7));
}

#[test]
fn rankings_break_ties_by_symbol_and_respect_k() {
    let mut stats = SymbolStats::new();
    for s in ["MSFT", "IBM", "AAPL", "GE"] {
        stats.add(s);
    }
    stats.update("MSFT", 5);
    stats.update("IBM", 5);
    stats.update("GE", 1);
    let top = stats.get_most_active(3);
    assert_eq!(
        top,
        vec![("GE".to_string(), 1), ("IBM".to_string(), 1), ("MSFT".to_string(), 1)]
    );
    let vol = stats.get_highest_volume(10);
    assert_eq!(
        vol,
        vec![
            ("IBM".to_string(), 5),
            ("MSFT".to_string(), 5),
            ("GE".to_string(), 1),
            ("AAPL".to_string(), 0)
        ]
    );
    assert!(stats.get_most_active(0).is_empty());
}

#[test]
fn re_registering_and_unknown_updates_change_nothing() {
    let mut stats = SymbolStats::new();
    stats.add("IBM");
    stats.update("IBM", 10);
    stats.add("IBM");
    stats.update("XYZ", 99);
    assert_eq!(stats.get_symbol_count(), 1);
    assert_eq!(stats.get_most_active(5), vec![("IBM".to_string(), 1)]);
    assert_eq!(stats.get_highest_volume(5), vec![("IBM".to_string(), 10)]);
}
