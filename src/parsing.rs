//! Feeding one line of the feed into the statistics.
use vstd::prelude::*;
use crate::base_funcs::{msg_kind_of, NYSEMsg, Stats};
use crate::error::FeedError;
use crate::event_structs::{added_tick, bucket_of, price_units};
use crate::mt220::{is_excluded_spec, tc2_of, tc4_of, trade_error, T220};
use crate::text::{i32_text_value, split, split_on, views_of};
use crate::time_funcs::{time_is_valid, time_nanos, time_to_dec};

verus! {

/// Token of a line that holds its message type.
pub const MSG_IDX: usize = 0;

/// Token of a symbol index mapping line that holds the symbol.
pub const SYMBOL_IDX: usize = 2;

/// Everything but the message counts is as it was.
pub open spec fn figures_unchanged(before: &Stats, after: &Stats) -> bool {
    &&& after.trade_stats == before.trade_stats
    &&& after.symbol_stats == before.symbol_stats
    &&& after.event_stats == before.event_stats
}

/// Whether a trade line passes decoding (its price included) and the
/// exclusion rule.
pub open spec fn trade_is_counted(toks: Seq<Seq<char>>) -> bool {
    &&& trade_error(toks) is None
    &&& !is_excluded_spec(tc2_of(toks[9]), tc4_of(toks[11]))
}

/// Processes one line: counts its message type, then registers a symbol
/// (type 3), ignores a status message (type 34), or decodes, filters and
/// aggregates a trade (type 220). A line that fails changes nothing but the
/// message counts.
pub fn process_line(line: String, stats: &mut Stats) -> (r: Result<(), FeedError>)
    requires
        old(stats).wf(),
        old(stats).msg_stats.total() < usize::MAX,
    ensures
        final(stats).wf(),
        ({
            let toks = split_on(line@, ',');
            let kind = msg_kind_of(toks[0]);
            let sym = toks[3];
            let vol = i32_text_value(toks[7])->0;
            &&& forall|m: NYSEMsg| #[trigger]
                final(stats).msg_stats.count_of(m) == old(stats).msg_stats.count_of(m) + if m
                    == kind {
                    1int
                } else {
                    0int
                }
            &&& final(stats).msg_stats.total() == old(stats).msg_stats.total() + 1
            &&& r is Err ==> figures_unchanged(old(stats), final(stats))
            &&& kind == NYSEMsg::ERROR ==> r == Err::<(), FeedError>(FeedError::UnknownMessageType)
            &&& kind == NYSEMsg::T034 ==> r is Ok && figures_unchanged(old(stats), final(stats))
            &&& kind == NYSEMsg::T003 ==> {
                &&& toks.len() <= SYMBOL_IDX ==> r == Err::<(), FeedError>(FeedError::FieldCountError)
                &&& toks.len() > SYMBOL_IDX ==> {
                    &&& r is Ok
                    &&& final(stats).trade_stats == old(stats).trade_stats
                    &&& forall|k: Seq<char>| #[trigger]
                        final(stats).event_stats.symbols.contains(k) == (
                        old(stats).event_stats.symbols.contains(k) || k == toks[SYMBOL_IDX as int])
                    &&& forall|k: Seq<char>|
                        old(stats).event_stats.symbols.contains(k)
                            ==> #[trigger] final(stats).event_stats.list_of(k)
                            == old(stats).event_stats.list_of(k)
                    &&& forall|k: Seq<char>|
                        old(stats).symbol_stats.symbols.contains(k)
                            ==> #[trigger] final(stats).symbol_stats.activity(k)
                            == old(stats).symbol_stats.activity(k)
                            && final(stats).symbol_stats.volume_of(k) == old(stats).symbol_stats.volume_of(k)
                    &&& old(stats).event_stats.symbols.contains(toks[SYMBOL_IDX as int])
                        ==> final(stats).symbol_stats.symbols.len() == old(stats).symbol_stats.symbols.len()
                    &&& !old(stats).event_stats.symbols.contains(toks[SYMBOL_IDX as int]) ==> {
                        let l = final(stats).event_stats.list_of(toks[SYMBOL_IDX as int]);
                        &&& l.keys@.len() == 0
                        &&& l.ticks().len() == 0
                        &&& l.tick_count == 0
                        &&& final(stats).symbol_stats.symbols.len() == old(stats).symbol_stats.symbols.len() + 1
                        &&& final(stats).symbol_stats.activity(toks[SYMBOL_IDX as int]) == 0
                        &&& final(stats).symbol_stats.volume_of(toks[SYMBOL_IDX as int]) == 0
                    }
                }
            }
            &&& kind == NYSEMsg::T220 ==> {
                &&& trade_error(toks) is Some ==> r == Err::<(), FeedError>(trade_error(toks)->0)
                &&& trade_error(toks) is None && is_excluded_spec(tc2_of(toks[9]), tc4_of(toks[11]))
                    ==> r is Ok && figures_unchanged(old(stats), final(stats))
                &&& trade_is_counted(toks) && !old(stats).event_stats.symbols.contains(sym)
                    ==> r == Err::<(), FeedError>(FeedError::UnknownSymbol)
                &&& trade_is_counted(toks) && old(stats).event_stats.symbols.contains(sym)
                    && !time_is_valid(toks[2]) ==> r == Err::<(), FeedError>(FeedError::MalformedTime)
                &&& trade_is_counted(toks) && old(stats).event_stats.symbols.contains(sym)
                    && time_is_valid(toks[2]) ==> {
                    &&& r is Ok
                    &&& final(stats).event_stats.symbols == old(stats).event_stats.symbols
                    &&& forall|k: Seq<char>|
                        old(stats).event_stats.symbols.contains(k) && k != sym
                            ==> #[trigger] final(stats).event_stats.list_of(k)
                            == old(stats).event_stats.list_of(k)
                    &&& final(stats).trade_stats.total_volume == old(stats).trade_stats.total_volume + vol
                    &&& final(stats).trade_stats.trades == old(stats).trade_stats.trades + 1
                    &&& final(stats).event_stats.list_of(sym).tick_count == old(stats).event_stats.list_of(
                        sym,
                    ).tick_count + 1
                    &&& added_tick(
                        old(stats).event_stats.list_of(sym).keys@,
                        old(stats).event_stats.list_of(sym).buckets(),
                        final(stats).event_stats.list_of(sym).keys@,
                        final(stats).event_stats.list_of(sym).buckets(),
                        bucket_of(time_nanos(toks[2])),
                        toks[2],
                        price_units(toks[6]),
                        vol as int,
                    )
                    &&& final(stats).symbol_stats.activity(sym) == old(stats).symbol_stats.activity(sym) + 1
                    &&& final(stats).symbol_stats.volume_of(sym) == old(stats).symbol_stats.volume_of(sym)
                        + vol
                }
            }
        }),
{
    let ghost n = stats.msg_stats.total();
    let tokens = split(line.as_str(), ',');
    let ghost toks = views_of(tokens@);
    assert(toks[0] == tokens@[0]@);
    let msg_type = NYSEMsg::get(tokens[MSG_IDX].as_str());
    stats.msg_stats.add(msg_type);
    proof {
        let e = &stats.event_stats;
        assert forall|i: int| 0 <= i < e.symbol_events@.len() implies (
        #[trigger] e.symbol_events@[i]).tick_count <= n + 1 by {
            assert(e.symbol_events@[i].tick_count <= n);
        }
    }
    match msg_type {
        NYSEMsg::T003 => {
            if tokens.len() <= SYMBOL_IDX {
                return Err(FeedError::FieldCountError);
            }
            assert(toks[SYMBOL_IDX as int] == tokens@[SYMBOL_IDX as int]@);
            let symbol = tokens[SYMBOL_IDX].as_str();
            stats.event_stats.init(symbol);
            stats.symbol_stats.add(symbol);
            Ok(())
        },
        NYSEMsg::T034 => Ok(()),
        NYSEMsg::T220 => {
            let trade = T220::new(tokens)?;
            if trade.is_excluded() {
                return Ok(());
            }
            if !stats.event_stats.symbols.find(trade.symbol.as_str()).is_some() {
                return Err(FeedError::UnknownSymbol);
            }
            time_to_dec(trade.source_time.as_str())?;
            proof {
                let slot = stats.event_stats.symbols.slot(trade.symbol@);
                assert(stats.event_stats.symbol_events@[slot].tick_count <= n + 1);
                assert(stats.symbol_stats.symbols.contains(trade.symbol@));
            }
            let added = stats.trade_stats.add(&trade);
            assert(added is Ok);
            let updated = stats.event_stats.update(
                trade.symbol.as_str(),
                trade.source_time.as_str(),
                trade.price.as_str(),
                trade.volume,
            );
            assert(updated is Ok);
            stats.symbol_stats.update(trade.symbol.as_str(), trade.volume);
            Ok(())
        },
        NYSEMsg::ERROR => Err(FeedError::UnknownMessageType),
    }
}

} // verus!
