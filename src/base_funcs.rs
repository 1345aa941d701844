//! Message classification and cross-symbol statistics.
use vstd::prelude::*;
use std::collections::HashMap;
use crate::error::FeedError;
use crate::event_structs::{added_tick, bucket_of, price_is_valid, price_units, EventList};
use crate::mt220::T220;
use crate::ranking::{is_ranking, names_distinct, top_slots};
use crate::symbols::SymbolIndex;
use crate::text::str_eq;
use crate::time_funcs::{lemma_time_nanos_range, time_is_valid, time_nanos, time_to_dec};

verus! {

/// The kind of a feed message, told by its first token.
#[derive(Debug, Clone, Copy, PartialEq, Eq, Hash, Structural)]
pub enum NYSEMsg {
    /// Symbol index mapping ("3").
    T003,
    /// Security status ("34").
    T034,
    /// Trade ("220").
    T220,
    /// Anything else.
    ERROR,
}

/// The message kind that a leading token names.
pub open spec fn msg_kind_of(tok: Seq<char>) -> NYSEMsg {
    if tok == "3"@ {
        NYSEMsg::T003
    } else if tok == "34"@ {
        NYSEMsg::T034
    } else if tok == "220"@ {
        NYSEMsg::T220
    } else {
        NYSEMsg::ERROR
    }
}

impl NYSEMsg {
    /// Classifies a leading token; never fails.
    pub fn get(msg: &str) -> (r: NYSEMsg)
        ensures
            r == msg_kind_of(msg@),
    {
        if str_eq(msg, "3") {
            NYSEMsg::T003
        } else if str_eq(msg, "34") {
            NYSEMsg::T034
        } else if str_eq(msg, "220") {
            NYSEMsg::T220
        } else {
            NYSEMsg::ERROR
        }
    }
}

// ---------------------------------------------------------------- message counts

/// How many messages of each kind were seen.
#[derive(Debug)]
pub struct MsgStats {
    pub t003: usize,
    pub t034: usize,
    pub t220: usize,
    pub error: usize,
}

impl MsgStats {
    pub open spec fn count_of(&self, m: NYSEMsg) -> int {
        match m {
            NYSEMsg::T003 => self.t003 as int,
            NYSEMsg::T034 => self.t034 as int,
            NYSEMsg::T220 => self.t220 as int,
            NYSEMsg::ERROR => self.error as int,
        }
    }

    pub open spec fn total(&self) -> int {
        self.t003 + self.t034 + self.t220 + self.error
    }

    pub fn new() -> (r: MsgStats)
        ensures
            forall|m: NYSEMsg| #[trigger] r.count_of(m) == 0,
            r.total() == 0,
    {
        MsgStats { t003: 0, t034: 0, t220: 0, error: 0 }
    }

    /// Counts one message of kind `msg`.
    pub fn add(&mut self, msg: NYSEMsg)
        requires
            old(self).total() < usize::MAX,
        ensures
            forall|m: NYSEMsg| #[trigger]
                final(self).count_of(m) == old(self).count_of(m) + if m == msg {
                    1int
                } else {
                    0int
                },
            final(self).total() == old(self).total() + 1,
    {
        match msg {
            NYSEMsg::T003 => self.t003 = self.t003 + 1,
            NYSEMsg::T034 => self.t034 = self.t034 + 1,
            NYSEMsg::T220 => self.t220 = self.t220 + 1,
            NYSEMsg::ERROR => self.error = self.error + 1,
        }
    }

    /// The number of messages of kind `msg` seen.
    pub fn count(&self, msg: NYSEMsg) -> (r: usize)
        ensures
            r == self.count_of(msg),
    {
        match msg {
            NYSEMsg::T003 => self.t003,
            NYSEMsg::T034 => self.t034,
            NYSEMsg::T220 => self.t220,
            NYSEMsg::ERROR => self.error,
        }
    }
}

// ---------------------------------------------------------------- trade counts

/// Per-symbol trade counts and volumes, the total volume, and how many
/// trades arrived in each whole second.
pub struct TradeStats {
    pub symbols: SymbolIndex,
    /// Trades per symbol slot.
    pub counts: Vec<usize>,
    /// Volume per symbol slot.
    pub volumes: Vec<i128>,
    /// Trades per whole second (the second that contains the trade).
    pub rate: HashMap<i64, usize>,
    pub trades: usize,
    pub total_volume: i128,
}

impl TradeStats {
    pub open spec fn wf(&self) -> bool {
        &&& self.symbols.wf()
        &&& self.counts@.len() == self.symbols.len()
        &&& self.volumes@.len() == self.symbols.len()
        &&& forall|i: int| 0 <= i < self.counts@.len() ==> #[trigger] self.counts@[i] <= self.trades
        &&& forall|i: int|
            0 <= i < self.volumes@.len() ==> -(self.counts@[i] * 2_147_483_648) <= #[trigger] self.volumes@[i]
                <= self.counts@[i] * 2_147_483_648
        &&& -(self.trades * 2_147_483_648) <= self.total_volume <= self.trades * 2_147_483_648
        &&& forall|s: i64| #[trigger] self.rate@.contains_key(s) ==> self.rate@[s] <= self.trades
    }

    /// Trades seen for symbol `k`.
    pub open spec fn trades_of(&self, k: Seq<char>) -> int {
        if self.symbols.contains(k) {
            self.counts@[self.symbols.slot(k)] as int
        } else {
            0
        }
    }

    /// Volume traded in symbol `k`.
    pub open spec fn volume_of(&self, k: Seq<char>) -> int {
        if self.symbols.contains(k) {
            self.volumes@[self.symbols.slot(k)] as int
        } else {
            0
        }
    }

    /// Trades that arrived in second `s`.
    pub open spec fn rate_of(&self, s: i64) -> int {
        if self.rate@.contains_key(s) {
            self.rate@[s] as int
        } else {
            0
        }
    }

    pub fn new() -> (r: TradeStats)
        ensures
            r.wf(),
            r.trades == 0,
            r.total_volume == 0,
            r.symbols.len() == 0,
            forall|k: Seq<char>| !r.symbols.contains(k),
            r.rate@ == Map::<i64, usize>::empty(),
    {
        TradeStats {
            symbols: SymbolIndex::new(),
            counts: Vec::new(),
            volumes: Vec::new(),
            rate: HashMap::new(),
            trades: 0,
            total_volume: 0,
        }
    }

    /// Counts one trade: its symbol's count and volume, the total volume,
    /// and the count of the whole second that contains it.
    pub fn add(&mut self, trade: &T220) -> (r: Result<(), FeedError>)
        requires
            old(self).wf(),
            old(self).trades < usize::MAX,
        ensures
            final(self).wf(),
            !time_is_valid(trade.source_time@) ==> r == Err::<(), FeedError>(FeedError::MalformedTime)
                && *final(self) == *old(self),
            time_is_valid(trade.source_time@) ==> {
                let sec = bucket_of(time_nanos(trade.source_time@)) as i64;
                &&& r is Ok
                &&& final(self).trades == old(self).trades + 1
                &&& final(self).total_volume == old(self).total_volume + trade.volume
                &&& forall|k: Seq<char>| #[trigger]
                    final(self).symbols.contains(k) == (old(self).symbols.contains(k) || k
                        == trade.symbol@)
                &&& forall|k: Seq<char>| #[trigger]
                    final(self).trades_of(k) == old(self).trades_of(k) + if k == trade.symbol@ {
                        1int
                    } else {
                        0int
                    }
                &&& forall|k: Seq<char>| #[trigger]
                    final(self).volume_of(k) == old(self).volume_of(k) + if k == trade.symbol@ {
                        trade.volume as int
                    } else {
                        0int
                    }
                &&& final(self).rate@ == old(self).rate@.insert(
                    sec,
                    (old(self).rate_of(sec) + 1) as usize,
                )
            },
    {
        broadcast use vstd::std_specs::hash::group_hash_axioms;

        let nanos = time_to_dec(trade.source_time.as_str())?;
        proof {
            lemma_time_nanos_range(trade.source_time@);
        }
        let second: i64 = nanos / 1_000_000_000;
        let ghost old_self = *self;
        let slot = self.symbols.add(trade.symbol.as_str());
        if slot == self.counts.len() {
            self.counts.push(0);
            self.volumes.push(0);
        }
        assert(slot < self.counts@.len());
        let c = self.counts[slot];
        let v = self.volumes[slot];
        proof {
            let ci = c as int;
            assert(ci * 2_147_483_648 + 2_147_483_648 == (ci + 1) * 2_147_483_648) by (nonlinear_arith);
            let t = old_self.trades as int;
            assert(t * 2_147_483_648 + 2_147_483_648 == (t + 1) * 2_147_483_648) by (nonlinear_arith);
        }
        self.counts.set(slot, c + 1);
        self.volumes.set(slot, v + trade.volume as i128);
        self.trades = self.trades + 1;
        self.total_volume = self.total_volume + trade.volume as i128;
        let prev: usize = match self.rate.get(&second) {
            Some(n) => *n,
            None => 0,
        };
        self.rate.insert(second, prev + 1);
        proof {
            let sym = trade.symbol@;
            assert forall|k: Seq<char>| #[trigger] self.trades_of(k) == old_self.trades_of(k) + if k
                == sym {
                1int
            } else {
                0int
            } by {
                if k != sym && old_self.symbols.contains(k) {
                    assert(old_self.symbols.slot(k) != slot);
                }
            }
            assert forall|k: Seq<char>| #[trigger] self.volume_of(k) == old_self.volume_of(k) + if k
                == sym {
                trade.volume as int
            } else {
                0int
            } by {
                if k != sym && old_self.symbols.contains(k) {
                    assert(old_self.symbols.slot(k) != slot);
                }
            }
            assert forall|i: int| 0 <= i < self.counts@.len() implies #[trigger] self.counts@[i]
                <= self.trades by {
                if i != slot && i < old_self.counts@.len() {
                    assert(self.counts@[i] == old_self.counts@[i]);
                }
            }
            assert forall|i: int| 0 <= i < self.volumes@.len() implies -(self.counts@[i]
                * 2_147_483_648) <= #[trigger] self.volumes@[i] <= self.counts@[i] * 2_147_483_648 by {
                if i != slot && i < old_self.volumes@.len() {
                    assert(self.volumes@[i] == old_self.volumes@[i]);
                    assert(self.counts@[i] == old_self.counts@[i]);
                }
            }
            assert(self.rate@ =~= old_self.rate@.insert(second, (old_self.rate_of(second) + 1) as usize));
        }
        Ok(())
    }

    /// The number of symbols that traded.
    pub fn get_symbol_count(&self) -> (r: usize)
        requires
            self.wf(),
        ensures
            r == self.symbols.len(),
    {
        self.symbols.count()
    }

    /// The volume traded in `symbol` (zero if it never traded).
    pub fn get_count_per_symbol(&self, symbol: &str) -> (r: i128)
        requires
            self.wf(),
        ensures
            r == self.volume_of(symbol@),
    {
        match self.symbols.find(symbol) {
            Some(i) => self.volumes[i],
            None => 0,
        }
    }

    /// The number of trades seen for `symbol` (zero if it never traded).
    pub fn get_trade_count(&self, symbol: &str) -> (r: usize)
        requires
            self.wf(),
        ensures
            r == self.trades_of(symbol@),
    {
        match self.symbols.find(symbol) {
            Some(i) => self.counts[i],
            None => 0,
        }
    }

    /// The total volume of all trades.
    pub fn get_total_volume(&self) -> (r: i128)
        requires
            self.wf(),
        ensures
            r == self.total_volume,
    {
        self.total_volume
    }

    /// The average rate as its two terms: the number of trades and the
    /// number of distinct seconds in which trades arrived. The rate in
    /// trades per second is their quotient.
    pub fn get_average_rate(&self) -> (r: (usize, usize))
        requires
            self.wf(),
        ensures
            r.0 == self.trades,
            r.1 == self.rate@.len(),
    {
        broadcast use vstd::std_specs::hash::group_hash_axioms;

        (self.trades, self.rate.len())
    }
}

// ---------------------------------------------------------------- symbol activity

/// Per-symbol activity (accepted trades) and volume of registered symbols.
pub struct SymbolStats {
    pub symbols: SymbolIndex,
    /// Accepted trades per symbol slot.
    pub active: Vec<usize>,
    /// Volume per symbol slot.
    pub volume: Vec<i128>,
    /// Accepted trades over all symbols.
    pub updates: usize,
}

impl SymbolStats {
    pub open spec fn wf(&self) -> bool {
        &&& self.symbols.wf()
        &&& self.active@.len() == self.symbols.len()
        &&& self.volume@.len() == self.symbols.len()
        &&& forall|i: int| 0 <= i < self.active@.len() ==> #[trigger] self.active@[i] <= self.updates
        &&& forall|i: int|
            0 <= i < self.volume@.len() ==> -(self.active@[i] * 2_147_483_648) <= #[trigger] self.volume@[i]
                <= self.active@[i] * 2_147_483_648
    }

    /// Accepted trades of a registered symbol.
    pub open spec fn activity(&self, k: Seq<char>) -> int {
        self.active@[self.symbols.slot(k)] as int
    }

    /// Volume of a registered symbol.
    pub open spec fn volume_of(&self, k: Seq<char>) -> int {
        self.volume@[self.symbols.slot(k)] as int
    }

    pub fn new() -> (r: SymbolStats)
        ensures
            r.wf(),
            r.updates == 0,
            r.symbols.len() == 0,
            forall|k: Seq<char>| !r.symbols.contains(k),
    {
        SymbolStats { symbols: SymbolIndex::new(), active: Vec::new(), volume: Vec::new(), updates: 0 }
    }

    /// The number of registered symbols.
    pub fn get_symbol_count(&self) -> (r: usize)
        requires
            self.wf(),
        ensures
            r == self.symbols.len(),
    {
        self.symbols.count()
    }

    /// Registers a symbol with zero activity and volume; a symbol already
    /// registered keeps its figures.
    pub fn add(&mut self, symbol: &str)
        requires
            old(self).wf(),
        ensures
            final(self).wf(),
            final(self).updates == old(self).updates,
            forall|k: Seq<char>| #[trigger]
                final(self).symbols.contains(k) == (old(self).symbols.contains(k) || k == symbol@),
            forall|k: Seq<char>|
                old(self).symbols.contains(k) ==> #[trigger] final(self).activity(k) == old(
                    self,
                ).activity(k) && final(self).volume_of(k) == old(self).volume_of(k),
            !old(self).symbols.contains(symbol@) ==> final(self).activity(symbol@) == 0
                && final(self).volume_of(symbol@) == 0
                && final(self).symbols.len() == old(self).symbols.len() + 1,
            old(self).symbols.contains(symbol@) ==> final(self).symbols.len() == old(self).symbols.len(),
    {
        let slot = self.symbols.add(symbol);
        if slot == self.active.len() {
            self.active.push(0);
            self.volume.push(0);
        }
    }

    /// Counts one accepted trade of `symbol`; an unregistered symbol changes
    /// nothing.
    pub fn update(&mut self, symbol: &str, volume: i32)
        requires
            old(self).wf(),
            old(self).updates < usize::MAX,
        ensures
            final(self).wf(),
            !old(self).symbols.contains(symbol@) ==> *final(self) == *old(self),
            old(self).symbols.contains(symbol@) ==> {
                &&& final(self).updates == old(self).updates + 1
                &&& final(self).symbols == old(self).symbols
                &&& forall|k: Seq<char>|
                    old(self).symbols.contains(k) ==> #[trigger] final(self).activity(k) == old(
                        self,
                    ).activity(k) + if k == symbol@ {
                        1int
                    } else {
                        0int
                    }
                &&& forall|k: Seq<char>|
                    old(self).symbols.contains(k) ==> #[trigger] final(self).volume_of(k) == old(
                        self,
                    ).volume_of(k) + if k == symbol@ {
                        volume as int
                    } else {
                        0int
                    }
            },
    {
        let slot = match self.symbols.find(symbol) {
            Some(i) => i,
            None => {
                return;
            },
        };
        let ghost old_self = *self;
        let a = self.active[slot];
        let v = self.volume[slot];
        proof {
            let ai = a as int;
            assert(ai * 2_147_483_648 + 2_147_483_648 == (ai + 1) * 2_147_483_648) by (nonlinear_arith);
        }
        self.active.set(slot, a + 1);
        self.volume.set(slot, v + volume as i128);
        self.updates = self.updates + 1;
        proof {
            assert forall|k: Seq<char>|
                old_self.symbols.contains(k) implies #[trigger] self.activity(k) == old_self.activity(k)
                    + if k == symbol@ {
                    1int
                } else {
                    0int
                } by {
                if k != symbol@ {
                    assert(old_self.symbols.slot(k) != slot);
                }
            }
            assert forall|k: Seq<char>|
                old_self.symbols.contains(k) implies #[trigger] self.volume_of(k) == old_self.volume_of(k)
                    + if k == symbol@ {
                    volume as int
                } else {
                    0int
                } by {
                if k != symbol@ {
                    assert(old_self.symbols.slot(k) != slot);
                }
            }
            assert forall|i: int| 0 <= i < self.volume@.len() implies -(self.active@[i]
                * 2_147_483_648) <= #[trigger] self.volume@[i] <= self.active@[i] * 2_147_483_648 by {
                if i != slot {
                    assert(self.volume@[i] == old_self.volume@[i]);
                    assert(self.active@[i] == old_self.active@[i]);
                }
            }
            assert forall|i: int| 0 <= i < self.active@.len() implies #[trigger] self.active@[i]
                <= self.updates by {
                if i != slot {
                    assert(self.active@[i] == old_self.active@[i]);
                }
            }
        }
    }
}

/// (name, figure) pairs as plain values.
pub open spec fn activity_view(r: Seq<(String, usize)>) -> Seq<(Seq<char>, int)> {
    r.map_values(|e: (String, usize)| (e.0@, e.1 as int))
}

pub open spec fn volume_view(r: Seq<(String, i128)>) -> Seq<(Seq<char>, int)> {
    r.map_values(|e: (String, i128)| (e.0@, e.1 as int))
}

impl SymbolStats {
    /// Registered symbols, by slot.
    pub open spec fn name_views(&self) -> Seq<Seq<char>> {
        self.symbols.names@.map_values(|s: String| s@)
    }

    proof fn lemma_names_distinct(&self)
        requires
            self.wf(),
        ensures
            names_distinct(self.symbols.names@),
    {
        assert forall|i: int, j: int|
            0 <= i < self.symbols.names@.len() && 0 <= j < self.symbols.names@.len() && i != j
                implies self.symbols.names@[i]@ != self.symbols.names@[j]@ by {
            assert(self.symbols.slots@[self.symbols.names@[i]@] == i);
            assert(self.symbols.slots@[self.symbols.names@[j]@] == j);
        }
    }

    /// Turns the ranked slots into entries and shows they form a ranking.
    proof fn lemma_slots_rank(&self, slots: Seq<usize>, prio: Seq<i128>, f: spec_fn(Seq<char>) -> int, out: Seq<(Seq<char>, int)>, k: int)
        requires
            self.wf(),
            prio.len() == self.symbols.names@.len(),
            forall|i: int| 0 <= i < prio.len() ==> prio[i] as int == #[trigger] f(self.symbols.names@[i]@),
            slots.len() == if k < prio.len() { k } else { prio.len() as int },
            forall|a: int| 0 <= a < slots.len() ==> #[trigger] slots[a] < prio.len(),
            forall|a: int, b: int|
                0 <= a < b < slots.len() ==> crate::ranking::slot_before(
                    self.symbols.names@,
                    prio,
                    slots[a] as int,
                    slots[b] as int,
                ),
            forall|a: int, j: int|
                0 <= a < slots.len() && 0 <= j < prio.len() && !slots.contains(j as usize)
                    ==> crate::ranking::slot_before(self.symbols.names@, prio, slots[a] as int, j),
            out.len() == slots.len(),
            forall|a: int|
                0 <= a < out.len() ==> #[trigger] out[a] == (
                    self.symbols.names@[slots[a] as int]@,
                    prio[slots[a] as int] as int,
                ),
        ensures
            is_ranking(out, self.name_views(), f, k),
    {
        let names = self.name_views();
        assert(names.len() == prio.len());
        assert forall|a: int, b: int| 0 <= a < b < out.len() implies crate::ranking::ranks_before(
            out[a].1,
            out[a].0,
            out[b].1,
            out[b].0,
        ) by {
            assert(out[a] == (self.symbols.names@[slots[a] as int]@, prio[slots[a] as int] as int));
            assert(out[b] == (self.symbols.names@[slots[b] as int]@, prio[slots[b] as int] as int));
            assert(crate::ranking::slot_before(
                self.symbols.names@,
                prio,
                slots[a] as int,
                slots[b] as int,
            ));
        }
        assert forall|a: int| 0 <= a < out.len() implies names.contains(#[trigger] out[a].0) && out[a].1 == f(out[a].0) by {
            assert(names[slots[a] as int] == out[a].0);
        }
        assert forall|a: int, x: Seq<char>|
            #![trigger out[a], names.contains(x)]
            0 <= a < out.len() && names.contains(x) && !crate::ranking::listed(out, x)
                implies crate::ranking::ranks_before(out[a].1, out[a].0, f(x), x) by {
            let j = choose|j: int| 0 <= j < names.len() && names[j] == x;
            assert(names[j] == self.symbols.names@[j]@);
            if slots.contains(j as usize) {
                let b = choose|b: int| 0 <= b < slots.len() && slots[b] == j as usize;
                assert(out[b].0 == x);
                assert(crate::ranking::listed(out, x));
            }
            assert(prio[j] as int == f(self.symbols.names@[j]@));
            assert(out[a] == (
                self.symbols.names@[slots[a] as int]@,
                prio[slots[a] as int] as int,
            ));
            assert(crate::ranking::slot_before(self.symbols.names@, prio, slots[a] as int, j));
        }
    }

    /// The `k` most active symbols (all, if fewer are registered) with their
    /// accepted-trade counts, highest first, ties in lexical order of the
    /// symbol. Reading leaves the figures as they are.
    pub fn get_most_active(&self, k: usize) -> (r: Vec<(String, usize)>)
        requires
            self.wf(),
        ensures
            is_ranking(activity_view(r@), self.name_views(), |x: Seq<char>| self.activity(x), k as int),
    {
        let n = self.active.len();
        let mut prio: Vec<i128> = Vec::new();
        let mut i: usize = 0;
        while i < n
            invariant
                self.wf(),
                n == self.active@.len(),
                0 <= i <= n,
                prio@.len() == i,
                forall|j: int| 0 <= j < i ==> #[trigger] prio@[j] == self.active@[j] as i128,
            decreases n - i,
        {
            prio.push(self.active[i] as i128);
            i = i + 1;
        }
        proof {
            self.lemma_names_distinct();
        }
        let slots = top_slots(&self.symbols.names, &prio, k);
        let mut out: Vec<(String, usize)> = Vec::new();
        let mut a: usize = 0;
        while a < slots.len()
            invariant
                self.wf(),
                prio@.len() == n,
                n == self.active@.len(),
                forall|a: int| 0 <= a < slots@.len() ==> #[trigger] slots@[a] < n,
                0 <= a <= slots@.len(),
                out@.len() == a,
                forall|b: int|
                    0 <= b < a ==> #[trigger] out@[b].0@ == self.symbols.names@[slots@[b] as int]@
                        && out@[b].1 == self.active@[slots@[b] as int],
            decreases slots@.len() - a,
        {
            let s = slots[a];
            out.push((self.symbols.names[s].clone(), self.active[s]));
            a = a + 1;
        }
        proof {
            let f = |x: Seq<char>| self.activity(x);
            assert forall|i: int| 0 <= i < prio@.len() implies prio@[i] as int == #[trigger] f(
                self.symbols.names@[i]@,
            ) by {
                assert(self.symbols.slots@[self.symbols.names@[i]@] == i);
            }
            let v = activity_view(out@);
            assert forall|b: int| 0 <= b < v.len() implies #[trigger] v[b] == (
                self.symbols.names@[slots@[b] as int]@,
                prio@[slots@[b] as int] as int,
            ) by {}
            self.lemma_slots_rank(slots@, prio@, f, v, k as int);
        }
        out
    }

    /// The `k` symbols with the highest volume (all, if fewer are
    /// registered) with their volumes, highest first, ties in lexical order
    /// of the symbol. Reading leaves the figures as they are.
    pub fn get_highest_volume(&self, k: usize) -> (r: Vec<(String, i128)>)
        requires
            self.wf(),
        ensures
            is_ranking(volume_view(r@), self.name_views(), |x: Seq<char>| self.volume_of(x), k as int),
    {
        proof {
            self.lemma_names_distinct();
        }
        let slots = top_slots(&self.symbols.names, &self.volume, k);
        let mut out: Vec<(String, i128)> = Vec::new();
        let mut a: usize = 0;
        while a < slots.len()
            invariant
                self.wf(),
                forall|a: int| 0 <= a < slots@.len() ==> #[trigger] slots@[a] < self.volume@.len(),
                0 <= a <= slots@.len(),
                out@.len() == a,
                forall|b: int|
                    0 <= b < a ==> #[trigger] out@[b].0@ == self.symbols.names@[slots@[b] as int]@
                        && out@[b].1 == self.volume@[slots@[b] as int],
            decreases slots@.len() - a,
        {
            let s = slots[a];
            out.push((self.symbols.names[s].clone(), self.volume[s]));
            a = a + 1;
        }
        proof {
            let f = |x: Seq<char>| self.volume_of(x);
            assert forall|i: int| 0 <= i < self.volume@.len() implies self.volume@[i] as int
                == #[trigger] f(self.symbols.names@[i]@) by {
                assert(self.symbols.slots@[self.symbols.names@[i]@] == i);
            }
            let v = volume_view(out@);
            assert forall|b: int| 0 <= b < v.len() implies #[trigger] v[b] == (
                self.symbols.names@[slots@[b] as int]@,
                self.volume@[slots@[b] as int] as int,
            ) by {}
            self.lemma_slots_rank(slots@, self.volume@, f, v, k as int);
        }
        out
    }
}

// ---------------------------------------------------------------- event lists

/// The bucket list of every registered symbol.
pub struct EventStats {
    pub symbols: SymbolIndex,
    /// The list of each symbol slot.
    pub symbol_events: Vec<EventList>,
}

impl EventStats {
    pub open spec fn wf(&self) -> bool {
        &&& self.symbols.wf()
        &&& self.symbol_events@.len() == self.symbols.len()
        &&& forall|i: int| 0 <= i < self.symbol_events@.len() ==> (#[trigger] self.symbol_events@[i]).wf()
    }

    /// The list of a registered symbol.
    pub open spec fn list_of(&self, k: Seq<char>) -> EventList {
        self.symbol_events@[self.symbols.slot(k)]
    }

    /// No list is longer than `n` ticks.
    pub open spec fn ticks_at_most(&self, n: int) -> bool {
        forall|i: int| 0 <= i < self.symbol_events@.len() ==> (#[trigger] self.symbol_events@[i]).tick_count <= n
    }

    pub fn new() -> (r: EventStats)
        ensures
            r.wf(),
            forall|k: Seq<char>| !r.symbols.contains(k),
            r.ticks_at_most(0),
    {
        EventStats { symbols: SymbolIndex::new(), symbol_events: Vec::new() }
    }

    /// Registers a symbol with an empty list; a registered symbol keeps its
    /// list.
    pub fn init(&mut self, symbol: &str)
        requires
            old(self).wf(),
        ensures
            final(self).wf(),
            forall|k: Seq<char>| #[trigger]
                final(self).symbols.contains(k) == (old(self).symbols.contains(k) || k == symbol@),
            forall|k: Seq<char>|
                old(self).symbols.contains(k) ==> #[trigger] final(self).list_of(k) == old(self).list_of(k),
            !old(self).symbols.contains(symbol@) ==> {
                let l = final(self).list_of(symbol@);
                &&& l.keys@.len() == 0
                &&& l.events@.len() == 0
                &&& l.ticks().len() == 0
                &&& l.tick_count == 0
                &&& l.total_price == 0
                &&& l.total_volume == 0
            },
            forall|n: int| old(self).ticks_at_most(n) && n >= 0 ==> #[trigger] final(self).ticks_at_most(n),
    {
        let ghost old_self = *self;
        let slot = self.symbols.add(symbol);
        if slot == self.symbol_events.len() {
            self.symbol_events.push(EventList::new());
            proof {
                assert forall|k: Seq<char>|
                    old_self.symbols.contains(k) implies #[trigger] self.list_of(k) == old_self.list_of(k) by {
                    assert(old_self.symbols.slot(k) < slot);
                }
            }
        }
    }

    /// Adds one trade to the list of its symbol.
    pub fn update(&mut self, symbol: &str, seconds: &str, s_price: &str, volume: i32) -> (r: Result<(), FeedError>)
        requires
            old(self).wf(),
            old(self).symbols.contains(symbol@) ==> old(self).list_of(symbol@).tick_count < usize::MAX,
        ensures
            final(self).wf(),
            final(self).symbols == old(self).symbols,
            !old(self).symbols.contains(symbol@) ==> r == Err::<(), FeedError>(FeedError::UnknownSymbol),
            r is Err ==> final(self).symbol_events@ == old(self).symbol_events@,
            old(self).symbols.contains(symbol@) ==> {
                &&& forall|k: Seq<char>|
                    old(self).symbols.contains(k) && k != symbol@ ==> #[trigger] final(self).list_of(k)
                        == old(self).list_of(k)
                &&& final(self).list_of(symbol@).tick_count <= old(self).list_of(symbol@).tick_count + 1
                &&& !time_is_valid(seconds@) ==> r == Err::<(), FeedError>(FeedError::MalformedTime)
                &&& time_is_valid(seconds@) && !price_is_valid(s_price@) ==> r == Err::<(), FeedError>(
                    FeedError::FieldParseError(crate::error::TradeField::Price),
                )
                &&& r is Ok ==> final(self).list_of(symbol@).tick_count == old(self).list_of(
                    symbol@,
                ).tick_count + 1
                &&& time_is_valid(seconds@) && price_is_valid(s_price@) ==> r is Ok && added_tick(
                    old(self).list_of(symbol@).keys@,
                    old(self).list_of(symbol@).buckets(),
                    final(self).list_of(symbol@).keys@,
                    final(self).list_of(symbol@).buckets(),
                    bucket_of(time_nanos(seconds@)),
                    seconds@,
                    price_units(s_price@),
                    volume as int,
                )
            },
            forall|n: int| #[trigger] old(self).ticks_at_most(n) ==> final(self).ticks_at_most(n + 1),
    {
        let slot = match self.symbols.find(symbol) {
            Some(i) => i,
            None => {
                return Err(FeedError::UnknownSymbol);
            },
        };
        let ghost old_self = *self;
        assert(self.symbol_events@[slot as int].wf());
        let r = self.symbol_events[slot].update(seconds, s_price, volume);
        proof {
            assert forall|k: Seq<char>|
                old_self.symbols.contains(k) && k != symbol@ implies #[trigger] self.list_of(k)
                    == old_self.list_of(k) by {
                assert(old_self.symbols.slot(k) != slot);
            }
            if r is Err {
                assert(self.symbol_events@ =~= old_self.symbol_events@);
            }
            assert forall|i: int| 0 <= i < self.symbol_events@.len() implies (
            #[trigger] self.symbol_events@[i]).wf() by {
                if i != slot {
                    assert(self.symbol_events@[i] == old_self.symbol_events@[i]);
                }
            }
            assert forall|n: int| #[trigger] old_self.ticks_at_most(n) implies self.ticks_at_most(n + 1) by {
                assert forall|i: int| 0 <= i < self.symbol_events@.len() implies (
                #[trigger] self.symbol_events@[i]).tick_count <= n + 1 by {
                    assert(old_self.symbol_events@[i].tick_count <= n);
                    if i != slot {
                        assert(self.symbol_events@[i] == old_self.symbol_events@[i]);
                    }
                }
            }
        }
        r
    }

    /// The list of a registered symbol.
    pub fn get(&self, symbol: &str) -> (r: Option<&EventList>)
        requires
            self.wf(),
        ensures
            !self.symbols.contains(symbol@) ==> r is None,
            self.symbols.contains(symbol@) ==> r is Some && *r->0 == self.list_of(symbol@),
            r is Some ==> r->0.wf(),
    {
        match self.symbols.find(symbol) {
            Some(i) => {
                assert(self.symbol_events@[i as int].wf());
                Some(&self.symbol_events[i])
            },
            None => None,
        }
    }
}

// ---------------------------------------------------------------- everything

/// All the figures gathered from a feed.
pub struct Stats {
    pub msg_stats: MsgStats,
    pub trade_stats: TradeStats,
    pub symbol_stats: SymbolStats,
    pub event_stats: EventStats,
}

impl Stats {
    /// The parts agree: the same symbols are registered for ranking and for
    /// bucketing, and no counter exceeds the number of lines seen.
    pub open spec fn wf(&self) -> bool {
        let n = self.msg_stats.total();
        &&& self.trade_stats.wf()
        &&& self.symbol_stats.wf()
        &&& self.event_stats.wf()
        &&& forall|k: Seq<char>| #[trigger] self.event_stats.symbols.contains(k)
            == self.symbol_stats.symbols.contains(k)
        &&& self.trade_stats.trades <= n
        &&& self.symbol_stats.updates <= n
        &&& self.event_stats.ticks_at_most(n)
    }

    /// Fresh statistics: no message counted, no symbol registered or traded.
    pub fn new() -> (r: Stats)
        ensures
            r.wf(),
            r.msg_stats.total() == 0,
            forall|m: NYSEMsg| #[trigger] r.msg_stats.count_of(m) == 0,
            forall|k: Seq<char>|
                !(#[trigger] r.event_stats.symbols.contains(k)) && !r.symbol_stats.symbols.contains(k)
                    && !r.trade_stats.symbols.contains(k),
            r.symbol_stats.symbols.len() == 0,
            r.trade_stats.trades == 0,
            r.trade_stats.total_volume == 0,
            r.trade_stats.rate@ == Map::<i64, usize>::empty(),
            r.event_stats.ticks_at_most(0),
    {
        Stats {
            msg_stats: MsgStats::new(),
            trade_stats: TradeStats::new(),
            symbol_stats: SymbolStats::new(),
            event_stats: EventStats::new(),
        }
    }
}

} // verus!
