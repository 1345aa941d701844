//! Per-symbol aggregation: trades are bucketed by whole second, each bucket
//! keeping its ticks in arrival order with running sums and extrema.
use vstd::prelude::*;
use vstd::arithmetic::div_mod::{lemma_fundamental_div_mod, lemma_mod_pos_bound};
use crate::error::{FeedError, TradeField};
use crate::text::{
    all_digits, digits_value, is_numeral, lemma_digits_value_bounds, parse_digits,
    split, split_on, views_of,
};
use crate::time_funcs::{
    decimal2hhmmssnnn, fraction_nanos, lemma_fraction_bound, nanos_text, s2hhmmss_64, time_is_valid,
    time_nanos, time_to_dec, hhmmss_text, NANOS_PER_SEC,
};

verus! {

/// Prices are held as integer multiples of 10^-9.
pub const PRICE_SCALE: i64 = 1_000_000_000;

/// The lowest price that an empty list reports: 100,000,000 (in units of one).
pub const EMPTY_MIN_PRICE: i64 = 100_000_000_000_000_000;

/// One accepted trade tick.
#[derive(Debug, Clone, PartialEq, Hash)]
pub struct MuEvent {
    /// The time as it came, `HH:MM:SS.nnnnnnnnn`.
    pub string_time: String,
    /// Nanoseconds since midnight.
    pub seconds: i64,
    /// Price in units of 10^-9.
    pub price: i64,
    pub volume: i32,
}

// ---------------------------------------------------------------- prices

/// Whether a price token is in the feed's price grammar: `digits` or
/// `digits.fraction`, at least one integer digit, at most nine fraction
/// digits, no sign, and a value that fits the price range. Any other token
/// (`-1`, `+1`, `.5`, `1.`, `1.0000000001`) is refused.
pub open spec fn price_is_valid(s: Seq<char>) -> bool {
    let parts = split_on(s, '.');
    &&& is_numeral(parts[0])
    &&& (parts.len() == 1 || (parts.len() == 2 && is_numeral(parts[1]) && parts[1].len() <= 9))
    &&& price_units(s) <= i64::MAX
}

/// The price a valid token denotes, in units of 10^-9.
pub open spec fn price_units(s: Seq<char>) -> int {
    let parts = split_on(s, '.');
    digits_value(parts[0]) * PRICE_SCALE + if parts.len() == 2 {
        fraction_nanos(parts[1])
    } else {
        0
    }
}

/// Reads a decimal price into units of 10^-9.
pub fn parse_price(s: &str) -> (r: Option<i64>)
    ensures
        r == (if price_is_valid(s@) {
            Some(price_units(s@) as i64)
        } else {
            None::<i64>
        }),
        r is Some ==> r->0 >= 0 && r->0 as int == price_units(s@),
{
    let parts = split(s, '.');
    let ghost p = views_of(parts@);
    assert(p[0] == parts@[0]@);
    let whole = match parse_digits(parts[0].as_str(), 9_223_372_037) {
        Some(v) => v,
        None => {
            proof {
                if is_numeral(p[0]) {
                    lemma_digits_value_bounds(p[0]);
                    if parts@.len() == 2 && all_digits(p[1]) {
                        lemma_fraction_bound(p[1]);
                    }
                }
            }
            return None;
        },
    };
    let frac: u64 = if parts.len() == 1 {
        0
    } else if parts.len() == 2 {
        assert(p[1] == parts@[1]@);
        if parts[1].unicode_len() > 9 {
            return None;
        }
        match crate::time_funcs::parse_fraction_nanos(parts[1].as_str()) {
            Some(v) => v,
            None => {
                return None;
            },
        }
    } else {
        return None;
    };
    let units = whole * 1_000_000_000 + frac;
    if units > 9_223_372_036_854_775_807 {
        return None;
    }
    Some(units as i64)
}

/// The prices of a series of (time, price, volume) points.
pub fn get_prices(inp: Vec<(String, i32, i32)>) -> (r: Vec<i32>)
    ensures
        r@.len() == inp@.len(),
        forall|i: int| 0 <= i < inp@.len() ==> #[trigger] r@[i] == inp@[i].1,
{
    let mut outv: Vec<i32> = Vec::new();
    let mut i: usize = 0;
    while i < inp.len()
        invariant
            0 <= i <= inp@.len(),
            outv@.len() == i,
            forall|j: int| 0 <= j < i ==> #[trigger] outv@[j] == inp@[j].1,
        decreases inp@.len() - i,
    {
        outv.push(inp[i].1);
        i = i + 1;
    }
    outv
}

// ---------------------------------------------------------------- sums over ticks

/// The sum of `f` over a sequence of ticks.
pub open spec fn tick_sum(t: Seq<MuEvent>, f: spec_fn(MuEvent) -> int) -> int
    decreases t.len(),
{
    if t.len() == 0 {
        0
    } else {
        tick_sum(t.drop_last(), f) + f(t.last())
    }
}

pub open spec fn price_term() -> spec_fn(MuEvent) -> int {
    |m: MuEvent| m.price as int
}

pub open spec fn volume_term() -> spec_fn(MuEvent) -> int {
    |m: MuEvent| m.volume as int
}

pub open spec fn sum_prices(t: Seq<MuEvent>) -> int {
    tick_sum(t, price_term())
}

pub open spec fn sum_volumes(t: Seq<MuEvent>) -> int {
    tick_sum(t, volume_term())
}

pub proof fn lemma_tick_sum_concat(a: Seq<MuEvent>, b: Seq<MuEvent>, f: spec_fn(MuEvent) -> int)
    ensures
        tick_sum(a + b, f) == tick_sum(a, f) + tick_sum(b, f),
    decreases b.len(),
{
    if b.len() == 0 {
        assert(a + b =~= a);
    } else {
        assert((a + b).drop_last() =~= a + b.drop_last());
        lemma_tick_sum_concat(a, b.drop_last(), f);
    }
}

/// Sums are bounded by the count times the largest term.
pub proof fn lemma_tick_sums_bounded(t: Seq<MuEvent>)
    requires
        forall|i: int| 0 <= i < t.len() ==> (#[trigger] t[i]).price >= 0,
    ensures
        0 <= sum_prices(t) <= t.len() * i64::MAX,
        -(t.len() * 2_147_483_648) <= sum_volumes(t) <= t.len() * 2_147_483_648,
    decreases t.len(),
{
    if t.len() > 0 {
        let d = t.drop_last();
        assert forall|i: int| 0 <= i < d.len() implies (#[trigger] d[i]).price >= 0 by {
            assert(d[i] == t[i]);
        }
        lemma_tick_sums_bounded(d);
        assert(t.last().price >= 0);
    }
}

/// A tick sequence of the machine's size has sums that fit 128 bits.
pub proof fn lemma_tick_sums_fit(t: Seq<MuEvent>)
    requires
        forall|i: int| 0 <= i < t.len() ==> (#[trigger] t[i]).price >= 0,
        t.len() <= usize::MAX,
    ensures
        0 <= sum_prices(t) <= usize::MAX * i64::MAX,
        -(usize::MAX * 2_147_483_648) <= sum_volumes(t) <= usize::MAX * 2_147_483_648,
{
    lemma_tick_sums_bounded(t);
    let n = t.len() as int;
    assert(n * i64::MAX <= usize::MAX * i64::MAX) by (nonlinear_arith)
        requires
            0 <= n <= usize::MAX,
    ;
    assert(n * 2_147_483_648 <= usize::MAX * 2_147_483_648) by (nonlinear_arith)
        requires
            0 <= n <= usize::MAX,
    ;
}

// ---------------------------------------------------------------- extrema

pub open spec fn is_min_price(v: int, t: Seq<MuEvent>) -> bool {
    &&& exists|i: int| 0 <= i < t.len() && t[i].price == v
    &&& forall|j: int| 0 <= j < t.len() ==> v <= (#[trigger] t[j]).price
}

pub open spec fn is_max_price(v: int, t: Seq<MuEvent>) -> bool {
    &&& exists|i: int| 0 <= i < t.len() && t[i].price == v
    &&& forall|j: int| 0 <= j < t.len() ==> (#[trigger] t[j]).price <= v
}

pub open spec fn is_min_volume(v: int, t: Seq<MuEvent>) -> bool {
    &&& exists|i: int| 0 <= i < t.len() && t[i].volume == v
    &&& forall|j: int| 0 <= j < t.len() ==> v <= (#[trigger] t[j]).volume
}

pub open spec fn is_max_volume(v: int, t: Seq<MuEvent>) -> bool {
    &&& exists|i: int| 0 <= i < t.len() && t[i].volume == v
    &&& forall|j: int| 0 <= j < t.len() ==> (#[trigger] t[j]).volume <= v
}

// ---------------------------------------------------------------- one bucket

/// The ticks of one symbol that fall in one second.
#[derive(Debug, Clone, PartialEq, Hash)]
pub struct Event {
    /// Ticks in arrival order.
    pub tics: Vec<MuEvent>,
    pub total_price: i128,
    pub total_volume: i128,
    pub tic_count: usize,
    pub max_price: i64,
    pub min_price: i64,
    pub max_volume: i32,
    pub min_volume: i32,
}

impl Event {
    /// The bucket's running figures agree with its ticks.
    pub open spec fn wf(&self) -> bool {
        let t = self.tics@;
        &&& t.len() >= 1
        &&& self.tic_count == t.len()
        &&& forall|i: int| 0 <= i < t.len() ==> (#[trigger] t[i]).price >= 0
        &&& self.total_price == sum_prices(t)
        &&& self.total_volume == sum_volumes(t)
        &&& is_min_price(self.min_price as int, t)
        &&& is_max_price(self.max_price as int, t)
        &&& is_min_volume(self.min_volume as int, t)
        &&& is_max_volume(self.max_volume as int, t)
    }

    /// A bucket holding one tick.
    pub fn new(price: i64, volume: i32, seconds: i64, string_time: String) -> (r: Event)
        requires
            price >= 0,
        ensures
            r.wf(),
            r.tics@ == seq![MuEvent { string_time, seconds, price, volume }],
    {
        let ghost st = string_time;
        let mut tics: Vec<MuEvent> = Vec::new();
        tics.push(MuEvent { string_time, seconds, price, volume });
        let r = Event {
            tics,
            total_price: price as i128,
            total_volume: volume as i128,
            tic_count: 1,
            max_price: price,
            min_price: price,
            max_volume: volume,
            min_volume: volume,
        };
        let ghost t = r.tics@;
        assert(t.drop_last() =~= Seq::<MuEvent>::empty());
        assert(t[0].price == price && t[0].volume == volume);
        assert(tick_sum(t.drop_last(), price_term()) == 0);
        assert(tick_sum(t.drop_last(), volume_term()) == 0);
        assert(sum_prices(t) == price as int);
        assert(sum_volumes(t) == volume as int);
        assert(t =~= seq![MuEvent { string_time: st, seconds, price, volume }]);
        r
    }

    /// Appends a tick and updates the running figures in constant time.
    pub fn update(&mut self, price: i64, volume: i32, u_sec: i64, string_time: String)
        requires
            old(self).wf(),
            price >= 0,
            old(self).tic_count < usize::MAX,
        ensures
            final(self).wf(),
            final(self).tics@ == old(self).tics@.push(
                MuEvent { string_time, seconds: u_sec, price, volume },
            ),
    {
        let ghost t0 = self.tics@;
        proof {
            lemma_tick_sums_bounded(t0);
            let n = t0.len() as int;
            assert(n * i64::MAX + i64::MAX <= usize::MAX * i64::MAX) by (nonlinear_arith)
                requires
                    0 <= n < usize::MAX,
            ;
            assert(n * 2_147_483_648 + 2_147_483_648 <= usize::MAX * 2_147_483_648)
                by (nonlinear_arith)
                requires
                    0 <= n < usize::MAX,
            ;
        }
        self.total_price = self.total_price + price as i128;
        self.total_volume = self.total_volume + volume as i128;
        self.tic_count = self.tic_count + 1;
        self.tics.push(MuEvent { string_time, seconds: u_sec, price, volume });
        if price < self.min_price {
            self.min_price = price;
        }
        if price > self.max_price {
            self.max_price = price;
        }
        if volume < self.min_volume {
            self.min_volume = volume;
        }
        if volume > self.max_volume {
            self.max_volume = volume;
        }
        let ghost t = self.tics@;
        assert(t.drop_last() =~= t0);
        let ghost last = t.len() - 1;
        assert(t[last].price == price && t[last].volume == volume);
        assert forall|j: int| 0 <= j < t.len() implies (#[trigger] t[j]).price >= 0 by {
            if j < last {
                assert(t[j] == t0[j]);
            }
        }
        assert(is_min_price(self.min_price as int, t)) by {
            assert forall|j: int| 0 <= j < t.len() implies self.min_price <= (
            #[trigger] t[j]).price by {
                if j < last {
                    assert(t[j] == t0[j]);
                }
            }
            if self.min_price == price {
                assert(t[last].price == self.min_price);
            } else {
                let i = choose|i: int| 0 <= i < t0.len() && t0[i].price == self.min_price;
                assert(t[i] == t0[i]);
            }
        }
        assert(is_max_price(self.max_price as int, t)) by {
            assert forall|j: int| 0 <= j < t.len() implies (#[trigger] t[j]).price
                <= self.max_price by {
                if j < last {
                    assert(t[j] == t0[j]);
                }
            }
            if self.max_price == price {
                assert(t[last].price == self.max_price);
            } else {
                let i = choose|i: int| 0 <= i < t0.len() && t0[i].price == self.max_price;
                assert(t[i] == t0[i]);
            }
        }
        assert(is_min_volume(self.min_volume as int, t)) by {
            assert forall|j: int| 0 <= j < t.len() implies self.min_volume <= (
            #[trigger] t[j]).volume by {
                if j < last {
                    assert(t[j] == t0[j]);
                }
            }
            if self.min_volume == volume {
                assert(t[last].volume == self.min_volume);
            } else {
                let i = choose|i: int| 0 <= i < t0.len() && t0[i].volume == self.min_volume;
                assert(t[i] == t0[i]);
            }
        }
        assert(is_max_volume(self.max_volume as int, t)) by {
            assert forall|j: int| 0 <= j < t.len() implies (#[trigger] t[j]).volume
                <= self.max_volume by {
                if j < last {
                    assert(t[j] == t0[j]);
                }
            }
            if self.max_volume == volume {
                assert(t[last].volume == self.max_volume);
            } else {
                let i = choose|i: int| 0 <= i < t0.len() && t0[i].volume == self.max_volume;
                assert(t[i] == t0[i]);
            }
        }
    }

    /// The mean price of the bucket's ticks, rounded down to a unit.
    pub fn get_avg_price(&self) -> (r: i64)
        requires
            self.wf(),
        ensures
            r as int == sum_prices(self.tics@) / self.tics@.len() as int,
    {
        proof {
            lemma_tick_sums_fit(self.tics@);
            lemma_tick_sums_bounded(self.tics@);
            let s = sum_prices(self.tics@);
            let n = self.tics@.len() as int;
            assert(s / n <= i64::MAX) by (nonlinear_arith)
                requires
                    0 <= s <= n * i64::MAX,
                    n >= 1,
            ;
        }
        ((self.total_price as u128) / (self.tic_count as u128)) as i64
    }

    /// The total volume of the bucket's ticks.
    pub fn get_volume(&self) -> (r: i128)
        requires
            self.wf(),
        ensures
            r == sum_volumes(self.tics@),
    {
        self.total_volume
    }

    /// The lowest and highest price among the bucket's ticks.
    pub fn get_min_max_price(&self) -> (r: (i64, i64))
        requires
            self.wf(),
        ensures
            is_min_price(r.0 as int, self.tics@),
            is_max_price(r.1 as int, self.tics@),
    {
        (self.min_price, self.max_price)
    }

    /// The lowest and highest volume among the bucket's ticks.
    pub fn get_min_max_volume(&self) -> (r: (i32, i32))
        requires
            self.wf(),
        ensures
            is_min_volume(r.0 as int, self.tics@),
            is_max_volume(r.1 as int, self.tics@),
    {
        (self.min_volume, self.max_volume)
    }
}

// ---------------------------------------------------------------- tick sequences

/// The ticks of a run of buckets, bucket after bucket.
pub open spec fn flatten(ss: Seq<Seq<MuEvent>>) -> Seq<MuEvent>
    decreases ss.len(),
{
    if ss.len() == 0 {
        Seq::<MuEvent>::empty()
    } else {
        flatten(ss.drop_last()) + ss.last()
    }
}

pub proof fn lemma_flatten_concat(a: Seq<Seq<MuEvent>>, b: Seq<Seq<MuEvent>>)
    ensures
        flatten(a + b) == flatten(a) + flatten(b),
    decreases b.len(),
{
    if b.len() == 0 {
        assert(a + b =~= a);
        assert(flatten(a) + flatten(b) =~= flatten(a));
    } else {
        assert((a + b).drop_last() =~= a + b.drop_last());
        lemma_flatten_concat(a, b.drop_last());
        assert(flatten(a + b) =~= flatten(a) + flatten(b));
    }
}

pub proof fn lemma_flatten_one(x: Seq<MuEvent>)
    ensures
        flatten(seq![x]) == x,
{
    assert(seq![x].drop_last() =~= Seq::<Seq<MuEvent>>::empty());
    assert(flatten(Seq::<Seq<MuEvent>>::empty()) =~= Seq::<MuEvent>::empty());
    assert(seq![x].last() == x);
    assert(Seq::<MuEvent>::empty() + x =~= x);
}

/// Flattening a prefix one bucket longer adds that bucket's ticks.
pub proof fn lemma_flatten_take_next(ss: Seq<Seq<MuEvent>>, i: int)
    requires
        0 <= i < ss.len(),
    ensures
        flatten(ss.take(i + 1)) == flatten(ss.take(i)) + ss[i],
{
    assert(ss.take(i + 1).drop_last() =~= ss.take(i));
}

pub open spec fn prices_nonneg(t: Seq<MuEvent>) -> bool {
    forall|k: int| 0 <= k < t.len() ==> (#[trigger] t[k]).price >= 0
}

pub proof fn lemma_prices_nonneg_concat(a: Seq<MuEvent>, b: Seq<MuEvent>)
    ensures
        prices_nonneg(a + b) == (prices_nonneg(a) && prices_nonneg(b)),
{
    if prices_nonneg(a) && prices_nonneg(b) {
        assert forall|k: int| 0 <= k < (a + b).len() implies (#[trigger] (a + b)[k]).price
            >= 0 by {
            if k < a.len() {
                assert((a + b)[k] == a[k]);
            } else {
                assert((a + b)[k] == b[k - a.len()]);
            }
        }
    }
    if prices_nonneg(a + b) {
        assert forall|k: int| 0 <= k < a.len() implies (#[trigger] a[k]).price >= 0 by {
            assert((a + b)[k] == a[k]);
        }
        assert forall|k: int| 0 <= k < b.len() implies (#[trigger] b[k]).price >= 0 by {
            assert((a + b)[k + a.len()] == b[k]);
        }
    }
}

/// Whether `m` is the tick that a time token, a price and a volume make.
pub open spec fn is_tick(m: MuEvent, time: Seq<char>, price: int, volume: int) -> bool {
    &&& m.string_time@ == time
    &&& m.seconds == time_nanos(time)
    &&& m.price == price
    &&& m.volume == volume
}

/// The bucket key of a time: whole seconds, rounded down.
pub open spec fn bucket_of(nanos: int) -> int {
    nanos / NANOS_PER_SEC as int
}

// ---------------------------------------------------------------- the bucket list

/// All buckets of one symbol, ordered by second.
#[derive(Debug, Clone, PartialEq, Hash)]
pub struct EventList {
    /// Bucket keys, whole seconds since midnight, strictly increasing.
    pub keys: Vec<i64>,
    /// The bucket of each key.
    pub events: Vec<Event>,
    pub tick_count: usize,
    pub total_price: i128,
    pub total_volume: i128,
}

/// After one tick was added: appended to the bucket of its second if there
/// was one, else in a new bucket opened at its place in key order; nothing
/// else changed.
pub open spec fn added_tick(
    before: Seq<i64>,
    bb: Seq<Seq<MuEvent>>,
    after: Seq<i64>,
    ab: Seq<Seq<MuEvent>>,
    key: int,
    time: Seq<char>,
    price: int,
    volume: int,
) -> bool {
    if before.contains(key as i64) {
        exists|i: int|
            0 <= i < before.len() && before[i] == key && after == before && ab.len() == bb.len()
                && ab[i].drop_last() == bb[i] && ab[i].len() == bb[i].len() + 1 && is_tick(
                ab[i].last(),
                time,
                price,
                volume,
            ) && (forall|j: int| 0 <= j < bb.len() && j != i ==> ab[j] == bb[j])
    } else {
        exists|p: int|
            0 <= p <= before.len() && after == before.insert(p, key as i64) && ab.len() == bb.len()
                + 1 && ab.remove(p) == bb && ab[p].len() == 1 && is_tick(
                ab[p][0],
                time,
                price,
                volume,
            )
    }
}

impl EventList {
    /// The ticks of each bucket, in key order.
    pub open spec fn buckets(&self) -> Seq<Seq<MuEvent>> {
        self.events@.map_values(|e: Event| e.tics@)
    }

    /// Every tick, bucket by bucket in key order, each bucket in arrival order.
    pub open spec fn ticks(&self) -> Seq<MuEvent> {
        flatten(self.buckets())
    }

    pub open spec fn wf(&self) -> bool {
        &&& self.keys@.len() == self.events@.len()
        &&& forall|i: int, j: int|
            0 <= i < j < self.keys@.len() ==> self.keys@[i] < self.keys@[j]
        &&& forall|i: int| 0 <= i < self.events@.len() ==> (#[trigger] self.events@[i]).wf()
        &&& forall|i: int, j: int|
            0 <= i < self.events@.len() && 0 <= j < self.events@[i].tics@.len() ==> {
                &&& (#[trigger] self.events@[i].tics@[j]).seconds >= 0
                &&& bucket_of(self.events@[i].tics@[j].seconds as int) == self.keys@[i]
            }
        &&& prices_nonneg(self.ticks())
        &&& self.tick_count == self.ticks().len()
        &&& self.total_price == sum_prices(self.ticks())
        &&& self.total_volume == sum_volumes(self.ticks())
    }

    /// An empty list.
    pub fn new() -> (r: EventList)
        ensures
            r.wf(),
            r.keys@.len() == 0,
            r.ticks().len() == 0,
    {
        let r = EventList {
            keys: Vec::new(),
            events: Vec::new(),
            tick_count: 0,
            total_price: 0,
            total_volume: 0,
        };
        assert(r.buckets() =~= Seq::<Seq<MuEvent>>::empty());
        r
    }

    /// The number of buckets.
    pub fn bucket_count(&self) -> (r: usize)
        requires
            self.wf(),
        ensures
            r == self.keys@.len(),
    {
        self.keys.len()
    }

    /// Position of the first key not below `k`.
    fn find_slot(&self, k: i64) -> (p: usize)
        requires
            self.wf(),
        ensures
            p <= self.keys@.len(),
            forall|j: int| 0 <= j < p ==> self.keys@[j] < k,
            forall|j: int| p <= j < self.keys@.len() ==> self.keys@[j] >= k,
    {
        let mut lo: usize = 0;
        let mut hi: usize = self.keys.len();
        while lo < hi
            invariant
                self.wf(),
                0 <= lo <= hi <= self.keys@.len(),
                forall|j: int| 0 <= j < lo ==> self.keys@[j] < k,
                forall|j: int| hi <= j < self.keys@.len() ==> self.keys@[j] >= k,
            decreases hi - lo,
        {
            let mid = lo + (hi - lo) / 2;
            if self.keys[mid] < k {
                lo = mid + 1;
            } else {
                hi = mid;
            }
        }
        lo
    }

    /// Adds one trade: decodes its time and price, finds or opens the bucket
    /// of its second, and appends the tick there.
    pub fn update(&mut self, seconds: &str, f_price: &str, volume: i32) -> (r: Result<(), FeedError>)
        requires
            old(self).wf(),
            old(self).tick_count < usize::MAX,
        ensures
            final(self).wf(),
            !time_is_valid(seconds@) ==> r == Err::<(), FeedError>(FeedError::MalformedTime),
            time_is_valid(seconds@) && !price_is_valid(f_price@) ==> r == Err::<(), FeedError>(
                FeedError::FieldParseError(TradeField::Price),
            ),
            r is Err ==> *final(self) == *old(self),
            time_is_valid(seconds@) && price_is_valid(f_price@) ==> {
                &&& r is Ok
                &&& added_tick(
                    old(self).keys@,
                    old(self).buckets(),
                    final(self).keys@,
                    final(self).buckets(),
                    bucket_of(time_nanos(seconds@)),
                    seconds@,
                    price_units(f_price@),
                    volume as int,
                )
                &&& final(self).tick_count == old(self).tick_count + 1
                &&& final(self).total_volume == old(self).total_volume + volume
                &&& final(self).total_price == old(self).total_price + price_units(f_price@)
            },
    {
        let nanos = time_to_dec(seconds)?;
        let price = match parse_price(f_price) {
            Some(p) => p,
            None => {
                return Err(FeedError::FieldParseError(TradeField::Price));
            },
        };
        proof {
            crate::time_funcs::lemma_time_nanos_range(seconds@);
        }
        let k: i64 = nanos / NANOS_PER_SEC;
        let p = self.find_slot(k);
        let text = seconds.to_owned();
        let ghost m = MuEvent { string_time: text, seconds: nanos, price, volume };
        let ghost old_b = self.buckets();
        if p < self.keys.len() && self.keys[p] == k {
            self.append_at(p, price, volume, nanos, text);
            proof {
                let new_b = self.buckets();
                assert(old(self).keys@.contains(k));
                assert(new_b[p as int].drop_last() =~= old_b[p as int]);
                assert(new_b[p as int].last() == m);
                assert(forall|j: int| 0 <= j < old_b.len() && j != p ==> new_b[j] == old_b[j]);
                assert(0 <= p < old(self).keys@.len() && old(self).keys@[p as int] == k
                    && self.keys@ == old(self).keys@ && new_b.len() == old_b.len()
                    && new_b[p as int].drop_last() == old_b[p as int] && new_b[p as int].len()
                    == old_b[p as int].len() + 1 && is_tick(
                    new_b[p as int].last(),
                    seconds@,
                    price_units(f_price@),
                    volume as int,
                ));
            }
        } else {
            self.open_at(p, price, volume, nanos, text);
            proof {
                let new_b = self.buckets();
                assert(!old(self).keys@.contains(k)) by {
                    if old(self).keys@.contains(k) {
                        let j = choose|j: int|
                            0 <= j < old(self).keys@.len() && old(self).keys@[j] == k;
                        assert(j < p || j >= p);
                    }
                }
                assert(new_b.remove(p as int) =~= old_b);
                assert(new_b[p as int] == seq![m]);
                assert(0 <= p <= old(self).keys@.len() && self.keys@ == old(self).keys@.insert(
                    p as int,
                    k,
                ) && new_b.len() == old_b.len() + 1 && new_b.remove(p as int) == old_b
                    && new_b[p as int].len() == 1 && is_tick(
                    new_b[p as int][0],
                    seconds@,
                    price_units(f_price@),
                    volume as int,
                ));
            }
        }
        Ok(())
    }

    /// Appends a tick to the bucket at position `p`, which holds its second.
    fn append_at(&mut self, p: usize, price: i64, volume: i32, nanos: i64, text: String)
        requires
            old(self).wf(),
            old(self).tick_count < usize::MAX,
            p < old(self).keys@.len(),
            nanos >= 0,
            price >= 0,
            old(self).keys@[p as int] == bucket_of(nanos as int),
        ensures
            final(self).wf(),
            final(self).keys@ == old(self).keys@,
            final(self).buckets() == old(self).buckets().update(
                p as int,
                old(self).buckets()[p as int].push(
                    MuEvent { string_time: text, seconds: nanos, price, volume },
                ),
            ),
            final(self).tick_count == old(self).tick_count + 1,
            final(self).total_volume == old(self).total_volume + volume,
            final(self).total_price == old(self).total_price + price,
    {
        let ghost m = MuEvent { string_time: text, seconds: nanos, price, volume };
        let ghost old_b = self.buckets();
        let ghost old_events = self.events@;
        proof {
            lemma_list_sums_room(old_b, self.tick_count as int);
            assert(old_b[p as int] == old_events[p as int].tics@);
            lemma_bucket_in_total(old_b, p as int);
        }
        self.events[p].update(price, volume, nanos, text);
        self.tick_count = self.tick_count + 1;
        self.total_price = self.total_price + price as i128;
        self.total_volume = self.total_volume + volume as i128;
        proof {
            let x = old_b[p as int].push(m);
            let new_b = self.buckets();
            assert(new_b =~= old_b.update(p as int, x));
            lemma_replace_bucket(old_b, p as int, x);
            lemma_prices_nonneg_concat(old_b[p as int], seq![m]);
            assert(x =~= old_b[p as int] + seq![m]);
            reveal_with_fuel(tick_sum, 2);
            lemma_tick_sum_concat(old_b[p as int], seq![m], price_term());
            lemma_tick_sum_concat(old_b[p as int], seq![m], volume_term());
            assert forall|i: int| 0 <= i < self.events@.len() implies (
            #[trigger] self.events@[i]).wf() by {
                if i != p {
                    assert(self.events@[i] == old_events[i]);
                }
            }
            assert forall|i: int, j: int|
                0 <= i < self.events@.len() && 0 <= j < self.events@[i].tics@.len() implies {
                    &&& (#[trigger] self.events@[i].tics@[j]).seconds >= 0
                    &&& bucket_of(self.events@[i].tics@[j].seconds as int) == self.keys@[i]
                } by {
                if i != p {
                    assert(self.events@[i] == old_events[i]);
                } else if j < old_events[i].tics@.len() {
                    assert(self.events@[i].tics@[j] == old_events[i].tics@[j]);
                }
            }
        }
    }

    /// Opens a bucket holding one tick at position `p` of the key order.
    fn open_at(&mut self, p: usize, price: i64, volume: i32, nanos: i64, text: String)
        requires
            old(self).wf(),
            old(self).tick_count < usize::MAX,
            p <= old(self).keys@.len(),
            nanos >= 0,
            price >= 0,
            forall|j: int| 0 <= j < p ==> old(self).keys@[j] < bucket_of(nanos as int),
            forall|j: int|
                p <= j < old(self).keys@.len() ==> old(self).keys@[j] > bucket_of(nanos as int),
        ensures
            final(self).wf(),
            final(self).keys@ == old(self).keys@.insert(p as int, (nanos / NANOS_PER_SEC) as i64),
            final(self).buckets() == old(self).buckets().insert(
                p as int,
                seq![MuEvent { string_time: text, seconds: nanos, price, volume }],
            ),
            final(self).tick_count == old(self).tick_count + 1,
            final(self).total_volume == old(self).total_volume + volume,
            final(self).total_price == old(self).total_price + price,
    {
        let ghost m = MuEvent { string_time: text, seconds: nanos, price, volume };
        let ghost old_b = self.buckets();
        let ghost old_events = self.events@;
        let ghost old_keys = self.keys@;
        proof {
            lemma_list_sums_room(old_b, self.tick_count as int);
        }
        let e = Event::new(price, volume, nanos, text);
        self.keys.insert(p, nanos / NANOS_PER_SEC);
        self.events.insert(p, e);
        self.tick_count = self.tick_count + 1;
        self.total_price = self.total_price + price as i128;
        self.total_volume = self.total_volume + volume as i128;
        proof {
            let new_b = self.buckets();
            assert(new_b =~= old_b.insert(p as int, seq![m]));
            lemma_insert_bucket(old_b, p as int, seq![m]);
            lemma_prices_nonneg_concat(Seq::<MuEvent>::empty(), seq![m]);
            assert(Seq::<MuEvent>::empty() + seq![m] =~= seq![m]);
            reveal_with_fuel(tick_sum, 2);
            assert forall|i: int, j: int|
                0 <= i < j < self.keys@.len() implies self.keys@[i] < self.keys@[j] by {
                if j < p {
                } else if j == p {
                } else if i < p {
                } else if i == p {
                    assert(self.keys@[j] == old_keys[j - 1]);
                } else {
                    assert(self.keys@[j] == old_keys[j - 1]);
                    assert(self.keys@[i] == old_keys[i - 1]);
                }
            }
            assert forall|i: int, j: int|
                0 <= i < self.events@.len() && 0 <= j < self.events@[i].tics@.len() implies {
                    &&& (#[trigger] self.events@[i].tics@[j]).seconds >= 0
                    &&& bucket_of(self.events@[i].tics@[j].seconds as int) == self.keys@[i]
                } by {
                if i < p {
                    assert(self.events@[i] == old_events[i]);
                } else if i > p {
                    assert(self.events@[i] == old_events[i - 1]);
                    assert(self.keys@[i] == old_keys[i - 1]);
                }
            }
            assert forall|i: int| 0 <= i < self.events@.len() implies (
            #[trigger] self.events@[i]).wf() by {
                if i < p {
                    assert(self.events@[i] == old_events[i]);
                } else if i > p {
                    assert(self.events@[i] == old_events[i - 1]);
                }
            }
        }
    }
}


impl EventList {
    /// The total volume over all buckets.
    pub fn get_volume(&self) -> (r: i128)
        requires
            self.wf(),
        ensures
            r == sum_volumes(self.ticks()),
    {
        self.total_volume
    }

    /// The mean price over all ticks, rounded down to a unit; zero when empty.
    pub fn get_average_price(&self) -> (r: i64)
        requires
            self.wf(),
        ensures
            self.ticks().len() == 0 ==> r == 0,
            self.ticks().len() > 0 ==> r as int == sum_prices(self.ticks()) / self.ticks().len() as int,
    {
        if self.tick_count == 0 {
            return 0;
        }
        proof {
            lemma_tick_sums_bounded(self.ticks());
            let s = sum_prices(self.ticks());
            let n = self.ticks().len() as int;
            assert(s / n <= i64::MAX) by (nonlinear_arith)
                requires
                    0 <= s <= n * i64::MAX,
                    n >= 1,
            ;
        }
        ((self.total_price as u128) / (self.tick_count as u128)) as i64
    }

    /// The number of ticks over all buckets.
    pub fn get_event_count(&self) -> (r: usize)
        requires
            self.wf(),
        ensures
            r == self.ticks().len(),
    {
        self.tick_count
    }

    /// Every tick as (nanoseconds, price, volume): bucket by bucket in key
    /// order, each bucket in arrival order.
    pub fn get_full_time_series(&self) -> (r: Vec<(i64, i64, i32)>)
        requires
            self.wf(),
        ensures
            r@.len() == self.ticks().len(),
            forall|k: int| 0 <= k < r@.len() ==> r@[k] == triple(#[trigger] self.ticks()[k]),
    {
        let ghost bs = self.buckets();
        let mut out: Vec<(i64, i64, i32)> = Vec::new();
        let mut i: usize = 0;
        while i < self.events.len()
            invariant
                self.wf(),
                bs == self.buckets(),
                0 <= i <= self.events@.len(),
                out@.len() == flatten(bs.take(i as int)).len(),
                forall|k: int| 0 <= k < out@.len() ==> out@[k] == triple(flatten(bs.take(i as int))[k]),
            decreases self.events@.len() - i,
        {
            let e = &self.events[i];
            let ghost before = flatten(bs.take(i as int));
            let mut j: usize = 0;
            while j < e.tics.len()
                invariant
                    0 <= j <= e.tics@.len(),
                    out@.len() == (before + e.tics@.take(j as int)).len(),
                    forall|k: int|
                        0 <= k < out@.len() ==> out@[k] == triple(
                            (before + e.tics@.take(j as int))[k],
                        ),
                decreases e.tics@.len() - j,
            {
                let t = &e.tics[j];
                out.push((t.seconds, t.price, t.volume));
                assert(before + e.tics@.take(j + 1) =~= (before + e.tics@.take(j as int)).push(
                    e.tics@[j as int],
                ));
                j = j + 1;
            }
            proof {
                assert(e.tics@.take(j as int) =~= e.tics@);
                lemma_flatten_take_next(bs, i as int);
            }
            i = i + 1;
        }
        assert(bs.take(i as int) =~= bs);
        out
    }

    /// Every tick as (`HH:MM:SS.nnnnnnnnn`, price, volume), in the order of
    /// `get_full_time_series`.
    pub fn get_full_time_series_s(&self) -> (r: Vec<(String, i64, i32)>)
        requires
            self.wf(),
        ensures
            r@.len() == self.ticks().len(),
            forall|k: int|
                0 <= k < r@.len() ==> {
                    &&& r@[k].0@ == nanos_text((#[trigger] self.ticks()[k]).seconds as nat)
                    &&& r@[k].1 == self.ticks()[k].price
                    &&& r@[k].2 == self.ticks()[k].volume
                },
    {
        let ghost bs = self.buckets();
        let mut out: Vec<(String, i64, i32)> = Vec::new();
        let mut i: usize = 0;
        while i < self.events.len()
            invariant
                self.wf(),
                bs == self.buckets(),
                0 <= i <= self.events@.len(),
                out@.len() == flatten(bs.take(i as int)).len(),
                forall|k: int|
                    0 <= k < out@.len() ==> {
                        &&& out@[k].0@ == nanos_text(flatten(bs.take(i as int))[k].seconds as nat)
                        &&& out@[k].1 == flatten(bs.take(i as int))[k].price
                        &&& out@[k].2 == flatten(bs.take(i as int))[k].volume
                    },
            decreases self.events@.len() - i,
        {
            let e = &self.events[i];
            let ghost before = flatten(bs.take(i as int));
            let mut j: usize = 0;
            while j < e.tics.len()
                invariant
                    self.wf(),
                    0 <= i < self.events@.len(),
                    *e == self.events@[i as int],
                    0 <= j <= e.tics@.len(),
                    out@.len() == (before + e.tics@.take(j as int)).len(),
                    forall|k: int|
                        0 <= k < out@.len() ==> {
                            &&& out@[k].0@ == nanos_text(
                                (before + e.tics@.take(j as int))[k].seconds as nat,
                            )
                            &&& out@[k].1 == (before + e.tics@.take(j as int))[k].price
                            &&& out@[k].2 == (before + e.tics@.take(j as int))[k].volume
                        },
                decreases e.tics@.len() - j,
            {
                let t = &e.tics[j];
                assert(self.events@[i as int].tics@[j as int].seconds >= 0);
                out.push((decimal2hhmmssnnn(t.seconds), t.price, t.volume));
                assert(before + e.tics@.take(j + 1) =~= (before + e.tics@.take(j as int)).push(
                    e.tics@[j as int],
                ));
                j = j + 1;
            }
            proof {
                assert(e.tics@.take(j as int) =~= e.tics@);
                lemma_flatten_take_next(bs, i as int);
            }
            i = i + 1;
        }
        assert(bs.take(i as int) =~= bs);
        out
    }

    /// The first tick of every `step`-th bucket, in key order.
    pub fn get_time_series(&self, step: i32) -> (r: Vec<(i64, i64, i32)>)
        requires
            self.wf(),
            step > 0,
        ensures
            r@.len() * step >= self.keys@.len(),
            r@.len() > 0 ==> (r@.len() - 1) * step < self.keys@.len(),
            forall|q: int|
                0 <= q < r@.len() ==> #[trigger] r@[q] == triple(self.buckets()[q * step][0]),
    {
        let n = self.events.len();
        let mut out: Vec<(i64, i64, i32)> = Vec::new();
        let mut i: u128 = 0;
        while i < n as u128
            invariant
                self.wf(),
                n == self.events@.len(),
                step > 0,
                i == out@.len() * step,
                out@.len() > 0 ==> (out@.len() - 1) * step < n,
                forall|q: int|
                    0 <= q < out@.len() ==> #[trigger] out@[q] == triple(
                        self.buckets()[q * step][0],
                    ),
            decreases n as int + step as int - i as int,
        {
            let e = &self.events[i as usize];
            assert(self.events@[i as int].wf());
            let t = &e.tics[0];
            out.push((t.seconds, t.price, t.volume));
            proof {
                let len = out@.len() as int;
                assert((len - 1) * step == i);
                assert(len * step == (len - 1) * step + step) by (nonlinear_arith);
            }
            i = i + step as u128;
        }
        out
    }

    /// One point per bucket: (second, mean price rounded down, total volume).
    pub fn get_sec_avg_time_series(&self) -> (r: Vec<(i64, i64, i128)>)
        requires
            self.wf(),
        ensures
            r@.len() == self.keys@.len(),
            forall|i: int|
                0 <= i < r@.len() ==> r@[i] == (
                    self.keys@[i],
                    (sum_prices(self.buckets()[i]) / self.buckets()[i].len() as int) as i64,
                    sum_volumes(self.buckets()[i]) as i128,
                ),
    {
        let mut out: Vec<(i64, i64, i128)> = Vec::new();
        let mut i: usize = 0;
        while i < self.events.len()
            invariant
                self.wf(),
                0 <= i <= self.events@.len(),
                out@.len() == i,
                forall|k: int|
                    0 <= k < i ==> out@[k] == (
                        self.keys@[k],
                        (sum_prices(self.buckets()[k]) / self.buckets()[k].len() as int) as i64,
                        sum_volumes(self.buckets()[k]) as i128,
                    ),
            decreases self.events@.len() - i,
        {
            assert(self.events@[i as int].wf());
            let e = &self.events[i];
            out.push((self.keys[i], e.get_avg_price(), e.get_volume()));
            i = i + 1;
        }
        out
    }

    /// One point per bucket: (`HH:MM:SS`, mean price rounded down, total volume).
    pub fn get_sec_avg_time_series_s(&self) -> (r: Vec<(String, i64, i128)>)
        requires
            self.wf(),
        ensures
            r@.len() == self.keys@.len(),
            forall|i: int|
                0 <= i < r@.len() ==> {
                    &&& r@[i].0@ == hhmmss_text(self.keys@[i] as int)
                    &&& r@[i].1 == (sum_prices(self.buckets()[i]) / self.buckets()[i].len() as int)
                    &&& r@[i].2 == sum_volumes(self.buckets()[i])
                },
    {
        let mut out: Vec<(String, i64, i128)> = Vec::new();
        let mut i: usize = 0;
        while i < self.events.len()
            invariant
                self.wf(),
                0 <= i <= self.events@.len(),
                out@.len() == i,
                forall|k: int|
                    0 <= k < i ==> {
                        &&& out@[k].0@ == hhmmss_text(self.keys@[k] as int)
                        &&& out@[k].1 == (sum_prices(self.buckets()[k])
                            / self.buckets()[k].len() as int)
                        &&& out@[k].2 == sum_volumes(self.buckets()[k])
                    },
            decreases self.events@.len() - i,
        {
            assert(self.events@[i as int].wf());
            assert(self.events@[i as int].tics@[0].seconds >= 0);
            let e = &self.events[i];
            out.push((s2hhmmss_64(self.keys[i]), e.get_avg_price(), e.get_volume()));
            i = i + 1;
        }
        out
    }

    /// The lowest and highest price and volume over all ticks, as
    /// (min price, max price, min volume, max volume). An empty list gives
    /// the neutral figures (`EMPTY_MIN_PRICE`, 0, `i32::MAX`, 0).
    pub fn get_min_max_price_volume(&self) -> (r: (i64, i64, i32, i32))
        requires
            self.wf(),
        ensures
            self.ticks().len() == 0 ==> r == (EMPTY_MIN_PRICE, 0i64, i32::MAX, 0i32),
            self.ticks().len() > 0 ==> {
                &&& is_min_price(r.0 as int, self.ticks())
                &&& is_max_price(r.1 as int, self.ticks())
                &&& is_min_volume(r.2 as int, self.ticks())
                &&& is_max_volume(r.3 as int, self.ticks())
            },
    {
        let ghost bs = self.buckets();
        if self.events.len() == 0 {
            assert(bs =~= Seq::<Seq<MuEvent>>::empty());
            return (EMPTY_MIN_PRICE, 0, i32::MAX, 0);
        }
        assert(self.events@[0].wf());
        let mut min_p = self.events[0].min_price;
        let mut max_p = self.events[0].max_price;
        let mut min_v = self.events[0].min_volume;
        let mut max_v = self.events[0].max_volume;
        proof {
            lemma_flatten_take_next(bs, 0);
            assert(bs.take(0) =~= Seq::<Seq<MuEvent>>::empty());
            assert(flatten(bs.take(1)) =~= bs[0]);
        }
        let mut i: usize = 1;
        while i < self.events.len()
            invariant
                self.wf(),
                bs == self.buckets(),
                1 <= i <= self.events@.len(),
                is_min_price(min_p as int, flatten(bs.take(i as int))),
                is_max_price(max_p as int, flatten(bs.take(i as int))),
                is_min_volume(min_v as int, flatten(bs.take(i as int))),
                is_max_volume(max_v as int, flatten(bs.take(i as int))),
            decreases self.events@.len() - i,
        {
            assert(self.events@[i as int].wf());
            let e = &self.events[i];
            proof {
                lemma_flatten_take_next(bs, i as int);
                lemma_extrema_concat(
                    flatten(bs.take(i as int)),
                    bs[i as int],
                    min_p as int,
                    e.min_price as int,
                    max_p as int,
                    e.max_price as int,
                    min_v as int,
                    e.min_volume as int,
                    max_v as int,
                    e.max_volume as int,
                );
            }
            if e.min_price < min_p {
                min_p = e.min_price;
            }
            if e.max_price > max_p {
                max_p = e.max_price;
            }
            if e.min_volume < min_v {
                min_v = e.min_volume;
            }
            if e.max_volume > max_v {
                max_v = e.max_volume;
            }
            i = i + 1;
        }
        assert(bs.take(i as int) =~= bs);
        (min_p, max_p, min_v, max_v)
    }
}

/// A tick as (nanoseconds, price, volume).
pub open spec fn triple(m: MuEvent) -> (i64, i64, i32) {
    (m.seconds, m.price, m.volume)
}

/// The extrema of two runs of ticks combine into those of their concatenation.
proof fn lemma_extrema_concat(
    x: Seq<MuEvent>,
    y: Seq<MuEvent>,
    a1: int,
    b1: int,
    a2: int,
    b2: int,
    a3: int,
    b3: int,
    a4: int,
    b4: int,
)
    requires
        is_min_price(a1, x),
        is_min_price(b1, y),
        is_max_price(a2, x),
        is_max_price(b2, y),
        is_min_volume(a3, x),
        is_min_volume(b3, y),
        is_max_volume(a4, x),
        is_max_volume(b4, y),
    ensures
        is_min_price(if b1 < a1 { b1 } else { a1 }, x + y),
        is_max_price(if b2 > a2 { b2 } else { a2 }, x + y),
        is_min_volume(if b3 < a3 { b3 } else { a3 }, x + y),
        is_max_volume(if b4 > a4 { b4 } else { a4 }, x + y),
{
    let z = x + y;
    assert forall|j: int| 0 <= j < z.len() implies z[j] == if j < x.len() {
        x[j]
    } else {
        y[j - x.len()]
    } by {}
    let i1 = choose|i: int| 0 <= i < x.len() && x[i].price == a1;
    let j1 = choose|i: int| 0 <= i < y.len() && y[i].price == b1;
    assert(z[i1] == x[i1] && z[j1 + x.len()] == y[j1]);
    let i2 = choose|i: int| 0 <= i < x.len() && x[i].price == a2;
    let j2 = choose|i: int| 0 <= i < y.len() && y[i].price == b2;
    assert(z[i2] == x[i2] && z[j2 + x.len()] == y[j2]);
    let i3 = choose|i: int| 0 <= i < x.len() && x[i].volume == a3;
    let j3 = choose|i: int| 0 <= i < y.len() && y[i].volume == b3;
    assert(z[i3] == x[i3] && z[j3 + x.len()] == y[j3]);
    let i4 = choose|i: int| 0 <= i < x.len() && x[i].volume == a4;
    let j4 = choose|i: int| 0 <= i < y.len() && y[i].volume == b4;
    assert(z[i4] == x[i4] && z[j4 + x.len()] == y[j4]);
    assert forall|j: int| 0 <= j < z.len() implies {
        &&& (if b1 < a1 { b1 } else { a1 }) <= (#[trigger] z[j]).price
        &&& z[j].price <= (if b2 > a2 { b2 } else { a2 })
        &&& (if b3 < a3 { b3 } else { a3 }) <= z[j].volume
        &&& z[j].volume <= (if b4 > a4 { b4 } else { a4 })
    } by {
        if j < x.len() {
            assert(z[j] == x[j]);
        } else {
            assert(z[j] == y[j - x.len()]);
        }
    }
}

// ---------------------------------------------------------------- time order

/// Whether tick times never decrease along a run of ticks.
pub open spec fn times_nondecreasing(t: Seq<MuEvent>) -> bool {
    forall|a: int, b: int| 0 <= a < b < t.len() ==> t[a].seconds <= t[b].seconds
}

/// The time series comes out in time order whenever each bucket received its
/// ticks in time order (as it does when trades arrive in time order): buckets
/// follow one another in key order, and every tick of a bucket lies in its
/// second.
pub proof fn lemma_series_time_ordered(l: EventList)
    requires
        l.wf(),
        forall|i: int| 0 <= i < l.buckets().len() ==> times_nondecreasing(#[trigger] l.buckets()[i]),
    ensures
        times_nondecreasing(l.ticks()),
{
    let bs = l.buckets();
    lemma_prefix_time_ordered(l, bs.len() as int);
    assert(bs.take(bs.len() as int) =~= bs);
}

/// The first `i` buckets come out in time order, and before the `i`-th key.
proof fn lemma_prefix_time_ordered(l: EventList, i: int)
    requires
        l.wf(),
        forall|c: int| 0 <= c < l.buckets().len() ==> times_nondecreasing(#[trigger] l.buckets()[c]),
        0 <= i <= l.buckets().len(),
    ensures
        times_nondecreasing(flatten(l.buckets().take(i))),
        i < l.buckets().len() ==> forall|k: int|
            0 <= k < flatten(l.buckets().take(i)).len() ==> (#[trigger] flatten(
                l.buckets().take(i),
            )[k]).seconds < l.keys@[i] * NANOS_PER_SEC,
    decreases i,
{
    let bs = l.buckets();
    let n = bs.len() as int;
    if i == 0 {
        assert(bs.take(0) =~= Seq::<Seq<MuEvent>>::empty());
    } else {
        let h = i - 1;
        lemma_prefix_time_ordered(l, h);
        let f = flatten(bs.take(h));
        let b = bs[h];
        lemma_flatten_take_next(bs, h);
        assert(l.events@[h].wf());
        assert forall|j: int| 0 <= j < b.len() implies l.keys@[h] * NANOS_PER_SEC <= (
        #[trigger] b[j]).seconds && b[j].seconds < (l.keys@[h] + 1) * NANOS_PER_SEC by {
            assert(b[j] == l.events@[h].tics@[j]);
            let s = b[j].seconds as int;
            lemma_fundamental_div_mod(s, 1_000_000_000);
            lemma_mod_pos_bound(s, 1_000_000_000);
        }
        let g = f + b;
        assert(times_nondecreasing(b));
        assert forall|a: int, c: int| 0 <= a < c < g.len() implies g[a].seconds
            <= g[c].seconds by {
            if c < f.len() {
                assert(g[a] == f[a] && g[c] == f[c]);
            } else if a >= f.len() {
                assert(g[a] == b[a - f.len()] && g[c] == b[c - f.len()]);
            } else {
                assert(g[a] == f[a] && g[c] == b[c - f.len()]);
                assert(f[a].seconds < l.keys@[h] * NANOS_PER_SEC);
            }
        }
        if i < n {
            assert(l.keys@[h] < l.keys@[i]);
            assert forall|k: int| 0 <= k < g.len() implies (#[trigger] g[k]).seconds
                < l.keys@[i] * NANOS_PER_SEC by {
                if k < f.len() {
                    assert(g[k] == f[k]);
                    assert(f[k].seconds < l.keys@[h] * NANOS_PER_SEC);
                } else {
                    assert(g[k] == b[k - f.len()]);
                }
            }
        }
    }
}

/// Every bucket holds its ticks in time order.
pub open spec fn buckets_time_ordered(bs: Seq<Seq<MuEvent>>) -> bool {
    forall|i: int| 0 <= i < bs.len() ==> times_nondecreasing(#[trigger] bs[i])
}

/// No tick is later than `t`.
pub open spec fn ticks_not_after(bs: Seq<Seq<MuEvent>>, t: int) -> bool {
    forall|i: int, j: int| 0 <= i < bs.len() && 0 <= j < bs[i].len() ==> #[trigger] bs[i][j].seconds <= t
}

/// Adding a tick whose time is not earlier than any tick held keeps every
/// bucket in time order, and the new tick is then the latest. Together with
/// `lemma_series_time_ordered`: a list fed by updates in time order gives
/// its time series in time order.
pub proof fn lemma_update_keeps_time_order(
    before: Seq<i64>,
    bb: Seq<Seq<MuEvent>>,
    after: Seq<i64>,
    ab: Seq<Seq<MuEvent>>,
    key: int,
    time: Seq<char>,
    price: int,
    volume: int,
)
    requires
        added_tick(before, bb, after, ab, key, time, price, volume),
        before.len() == bb.len(),
        buckets_time_ordered(bb),
        ticks_not_after(bb, time_nanos(time)),
    ensures
        buckets_time_ordered(ab),
        ticks_not_after(ab, time_nanos(time)),
{
    let t = time_nanos(time);
    if before.contains(key as i64) {
        let i = choose|i: int|
            0 <= i < before.len() && before[i] == key && after == before && ab.len() == bb.len()
                && ab[i].drop_last() == bb[i] && ab[i].len() == bb[i].len() + 1 && is_tick(
                ab[i].last(),
                time,
                price,
                volume,
            ) && (forall|j: int| 0 <= j < bb.len() && j != i ==> ab[j] == bb[j]);
        assert forall|c: int| 0 <= c < ab.len() implies times_nondecreasing(#[trigger] ab[c]) by {
            if c == i {
                assert forall|a: int, b: int| 0 <= a < b < ab[c].len() implies ab[c][a].seconds
                    <= ab[c][b].seconds by {
                    assert(ab[c][a] == bb[c][a]);
                    if b < bb[c].len() {
                        assert(ab[c][b] == bb[c][b]);
                        assert(times_nondecreasing(bb[c]));
                    } else {
                        assert(bb[c][a].seconds <= t);
                    }
                }
            } else {
                assert(ab[c] == bb[c]);
                assert(times_nondecreasing(bb[c]));
            }
        }
        assert forall|c: int, j: int| 0 <= c < ab.len() && 0 <= j < ab[c].len() implies #[trigger] ab[c][j].seconds
            <= t by {
            if c == i && j < bb[c].len() {
                assert(ab[c][j] == bb[c][j]);
            } else if c != i {
                assert(ab[c] == bb[c]);
            }
        }
    } else {
        let p = choose|p: int|
            0 <= p <= before.len() && after == before.insert(p, key as i64) && ab.len() == bb.len()
                + 1 && ab.remove(p) == bb && ab[p].len() == 1 && is_tick(ab[p][0], time, price, volume);
        assert(ab.remove(p) =~= ab.subrange(0, p) + ab.subrange(p + 1, ab.len() as int));
        assert forall|c: int| 0 <= c < ab.len() && c != p implies #[trigger] ab[c] == (if c < p {
            bb[c]
        } else {
            bb[c - 1]
        }) by {
            let lo = ab.subrange(0, p);
            let hi = ab.subrange(p + 1, ab.len() as int);
            assert(bb == lo + hi);
            if c < p {
                assert(lo[c] == ab[c]);
                assert((lo + hi)[c] == lo[c]);
            } else {
                assert(hi[c - 1 - p] == ab[c]);
                assert((lo + hi)[c - 1] == hi[c - 1 - p]);
            }
        }
        assert forall|c: int| 0 <= c < ab.len() implies times_nondecreasing(#[trigger] ab[c]) by {
            if c < p {
                assert(times_nondecreasing(bb[c]));
            } else if c > p {
                assert(times_nondecreasing(bb[c - 1]));
            }
        }
        assert forall|c: int, j: int| 0 <= c < ab.len() && 0 <= j < ab[c].len() implies #[trigger] ab[c][j].seconds
            <= t by {
            if c < p {
                assert(ab[c] == bb[c]);
            } else if c > p {
                assert(ab[c] == bb[c - 1]);
            }
        }
    }
}

/// With fewer ticks than the machine's limit, one more tick keeps the list's
/// sums within 128 bits.
proof fn lemma_list_sums_room(ss: Seq<Seq<MuEvent>>, n: int)
    requires
        prices_nonneg(flatten(ss)),
        n == flatten(ss).len(),
        n < usize::MAX,
    ensures
        0 <= sum_prices(flatten(ss)) + i64::MAX <= usize::MAX * i64::MAX,
        -(usize::MAX * 2_147_483_648) <= sum_volumes(flatten(ss)) - 2_147_483_648,
        sum_volumes(flatten(ss)) + 2_147_483_648 <= usize::MAX * 2_147_483_648,
{
    lemma_tick_sums_bounded(flatten(ss));
    assert(n * i64::MAX + i64::MAX <= usize::MAX * i64::MAX) by (nonlinear_arith)
        requires
            0 <= n < usize::MAX,
    ;
    assert(n * 2_147_483_648 + 2_147_483_648 <= usize::MAX * 2_147_483_648) by (nonlinear_arith)
        requires
            0 <= n < usize::MAX,
    ;
}

/// A bucket's ticks are part of the whole list's ticks.
proof fn lemma_bucket_in_total(ss: Seq<Seq<MuEvent>>, i: int)
    requires
        0 <= i < ss.len(),
    ensures
        flatten(ss) == flatten(ss.take(i)) + ss[i] + flatten(ss.skip(i + 1)),
{
    assert(ss =~= ss.take(i) + (seq![ss[i]] + ss.skip(i + 1)));
    lemma_flatten_concat(ss.take(i), seq![ss[i]] + ss.skip(i + 1));
    lemma_flatten_concat(seq![ss[i]], ss.skip(i + 1));
    lemma_flatten_one(ss[i]);
}

/// Replacing one bucket replaces its ticks in the whole list, and the sums
/// change by the difference.
proof fn lemma_replace_bucket(ss: Seq<Seq<MuEvent>>, i: int, x: Seq<MuEvent>)
    requires
        0 <= i < ss.len(),
    ensures
        flatten(ss.update(i, x)) == flatten(ss.take(i)) + x + flatten(ss.skip(i + 1)),
        flatten(ss) == flatten(ss.take(i)) + ss[i] + flatten(ss.skip(i + 1)),
        sum_prices(flatten(ss.update(i, x))) == sum_prices(flatten(ss)) - sum_prices(ss[i])
            + sum_prices(x),
        sum_volumes(flatten(ss.update(i, x))) == sum_volumes(flatten(ss)) - sum_volumes(ss[i])
            + sum_volumes(x),
        flatten(ss.update(i, x)).len() == flatten(ss).len() - ss[i].len() + x.len(),
        prices_nonneg(flatten(ss)) && prices_nonneg(x) ==> prices_nonneg(flatten(ss.update(i, x))),
{
    let u = ss.update(i, x);
    lemma_bucket_in_total(ss, i);
    lemma_bucket_in_total(u, i);
    assert(u.take(i) =~= ss.take(i));
    assert(u.skip(i + 1) =~= ss.skip(i + 1));
    let a = flatten(ss.take(i));
    let b = flatten(ss.skip(i + 1));
    lemma_tick_sum_concat(a + ss[i], b, price_term());
    lemma_tick_sum_concat(a, ss[i], price_term());
    lemma_tick_sum_concat(a + x, b, price_term());
    lemma_tick_sum_concat(a, x, price_term());
    lemma_tick_sum_concat(a + ss[i], b, volume_term());
    lemma_tick_sum_concat(a, ss[i], volume_term());
    lemma_tick_sum_concat(a + x, b, volume_term());
    lemma_tick_sum_concat(a, x, volume_term());
    lemma_prices_nonneg_concat(a + ss[i], b);
    lemma_prices_nonneg_concat(a, ss[i]);
    lemma_prices_nonneg_concat(a + x, b);
    lemma_prices_nonneg_concat(a, x);
}

/// Inserting a bucket inserts its ticks in the whole list, and the sums grow
/// by its sums.
proof fn lemma_insert_bucket(ss: Seq<Seq<MuEvent>>, p: int, x: Seq<MuEvent>)
    requires
        0 <= p <= ss.len(),
    ensures
        sum_prices(flatten(ss.insert(p, x))) == sum_prices(flatten(ss)) + sum_prices(x),
        sum_volumes(flatten(ss.insert(p, x))) == sum_volumes(flatten(ss)) + sum_volumes(x),
        flatten(ss.insert(p, x)).len() == flatten(ss).len() + x.len(),
        prices_nonneg(flatten(ss)) && prices_nonneg(x) ==> prices_nonneg(flatten(ss.insert(p, x))),
{
    let u = ss.insert(p, x);
    assert(ss =~= ss.take(p) + ss.skip(p));
    assert(u =~= ss.take(p) + (seq![x] + ss.skip(p)));
    lemma_flatten_concat(ss.take(p), ss.skip(p));
    lemma_flatten_concat(ss.take(p), seq![x] + ss.skip(p));
    lemma_flatten_concat(seq![x], ss.skip(p));
    lemma_flatten_one(x);
    let a = flatten(ss.take(p));
    let b = flatten(ss.skip(p));
    assert(flatten(u) =~= a + (x + b));
    lemma_tick_sum_concat(a, b, price_term());
    lemma_tick_sum_concat(a, x + b, price_term());
    lemma_tick_sum_concat(x, b, price_term());
    lemma_tick_sum_concat(a, b, volume_term());
    lemma_tick_sum_concat(a, x + b, volume_term());
    lemma_tick_sum_concat(x, b, volume_term());
    lemma_prices_nonneg_concat(a, b);
    lemma_prices_nonneg_concat(a, x + b);
    lemma_prices_nonneg_concat(x, b);
}

} // verus!
