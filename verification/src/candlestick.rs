//! Candlestick primitives: the one-minute OHLC summary of a window of tick
//! records, and its pure aggregation function.
use vstd::prelude::*;
use crate::RollingData;
use crate::RollingDataView;
use crate::record_views;
use crate::codec::clone_string;
use crate::codec::fmt_i64;
use crate::codec::fmt_u64;
use crate::codec::spec_fmt_int;
use crate::codec::spec_fmt_nat;

verus! {

/// `Candlestick` holds one stock candlestick graph entry: the first, last,
/// highest and lowest price seen in a window, and how many transactions the
/// window held.
#[derive(Debug, PartialEq)]
pub struct Candlestick {
    /// stock_symbol: represents the stock symbol
    pub stock_symbol: String,
    /// minute_of_hour: the trigger time of the computation, truncated to
    /// whole seconds, as a millisecond epoch
    pub minute_of_hour: i64,
    /// open_price: the price of the first record in the window, in append
    /// order
    pub open_price: i64,
    /// close_price: the price of the last record in the window, in append
    /// order
    pub close_price: i64,
    /// highest_price: the maximum price among the window's records
    pub highest_price: i64,
    /// lowest_price: the minimum price among the window's records
    pub lowest_price: i64,
    /// total_transactions: the number of records in the window
    pub total_transactions: u64,
}

/// The greatest price in a non-empty sequence of records.
pub open spec fn spec_max_price(s: Seq<RollingDataView>) -> int
    decreases s.len(),
{
    if s.len() <= 1 {
        s[0].price
    } else {
        let rest = spec_max_price(s.drop_last());
        if s.last().price > rest {
            s.last().price
        } else {
            rest
        }
    }
}

/// The least price in a non-empty sequence of records.
pub open spec fn spec_min_price(s: Seq<RollingDataView>) -> int
    decreases s.len(),
{
    if s.len() <= 1 {
        s[0].price
    } else {
        let rest = spec_min_price(s.drop_last());
        if s.last().price < rest {
            s.last().price
        } else {
            rest
        }
    }
}

/// The greatest price really is the maximum: no record's price exceeds it,
/// and some record attains it.
pub proof fn lemma_max_price_props(s: Seq<RollingDataView>)
    requires
        s.len() > 0,
    ensures
        forall|i: int| 0 <= i < s.len() ==> (#[trigger] s[i]).price <= spec_max_price(s),
        exists|i: int| 0 <= i < s.len() && (#[trigger] s[i]).price == spec_max_price(s),
    decreases s.len(),
{
    if s.len() > 1 {
        lemma_max_price_props(s.drop_last());
        assert forall|i: int| 0 <= i < s.len() implies (#[trigger] s[i]).price <= spec_max_price(
            s,
        ) by {
            if i < s.len() - 1 {
                assert(s.drop_last()[i] == s[i]);
            }
        }
        if spec_max_price(s) != s.last().price {
            let j = choose|i: int|
                0 <= i < s.drop_last().len() && (#[trigger] s.drop_last()[i]).price
                    == spec_max_price(s.drop_last());
            assert(s[j].price == spec_max_price(s));
        }
    } else {
        assert(s.last() == s[0]);
    }
}

/// The least price really is the minimum: no record's price is below it,
/// and some record attains it.
pub proof fn lemma_min_price_props(s: Seq<RollingDataView>)
    requires
        s.len() > 0,
    ensures
        forall|i: int| 0 <= i < s.len() ==> (#[trigger] s[i]).price >= spec_min_price(s),
        exists|i: int| 0 <= i < s.len() && (#[trigger] s[i]).price == spec_min_price(s),
    decreases s.len(),
{
    if s.len() > 1 {
        lemma_min_price_props(s.drop_last());
        assert forall|i: int| 0 <= i < s.len() implies (#[trigger] s[i]).price >= spec_min_price(
            s,
        ) by {
            if i < s.len() - 1 {
                assert(s.drop_last()[i] == s[i]);
            }
        }
        if spec_min_price(s) != s.last().price {
            let j = choose|i: int|
                0 <= i < s.drop_last().len() && (#[trigger] s.drop_last()[i]).price
                    == spec_min_price(s.drop_last());
            assert(s[j].price == spec_min_price(s));
        }
    } else {
        assert(s.last() == s[0]);
    }
}

/// The timestamp `t` truncated down to a whole second.
pub open spec fn spec_floor_to_second(t: int) -> int {
    t - t % 1000
}

impl Candlestick {
    /// The zero-valued candlestick written once as a placeholder when a
    /// symbol's sinks are initialized: empty symbol, zero prices, counts
    /// and time.
    pub fn default() -> (r: Candlestick)
        ensures
            r.stock_symbol@ == Seq::<char>::empty(),
            r.minute_of_hour == 0,
            r.open_price == 0,
            r.close_price == 0,
            r.highest_price == 0,
            r.lowest_price == 0,
            r.total_transactions == 0,
    {
        Candlestick {
            stock_symbol: String::new(),
            minute_of_hour: 0,
            open_price: 0,
            close_price: 0,
            highest_price: 0,
            lowest_price: 0,
            total_transactions: 0,
        }
    }

    /// Builds a candlestick from its parts.
    fn new(
        open: i64,
        close: i64,
        high: i64,
        low: i64,
        count: u64,
        minute: i64,
        symbol: String,
    ) -> (r: Candlestick)
        ensures
            r.open_price == open,
            r.close_price == close,
            r.highest_price == high,
            r.lowest_price == low,
            r.total_transactions == count,
            r.minute_of_hour == minute,
            r.stock_symbol@ == symbol@,
    {
        Candlestick {
            open_price: open,
            close_price: close,
            highest_price: high,
            lowest_price: low,
            total_transactions: count,
            stock_symbol: symbol,
            minute_of_hour: minute,
        }
    }

    /// The row form of a candlestick: symbol, window time, open, close,
    /// high, low and count, comma-joined and newline-ended.
    pub open spec fn spec_row(self) -> Seq<char> {
        self.stock_symbol@ + seq![','] + spec_fmt_int(self.minute_of_hour as int) + seq![',']
            + spec_fmt_int(self.open_price as int) + seq![','] + spec_fmt_int(
            self.close_price as int,
        ) + seq![','] + spec_fmt_int(self.highest_price as int) + seq![','] + spec_fmt_int(
            self.lowest_price as int,
        ) + seq![','] + spec_fmt_nat(self.total_transactions as int) + seq!['\n']
    }

    /// Serializes the candlestick as one row of the candlestick sink.
    pub fn to_row(&self) -> (s: String)
        ensures
            s@ == self.spec_row(),
    {
        let mut s = clone_string(&self.stock_symbol);
        proof {
            reveal_strlit(",");
            reveal_strlit("\n");
        }
        s.append(",");
        let f1 = fmt_i64(self.minute_of_hour);
        s.append(f1.as_str());
        s.append(",");
        let f2 = fmt_i64(self.open_price);
        s.append(f2.as_str());
        s.append(",");
        let f3 = fmt_i64(self.close_price);
        s.append(f3.as_str());
        s.append(",");
        let f4 = fmt_i64(self.highest_price);
        s.append(f4.as_str());
        s.append(",");
        let f5 = fmt_i64(self.lowest_price);
        s.append(f5.as_str());
        s.append(",");
        let f6 = fmt_u64(self.total_transactions);
        s.append(f6.as_str());
        s.append("\n");
        proof {
            assert(s@ =~= self.spec_row());
        }
        s
    }
}

/// Given a window of tick records in append order and the trigger time of
/// the computation, reduces them to one candlestick: the opening price is
/// the first record's, the closing price the last record's, the highest and
/// lowest prices are the extremes over the window, and the count is the
/// window's length. An empty window yields nothing.
pub fn calculate_candlestick(data: &Vec<RollingData>, now: i64) -> (r: Option<Candlestick>)
    requires
        0 <= now,
    ensures
        (data@.len() == 0) == (r is None),
        r matches Some(c) ==> {
            let vs = record_views(data@);
            &&& c.stock_symbol@ == vs[0].symbol
            &&& c.minute_of_hour == spec_floor_to_second(now as int)
            &&& c.open_price == vs.first().price
            &&& c.close_price == vs.last().price
            &&& c.highest_price == spec_max_price(vs)
            &&& c.lowest_price == spec_min_price(vs)
            &&& c.total_transactions == vs.len()
        },
{
    let ghost vs = record_views(data@);
    let n = data.len();
    if n == 0 {
        return None;
    }
    let mut high: i64 = data[0].price;
    let mut low: i64 = data[0].price;
    let mut i: usize = 1;
    proof {
        assert(vs.take(1).len() == 1);
        assert(vs.take(1)[0] == vs[0]);
    }
    while i < n
        invariant
            1 <= i <= n,
            n == vs.len(),
            vs == record_views(data@),
            high == spec_max_price(vs.take(i as int)),
            low == spec_min_price(vs.take(i as int)),
        decreases n - i,
    {
        let p = data[i].price;
        if p > high {
            high = p;
        }
        if p < low {
            low = p;
        }
        proof {
            assert(vs.take(i + 1).drop_last() =~= vs.take(i as int));
            assert(vs.take(i + 1).last() == vs[i as int]);
            assert(vs[i as int].price == p as int);
        }
        i = i + 1;
    }
    proof {
        assert(vs.take(n as int) =~= vs);
    }
    Some(
        Candlestick::new(
            data[0].price,
            data[n - 1].price,
            high,
            low,
            n as u64,
            now - now % 1000,
            clone_string(&data[0].symbol),
        ),
    )
}

} // verus!
