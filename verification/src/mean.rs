//! Mean-price primitives: the fifteen-minute mean summary of a window of
//! tick records, and its pure aggregation function.
use vstd::prelude::*;
use vstd::arithmetic::div_mod::lemma_div_is_ordered;
use vstd::arithmetic::div_mod::lemma_div_multiples_vanish;
use vstd::arithmetic::div_mod::lemma_fundamental_div_mod_converse;
use crate::RollingData;
use crate::RollingDataView;
use crate::record_views;
use crate::codec::clone_string;
use crate::codec::fmt_i64;
use crate::codec::fmt_u64;
use crate::codec::spec_fmt_int;
use crate::codec::spec_fmt_nat;

verus! {

/// `MeanData` holds the average price of a stock over one trailing window:
/// the earliest and latest write time seen, the mean price, and how many
/// transactions the window held.
#[derive(Debug, PartialEq)]
pub struct MeanData {
    /// symbol: represents the stock symbol
    pub symbol: String,
    /// start_time: the earliest write timestamp among the window's records
    pub start_time: i64,
    /// end_time: the latest write timestamp among the window's records
    pub end_time: i64,
    /// mean_price: the average fixed-point price over the window, rounded
    /// down to the next price unit
    pub mean_price: i64,
    /// transactions: the number of records in the window
    pub transactions: u64,
}

/// The sum of the prices of a sequence of records.
pub open spec fn spec_price_sum(s: Seq<RollingDataView>) -> int
    decreases s.len(),
{
    if s.len() == 0 {
        0
    } else {
        spec_price_sum(s.drop_last()) + s.last().price
    }
}

/// The earliest write timestamp in a non-empty sequence of records.
pub open spec fn spec_min_write_ts(s: Seq<RollingDataView>) -> int
    decreases s.len(),
{
    if s.len() <= 1 {
        s[0].write_timestamp
    } else {
        let rest = spec_min_write_ts(s.drop_last());
        if s.last().write_timestamp < rest {
            s.last().write_timestamp
        } else {
            rest
        }
    }
}

/// The latest write timestamp in a non-empty sequence of records.
pub open spec fn spec_max_write_ts(s: Seq<RollingDataView>) -> int
    decreases s.len(),
{
    if s.len() <= 1 {
        s[0].write_timestamp
    } else {
        let rest = spec_max_write_ts(s.drop_last());
        if s.last().write_timestamp > rest {
            s.last().write_timestamp
        } else {
            rest
        }
    }
}

impl MeanData {
    /// Builds a mean summary from its parts.
    fn new(
        start_time: i64,
        end_time: i64,
        mean_price: i64,
        transactions: u64,
        symbol: String,
    ) -> (r: MeanData)
        ensures
            r.start_time == start_time,
            r.end_time == end_time,
            r.mean_price == mean_price,
            r.transactions == transactions,
            r.symbol@ == symbol@,
    {
        MeanData { symbol, transactions, mean_price, start_time, end_time }
    }

    /// The row form of a mean summary: symbol, start time, end time, mean
    /// price and count, comma-joined and newline-ended.
    pub open spec fn spec_row(self) -> Seq<char> {
        self.symbol@ + seq![','] + spec_fmt_int(self.start_time as int) + seq![','] + spec_fmt_int(
            self.end_time as int,
        ) + seq![','] + spec_fmt_int(self.mean_price as int) + seq![','] + spec_fmt_nat(
            self.transactions as int,
        ) + seq!['\n']
    }

    /// Serializes the mean summary as one row of the mean sink.
    pub fn to_row(&self) -> (s: String)
        ensures
            s@ == self.spec_row(),
    {
        let mut s = clone_string(&self.symbol);
        proof {
            reveal_strlit(",");
            reveal_strlit("\n");
        }
        s.append(",");
        let f1 = fmt_i64(self.start_time);
        s.append(f1.as_str());
        s.append(",");
        let f2 = fmt_i64(self.end_time);
        s.append(f2.as_str());
        s.append(",");
        let f3 = fmt_i64(self.mean_price);
        s.append(f3.as_str());
        s.append(",");
        let f4 = fmt_u64(self.transactions);
        s.append(f4.as_str());
        s.append("\n");
        proof {
            assert(s@ =~= self.spec_row());
        }
        s
    }
}

/// Given a window of tick records, reduces them to one mean summary: the
/// start and end times are the earliest and latest write timestamps in the
/// window, the mean price is the price sum divided by the record count
/// (rounded down), and the count is the window's length. An empty window
/// yields nothing.
pub fn calculate_mean_data(data: &Vec<RollingData>) -> (r: Option<MeanData>)
    ensures
        (data@.len() == 0) == (r is None),
        r matches Some(m) ==> {
            let vs = record_views(data@);
            &&& m.symbol@ == vs[0].symbol
            &&& m.start_time == spec_min_write_ts(vs)
            &&& m.end_time == spec_max_write_ts(vs)
            &&& m.mean_price == spec_price_sum(vs) / (vs.len() as int)
            &&& m.transactions == vs.len()
        },
{
    let ghost vs = record_views(data@);
    let ghost half: int = 0x8000_0000_0000_0000;
    let n = data.len();
    if n == 0 {
        return None;
    }
    let mut min_ts: i64 = data[0].write_timestamp;
    let mut max_ts: i64 = data[0].write_timestamp;
    let mut sum: i128 = data[0].price as i128;
    let mut i: usize = 1;
    proof {
        assert(vs.take(1).len() == 1);
        assert(vs.take(1)[0] == vs[0]);
        assert(vs.take(1).drop_last().len() == 0);
        assert(spec_price_sum(vs.take(1).drop_last()) == 0);
        assert(vs[0] == data@[0]@);
        assert(sum as int == spec_price_sum(vs.take(1)));
    }
    while i < n
        invariant
            1 <= i <= n,
            n == vs.len(),
            vs == record_views(data@),
            half == 0x8000_0000_0000_0000,
            min_ts == spec_min_write_ts(vs.take(i as int)),
            max_ts == spec_max_write_ts(vs.take(i as int)),
            sum == spec_price_sum(vs.take(i as int)),
            -(i as int) * half <= sum as int <= (i as int) * (half - 1),
        decreases n - i,
    {
        let ts = data[i].write_timestamp;
        if ts < min_ts {
            min_ts = ts;
        }
        if ts > max_ts {
            max_ts = ts;
        }
        proof {
            assert((i as int + 1) * half == (i as int) * half + half) by (nonlinear_arith);
            assert((i as int + 1) * (half - 1) == (i as int) * (half - 1) + (half - 1))
                by (nonlinear_arith);
            assert((i as int + 1) * half <= 0x1_0000_0000_0000_0000 * half) by (nonlinear_arith)
                requires
                    i as int + 1 <= 0x1_0000_0000_0000_0000,
                    half == 0x8000_0000_0000_0000,
            ;
            assert((i as int + 1) * (half - 1) <= 0x1_0000_0000_0000_0000 * (half - 1))
                by (nonlinear_arith)
                requires
                    i as int + 1 <= 0x1_0000_0000_0000_0000,
                    half == 0x8000_0000_0000_0000,
            ;
        }
        let p = data[i].price;
        sum = sum + (p as i128);
        proof {
            assert(vs.take(i + 1).drop_last() =~= vs.take(i as int));
            assert(vs.take(i + 1).last() == vs[i as int]);
            assert(vs[i as int].price == p as int);
            assert(vs[i as int].write_timestamp == ts as int);
        }
        i = i + 1;
    }
    proof {
        assert(vs.take(n as int) =~= vs);
    }
    let mean = div_floor(sum, n);
    proof {
        assert(mean as int == spec_price_sum(vs) / (vs.len() as int));
    }
    Some(MeanData::new(min_ts, max_ts, mean, n as u64, clone_string(&data[0].symbol)))
}

/// Divides a bounded price sum by a positive record count, rounding the
/// quotient down; this matches division of mathematical integers.
fn div_floor(sum: i128, n: usize) -> (q: i64)
    requires
        n > 0,
        -(n as int) * 0x8000_0000_0000_0000 <= sum as int,
        sum as int <= (n as int) * 0x7fff_ffff_ffff_ffff,
    ensures
        q as int == (sum as int) / (n as int),
{
    let ghost half: int = 0x8000_0000_0000_0000;
    let nn: u128 = n as u128;
    if sum >= 0 {
        let qq: u128 = (sum as u128) / nn;
        proof {
            assert(qq as int == (sum as int) / (n as int));
            lemma_div_is_ordered(sum as int, (n as int) * (half - 1), n as int);
            lemma_div_multiples_vanish(half - 1, n as int);
            assert(qq as int <= half - 1);
            assert((sum as int) / (n as int) >= 0);
        }
        qq as i64
    } else {
        // the magnitude of `sum`, computed without overflowing at the least
        // representable value
        let mag: u128 = ((-(sum + 1)) as u128) + 1;
        proof {
            assert(mag as int == -(sum as int));
        }
        let qq: u128 = mag / nn;
        let rr: u128 = mag % nn;
        proof {
            assert(qq as int == (mag as int) / (n as int));
            assert(rr as int == (mag as int) % (n as int));
            vstd::arithmetic::div_mod::lemma_fundamental_div_mod(mag as int, n as int);
            lemma_div_is_ordered(mag as int, (n as int) * half, n as int);
            lemma_div_multiples_vanish(half, n as int);
            assert(qq as int <= half);
        }
        if rr == 0 {
            proof {
                assert(sum as int == (-(qq as int)) * (n as int) + 0) by (nonlinear_arith)
                    requires
                        mag as int == -(sum as int),
                        mag as int == (n as int) * (qq as int) + (rr as int),
                        rr as int == 0,
                ;
                lemma_fundamental_div_mod_converse(sum as int, n as int, -(qq as int), 0);
            }
            let q128: i128 = -(qq as i128);
            q128 as i64
        } else {
            proof {
                assert((qq as int) < half) by (nonlinear_arith)
                    requires
                        mag as int == (n as int) * (qq as int) + (rr as int),
                        rr as int > 0,
                        mag as int <= (n as int) * half,
                        n as int > 0,
                ;
                assert(sum as int == (-(qq as int) - 1) * (n as int) + ((n as int) - (
                rr as int))) by (nonlinear_arith)
                    requires
                        mag as int == -(sum as int),
                        mag as int == (n as int) * (qq as int) + (rr as int),
                ;
                assert(0 <= (n as int) - (rr as int) < n as int);
                lemma_fundamental_div_mod_converse(
                    sum as int,
                    n as int,
                    -(qq as int) - 1,
                    (n as int) - (rr as int),
                );
            }
            let q128: i128 = -(qq as i128) - 1;
            q128 as i64
        }
    }
}

} // verus!
