//! Stock handle primitives: the per-symbol append-only log and the handle
//! that owns it.
//!
//! A [`SymbolLog`] is the ordered sequence of tick records for one symbol.
//! The log itself is the in-memory read path; every mutation hands back the
//! exact rows to mirror to the symbol's durable rolling file, so the file
//! always holds the log's encoding (a header row first, then one row per
//! record in append order).
use vstd::prelude::*;
use crate::RollingData;
use crate::RollingDataView;
use crate::TickerInfo;
use crate::Response;
use crate::wf_field;
use crate::candlestick::Candlestick;
use crate::ParseError;
use crate::codec::spec_tick_header;
use crate::codec::spec_parse_log;
use crate::codec::spec_parse_log_rows;
use crate::codec::lemma_first_sep_at;
use crate::codec::parse_tick_row;
use crate::utils::MILLIS_PER_MINUTE;
use crate::utils::find_items;
use crate::utils::spec_floor_to_minute;
use crate::utils::spec_window_scan;
use crate::candlestick::calculate_candlestick;
use crate::candlestick::spec_floor_to_second;
use crate::candlestick::spec_max_price;
use crate::candlestick::spec_min_price;
use crate::mean::MeanData;
use crate::mean::calculate_mean_data;
use crate::mean::spec_max_write_ts;
use crate::mean::spec_min_write_ts;
use crate::mean::spec_price_sum;
use crate::codec::spec_tick_row;
use crate::codec::encode_tick_row;
use crate::codec::tick_header_row;

verus! {

/// The append-only, ordered sequence of tick records for one symbol.
pub struct SymbolLog {
    records: Vec<RollingData>,
    header_written: bool,
}

impl View for SymbolLog {
    type V = Seq<RollingDataView>;

    closed spec fn view(&self) -> Seq<RollingDataView> {
        self.records@.map_values(|r: RollingData| r@)
    }
}

impl SymbolLog {
    /// Whether the log's header row has been written already.
    pub closed spec fn header_written(self) -> bool {
        self.header_written
    }

    /// A log is well formed when every record is, and when its header
    /// stands before any data row: a non-empty log always has its header.
    pub open spec fn wf(self) -> bool {
        &&& self@.len() > 0 ==> self.header_written()
        &&& forall|i: int| 0 <= i < self@.len() ==> (#[trigger] self@[i]).wf()
    }

    /// A fresh log: no data rows, header not yet written.
    pub fn new() -> (log: SymbolLog)
        ensures
            log@ == Seq::<RollingDataView>::empty(),
            !log.header_written(),
            log.wf(),
    {
        SymbolLog { records: Vec::new(), header_written: false }
    }

    /// The number of data rows in the log.
    pub fn record_count(&self) -> (n: usize)
        ensures
            n == self@.len(),
    {
        self.records.len()
    }

    /// True iff no data rows exist yet.
    pub fn is_empty(&self) -> (r: bool)
        ensures
            r == (self@.len() == 0),
    {
        self.records.len() == 0
    }

    /// The record at position `i`, in append order.
    pub fn get(&self, i: usize) -> (r: &RollingData)
        requires
            i < self@.len(),
        ensures
            r@ == self@[i as int],
    {
        &self.records[i]
    }

    /// Writes the header row if the underlying store is still empty, as the
    /// one-time initialization of a handle does; returns the row to mirror
    /// to durable storage, or nothing when the header already stands.
    pub fn write_header_if_empty(&mut self) -> (row: Option<String>)
        ensures
            final(self)@ == old(self)@,
            final(self).header_written(),
            old(self).wf() ==> final(self).wf(),
            if old(self).header_written() {
                row is None
            } else {
                row matches Some(h) && h@ == spec_tick_header()
            },
    {
        if self.header_written {
            None
        } else {
            self.header_written = true;
            Some(tick_header_row())
        }
    }

    /// Appends one record to the log. The rows handed back are what must be
    /// mirrored, in order, to the symbol's durable rolling file: the header
    /// row first when this is the first write to a fresh store, then the
    /// record's own row.
    pub fn append(&mut self, r: RollingData) -> (rows: Vec<String>)
        requires
            old(self).wf(),
            r@.wf(),
        ensures
            final(self).wf(),
            final(self)@ == old(self)@.push(r@),
            final(self).header_written(),
            if old(self).header_written() {
                rows@.len() == 1 && rows@[0]@ == spec_tick_row(r@)
            } else {
                rows@.len() == 2 && rows@[0]@ == spec_tick_header() && rows@[1]@
                    == spec_tick_row(r@)
            },
    {
        let mut rows: Vec<String> = Vec::new();
        if !self.header_written {
            rows.push(tick_header_row());
            self.header_written = true;
        }
        rows.push(encode_tick_row(&r));
        self.records.push(r);
        proof {
            assert(self@ =~= old(self)@.push(r@));
        }
        rows
    }

    /// Reads a whole rolling-log text back into a log, row by row: the
    /// header row first, then one record per row. A malformed or
    /// unterminated row abandons the read, as the scan is not allowed to
    /// silently skip records.
    pub fn from_encoded(text: &str) -> (r: Result<SymbolLog, ParseError>)
        ensures
            r matches Ok(log) ==> {
                &&& spec_parse_log(text@) == Some(log@)
                &&& log.wf()
                &&& log.header_written() == (text@.len() > 0)
            },
            r matches Err(e) ==> spec_parse_log(text@) is None && e == ParseError::MalformedRecord,
    {
        let n = text.unicode_len();
        if n == 0 {
            return Ok(SymbolLog::new());
        }
        let mut i: usize = 0;
        let mut found = false;
        while !found && i < n
            invariant
                i <= n,
                n == text@.len(),
                forall|j: int| 0 <= j < i ==> text@[j] != '\n',
                found ==> (i < n && text@[i as int] == '\n'),
            decreases n - i + (if found { 0int } else { 1int }),
        {
            if text.get_char(i) == '\n' {
                found = true;
            } else {
                i = i + 1;
            }
        }
        proof {
            lemma_first_sep_at(text@, '\n', i as int);
        }
        if i == n {
            // the header row never ends
            return Err(ParseError::MalformedRecord);
        }
        let mut log = SymbolLog::new();
        let _ = log.write_header_if_empty();
        let mut pos: usize = i + 1;
        proof {
            let rows0 = spec_parse_log_rows(text@.subrange(pos as int, n as int));
            if rows0 is Some {
                assert(log@ + rows0.unwrap() =~= rows0.unwrap());
            }
        }
        while pos < n
            invariant
                pos <= n,
                n == text@.len(),
                n > 0,
                log.wf(),
                log.header_written(),
                spec_parse_log(text@) == match spec_parse_log_rows(
                    text@.subrange(pos as int, n as int),
                ) {
                    Some(rest) => Some(log@ + rest),
                    None => None::<Seq<RollingDataView>>,
                },
            decreases n - pos,
        {
            let ghost suffix = text@.subrange(pos as int, n as int);
            let mut k: usize = pos;
            let mut found = false;
            while !found && k < n
                invariant
                    pos <= k <= n,
                    n == text@.len(),
                    forall|j: int| pos <= j < k ==> text@[j] != '\n',
                    found ==> (k < n && text@[k as int] == '\n'),
                decreases n - k + (if found { 0int } else { 1int }),
            {
                if text.get_char(k) == '\n' {
                    found = true;
                } else {
                    k = k + 1;
                }
            }
            proof {
                assert forall|j: int| 0 <= j < k - pos implies suffix[j] != '\n' by {
                    assert(suffix[j] == text@[pos + j]);
                }
                if (k as int) < n as int {
                    assert(suffix[k - pos] == text@[k as int]);
                }
                lemma_first_sep_at(suffix, '\n', k - pos);
            }
            if k == n {
                // the final row never ends
                return Err(ParseError::MalformedRecord);
            }
            let line = text.substring_char(pos, k);
            proof {
                assert(line@ =~= suffix.take(k - pos));
            }
            match parse_tick_row(line) {
                None => {
                    return Err(ParseError::MalformedRecord);
                },
                Some(rec) => {
                    let ghost prev = log@;
                    let _ = log.append(rec);
                    proof {
                        assert(suffix.subrange(k - pos + 1, suffix.len() as int) =~= text@.subrange(
                            k + 1,
                            n as int,
                        ));
                        let rows_rest = spec_parse_log_rows(text@.subrange(k + 1, n as int));
                        if rows_rest is Some {
                            let rest = rows_rest.unwrap();
                            assert(prev + (seq![rec@] + rest) =~= (prev.push(rec@)) + rest);
                        }
                    }
                },
            }
            pos = k + 1;
        }
        proof {
            assert(text@.subrange(pos as int, n as int).len() == 0);
            assert(log@ + Seq::<RollingDataView>::empty() =~= log@);
        }
        Ok(log)
    }
}

/// `StockHandle` holds what the library manages for one tracked stock
/// symbol: the symbol itself, its append-only tick log, and the one-time
/// initialization state. The caller owns the durable files and the signal
/// channels around it.
pub struct StockHandle {
    /// The symbol the stock has in the trade market.
    /// It can also be an exchange pair like EUR/USD.
    pub stock_symbol: String,
    /// The ordered tick log for this symbol; every mutation hands back the
    /// rows to mirror to the symbol's rolling file.
    pub log: SymbolLog,
    /// Whether the handle's one-time initialization has run.
    pub initialized: bool,
}

impl StockHandle {
    /// A handle is well formed when its log is, its symbol can stand in a
    /// row field, and initialization implies the log's header stands.
    pub open spec fn wf(self) -> bool {
        &&& self.log.wf()
        &&& wf_field(self.stock_symbol@)
        &&& self.initialized ==> self.log.header_written()
    }

    /// A fresh, not yet initialized handle with an empty log.
    pub fn new(symbol: &str) -> (h: StockHandle)
        requires
            wf_field(symbol@),
        ensures
            h.stock_symbol@ == symbol@,
            h.log@ == Seq::<RollingDataView>::empty(),
            !h.log.header_written(),
            !h.initialized,
            h.wf(),
    {
        StockHandle { stock_symbol: symbol.to_owned(), log: SymbolLog::new(), initialized: false }
    }

    /// A not yet initialized handle that adopts a log read back from
    /// durable storage at startup.
    pub fn with_log(symbol: &str, log: SymbolLog) -> (h: StockHandle)
        requires
            wf_field(symbol@),
            log.wf(),
        ensures
            h.stock_symbol@ == symbol@,
            h.log@ == log@,
            h.log.header_written() == log.header_written(),
            !h.initialized,
            h.wf(),
    {
        StockHandle { stock_symbol: symbol.to_owned(), log, initialized: false }
    }

    /// The handle's one-time initialization, run exactly once before the
    /// handle ingests anything: if the tick log's store is still empty its
    /// header row is produced, and one zero-valued placeholder candlestick
    /// is produced for the candlestick sink, so both resources have a
    /// recognizable shape even if no tick ever arrives. A second call does
    /// nothing.
    pub fn initialize(&mut self) -> (r: (Option<String>, Option<Candlestick>))
        requires
            old(self).wf(),
        ensures
            final(self).wf(),
            final(self).stock_symbol@ == old(self).stock_symbol@,
            final(self).log@ == old(self).log@,
            final(self).initialized,
            final(self).log.header_written() || !old(self).initialized,
            old(self).initialized ==> *final(self) == *old(self) && r.0 is None && r.1 is None,
            !old(self).initialized ==> {
                &&& final(self).log.header_written()
                &&& if old(self).log.header_written() {
                    r.0 is None
                } else {
                    r.0 matches Some(h) && h@ == spec_tick_header()
                }
                &&& r.1 matches Some(c) && (c.stock_symbol@ == Seq::<char>::empty()
                    && c.minute_of_hour == 0 && c.open_price == 0 && c.close_price == 0
                    && c.highest_price == 0 && c.lowest_price == 0 && c.total_transactions == 0)
            },
    {
        if self.initialized {
            (None, None)
        } else {
            self.initialized = true;
            let header = self.log.write_header_if_empty();
            (header, Some(Candlestick::default()))
        }
    }

    /// One step of the candlestick worker: on the signal `timestamp`, scan
    /// this handle's log for the one-minute window at the signal's minute
    /// and reduce the window to a candlestick stamped with the trigger time
    /// `now`; an empty window yields nothing and nothing is written.
    pub fn candlestick_step(&self, timestamp: i64, now: i64) -> (r: Option<Candlestick>)
        requires
            0 <= timestamp,
            0 <= now,
            spec_floor_to_minute(timestamp as int) + (MILLIS_PER_MINUTE as int) <= i64::MAX,
        ensures
            ({
                let lo = spec_floor_to_minute(timestamp as int);
                let scanned = spec_window_scan(self.log@, lo, lo + (MILLIS_PER_MINUTE as int));
                &&& (scanned.len() == 0) == (r is None)
                &&& r matches Some(c) ==> {
                    &&& c.stock_symbol@ == scanned[0].symbol
                    &&& c.minute_of_hour == spec_floor_to_second(now as int)
                    &&& c.open_price == scanned.first().price
                    &&& c.close_price == scanned.last().price
                    &&& c.highest_price == spec_max_price(scanned)
                    &&& c.lowest_price == spec_min_price(scanned)
                    &&& c.total_transactions == scanned.len()
                }
            }),
    {
        let items = find_items(&self.log, timestamp, 1);
        calculate_candlestick(&items, now)
    }

    /// One step of the mean worker: on the signal `timestamp`, scan this
    /// handle's log for the trailing fifteen-minute window at the signal's
    /// minute and reduce the window to a mean summary; an empty window
    /// yields nothing and nothing is written.
    pub fn mean_step(&self, timestamp: i64) -> (r: Option<MeanData>)
        requires
            0 <= timestamp,
            spec_floor_to_minute(timestamp as int) + 15 * (MILLIS_PER_MINUTE as int) <= i64::MAX,
        ensures
            ({
                let lo = spec_floor_to_minute(timestamp as int);
                let scanned = spec_window_scan(
                    self.log@,
                    lo,
                    lo + 15 * (MILLIS_PER_MINUTE as int),
                );
                &&& (scanned.len() == 0) == (r is None)
                &&& r matches Some(m) ==> {
                    &&& m.symbol@ == scanned[0].symbol
                    &&& m.start_time == spec_min_write_ts(scanned)
                    &&& m.end_time == spec_max_write_ts(scanned)
                    &&& m.mean_price == spec_price_sum(scanned) / (scanned.len() as int)
                    &&& m.transactions == scanned.len()
                }
            }),
    {
        let items = find_items(&self.log, timestamp, 15);
        calculate_mean_data(&items)
    }
}

/// Given an array of strings naming the stocks to track, builds one fresh,
/// initialized handle per stock, in order. The caller then provisions each
/// symbol's durable resources: the tick log's header row and the
/// placeholder candlestick row of every fresh handle.
pub fn initialize_mapper(stocks: &Vec<String>) -> (mapper: Vec<StockHandle>)
    requires
        forall|i: int| 0 <= i < stocks@.len() ==> wf_field((#[trigger] stocks@[i])@),
    ensures
        mapper@.len() == stocks@.len(),
        forall|i: int|
            0 <= i < mapper@.len() ==> {
                &&& (#[trigger] mapper@[i]).stock_symbol@ == stocks@[i]@
                &&& mapper@[i].log@ == Seq::<RollingDataView>::empty()
                &&& mapper@[i].log.header_written()
                &&& mapper@[i].initialized
                &&& mapper@[i].wf()
            },
{
    let n = stocks.len();
    let mut mapper: Vec<StockHandle> = Vec::new();
    let mut i: usize = 0;
    while i < n
        invariant
            i <= n,
            n == stocks@.len(),
            forall|k: int| 0 <= k < stocks@.len() ==> wf_field((#[trigger] stocks@[k])@),
            mapper@.len() == i,
            forall|k: int|
                0 <= k < i ==> {
                    &&& (#[trigger] mapper@[k]).stock_symbol@ == stocks@[k]@
                    &&& mapper@[k].log@ == Seq::<RollingDataView>::empty()
                    &&& mapper@[k].log.header_written()
                    &&& mapper@[k].initialized
                    &&& mapper@[k].wf()
                },
        decreases n - i,
    {
        let mut h = StockHandle::new(stocks[i].as_str());
        let _ = h.initialize();
        mapper.push(h);
        i = i + 1;
    }
    mapper
}

/// The record that appending ticker `t` at time `now` produces: the tick's
/// symbol, price and transaction time, stamped with the write time `now`.
pub open spec fn tick_record(t: TickerInfo, now: int) -> RollingDataView {
    RollingDataView {
        symbol: t.symbol@,
        price: t.price as int,
        timestamp: t.time as int,
        write_timestamp: now,
    }
}

/// The records that a batch of ticks adds to the log of the symbol `sym`:
/// one record per tick carrying that symbol, in batch order, each stamped
/// with the write time `now`.
pub open spec fn spec_routed(ticks: Seq<TickerInfo>, sym: Seq<char>, now: int) -> Seq<
    RollingDataView,
>
    decreases ticks.len(),
{
    if ticks.len() == 0 {
        Seq::empty()
    } else {
        let rest = spec_routed(ticks.drop_last(), sym, now);
        if ticks.last().symbol@ == sym {
            rest.push(tick_record(ticks.last(), now))
        } else {
            rest
        }
    }
}

/// One row of text to mirror to the rolling file of the handle at
/// `handle_index`, produced while routing a feed message.
pub struct PersistRow {
    /// which handle's rolling file the row belongs to
    pub handle_index: usize,
    /// the row itself, newline-ended
    pub line: String,
}

/// The mathematical value of one [`PersistRow`].
pub ghost struct RowEntry {
    pub handle_index: int,
    pub line: Seq<char>,
}

/// The symbols of a sequence of handles, element for element.
pub open spec fn handle_symbols(mapper: Seq<StockHandle>) -> Seq<Seq<char>> {
    mapper.map_values(|h: StockHandle| h.stock_symbol@)
}

/// The rows that routing a batch of ticks produces, in batch order: one row
/// per tick whose symbol some handle tracks, tagged with that handle's
/// position.
pub open spec fn spec_row_entries(ticks: Seq<TickerInfo>, symbols: Seq<Seq<char>>, now: int) -> Seq<
    RowEntry,
>
    decreases ticks.len(),
{
    if ticks.len() == 0 {
        Seq::empty()
    } else {
        let rest = spec_row_entries(ticks.drop_last(), symbols, now);
        let t = ticks.last();
        if exists|j: int| 0 <= j < symbols.len() && symbols[j] == t.symbol@ {
            let j = choose|j: int| 0 <= j < symbols.len() && symbols[j] == t.symbol@;
            rest.push(
                RowEntry { handle_index: j, line: spec_tick_row(tick_record(t, now)) },
            )
        } else {
            rest
        }
    }
}

/// The position of the handle tracking the symbol `sym`, if any.
fn find_handle(mapper: &Vec<StockHandle>, sym: &String) -> (r: Option<usize>)
    ensures
        r matches Some(j) ==> j < mapper@.len() && mapper@[j as int].stock_symbol@ == sym@,
        r is None ==> forall|j: int|
            0 <= j < mapper@.len() ==> (#[trigger] mapper@[j]).stock_symbol@ != sym@,
{
    let n = mapper.len();
    let mut j: usize = 0;
    while j < n
        invariant
            j <= n,
            n == mapper@.len(),
            forall|k: int| 0 <= k < j ==> (#[trigger] mapper@[k]).stock_symbol@ != sym@,
        decreases n - j,
    {
        if mapper[j].stock_symbol == *sym {
            return Some(j);
        }
        j = j + 1;
    }
    None
}

/// Routes one feed response into the per-symbol logs: every transaction
/// whose symbol is tracked is appended, stamped with the write time `now`,
/// to the matching handle's log; transactions for untracked symbols are
/// dropped. Returns the rows to mirror to the rolling files, in order, each
/// tagged with its handle's position.
pub fn parse_message(resp: &Response, mapper: &mut Vec<StockHandle>, now: i64) -> (out: Vec<
    PersistRow,
>)
    requires
        forall|j: int|
            0 <= j < old(mapper)@.len() ==> (#[trigger] old(mapper)@[j]).wf() && old(
                mapper,
            )@[j].initialized,
        forall|j: int, k: int|
            0 <= j < k < old(mapper)@.len() ==> old(mapper)@[j].stock_symbol@ != old(
                mapper,
            )@[k].stock_symbol@,
    ensures
        final(mapper)@.len() == old(mapper)@.len(),
        forall|j: int|
            0 <= j < old(mapper)@.len() ==> {
                let h0 = old(mapper)@[j];
                let h1 = #[trigger] final(mapper)@[j];
                &&& h1.stock_symbol@ == h0.stock_symbol@
                &&& h1.initialized
                &&& h1.wf()
                &&& h1.log@ == h0.log@ + spec_routed(
                    resp.transaction_data@,
                    h0.stock_symbol@,
                    now as int,
                )
            },
        out@.len() == spec_row_entries(
            resp.transaction_data@,
            handle_symbols(old(mapper)@),
            now as int,
        ).len(),
        forall|k: int|
            0 <= k < out@.len() ==> {
                let e = spec_row_entries(
                    resp.transaction_data@,
                    handle_symbols(old(mapper)@),
                    now as int,
                )[k];
                (#[trigger] out@[k]).handle_index == e.handle_index && out@[k].line@ == e.line
            },
{
    let ghost ticks = resp.transaction_data@;
    let ghost symbols = handle_symbols(old(mapper)@);
    let n = resp.transaction_data.len();
    let mut out: Vec<PersistRow> = Vec::new();
    let mut i: usize = 0;
    proof {
        assert(spec_row_entries(ticks.take(0), symbols, now as int) =~= Seq::<RowEntry>::empty());
        assert forall|j: int| 0 <= j < old(mapper)@.len() implies (#[trigger] mapper@[j]).log@
            =~= old(mapper)@[j].log@ + spec_routed(
            ticks.take(0),
            old(mapper)@[j].stock_symbol@,
            now as int,
        ) by {}
    }
    while i < n
        invariant
            i <= n,
            n == ticks.len(),
            ticks == resp.transaction_data@,
            symbols == handle_symbols(old(mapper)@),
            mapper@.len() == old(mapper)@.len(),
            forall|j: int, k: int|
                0 <= j < k < old(mapper)@.len() ==> old(mapper)@[j].stock_symbol@ != old(
                    mapper,
                )@[k].stock_symbol@,
            forall|j: int|
                0 <= j < old(mapper)@.len() ==> {
                    let h0 = old(mapper)@[j];
                    let h1 = #[trigger] mapper@[j];
                    &&& h1.stock_symbol@ == h0.stock_symbol@
                    &&& h1.initialized
                    &&& h1.wf()
                    &&& h1.log@ == h0.log@ + spec_routed(
                        ticks.take(i as int),
                        h0.stock_symbol@,
                        now as int,
                    )
                },
            out@.len() == spec_row_entries(ticks.take(i as int), symbols, now as int).len(),
            forall|k: int|
                0 <= k < out@.len() ==> {
                    let e = spec_row_entries(ticks.take(i as int), symbols, now as int)[k];
                    (#[trigger] out@[k]).handle_index == e.handle_index && out@[k].line@ == e.line
                },
        decreases n - i,
    {
        let ghost m_prev = mapper@;
        let ghost out_prev = out@;
        let t = &resp.transaction_data[i];
        proof {
            assert(ticks.take(i + 1).drop_last() =~= ticks.take(i as int));
            assert(ticks.take(i + 1).last() == ticks[i as int]);
        }
        let found = find_handle(mapper, &t.symbol);
        match found {
            Some(j) => {
                let rec = RollingData {
                    symbol: crate::codec::clone_string(&t.symbol),
                    price: t.price,
                    timestamp: t.time,
                    write_timestamp: now,
                };
                proof {
                    assert(rec@ == tick_record(ticks[i as int], now as int));
                    assert(symbols[j as int] == m_prev[j as int].stock_symbol@);
                    assert(rec@.wf());
                }
                let h = &mut mapper[j];
                let mut rows = h.log.append(rec);
                let line_opt = rows.pop();
                let line = line_opt.unwrap();
                out.push(PersistRow { handle_index: j, line });
                proof {
                    assert(mapper@ =~= m_prev.update(j as int, mapper@[j as int]));
                    let cj = choose|x: int|
                        0 <= x < symbols.len() && symbols[x] == ticks[i as int].symbol@;
                    assert(symbols[j as int] == ticks[i as int].symbol@);
                    assert(cj == j) by {
                        if cj != j {
                            assert(old(mapper)@[cj].stock_symbol@ == symbols[cj]);
                            assert(old(mapper)@[j as int].stock_symbol@ == symbols[j as int]);
                        }
                    }
                    assert(spec_row_entries(ticks.take(i + 1), symbols, now as int)
                        =~= spec_row_entries(ticks.take(i as int), symbols, now as int).push(
                        RowEntry {
                            handle_index: j as int,
                            line: spec_tick_row(tick_record(ticks[i as int], now as int)),
                        },
                    ));
                    assert forall|jj: int| 0 <= jj < old(mapper)@.len() implies (
                    #[trigger] mapper@[jj]).log@ =~= old(mapper)@[jj].log@ + spec_routed(
                        ticks.take(i + 1),
                        old(mapper)@[jj].stock_symbol@,
                        now as int,
                    ) by {
                        if jj == j {
                            assert(mapper@[jj].log@ =~= m_prev[jj].log@.push(rec@));
                        } else {
                            assert(old(mapper)@[jj].stock_symbol@ != ticks[i as int].symbol@);
                            assert(mapper@[jj] == m_prev[jj]);
                        }
                    }
                }
            },
            None => {
                proof {
                    assert forall|x: int|
                        0 <= x < symbols.len() implies symbols[x] != ticks[i as int].symbol@ by {
                        assert(mapper@[x].stock_symbol@ == symbols[x]);
                    }
                    assert(spec_row_entries(ticks.take(i + 1), symbols, now as int)
                        =~= spec_row_entries(ticks.take(i as int), symbols, now as int));
                    assert forall|jj: int| 0 <= jj < old(mapper)@.len() implies (
                    #[trigger] mapper@[jj]).log@ =~= old(mapper)@[jj].log@ + spec_routed(
                        ticks.take(i + 1),
                        old(mapper)@[jj].stock_symbol@,
                        now as int,
                    ) by {
                        assert(old(mapper)@[jj].stock_symbol@ == mapper@[jj].stock_symbol@);
                        assert(mapper@[jj].stock_symbol@ != ticks[i as int].symbol@);
                    }
                }
            },
        }
        i = i + 1;
    }
    proof {
        assert(ticks.take(n as int) =~= ticks);
    }
    out
}

} // verus!
