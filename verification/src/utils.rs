//! Small helpers shared by the core: symbol sanitization for file names,
//! minute truncation for window boundaries, and the windowed log scan.
use vstd::prelude::*;
use crate::RollingData;
use crate::RollingDataView;
use crate::record_views;
use crate::stock_handle::SymbolLog;

verus! {

/// Milliseconds in one minute.
pub const MILLIS_PER_MINUTE: i64 = 60000;

/// True for the characters kept by [`sanitize_string`]: ASCII letters,
/// digits and the underscore.
pub open spec fn word_char(c: char) -> bool {
    let u = c as u32;
    (48 <= u <= 57) || (65 <= u <= 90) || (97 <= u <= 122) || u == 95
}

/// The sanitized form of a symbol: every character that is not a letter, a
/// digit or an underscore is replaced by an underscore.
pub open spec fn spec_sanitize(s: Seq<char>) -> Seq<char> {
    s.map_values(|c: char| if word_char(c) { c } else { '_' })
}

/// Given a string containing special characters, returns the original
/// string with an underscore instead of each special character, forming a
/// name safe to use in a file path.
pub fn sanitize_string(s: &str) -> (r: String)
    ensures
        r@ == spec_sanitize(s@),
{
    let n = s.unicode_len();
    let mut r = String::new();
    let mut i: usize = 0;
    proof {
        assert(r@ =~= spec_sanitize(s@.take(0)));
    }
    while i < n
        invariant
            i <= n,
            n == s@.len(),
            r@ == spec_sanitize(s@.take(i as int)),
        decreases n - i,
    {
        let ghost prev = r@;
        let c = s.get_char(i);
        let u = c as u32;
        if (48 <= u && u <= 57) || (65 <= u && u <= 90) || (97 <= u && u <= 122) || u == 95 {
            let piece = s.substring_char(i, i + 1);
            r.append(piece);
            proof {
                assert(word_char(s@[i as int]));
                assert(r@ =~= prev + seq![s@[i as int]]);
            }
        } else {
            r.append("_");
            proof {
                reveal_strlit("_");
                assert(!word_char(s@[i as int]));
                assert(r@ =~= prev + seq!['_']);
            }
        }
        proof {
            assert(r@ =~= spec_sanitize(s@.take(i + 1)));
        }
        i = i + 1;
    }
    proof {
        assert(s@.take(n as int) =~= s@);
    }
    r
}

/// The path of a symbol's rolling tick log: the sanitized symbol under the
/// rolling data directory.
pub fn rolling_file_path(stock: &str) -> (p: String)
    ensures
        p@ == "data/rolling/"@ + spec_sanitize(stock@) + ".csv"@,
{
    let mut p = String::from_str("data/rolling/");
    let safe = sanitize_string(stock);
    p.append(safe.as_str());
    p.append(".csv");
    p
}

/// The path of a symbol's candlestick sink: the sanitized symbol under the
/// candlestick data directory.
pub fn candlestick_file_path(stock: &str) -> (p: String)
    ensures
        p@ == "data/candlestick/"@ + spec_sanitize(stock@) + ".csv"@,
{
    let mut p = String::from_str("data/candlestick/");
    let safe = sanitize_string(stock);
    p.append(safe.as_str());
    p.append(".csv");
    p
}

/// The path of a symbol's mean sink: the sanitized symbol under the mean
/// data directory.
pub fn mean_file_path(stock: &str) -> (p: String)
    ensures
        p@ == "data/mean/"@ + spec_sanitize(stock@) + ".csv"@,
{
    let mut p = String::from_str("data/mean/");
    let safe = sanitize_string(stock);
    p.append(safe.as_str());
    p.append(".csv");
    p
}

/// The timestamp `t` truncated down to a whole minute.
pub open spec fn spec_floor_to_minute(t: int) -> int {
    t - t % (MILLIS_PER_MINUTE as int)
}

/// Truncates a millisecond timestamp down to the minute boundary at or
/// before it, as the clock dispatcher does before broadcasting a tick.
pub fn floor_to_minute(t: i64) -> (r: i64)
    requires
        0 <= t,
    ensures
        r == spec_floor_to_minute(t as int),
        0 <= r <= t,
        r as int % (MILLIS_PER_MINUTE as int) == 0,
{
    t - t % MILLIS_PER_MINUTE
}

/// Window membership is half-open on the write timestamp: a record belongs
/// to `[lo, hi)` exactly when `lo <= write_timestamp < hi`.
pub open spec fn in_window(v: RollingDataView, lo: int, hi: int) -> bool {
    lo <= v.write_timestamp < hi
}

/// The records of `s` that fall inside the window `[lo, hi)`, in their
/// original order.
pub open spec fn spec_window_scan(s: Seq<RollingDataView>, lo: int, hi: int) -> Seq<
    RollingDataView,
>
    decreases s.len(),
{
    if s.len() == 0 {
        Seq::empty()
    } else {
        let rest = spec_window_scan(s.drop_last(), lo, hi);
        if in_window(s.last(), lo, hi) {
            rest.push(s.last())
        } else {
            rest
        }
    }
}

/// What the windowed scan keeps: only in-window records, every in-window
/// record, and never more records than the log holds.
pub proof fn lemma_window_scan_props(s: Seq<RollingDataView>, lo: int, hi: int)
    ensures
        spec_window_scan(s, lo, hi).len() <= s.len(),
        forall|i: int|
            0 <= i < spec_window_scan(s, lo, hi).len() ==> in_window(
                #[trigger] spec_window_scan(s, lo, hi)[i],
                lo,
                hi,
            ),
        forall|j: int|
            0 <= j < s.len() && in_window(#[trigger] s[j], lo, hi) ==> spec_window_scan(
                s,
                lo,
                hi,
            ).contains(s[j]),
    decreases s.len(),
{
    if s.len() > 0 {
        lemma_window_scan_props(s.drop_last(), lo, hi);
        let out = spec_window_scan(s, lo, hi);
        let rest = spec_window_scan(s.drop_last(), lo, hi);
        assert forall|j: int|
            0 <= j < s.len() && in_window(#[trigger] s[j], lo, hi) implies out.contains(
            s[j],
        ) by {
            if j == s.len() - 1 {
                assert(out.last() == s[j]);
                assert(out.contains(s[j]));
            } else {
                assert(s.drop_last()[j] == s[j]);
                assert(rest.contains(s[j]));
                let k = choose|k: int| 0 <= k < rest.len() && rest[k] == s[j];
                assert(out[k] == s[j]);
            }
        }
    }
}

/// Given a log, a reference time and a window length in minutes, returns
/// every record written to the log inside the window, in append order.
///
/// The window starts at the reference time truncated down to the minute and
/// is half-open: a record with a write timestamp equal to the window start
/// is kept, one with a write timestamp equal to the window end is not.
pub fn find_items(log: &SymbolLog, time: i64, l: i64) -> (items: Vec<RollingData>)
    requires
        0 <= time,
        0 <= l,
        spec_floor_to_minute(time as int) + l * (MILLIS_PER_MINUTE as int) <= i64::MAX,
    ensures
        record_views(items@) == spec_window_scan(
            log@,
            spec_floor_to_minute(time as int),
            spec_floor_to_minute(time as int) + l * (MILLIS_PER_MINUTE as int),
        ),
{
    let start = floor_to_minute(time);
    let end = start + l * MILLIS_PER_MINUTE;
    let n = log.record_count();
    let mut items: Vec<RollingData> = Vec::new();
    let mut i: usize = 0;
    proof {
        assert(record_views(items@) =~= spec_window_scan(log@.take(0), start as int, end as int));
    }
    while i < n
        invariant
            i <= n,
            n == log@.len(),
            start as int == spec_floor_to_minute(time as int),
            end as int == start as int + l * (MILLIS_PER_MINUTE as int),
            record_views(items@) == spec_window_scan(
                log@.take(i as int),
                start as int,
                end as int,
            ),
        decreases n - i,
    {
        let ghost prev = record_views(items@);
        let rec = log.get(i);
        if start <= rec.write_timestamp && rec.write_timestamp < end {
            items.push(rec.duplicate());
            proof {
                assert(record_views(items@) =~= prev.push(log@[i as int]));
            }
        }
        proof {
            assert(log@.take(i + 1).drop_last() =~= log@.take(i as int));
            assert(log@.take(i + 1).last() == log@[i as int]);
            assert(record_views(items@) =~= spec_window_scan(
                log@.take(i + 1),
                start as int,
                end as int,
            ));
        }
        i = i + 1;
    }
    proof {
        assert(log@.take(n as int) =~= log@);
    }
    items
}

/// The windowed scan is idempotent: two scans of an unmodified log with the
/// same reference time and window length yield identical results, because
/// the scan's outcome is a function of the log and the window alone.
pub proof fn lemma_find_items_idempotent(
    log: Seq<RollingDataView>,
    lo: int,
    hi: int,
    r1: Seq<RollingDataView>,
    r2: Seq<RollingDataView>,
)
    requires
        r1 == spec_window_scan(log, lo, hi),
        r2 == spec_window_scan(log, lo, hi),
    ensures
        r1 == r2,
{
}

/// The window boundary is half-open: a record stamped exactly at the window
/// start falls inside the window, a record stamped exactly at the window
/// end falls outside it.
pub proof fn lemma_window_half_open(v: RollingDataView, start: int, window_len: int)
    requires
        window_len > 0,
    ensures
        v.write_timestamp == start ==> in_window(v, start, start + window_len),
        v.write_timestamp == start + window_len ==> !in_window(v, start, start + window_len),
{
}

} // verus!
