//! The on-disk row grammar.
//!
//! Every persisted resource is delimited text: one row per record, fields
//! joined by a single comma, each row ended by a newline, and the first row
//! of a resource a fixed header naming its fields. Numbers are written in
//! canonical decimal: an optional leading minus, then digits with no
//! superfluous leading zero.
use vstd::prelude::*;
use crate::RollingData;
use crate::RollingDataView;
use crate::wf_field;

verus! {

/// The decimal digit characters, indexable by digit value.
pub open spec fn digit_char(d: int) -> char {
    seq!['0', '1', '2', '3', '4', '5', '6', '7', '8', '9'][d]
}

/// The canonical decimal form of a non-negative integer.
pub open spec fn spec_fmt_nat(n: int) -> Seq<char>
    decreases n,
{
    if n < 10 {
        seq![digit_char(n)]
    } else {
        spec_fmt_nat(n / 10).push(digit_char(n % 10))
    }
}

/// The canonical decimal form of an integer: a minus sign before the
/// magnitude when negative.
pub open spec fn spec_fmt_int(n: int) -> Seq<char> {
    if n >= 0 {
        spec_fmt_nat(n)
    } else {
        seq!['-'] + spec_fmt_nat(-n)
    }
}

/// The decimal digit character for one digit value.
fn digit_str(d: u64) -> (r: &'static str)
    requires
        d < 10,
    ensures
        r@ == seq![digit_char(d as int)],
{
    proof {
        reveal_strlit("0");
        reveal_strlit("1");
        reveal_strlit("2");
        reveal_strlit("3");
        reveal_strlit("4");
        reveal_strlit("5");
        reveal_strlit("6");
        reveal_strlit("7");
        reveal_strlit("8");
        reveal_strlit("9");
    }
    let r = match d {
        0 => "0",
        1 => "1",
        2 => "2",
        3 => "3",
        4 => "4",
        5 => "5",
        6 => "6",
        7 => "7",
        8 => "8",
        _ => "9",
    };
    proof {
        assert(r@ =~= seq![digit_char(d as int)]);
    }
    r
}

/// Writes a non-negative integer in canonical decimal.
pub fn fmt_u64(n: u64) -> (s: String)
    ensures
        s@ == spec_fmt_nat(n as int),
    decreases n,
{
    if n < 10 {
        let mut s = String::new();
        s.append(digit_str(n));
        proof {
            assert(s@ =~= spec_fmt_nat(n as int));
        }
        s
    } else {
        let mut s = fmt_u64(n / 10);
        s.append(digit_str(n % 10));
        proof {
            assert(s@ =~= spec_fmt_nat(n as int));
        }
        s
    }
}

/// Writes an integer in canonical decimal, minus sign included.
pub fn fmt_i64(n: i64) -> (s: String)
    ensures
        s@ == spec_fmt_int(n as int),
{
    if n >= 0 {
        fmt_u64(n as u64)
    } else {
        // The magnitude of `n`, computed without overflowing at `i64::MIN`.
        let mag: u64 = ((-(n + 1)) as u64) + 1;
        proof {
            assert(mag as int == -(n as int));
        }
        let mut s = String::new();
        proof {
            reveal_strlit("-");
        }
        s.append("-");
        let digits = fmt_u64(mag);
        s.append(digits.as_str());
        proof {
            assert(s@ =~= spec_fmt_int(n as int));
        }
        s
    }
}

/// Every character of a canonical non-negative decimal form is a digit, so
/// the form is comma- and newline-free and the value fits in one row field.
pub proof fn lemma_fmt_nat_digits(n: int)
    requires
        n >= 0,
    ensures
        spec_fmt_nat(n).len() >= 1,
        forall|i: int|
            0 <= i < spec_fmt_nat(n).len() ==> exists|d: int|
                0 <= d < 10 && #[trigger] spec_fmt_nat(n)[i] == digit_char(d),
    decreases n,
{
    if n >= 10 {
        lemma_fmt_nat_digits(n / 10);
        assert forall|i: int| 0 <= i < spec_fmt_nat(n).len() implies exists|d: int|
            0 <= d < 10 && #[trigger] spec_fmt_nat(n)[i] == digit_char(d) by {
            if i < spec_fmt_nat(n / 10).len() {
                assert(spec_fmt_nat(n)[i] == spec_fmt_nat(n / 10)[i]);
            } else {
                assert(spec_fmt_nat(n)[i] == digit_char(n % 10));
                assert(0 <= n % 10 < 10);
            }
        }
    } else {
        assert(0 <= n < 10);
        assert(spec_fmt_nat(n)[0] == digit_char(n));
    }
}

/// Digit characters and the minus sign are row-field characters: none of
/// them is a comma or a newline.
pub proof fn lemma_fmt_int_field(n: int)
    ensures
        wf_field(spec_fmt_int(n)),
{
    let s = spec_fmt_int(n);
    if n >= 0 {
        lemma_fmt_nat_digits(n);
        assert forall|i: int| 0 <= i < s.len() implies crate::field_char(#[trigger] s[i]) by {
            let d = choose|d: int| 0 <= d < 10 && spec_fmt_nat(n)[i] == digit_char(d);
        }
    } else {
        lemma_fmt_nat_digits(-n);
        assert forall|i: int| 0 <= i < s.len() implies crate::field_char(#[trigger] s[i]) by {
            if i >= 1 {
                assert(s[i] == spec_fmt_nat(-n)[i - 1]);
                let d = choose|d: int|
                    0 <= d < 10 && spec_fmt_nat(-n)[i - 1] == digit_char(d);
            }
        }
    }
}

/// The line form of one tick record: symbol, price, transaction time and
/// write time, comma-joined, without the ending newline.
pub open spec fn spec_tick_line(v: RollingDataView) -> Seq<char> {
    v.symbol + seq![','] + spec_fmt_int(v.price) + seq![','] + spec_fmt_int(v.timestamp)
        + seq![','] + spec_fmt_int(v.write_timestamp)
}

/// Reads an integer from its canonical decimal form. Any other text, and
/// any value outside the range of `i64`, is rejected.
pub fn parse_i64(s: &str) -> (r: Option<i64>)
    ensures
        r matches Some(v) ==> spec_parse_int(s@) == Some(v as int),
        r is None ==> (spec_parse_int(s@) is None || !(i64::MIN <= spec_parse_int(s@).unwrap()
            <= i64::MAX)),
{
    let n = s.unicode_len();
    if n == 0 {
        return None;
    }
    let neg = s.get_char(0) == '-';
    let start: usize = if neg {
        1
    } else {
        0
    };
    if n == start {
        // a lone minus sign
        proof {
            assert(!is_digit(s@[0]));
        }
        return None;
    }
    let first = s.get_char(start);
    if first == '0' {
        if !neg && n == 1 {
            proof {
                assert(s@ =~= s@.subrange(0, 1));
                assert(s@.drop_last().len() == 0);
                assert(dec_val(s@) == dec_val(s@.drop_last()) * 10 + digit_val(s@[0]));
                assert(valid_nat_repr(s@));
            }
            return Some(0);
        }
        // a superfluous leading zero, or a negative zero
        proof {
            if neg {
                assert(!is_digit(s@[0]));
            }
        }
        return None;
    }
    let mut val: u64 = 0;
    let mut i: usize = start;
    proof {
        assert(s@.subrange(start as int, start as int).len() == 0);
    }
    while i < n
        invariant
            start <= i <= n,
            n == s@.len(),
            neg ==> (start == 1 && s@[0] == '-'),
            !neg ==> (start == 0 && s@[0] != '-'),
            start < n,
            s@[start as int] != '0',
            all_digits(s@.subrange(start as int, i as int)),
            val == dec_val(s@.subrange(start as int, i as int)),
        decreases n - i,
    {
        let ghost prefix = s@.subrange(start as int, i as int);
        let c = s.get_char(i);
        let u = c as u32;
        if u < 48 || u > 57 {
            // not a digit: the text is no decimal form at all
            proof {
                assert(!is_digit(s@[i as int]));
                if neg {
                    assert(s@.drop_first()[i - 1] == s@[i as int]);
                    assert(!all_digits(s@.drop_first()));
                }
                assert(spec_parse_int(s@) is None);
            }
            return None;
        }
        let d = (u - 48) as u64;
        proof {
            assert(is_digit(s@[i as int]));
            assert(d == digit_val(s@[i as int]));
            assert(s@.subrange(start as int, i + 1).drop_last() =~= prefix);
            assert(s@.subrange(start as int, i + 1).last() == s@[i as int]);
        }
        if val > (u64::MAX - d) / 10 {
            // the digits read so far already exceed the 64-bit range, so
            // the represented value cannot fit in an i64 either way
            proof {
                vstd::arithmetic::div_mod::lemma_fundamental_div_mod(
                    u64::MAX - d,
                    10,
                );
                assert(val * 10 + d > u64::MAX) by (nonlinear_arith)
                    requires
                        val > (u64::MAX - d) / 10,
                        u64::MAX - d == 10 * ((u64::MAX - d) / 10) + ((u64::MAX - d) % 10),
                        0 <= (u64::MAX - d) % 10 < 10,
                        0 <= d,
                ;
                let ext = s@.subrange(start as int, i + 1);
                assert(dec_val(ext) == val * 10 + d);
                let t = s@.subrange(start as int, n as int);
                if all_digits(t) {
                    assert(ext =~= t.take(i + 1 - start));
                    lemma_dec_val_bounds(t, i + 1 - start);
                    assert(dec_val(t) > u64::MAX);
                    if neg {
                        assert(s@.drop_first() =~= t);
                        assert(!valid_nat_repr(s@));
                        assert(spec_parse_int(s@) == Some(-dec_val(t)));
                        assert(-dec_val(t) < i64::MIN);
                    } else {
                        assert(s@ =~= t);
                        assert(spec_parse_int(s@) == Some(dec_val(t)));
                        assert(dec_val(t) > i64::MAX);
                    }
                } else {
                    let bad = choose|k: int| 0 <= k < t.len() && !is_digit(t[k]);
                    if neg {
                        assert(s@.drop_first()[bad] == t[bad]);
                        assert(!all_digits(s@.drop_first()));
                        assert(s@[bad + 1] == t[bad]);
                        assert(!all_digits(s@));
                    } else {
                        assert(s@[bad] == t[bad]);
                        assert(!all_digits(s@));
                    }
                    assert(spec_parse_int(s@) is None);
                }
            }
            return None;
        }
        val = val * 10 + d;
        i = i + 1;
        proof {
            assert(s@.subrange(start as int, i as int) =~= prefix.push(s@[i - 1]));
        }
    }
    proof {
        let t = s@.subrange(start as int, n as int);
        assert(valid_nat_repr(t));
        if neg {
            assert(s@.drop_first() =~= t);
            assert(!is_digit(s@[0]));
            assert(!valid_nat_repr(s@));
            assert(s@[1] == t[0]);
            assert(spec_parse_int(s@) == Some(-dec_val(t)));
        } else {
            assert(s@ =~= t);
            assert(spec_parse_int(s@) == Some(dec_val(t)));
        }
    }
    if neg {
        if val > 9223372036854775808u64 {
            return None;
        }
        if val == 9223372036854775808u64 {
            return Some(i64::MIN);
        }
        return Some(-(val as i64));
    }
    if val > 9223372036854775807u64 {
        return None;
    }
    Some(val as i64)
}

/// The row form of one tick record: its line, newline-ended.
pub open spec fn spec_tick_row(v: RollingDataView) -> Seq<char> {
    spec_tick_line(v) + seq!['\n']
}

/// True when `c` is a decimal digit character.
pub open spec fn is_digit(c: char) -> bool {
    48 <= c as int <= 57
}

/// The value of a decimal digit character.
pub open spec fn digit_val(c: char) -> int {
    c as int - 48
}

/// True when every character of `s` is a decimal digit.
pub open spec fn all_digits(s: Seq<char>) -> bool {
    forall|i: int| 0 <= i < s.len() ==> is_digit(#[trigger] s[i])
}

/// The value of a digit string read in base ten.
pub open spec fn dec_val(s: Seq<char>) -> int
    decreases s.len(),
{
    if s.len() == 0 {
        0
    } else {
        dec_val(s.drop_last()) * 10 + digit_val(s.last())
    }
}

/// True when `s` is the canonical decimal form of some non-negative
/// integer: at least one digit, and no superfluous leading zero.
pub open spec fn valid_nat_repr(s: Seq<char>) -> bool {
    s.len() > 0 && all_digits(s) && (s[0] != '0' || s.len() == 1)
}

/// The integer whose canonical decimal form `s` is, if it is one.
pub open spec fn spec_parse_int(s: Seq<char>) -> Option<int> {
    if valid_nat_repr(s) {
        Some(dec_val(s))
    } else if s.len() >= 2 && s[0] == '-' && valid_nat_repr(s.drop_first()) && s[1] != '0' {
        Some(-dec_val(s.drop_first()))
    } else {
        None
    }
}

/// A digit string's value never shrinks as the string grows, and is never
/// negative.
pub proof fn lemma_dec_val_bounds(s: Seq<char>, k: int)
    requires
        all_digits(s),
        0 <= k <= s.len(),
    ensures
        0 <= dec_val(s.take(k)) <= dec_val(s),
    decreases s.len(), s.len() - k,
{
    if k == s.len() {
        assert(s.take(k) =~= s);
        if s.len() > 0 {
            lemma_dec_val_bounds(s.drop_last(), s.len() - 1);
            assert(s.drop_last() =~= s.take(s.len() - 1));
        }
    } else {
        lemma_dec_val_bounds(s, k + 1);
        assert(s.take(k + 1).drop_last() =~= s.take(k));
        assert(is_digit(s[k]));
        assert(dec_val(s.take(k + 1)) == dec_val(s.take(k)) * 10 + digit_val(s[k]));
        assert(dec_val(s.take(k)) <= dec_val(s.take(k)) * 10 + digit_val(s[k])) by (nonlinear_arith)
            requires
                0 <= dec_val(s.take(k)),
                0 <= digit_val(s[k]),
        ;
    }
}

/// The canonical form of a non-negative integer is a valid representation
/// and reads back as the same integer.
pub proof fn lemma_fmt_nat_round_trip(n: int)
    requires
        n >= 0,
    ensures
        valid_nat_repr(spec_fmt_nat(n)),
        dec_val(spec_fmt_nat(n)) == n,
        n > 0 ==> spec_fmt_nat(n)[0] != '0',
    decreases n,
{
    let s = spec_fmt_nat(n);
    if n < 10 {
        assert(s =~= seq![digit_char(n)]);
        assert(s.drop_last().len() == 0);
        assert(dec_val(s.drop_last()) == 0);
        assert(s.last() == digit_char(n));
        assert(digit_val(digit_char(n)) == n);
        assert(dec_val(s) == 0 * 10 + n);
    } else {
        lemma_fmt_nat_round_trip(n / 10);
        vstd::arithmetic::div_mod::lemma_fundamental_div_mod(n, 10);
        let prefix = spec_fmt_nat(n / 10);
        assert(s == prefix.push(digit_char(n % 10)));
        assert(s.drop_last() =~= prefix);
        assert(s.last() == digit_char(n % 10));
        assert(digit_val(digit_char(n % 10)) == n % 10);
        assert(dec_val(s) == dec_val(prefix) * 10 + n % 10);
        assert(n / 10 > 0);
        assert(s[0] == prefix[0]);
        assert(forall|i: int| 0 <= i < s.len() ==> is_digit(#[trigger] s[i])) by {
            assert(forall|i: int|
                0 <= i < prefix.len() ==> s[i] == #[trigger] prefix[i]);
            assert(is_digit(digit_char(n % 10)));
        }
    }
}

/// The canonical form of any integer reads back as the same integer.
pub proof fn lemma_fmt_int_round_trip(n: int)
    ensures
        spec_parse_int(spec_fmt_int(n)) == Some(n),
{
    let s = spec_fmt_int(n);
    if n >= 0 {
        lemma_fmt_nat_round_trip(n);
    } else {
        lemma_fmt_nat_round_trip(-n);
        let mag = spec_fmt_nat(-n);
        assert(s == seq!['-'] + mag);
        assert(s.len() == 1 + mag.len());
        assert(s[0] == '-');
        assert(!is_digit('-'));
        assert(!valid_nat_repr(s));
        assert(s.drop_first() =~= mag);
        assert(s[1] == mag[0]);
        assert(s[1] != '0');
        assert(spec_parse_int(s) == Some(-dec_val(mag)));
    }
}

/// Serializes one tick record as one row of its rolling log.
pub fn encode_tick_row(r: &crate::RollingData) -> (s: String)
    ensures
        s@ == spec_tick_row(r@),
{
    let mut s = self::clone_string(&r.symbol);
    proof {
        reveal_strlit(",");
        reveal_strlit("\n");
    }
    s.append(",");
    let f1 = fmt_i64(r.price);
    s.append(f1.as_str());
    s.append(",");
    let f2 = fmt_i64(r.timestamp);
    s.append(f2.as_str());
    s.append(",");
    let f3 = fmt_i64(r.write_timestamp);
    s.append(f3.as_str());
    s.append("\n");
    proof {
        assert(s@ =~= spec_tick_row(r@));
    }
    s
}

/// The position of the first occurrence of `sep` in `s`, or the length of
/// `s` when it does not occur.
pub open spec fn spec_first_sep(s: Seq<char>, sep: char) -> int
    decreases s.len(),
{
    if s.len() == 0 {
        0
    } else if s[0] == sep {
        0
    } else {
        1 + spec_first_sep(s.drop_first(), sep)
    }
}

/// Where the first separator is known to sit, the first-separator position
/// is exactly there.
pub proof fn lemma_first_sep_at(s: Seq<char>, sep: char, m: int)
    requires
        0 <= m <= s.len(),
        forall|j: int| 0 <= j < m ==> s[j] != sep,
        m < s.len() ==> s[m] == sep,
    ensures
        spec_first_sep(s, sep) == m,
    decreases m,
{
    if m == 0 {
        if s.len() > 0 {
            assert(s[0] == sep);
        }
    } else {
        assert(s[0] != sep);
        assert forall|j: int| 0 <= j < m - 1 implies s.drop_first()[j] != sep by {
            assert(s.drop_first()[j] == s[j + 1]);
        }
        if m - 1 < s.drop_first().len() {
            assert(s.drop_first()[m - 1] == s[m]);
        }
        lemma_first_sep_at(s.drop_first(), sep, m - 1);
    }
}

/// True when no character of `s` is a newline.
pub open spec fn no_newline(s: Seq<char>) -> bool {
    forall|i: int| 0 <= i < s.len() ==> s[i] != '\n'
}

/// The record whose line form `s` is, if it is one: exactly four
/// comma-separated fields, no newline, and three numbers in canonical
/// decimal that fit a 64-bit integer.
pub open spec fn spec_parse_tick_line(s: Seq<char>) -> Option<RollingDataView> {
    let k0 = spec_first_sep(s, ',');
    let s1 = s.subrange(k0 + 1, s.len() as int);
    let k1 = spec_first_sep(s1, ',');
    let s2 = s1.subrange(k1 + 1, s1.len() as int);
    let k2 = spec_first_sep(s2, ',');
    let s3 = s2.subrange(k2 + 1, s2.len() as int);
    if no_newline(s) && k0 < s.len() && k1 < s1.len() && k2 < s2.len() && spec_first_sep(s3, ',')
        == s3.len() {
        match (spec_parse_int(s1.take(k1)), spec_parse_int(s2.take(k2)), spec_parse_int(s3)) {
            (Some(p), Some(t), Some(w)) => if i64::MIN <= p <= i64::MAX && i64::MIN <= t
                <= i64::MAX && i64::MIN <= w <= i64::MAX {
                Some(
                    RollingDataView {
                        symbol: s.take(k0),
                        price: p,
                        timestamp: t,
                        write_timestamp: w,
                    },
                )
            } else {
                None
            },
            _ => None,
        }
    } else {
        None
    }
}

/// Reads one data row of a rolling log back into a record. The line is the
/// row without its ending newline; anything that [`encode_tick_row`] would
/// not have produced for a well-formed record is rejected.
pub fn parse_tick_row(line: &str) -> (r: Option<RollingData>)
    ensures
        r matches Some(rec) ==> spec_parse_tick_line(line@) == Some(rec@) && rec@.wf(),
        r is None ==> spec_parse_tick_line(line@) is None,
{
    let n = line.unicode_len();
    let mut count: usize = 0;
    let mut c1: usize = 0;
    let mut c2: usize = 0;
    let mut c3: usize = 0;
    let mut i: usize = 0;
    while i < n
        invariant
            i <= n,
            n == line@.len(),
            count <= 3,
            forall|j: int| 0 <= j < i ==> line@[j] != '\n',
            forall|j: int|
                0 <= j < i ==> (line@[j] != ',' || (count >= 1 && j == c1) || (count >= 2 && j
                    == c2) || (count >= 3 && j == c3)),
            count >= 1 ==> (c1 < i && line@[c1 as int] == ','),
            count >= 2 ==> (c1 < c2 < i && line@[c2 as int] == ','),
            count >= 3 ==> (c2 < c3 < i && line@[c3 as int] == ','),
        decreases n - i,
    {
        let c = line.get_char(i);
        if c == '\n' {
            proof {
                assert(!no_newline(line@));
            }
            return None;
        }
        if c == ',' {
            if count == 3 {
                // a fifth field: the row form has exactly four
                proof {
                    let s = line@;
                    lemma_first_sep_at(s, ',', c1 as int);
                    let s1 = s.subrange(c1 + 1, s.len() as int);
                    assert forall|j: int| 0 <= j < c2 - c1 - 1 implies s1[j] != ',' by {
                        assert(s1[j] == s[c1 + 1 + j]);
                    }
                    assert(s1[c2 - c1 - 1] == s[c2 as int]);
                    lemma_first_sep_at(s1, ',', c2 - c1 - 1);
                    let s2 = s1.subrange(c2 - c1, s1.len() as int);
                    assert forall|j: int| 0 <= j < c3 - c2 - 1 implies s2[j] != ',' by {
                        assert(s2[j] == s[c2 + 1 + j]);
                    }
                    assert(s2[c3 - c2 - 1] == s[c3 as int]);
                    lemma_first_sep_at(s2, ',', c3 - c2 - 1);
                    let s3 = s2.subrange(c3 - c2, s2.len() as int);
                    assert forall|j: int| 0 <= j < i - c3 - 1 implies s3[j] != ',' by {
                        assert(s3[j] == s[c3 + 1 + j]);
                    }
                    assert(s3[i - c3 - 1] == s[i as int]);
                    lemma_first_sep_at(s3, ',', i - c3 - 1);
                    assert(spec_first_sep(s3, ',') < s3.len());
                    assert(spec_parse_tick_line(line@) is None);
                }
                return None;
            }
            if count == 0 {
                c1 = i;
            } else if count == 1 {
                c2 = i;
            } else {
                c3 = i;
            }
            count = count + 1;
        }
        i = i + 1;
    }
    if count != 3 {
        // fewer than four fields
        proof {
            let s = line@;
            if count == 0 {
                lemma_first_sep_at(s, ',', s.len() as int);
            } else if count == 1 {
                lemma_first_sep_at(s, ',', c1 as int);
                let s1 = s.subrange(c1 + 1, s.len() as int);
                assert forall|j: int| 0 <= j < s1.len() implies s1[j] != ',' by {
                    assert(s1[j] == s[c1 + 1 + j]);
                }
                lemma_first_sep_at(s1, ',', s1.len() as int);
            } else {
                lemma_first_sep_at(s, ',', c1 as int);
                let s1 = s.subrange(c1 + 1, s.len() as int);
                assert forall|j: int| 0 <= j < c2 - c1 - 1 implies s1[j] != ',' by {
                    assert(s1[j] == s[c1 + 1 + j]);
                }
                assert(s1[c2 - c1 - 1] == s[c2 as int]);
                lemma_first_sep_at(s1, ',', c2 - c1 - 1);
                let s2 = s1.subrange(c2 - c1, s1.len() as int);
                assert forall|j: int| 0 <= j < s2.len() implies s2[j] != ',' by {
                    assert(s2[j] == s[c2 + 1 + j]);
                }
                lemma_first_sep_at(s2, ',', s2.len() as int);
            }
            assert(spec_parse_tick_line(line@) is None);
        }
        return None;
    }
    proof {
        let s = line@;
        lemma_first_sep_at(s, ',', c1 as int);
        let s1 = s.subrange(c1 + 1, s.len() as int);
        assert forall|j: int| 0 <= j < c2 - c1 - 1 implies s1[j] != ',' by {
            assert(s1[j] == s[c1 + 1 + j]);
        }
        assert(s1[c2 - c1 - 1] == s[c2 as int]);
        lemma_first_sep_at(s1, ',', c2 - c1 - 1);
        let s2 = s1.subrange(c2 - c1, s1.len() as int);
        assert forall|j: int| 0 <= j < c3 - c2 - 1 implies s2[j] != ',' by {
            assert(s2[j] == s[c2 + 1 + j]);
        }
        assert(s2[c3 - c2 - 1] == s[c3 as int]);
        lemma_first_sep_at(s2, ',', c3 - c2 - 1);
        let s3 = s2.subrange(c3 - c2, s2.len() as int);
        assert forall|j: int| 0 <= j < s3.len() implies s3[j] != ',' by {
            assert(s3[j] == s[c3 + 1 + j]);
        }
        lemma_first_sep_at(s3, ',', s3.len() as int);
        assert(s1.take(c2 - c1 - 1) =~= s.subrange(c1 + 1, c2 as int));
        assert(s2.take(c3 - c2 - 1) =~= s.subrange(c2 + 1, c3 as int));
        assert(s3 =~= s.subrange(c3 + 1, s.len() as int));
        assert(s.take(c1 as int) =~= s.subrange(0, c1 as int));
    }
    let f1 = line.substring_char(c1 + 1, c2);
    let p1 = match parse_i64(f1) {
        Some(v) => v,
        None => {
            return None;
        },
    };
    let f2 = line.substring_char(c2 + 1, c3);
    let p2 = match parse_i64(f2) {
        Some(v) => v,
        None => {
            return None;
        },
    };
    let f3 = line.substring_char(c3 + 1, n);
    let p3 = match parse_i64(f3) {
        Some(v) => v,
        None => {
            return None;
        },
    };
    let sym = line.substring_char(0, c1);
    let rec = RollingData {
        symbol: sym.to_owned(),
        price: p1,
        timestamp: p2,
        write_timestamp: p3,
    };
    proof {
        assert(wf_field(rec.symbol@));
        assert(spec_parse_tick_line(line@) == Some(rec@));
    }
    Some(rec)
}

/// Row integrity: the row written for any well-formed record reads back as
/// exactly that record. Together with [`parse_tick_row`]'s contract this
/// says that no other record, and no malformed text, has the same row.
pub proof fn lemma_tick_row_round_trip(v: RollingDataView)
    requires
        v.wf(),
    ensures
        spec_parse_tick_line(spec_tick_line(v)) == Some(v),
        no_newline(spec_tick_line(v)),
{
    let s = spec_tick_line(v);
    let a = spec_fmt_int(v.price);
    let b = spec_fmt_int(v.timestamp);
    let c = spec_fmt_int(v.write_timestamp);
    let ls = v.symbol.len() as int;
    let la = a.len() as int;
    let lb = b.len() as int;
    lemma_fmt_int_field(v.price);
    lemma_fmt_int_field(v.timestamp);
    lemma_fmt_int_field(v.write_timestamp);
    lemma_fmt_int_round_trip(v.price);
    lemma_fmt_int_round_trip(v.timestamp);
    lemma_fmt_int_round_trip(v.write_timestamp);
    assert forall|j: int| 0 <= j < ls implies s[j] != ',' && s[j] != '\n' by {
        assert(s[j] == v.symbol[j]);
        assert(crate::field_char(v.symbol[j]));
    }
    assert(s[ls] == ',');
    lemma_first_sep_at(s, ',', ls);
    let s1 = s.subrange(ls + 1, s.len() as int);
    assert(s1 =~= a + seq![','] + b + seq![','] + c);
    assert forall|j: int| 0 <= j < la implies s1[j] != ',' && s1[j] != '\n' by {
        assert(s1[j] == a[j]);
        assert(crate::field_char(a[j]));
    }
    assert(s1[la] == ',');
    lemma_first_sep_at(s1, ',', la);
    let s2 = s1.subrange(la + 1, s1.len() as int);
    assert(s2 =~= b + seq![','] + c);
    assert forall|j: int| 0 <= j < lb implies s2[j] != ',' && s2[j] != '\n' by {
        assert(s2[j] == b[j]);
        assert(crate::field_char(b[j]));
    }
    assert(s2[lb] == ',');
    lemma_first_sep_at(s2, ',', lb);
    let s3 = s2.subrange(lb + 1, s2.len() as int);
    assert(s3 =~= c);
    assert forall|j: int| 0 <= j < s3.len() implies s3[j] != ',' && s3[j] != '\n' by {
        assert(s3[j] == c[j]);
        assert(crate::field_char(c[j]));
    }
    lemma_first_sep_at(s3, ',', s3.len() as int);
    assert(no_newline(s));
    assert(s1.take(la) =~= a);
    assert(s2.take(lb) =~= b);
    assert(s.take(ls) =~= v.symbol);
    let parsed = spec_parse_tick_line(s);
    assert(parsed matches Some(w) && w == v) by {
        let w = RollingDataView {
            symbol: s.take(ls),
            price: v.price,
            timestamp: v.timestamp,
            write_timestamp: v.write_timestamp,
        };
        assert(w.symbol == v.symbol);
    }
}

/// The records of a newline-terminated run of data rows, if every row
/// parses; an unterminated final row, or any malformed row, spoils the
/// whole run.
pub open spec fn spec_parse_log_rows(s: Seq<char>) -> Option<Seq<RollingDataView>>
    decreases s.len(),
{
    if s.len() == 0 {
        Some(Seq::empty())
    } else {
        let k = spec_first_sep(s, '\n');
        if k < 0 || k >= s.len() {
            None
        } else {
            match spec_parse_tick_line(s.take(k)) {
                Some(rec) => match spec_parse_log_rows(s.subrange(k + 1, s.len() as int)) {
                    Some(rest) => Some(seq![rec] + rest),
                    None => None,
                },
                None => None,
            }
        }
    }
}

/// The records of a whole rolling-log text: empty text is an empty,
/// headerless store; otherwise a newline-terminated header row comes
/// first, and every following row must parse.
pub open spec fn spec_parse_log(s: Seq<char>) -> Option<Seq<RollingDataView>> {
    if s.len() == 0 {
        Some(Seq::empty())
    } else {
        let k = spec_first_sep(s, '\n');
        if k < 0 || k >= s.len() {
            None
        } else {
            spec_parse_log_rows(s.subrange(k + 1, s.len() as int))
        }
    }
}

/// The text of a run of data rows, one newline-ended row per record, in
/// order.
pub open spec fn spec_log_rows_text(rows: Seq<RollingDataView>) -> Seq<char>
    decreases rows.len(),
{
    if rows.len() == 0 {
        Seq::empty()
    } else {
        spec_log_rows_text(rows.drop_last()) + spec_tick_row(rows.last())
    }
}

/// The whole text of a rolling log: the header row first, then one row per
/// record in append order.
pub open spec fn spec_log_text(rows: Seq<RollingDataView>) -> Seq<char> {
    spec_tick_header() + spec_log_rows_text(rows)
}

/// A run of rows can be peeled from the front as well: it is the first
/// record's row followed by the text of the remaining rows.
pub proof fn lemma_log_rows_text_first(rows: Seq<RollingDataView>)
    requires
        rows.len() > 0,
    ensures
        spec_log_rows_text(rows) == spec_tick_row(rows.first()) + spec_log_rows_text(
            rows.drop_first(),
        ),
    decreases rows.len(),
{
    if rows.len() == 1 {
        assert(rows.drop_last().len() == 0);
        assert(rows.drop_first().len() == 0);
        assert(spec_log_rows_text(rows.drop_last()) == Seq::<char>::empty());
        assert(spec_log_rows_text(rows.drop_first()) == Seq::<char>::empty());
        assert(rows.last() == rows.first());
        assert(spec_log_rows_text(rows) =~= spec_tick_row(rows.first()) + spec_log_rows_text(
            rows.drop_first(),
        ));
    } else {
        lemma_log_rows_text_first(rows.drop_last());
        assert(rows.drop_last().first() == rows.first());
        assert(rows.drop_last().drop_first() =~= rows.drop_first().drop_last());
        assert(rows.drop_first().last() == rows.last());
        assert(spec_log_rows_text(rows) == spec_log_rows_text(rows.drop_last()) + spec_tick_row(
            rows.last(),
        ));
        assert(spec_log_rows_text(rows.drop_last()) == spec_tick_row(rows.first())
            + spec_log_rows_text(rows.drop_first().drop_last()));
        assert(rows.drop_first().len() > 0);
        assert(spec_log_rows_text(rows.drop_first()) == spec_log_rows_text(
            rows.drop_first().drop_last(),
        ) + spec_tick_row(rows.drop_first().last()));
        assert(spec_log_rows_text(rows) =~= spec_tick_row(rows.first()) + spec_log_rows_text(
            rows.drop_first(),
        ));
    }
}

/// The text of any run of well-formed rows reads back as exactly those
/// records.
pub proof fn lemma_parse_log_rows_round_trip(rows: Seq<RollingDataView>)
    requires
        forall|i: int| 0 <= i < rows.len() ==> (#[trigger] rows[i]).wf(),
    ensures
        spec_parse_log_rows(spec_log_rows_text(rows)) == Some(rows),
    decreases rows.len(),
{
    let t = spec_log_rows_text(rows);
    if rows.len() == 0 {
        assert(t.len() == 0);
        assert(spec_parse_log_rows(t) == Some(Seq::<RollingDataView>::empty()));
        assert(Seq::<RollingDataView>::empty() =~= rows);
    } else {
        let first = rows.first();
        let line = spec_tick_line(first);
        lemma_log_rows_text_first(rows);
        lemma_tick_row_round_trip(first);
        assert(t =~= line + seq!['\n'] + spec_log_rows_text(rows.drop_first()));
        assert forall|j: int| 0 <= j < line.len() implies t[j] != '\n' by {
            assert(t[j] == line[j]);
        }
        assert(t[line.len() as int] == '\n');
        lemma_first_sep_at(t, '\n', line.len() as int);
        assert(t.take(line.len() as int) =~= line);
        assert(t.subrange(line.len() as int + 1, t.len() as int) =~= spec_log_rows_text(
            rows.drop_first(),
        ));
        assert forall|i: int| 0 <= i < rows.drop_first().len() implies (
        #[trigger] rows.drop_first()[i]).wf() by {
            assert(rows.drop_first()[i] == rows[i + 1]);
        }
        lemma_parse_log_rows_round_trip(rows.drop_first());
        assert(seq![first] + rows.drop_first() =~= rows);
    }
}

/// Store round trip: the durable text that appends build up — the header
/// row, then every record's row in order — reads back as exactly the same
/// records.
pub proof fn lemma_log_round_trip(rows: Seq<RollingDataView>)
    requires
        forall|i: int| 0 <= i < rows.len() ==> (#[trigger] rows[i]).wf(),
    ensures
        spec_parse_log(spec_log_text(rows)) == Some(rows),
{
    let h = spec_tick_header();
    let t = spec_log_text(rows);
    reveal_strlit("Symbol,Price,Timestamp,WriteTimestamp\n");
    assert(h.len() == 38);
    assert(h[37] == '\n');
    assert forall|j: int| 0 <= j < 37 implies t[j] != '\n' by {
        assert(t[j] == h[j]);
    }
    assert(t[37] == '\n');
    lemma_first_sep_at(t, '\n', 37);
    assert(t.subrange(38, t.len() as int) =~= spec_log_rows_text(rows));
    lemma_parse_log_rows_round_trip(rows);
}

/// A copy of a string with the same characters.
pub fn clone_string(s: &String) -> (r: String)
    ensures
        r@ == s@,
{
    s.clone()
}

/// The header row of a rolling tick log.
pub open spec fn spec_tick_header() -> Seq<char> {
    "Symbol,Price,Timestamp,WriteTimestamp\n"@
}

/// The header row written once at the top of each rolling tick log.
pub fn tick_header_row() -> (s: String)
    ensures
        s@ == spec_tick_header(),
{
    String::from_str("Symbol,Price,Timestamp,WriteTimestamp\n")
}

} // verus!
