//! The text of the sample log: one decimal timestamp per line, each line
//! ended by a newline.
use vstd::prelude::*;

verus! {

/// The byte that ends each line of a log.
pub const NEWLINE: u8 = 10;

/// The sign of a negative sample.
pub const MINUS: u8 = 45;

/// An explicit sign of a non-negative sample, accepted when reading.
pub const PLUS: u8 = 43;

/// The digit `0`; the digits `0` to `9` are consecutive bytes.
pub const ZERO: u8 = 48;

/// A decimal digit.
pub open spec fn is_digit(b: u8) -> bool {
    ZERO <= b <= ZERO + 9
}

/// Every byte of `s` is a decimal digit.
pub open spec fn all_digits(s: Seq<u8>) -> bool {
    forall|i: int| 0 <= i < s.len() ==> is_digit(#[trigger] s[i])
}

/// The value of a string of decimal digits.
pub open spec fn digits_value(s: Seq<u8>) -> nat
    decreases s.len(),
{
    if s.len() == 0 {
        0
    } else {
        digits_value(s.drop_last()) * 10 + (s.last() - ZERO) as nat
    }
}

/// The decimal digits of `n`, most significant first, without leading zeros.
pub open spec fn decimal_digits(n: nat) -> Seq<u8>
    decreases n,
{
    if n < 10 {
        seq![(n + ZERO) as u8]
    } else {
        decimal_digits(n / 10).push((n % 10 + ZERO) as u8)
    }
}

/// The decimal text of an integer, with a minus sign when it is negative.
pub open spec fn sample_text(t: int) -> Seq<u8> {
    if t < 0 {
        seq![MINUS] + decimal_digits((-t) as nat)
    } else {
        decimal_digits(t as nat)
    }
}

/// One line of the log: the sample's decimal text and a newline.
pub open spec fn sample_line(t: int) -> Seq<u8> {
    sample_text(t).push(NEWLINE)
}

/// The log that holds the given samples, in order.
pub open spec fn log_of(samples: Seq<i64>) -> Seq<u8>
    decreases samples.len(),
{
    if samples.len() == 0 {
        Seq::empty()
    } else {
        log_of(samples.drop_last()) + sample_line(samples.last() as int)
    }
}

/// The integer written by a string of digits `body`, negated when `negative`,
/// where `body` is not empty, holds digits only and gives a value in the range
/// of `i64`.
pub open spec fn signed_digits(negative: bool, body: Seq<u8>) -> Option<i64> {
    let value = if negative {
        -(digits_value(body) as int)
    } else {
        digits_value(body) as int
    };
    if body.len() == 0 || !all_digits(body) || value < i64::MIN || value > i64::MAX {
        None
    } else {
        Some(value as i64)
    }
}

/// A signed decimal integer as `i64` parses it: an optional sign, then one or
/// more digits, with a value in the range of `i64`.
pub open spec fn parse_sample_spec(s: Seq<u8>) -> Option<i64> {
    if s.len() > 0 && (s[0] == MINUS || s[0] == PLUS) {
        signed_digits(s[0] == MINUS, s.drop_first())
    } else {
        signed_digits(false, s)
    }
}

/// `s` with every newline at its end removed.
pub open spec fn trim_trailing_newlines(s: Seq<u8>) -> Seq<u8>
    decreases s.len(),
{
    if s.len() > 0 && s.last() == NEWLINE {
        trim_trailing_newlines(s.drop_last())
    } else {
        s
    }
}

/// What follows the last newline of `s` (all of `s` when it holds none).
pub open spec fn last_segment(s: Seq<u8>) -> Seq<u8>
    decreases s.len(),
{
    if s.len() == 0 || s.last() == NEWLINE {
        Seq::empty()
    } else {
        last_segment(s.drop_last()).push(s.last())
    }
}

/// The last non-empty line of a log; empty when the log has none.
pub open spec fn last_line(s: Seq<u8>) -> Seq<u8> {
    last_segment(trim_trailing_newlines(s))
}

/// Why the last sample of a log could not be read.
#[derive(Clone, Copy, Debug, PartialEq, Eq, Structural)]
pub enum LogError {
    /// The last non-empty line is not a decimal integer in the range of `i64`.
    MalformedSample,
}

/// The last sample of a log: its last non-empty line read as an integer, or
/// `now` when the log holds no non-empty line.
pub open spec fn last_sample_spec(contents: Seq<u8>, now: i64) -> Result<i64, LogError> {
    let line = last_line(contents);
    if line.len() == 0 {
        Ok(now)
    } else {
        match parse_sample_spec(line) {
            Some(t) => Ok(t),
            None => Err(LogError::MalformedSample),
        }
    }
}

proof fn lemma_digits_value_step(s: Seq<u8>, i: int)
    requires
        0 <= i < s.len(),
    ensures
        digits_value(s.subrange(0, i + 1)) == digits_value(s.subrange(0, i)) * 10 + (s[i]
            - ZERO) as nat,
{
    assert(s.subrange(0, i + 1).drop_last() =~= s.subrange(0, i));
}

proof fn lemma_digits_value_prefix(s: Seq<u8>, j: int)
    requires
        0 <= j <= s.len(),
        all_digits(s),
    ensures
        digits_value(s.subrange(0, j)) <= digits_value(s),
    decreases s.len(),
{
    if j < s.len() {
        assert(s.drop_last().subrange(0, j) =~= s.subrange(0, j));
        lemma_digits_value_prefix(s.drop_last(), j);
    } else {
        assert(s.subrange(0, j) =~= s);
    }
}

/// Reads `s[start..end]` as a signed decimal integer.
fn parse_range(s: &[u8], start: usize, end: usize) -> (r: Option<i64>)
    requires
        start <= end <= s@.len(),
    ensures
        r == parse_sample_spec(s@.subrange(start as int, end as int)),
{
    let ghost line = s@.subrange(start as int, end as int);
    let negative = start < end && s[start] == MINUS;
    let mut i: usize = start;
    if start < end && (s[start] == MINUS || s[start] == PLUS) {
        i = start + 1;
    }
    let ghost body = s@.subrange(i as int, end as int);
    proof {
        if start < end && (s[start as int] == MINUS || s[start as int] == PLUS) {
            assert(body =~= line.drop_first());
        } else {
            assert(body =~= line);
        }
    }
    if i == end {
        return None;
    }
    let limit: u64 = if negative {
        9_223_372_036_854_775_808
    } else {
        9_223_372_036_854_775_807
    };
    let first = i;
    let mut magnitude: u64 = 0;
    while i < end
        invariant
            first <= i <= end <= s@.len(),
            body == s@.subrange(first as int, end as int),
            magnitude == digits_value(body.subrange(0, i - first)),
            magnitude <= limit,
            all_digits(body.subrange(0, i - first)),
            parse_sample_spec(s@.subrange(start as int, end as int)) == signed_digits(
                negative,
                body,
            ),
            negative ==> limit == 9_223_372_036_854_775_808,
            !negative ==> limit == 9_223_372_036_854_775_807,
        decreases end - i,
    {
        let b = s[i];
        assert(body[i - first] == b);
        proof {
            lemma_digits_value_step(body, i - first);
        }
        if b < ZERO || b > ZERO + 9 {
            assert(!is_digit(body[i - first]));
            return None;
        }
        let d = (b - ZERO) as u64;
        if magnitude > (limit - d) / 10 {
            proof {
                assert(magnitude * 10 + d > limit) by (nonlinear_arith)
                    requires
                        magnitude > (limit - d) / 10,
                        d <= 9,
                        limit >= 9,
                ;
                if all_digits(body) {
                    lemma_digits_value_prefix(body, i - first + 1);
                }
            }
            return None;
        }
        proof {
            assert(magnitude * 10 + d <= limit) by (nonlinear_arith)
                requires
                    magnitude <= (limit - d) / 10,
                    d <= 9,
                    limit >= 9,
            ;
            assert(all_digits(body.subrange(0, i - first + 1)));
        }
        magnitude = magnitude * 10 + d;
        i = i + 1;
    }
    assert(body.subrange(0, i - first) =~= body);
    if negative {
        if magnitude == 9_223_372_036_854_775_808 {
            Some(i64::MIN)
        } else {
            Some(-(magnitude as i64))
        }
    } else {
        Some(magnitude as i64)
    }
}

/// Reads one line of a log (without its newline) as a signed decimal integer.
pub fn parse_sample(line: &[u8]) -> (r: Option<i64>)
    ensures
        r == parse_sample_spec(line@),
{
    assert(line@.subrange(0, line@.len() as int) =~= line@);
    parse_range(line, 0, line.len())
}

fn push_digits(out: &mut Vec<u8>, n: u64)
    ensures
        final(out)@ == old(out)@ + decimal_digits(n as nat),
    decreases n,
{
    if n >= 10 {
        push_digits(out, n / 10);
    }
    out.push((n % 10) as u8 + ZERO);
    assert(final(out)@ =~= old(out)@ + decimal_digits(n as nat));
}

/// The log line that records the sample `t`: its decimal text and a newline.
pub fn format_sample(t: i64) -> (r: Vec<u8>)
    ensures
        r@ == sample_line(t as int),
{
    let mut out: Vec<u8> = Vec::new();
    let magnitude: u64 = if t < 0 {
        out.push(MINUS);
        (-(t as i128)) as u64
    } else {
        t as u64
    };
    push_digits(&mut out, magnitude);
    out.push(NEWLINE);
    assert(out@ =~= sample_line(t as int));
    out
}

/// The last sample recorded in a log: its last non-empty line read as an
/// integer, or `now` when it holds no non-empty line. A last line that is not
/// an integer in the range of `i64` is reported, not skipped.
pub fn get_last_log(contents: &[u8], now: i64) -> (r: Result<i64, LogError>)
    ensures
        r == last_sample_spec(contents@, now),
{
    let ghost all = contents@;
    let mut end: usize = contents.len();
    assert(all.subrange(0, end as int) =~= all);
    while end > 0 && contents[end - 1] == NEWLINE
        invariant
            end <= all.len(),
            all == contents@,
            trim_trailing_newlines(all) == trim_trailing_newlines(all.subrange(0, end as int)),
        decreases end,
    {
        assert(all.subrange(0, end as int).drop_last() =~= all.subrange(0, end - 1));
        end = end - 1;
    }
    let ghost trimmed = all.subrange(0, end as int);
    assert(trim_trailing_newlines(trimmed) == trimmed);
    let mut start: usize = end;
    assert(all.subrange(start as int, end as int) =~= Seq::<u8>::empty());
    assert(trimmed + Seq::<u8>::empty() =~= trimmed);
    while start > 0 && contents[start - 1] != NEWLINE
        invariant
            start <= end <= all.len(),
            all == contents@,
            trimmed == all.subrange(0, end as int),
            last_segment(trimmed) == last_segment(all.subrange(0, start as int)) + all.subrange(
                start as int,
                end as int,
            ),
        decreases start,
    {
        let ghost before = all.subrange(0, start - 1);
        assert(all.subrange(0, start as int).drop_last() =~= before);
        assert(last_segment(before).push(all[start - 1]) + all.subrange(start as int, end as int)
            =~= last_segment(before) + all.subrange(start - 1, end as int));
        start = start - 1;
    }
    assert(last_segment(trimmed) =~= all.subrange(start as int, end as int));
    if start == end {
        Ok(now)
    } else {
        match parse_range(contents, start, end) {
            Some(t) => Ok(t),
            None => Err(LogError::MalformedSample),
        }
    }
}

proof fn lemma_decimal_digits(n: nat)
    ensures
        decimal_digits(n).len() >= 1,
        all_digits(decimal_digits(n)),
        digits_value(decimal_digits(n)) == n,
    decreases n,
{
    if n < 10 {
        assert(decimal_digits(n).drop_last() =~= Seq::<u8>::empty());
        assert(decimal_digits(n).last() == n + ZERO);
        assert(digits_value(decimal_digits(n)) == digits_value(Seq::<u8>::empty()) * 10 + n);
    } else {
        vstd::arithmetic::div_mod::lemma_fundamental_div_mod(n as int, 10);
        lemma_decimal_digits(n / 10);
        let d = decimal_digits(n);
        assert(d.drop_last() =~= decimal_digits(n / 10));
        assert(d.last() == n % 10 + ZERO);
        assert(digits_value(d) == digits_value(decimal_digits(n / 10)) * 10 + n % 10);
        assert forall|i: int| 0 <= i < d.len() implies is_digit(#[trigger] d[i]) by {
            if i < d.len() - 1 {
                assert(d[i] == decimal_digits(n / 10)[i]);
            }
        }
    }
}

/// A sample's decimal text reads back as the same sample.
pub proof fn lemma_parse_sample_text(t: i64)
    ensures
        parse_sample_spec(sample_text(t as int)) == Some(t),
{
    if t < 0 {
        lemma_decimal_digits((-t) as nat);
        assert(sample_text(t as int).drop_first() =~= decimal_digits((-t) as nat));
    } else {
        lemma_decimal_digits(t as nat);
        assert(is_digit(decimal_digits(t as nat)[0]));
    }
}

proof fn lemma_sample_text_has_no_newline(t: int)
    ensures
        sample_text(t).len() >= 1,
        forall|i: int| 0 <= i < sample_text(t).len() ==> #[trigger] sample_text(t)[i] != NEWLINE,
{
    if t < 0 {
        lemma_decimal_digits((-t) as nat);
        let d = decimal_digits((-t) as nat);
        assert forall|i: int| 0 <= i < sample_text(t).len() implies #[trigger] sample_text(t)[i]
            != NEWLINE by {
            if i > 0 {
                assert(sample_text(t)[i] == d[i - 1]);
            }
        }
    } else {
        lemma_decimal_digits(t as nat);
    }
}

proof fn lemma_last_segment_of_line(p: Seq<u8>, q: Seq<u8>)
    requires
        p.len() == 0 || p.last() == NEWLINE,
        forall|i: int| 0 <= i < q.len() ==> #[trigger] q[i] != NEWLINE,
    ensures
        last_segment(p + q) == q,
    decreases q.len(),
{
    if q.len() == 0 {
        assert(p + q =~= p);
    } else {
        assert((p + q).drop_last() =~= p + q.drop_last());
        lemma_last_segment_of_line(p, q.drop_last());
        assert(q.drop_last().push(q.last()) =~= q);
    }
}

/// Reading the last sample of a log that ends in a complete line (or is
/// empty) after one more sample was appended gives that sample.
pub proof fn lemma_read_after_append(contents: Seq<u8>, t: i64, now: i64)
    requires
        contents.len() == 0 || contents.last() == NEWLINE,
    ensures
        last_sample_spec(contents + sample_line(t as int), now) == Ok::<i64, LogError>(t),
{
    let text = sample_text(t as int);
    lemma_sample_text_has_no_newline(t as int);
    let whole = contents + sample_line(t as int);
    assert(whole.drop_last() =~= contents + text);
    assert(whole.last() == NEWLINE);
    assert(text[text.len() - 1] != NEWLINE);
    assert((contents + text).last() == text.last());
    assert(trim_trailing_newlines(contents + text) == contents + text);
    assert(trim_trailing_newlines(whole) == contents + text);
    lemma_last_segment_of_line(contents, text);
    lemma_parse_sample_text(t);
}

/// A log of samples is empty or ends with a newline.
pub proof fn lemma_log_ends_with_newline(samples: Seq<i64>)
    ensures
        log_of(samples).len() == 0 || log_of(samples).last() == NEWLINE,
{
}

/// After the samples of `samples` and then `t` were appended to an empty log,
/// its last sample reads as `t`.
pub proof fn lemma_last_sample_is_last_appended(samples: Seq<i64>, t: i64, now: i64)
    ensures
        last_sample_spec(log_of(samples.push(t)), now) == Ok::<i64, LogError>(t),
{
    assert(samples.push(t).drop_last() =~= samples);
    lemma_log_ends_with_newline(samples);
    lemma_read_after_append(log_of(samples), t, now);
}

/// Appending three samples to an empty log and reading its last sample gives
/// the third.
pub proof fn lemma_append_three_then_read(t1: i64, t2: i64, t3: i64, now: i64)
    ensures
        last_sample_spec(log_of(seq![t1, t2, t3]), now) == Ok::<i64, LogError>(t3),
{
    assert(seq![t1, t2].push(t3) =~= seq![t1, t2, t3]);
    lemma_last_sample_is_last_appended(seq![t1, t2], t3, now);
}

} // verus!
