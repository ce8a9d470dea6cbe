//! The serialized histogram form: one decimal integer per line.
//!
//! Line 0 holds the precision (`sublog_bits`), line 1 a bucket count that
//! readers ignore (the size is derived from the precision instead), and every
//! further line one bucket frequency, in bucket order. Missing trailing
//! bucket lines leave their buckets at zero; excess lines are a bounds fault;
//! a malformed line is a parse fault.

use vstd::prelude::*;

use crate::HistogramError;
use crate::counter::Counter;
use crate::histogram::Histogram;
use crate::sublog::{spec_histogram_size, valid_sublog_bits};

verus! {

/// An ASCII decimal digit.
pub open spec fn is_decimal_digit(b: u8) -> bool {
    48 <= b <= 57
}

/// Every byte of the line is a decimal digit.
pub open spec fn all_decimal_digits(s: Seq<u8>) -> bool {
    forall|k: int| 0 <= k < s.len() ==> is_decimal_digit(#[trigger] s[k])
}

/// The number a line of digits denotes, most significant digit first.
pub open spec fn decimal_value(s: Seq<u8>) -> nat
    recommends
        all_decimal_digits(s),
    decreases s.len(),
{
    if s.len() == 0 {
        0nat
    } else {
        (decimal_value(s.drop_last()) * 10 + s.last() - 48) as nat
    }
}

/// A line this crate's reader accepts as one number: nonempty, all digits,
/// and small enough for the widest counter.
pub open spec fn parseable(s: Seq<u8>) -> bool {
    s.len() > 0 && all_decimal_digits(s) && decimal_value(s) <= u128::MAX as nat
}

/// A line this crate's writer emits: digits without a superfluous leading
/// zero.
pub open spec fn canonical_decimal(s: Seq<u8>) -> bool {
    &&& s.len() > 0
    &&& all_decimal_digits(s)
    &&& (s.len() > 1 ==> s[0] != 48)
}

/// The lines of a file, each as its byte sequence.
pub open spec fn lines_view(lines: Seq<Vec<u8>>) -> Seq<Seq<u8>> {
    lines.map(|_i: int, l: Vec<u8>| l@)
}

/// A longer all-digit prefix never denotes a smaller number.
proof fn lemma_decimal_value_prefix_le(s: Seq<u8>, i: int, j: int)
    requires
        0 <= i <= j <= s.len(),
        all_decimal_digits(s),
    ensures
        decimal_value(s.take(i)) <= decimal_value(s.take(j)),
    decreases j - i,
{
    if i < j {
        lemma_decimal_value_prefix_le(s, i, j - 1);
        assert(s.take(j).drop_last() =~= s.take(j - 1));
        assert(is_decimal_digit(s[j - 1]));
        assert(s.take(j).last() == s[j - 1]);
        let v = decimal_value(s.take(j - 1));
        assert(decimal_value(s.take(j)) == v * 10 + s[j - 1] - 48);
    }
}

/// Read one decimal integer: the digits of the whole line, most significant
/// first. An empty line, a byte that is no digit, and a value beyond 128 bits
/// are parse faults.
pub fn parse_decimal(line: &Vec<u8>) -> (r: Result<u128, HistogramError>)
    ensures
        r is Ok <==> parseable(line@),
        r matches Ok(n) ==> n as nat == decimal_value(line@),
        r matches Err(e) ==> e == HistogramError::Parse,
{
    if line.len() == 0 {
        return Err(HistogramError::Parse);
    }
    let mut acc: u128 = 0;
    let mut i: usize = 0;
    while i < line.len()
        invariant
            0 < line@.len(),
            i <= line@.len(),
            acc as nat == decimal_value(line@.take(i as int)),
            all_decimal_digits(line@.take(i as int)),
        decreases line@.len() - i,
    {
        let b: u8 = line[i];
        if b < 48 || b > 57 {
            assert(!is_decimal_digit(line@[i as int]));
            return Err(HistogramError::Parse);
        }
        let d: u128 = (b - 48) as u128;
        let limit: u128 = (u128::MAX - d) / 10;
        proof {
            vstd::arithmetic::div_mod::lemma_fundamental_div_mod(
                (u128::MAX - d) as int,
                10int,
            );
            vstd::arithmetic::div_mod::lemma_mod_bound((u128::MAX - d) as int, 10int);
            assert(line@.take(i + 1).drop_last() =~= line@.take(i as int));
            assert(line@.take(i + 1).last() == line@[i as int]);
        }
        if acc > limit {
            // The prefix read so far already outgrows the counter, and more
            // digits can only make the line's value larger.
            proof {
                assert(decimal_value(line@.take(i + 1)) > u128::MAX as nat);
                if all_decimal_digits(line@) {
                    lemma_decimal_value_prefix_le(line@, i + 1, line@.len() as int);
                    assert(line@.take(line@.len() as int) =~= line@);
                }
            }
            return Err(HistogramError::Parse);
        }
        proof {
            vstd::arithmetic::div_mod::lemma_div_is_ordered(
                (acc * 10) as int,
                (u128::MAX - d) as int,
                10int,
            );
            vstd::arithmetic::div_mod::lemma_div_multiples_vanish(acc as int, 10int);
        }
        acc = acc * 10 + d;
        i = i + 1;
    }
    proof {
        assert(line@.take(line@.len() as int) =~= line@);
    }
    Ok(acc)
}

/// The number a line of digits denotes when read least significant digit
/// first; the shape the digit-collecting loop of the writer produces.
spec fn lsf_value(s: Seq<u8>) -> nat
    decreases s.len(),
{
    if s.len() == 0 {
        0nat
    } else {
        (s[0] - 48 + 10 * lsf_value(s.skip(1))) as nat
    }
}

/// Ten to the `e`.
spec fn pow10(e: nat) -> nat
    decreases e,
{
    if e == 0 {
        1nat
    } else {
        10 * pow10((e - 1) as nat)
    }
}

/// Appending a digit to a least-significant-first line adds it at the next
/// power of ten.
proof fn lemma_lsf_push(s: Seq<u8>, b: u8)
    requires
        is_decimal_digit(b),
        all_decimal_digits(s),
    ensures
        lsf_value(s.push(b)) == lsf_value(s) + (b - 48) * pow10(s.len()),
    decreases s.len(),
{
    if s.len() == 0 {
        assert(s.push(b).skip(1) =~= Seq::<u8>::empty());
        assert(s.push(b)[0] == b);
        assert(lsf_value(Seq::<u8>::empty()) == 0);
        assert(pow10(0) == 1);
    } else {
        assert(s.push(b).skip(1) =~= s.skip(1).push(b));
        lemma_lsf_push(s.skip(1), b);
        assert(s.push(b)[0] == s[0]);
        assert(is_decimal_digit(s[0]));
        let t = lsf_value(s.skip(1));
        let p = pow10((s.len() - 1) as nat);
        assert(pow10(s.len()) == 10 * p);
        lemma_pow10_pos((s.len() - 1) as nat);
        assert(lsf_value(s.push(b)) == (s[0] - 48 + 10 * lsf_value(s.skip(1).push(b))) as nat);
        assert(lsf_value(s.skip(1).push(b)) == t + (b - 48) * p);
        assert(lsf_value(s) == (s[0] - 48 + 10 * t) as nat);
        assert((b - 48) * p >= 0) by (nonlinear_arith)
            requires
                b >= 48,
                p >= 1,
        ;
        assert(10 * (t + (b - 48) * p) == 10 * t + (b - 48) * (10 * p)) by (nonlinear_arith);
    }
}

/// Powers of ten are positive.
proof fn lemma_pow10_pos(e: nat)
    ensures
        pow10(e) >= 1,
    decreases e,
{
    if e > 0 {
        lemma_pow10_pos((e - 1) as nat);
    }
}

/// Reading a line backwards swaps the two digit orders.
proof fn lemma_decimal_of_reversed(s: Seq<u8>, t: Seq<u8>)
    requires
        t.len() == s.len(),
        forall|j: int| 0 <= j < s.len() ==> t[j] == s[s.len() - 1 - j],
    ensures
        decimal_value(t) == lsf_value(s),
    decreases s.len(),
{
    if s.len() > 0 {
        assert(forall|j: int|
            0 <= j < s.skip(1).len() ==> t.drop_last()[j] == s.skip(1)[s.skip(1).len() - 1 - j]);
        lemma_decimal_of_reversed(s.skip(1), t.drop_last());
        assert(t.last() == s[0]);
    }
}

/// Write `n` in decimal, most significant digit first, with no leading zero.
pub fn format_decimal(n: u128) -> (line: Vec<u8>)
    ensures
        canonical_decimal(line@),
        decimal_value(line@) == n as nat,
{
    if n == 0 {
        let mut line: Vec<u8> = Vec::new();
        line.push(48);
        proof {
            assert(line@.drop_last() =~= Seq::<u8>::empty());
            assert(decimal_value(Seq::<u8>::empty()) == 0);
            assert(line@.last() == 48);
        }
        return line;
    }
    let mut digits: Vec<u8> = Vec::new();
    let mut m: u128 = n;
    proof {
        assert(lsf_value(Seq::<u8>::empty()) == 0);
        assert(pow10(0) == 1);
    }
    while m > 0
        invariant
            lsf_value(digits@) + m as nat * pow10(digits@.len()) == n as nat,
            all_decimal_digits(digits@),
            m == 0 ==> digits@.len() > 0 && digits@.last() > 48,
            m as nat * pow10(digits@.len()) <= n as nat,
        decreases m,
    {
        let d: u8 = (m % 10) as u8;
        let b: u8 = 48 + d;
        proof {
            vstd::arithmetic::div_mod::lemma_fundamental_div_mod(m as int, 10int);
            vstd::arithmetic::div_mod::lemma_mod_bound(m as int, 10int);
            lemma_lsf_push(digits@, b);
            let p = pow10(digits@.len());
            lemma_pow10_pos(digits@.len());
            assert((10 * (m as int / 10) + m as int % 10) * p == (m as int / 10) * (10 * p) + (
            m as int % 10) * p) by (nonlinear_arith);
            assert((m as int / 10) * (10 * p) >= 0) by (nonlinear_arith)
                requires
                    m as int / 10 >= 0,
                    p >= 1,
            ;
            assert(pow10(digits@.len() + 1) == 10 * p);
        }
        digits.push(b);
        m = m / 10;
    }
    let len: usize = digits.len();
    let mut line: Vec<u8> = Vec::new();
    let mut k: usize = 0;
    while k < len
        invariant
            line@.len() == k,
            k <= len,
            len == digits@.len(),
            forall|j: int| 0 <= j < k ==> line@[j] == digits@[len - 1 - j],
        decreases len - k,
    {
        line.push(digits[len - 1 - k]);
        k = k + 1;
    }
    proof {
        lemma_decimal_of_reversed(digits@, line@);
        assert(pow10(0) == 1);
        assert(line@[0] == digits@[len - 1]);
    }
    line
}

/// `lines` is the canonical serialized form of a histogram with the given
/// precision and counts.
pub open spec fn lines_encode(lines: Seq<Seq<u8>>, sublog_bits: u64, counts: Seq<nat>) -> bool {
    &&& lines.len() == counts.len() + 2
    &&& canonical_decimal(lines[0]) && decimal_value(lines[0]) == sublog_bits as nat
    &&& canonical_decimal(lines[1]) && decimal_value(lines[1]) == counts.len()
    &&& forall|j: int|
        2 <= j < lines.len() ==> canonical_decimal(#[trigger] lines[j]) && decimal_value(lines[j])
            == counts[j - 2]
}

/// Line 0 exists and is a number a 64-bit precision can be read from.
pub open spec fn lines_header_ok(lines: Seq<Seq<u8>>) -> bool {
    lines.len() > 0 && parseable(lines[0]) && decimal_value(lines[0]) <= u64::MAX as nat
}

/// The precision the header names.
pub open spec fn lines_precision(lines: Seq<Seq<u8>>) -> u64 {
    decimal_value(lines[0]) as u64
}

/// The first fault a sequential read of the bucket lines from position `j`
/// on meets: a malformed line is a parse fault, a line beyond the allocated
/// array a bounds fault, in reading order.
pub open spec fn first_body_fault(lines: Seq<Seq<u8>>, size: nat, j: int) -> Option<
    HistogramError,
>
    decreases lines.len() - j,
{
    if j >= lines.len() {
        None
    } else if !parseable(lines[j]) {
        Some(HistogramError::Parse)
    } else if j - 2 >= size {
        Some(HistogramError::Bounds)
    } else {
        first_body_fault(lines, size, j + 1)
    }
}

/// The first fault a sequential read of `lines` meets, if any: a bad or
/// missing header line is a parse fault, an unacceptable precision a
/// configuration fault, and the bucket lines follow [`first_body_fault`].
pub open spec fn lines_fault(lines: Seq<Seq<u8>>) -> Option<HistogramError> {
    if !lines_header_ok(lines) {
        Some(HistogramError::Parse)
    } else if !valid_sublog_bits(lines_precision(lines)) {
        Some(HistogramError::Config)
    } else {
        first_body_fault(lines, spec_histogram_size(lines_precision(lines) as nat), 2)
    }
}

/// The counter sequence a successful read of `lines` yields at histogram
/// size `size`: one bucket per line from line 2 on, the rest zero.
pub open spec fn lines_counts(lines: Seq<Seq<u8>>, size: nat) -> Seq<nat> {
    Seq::new(
        size,
        |i: int|
            if i + 2 < lines.len() {
                decimal_value(lines[i + 2])
            } else {
                0nat
            },
    )
}

/// Serialize a histogram: the precision line, the bucket-count line, then
/// one canonical decimal line per bucket, in bucket order.
pub fn histogram_to_lines<T: Counter>(histogram: &Histogram<T>) -> (lines: Vec<Vec<u8>>)
    requires
        histogram.wf(),
    ensures
        lines_encode(lines_view(lines@), histogram.sublog_bits, histogram.counts()),
{
    let mut lines: Vec<Vec<u8>> = Vec::new();
    lines.push(format_decimal(histogram.sublog_bits as u128));
    let n: usize = histogram.length();
    lines.push(format_decimal(n as u128));
    let values: Vec<T> = histogram.get_histgram_vec();
    let mut i: usize = 0;
    while i < values.len()
        invariant
            i <= values@.len(),
            lines@.len() == i + 2,
            values@.len() == histogram.counts().len(),
            forall|k: int| 0 <= k < values@.len() ==> values@[k].count()
                == histogram.counts()[k],
            canonical_decimal(lines@[0]@) && decimal_value(lines@[0]@)
                == histogram.sublog_bits as nat,
            canonical_decimal(lines@[1]@) && decimal_value(lines@[1]@)
                == histogram.counts().len(),
            forall|j: int|
                2 <= j < lines@.len() ==> canonical_decimal(#[trigger] lines@[j]@)
                    && decimal_value(lines@[j]@) == histogram.counts()[j - 2],
        decreases values@.len() - i,
    {
        lines.push(format_decimal(values[i].widen()));
        i = i + 1;
    }
    lines
}

/// Read a histogram back from its serialized lines, with 128-bit counters:
/// the precision from line 0, one bucket frequency per line from line 2 on.
/// Buckets with no line stay zero; a line past the last bucket is a bounds
/// fault.
pub fn histogram_from_lines(lines: &Vec<Vec<u8>>) -> (r: Result<Histogram<u128>, HistogramError>)
    ensures
        r is Ok <==> lines_fault(lines_view(lines@)) is None,
        r matches Err(e) ==> Some(e) == lines_fault(lines_view(lines@)),
        r matches Ok(h) ==> {
            &&& h.wf()
            &&& h.sublog_bits == lines_precision(lines_view(lines@))
            &&& h.max_reuse_interval is None
            &&& h.counts() == lines_counts(
                lines_view(lines@),
                spec_histogram_size(h.sublog_bits as nat),
            )
        },
{
    let ghost lv = lines_view(lines@);
    if lines.len() == 0 {
        return Err(HistogramError::Parse);
    }
    proof {
        assert(lv[0] == lines@[0]@);
    }
    let header: u128 = match parse_decimal(&lines[0]) {
        Ok(v) => v,
        Err(e) => {
            return Err(e);
        },
    };
    if header > u64::MAX as u128 {
        return Err(HistogramError::Parse);
    }
    let sublog_bits: u64 = header as u64;
    let mut histogram: Histogram<u128> = match Histogram::<u128>::new(sublog_bits) {
        Ok(h) => h,
        Err(e) => {
            return Err(e);
        },
    };
    let ghost size = spec_histogram_size(sublog_bits as nat);
    let mut j: usize = 2;
    while j < lines.len()
        invariant
            lv == lines_view(lines@),
            lines_header_ok(lv),
            sublog_bits == lines_precision(lv),
            valid_sublog_bits(sublog_bits),
            size == spec_histogram_size(sublog_bits as nat),
            histogram.wf(),
            histogram.sublog_bits == sublog_bits,
            histogram.max_reuse_interval is None,
            histogram.counts().len() == size,
            2 <= j,
            j <= lines@.len() || j == 2,
            j - 2 <= size,
            first_body_fault(lv, size, 2) == first_body_fault(lv, size, j as int),
            forall|k: int| 0 <= k < j - 2 ==> histogram.counts()[k] == decimal_value(lv[k + 2]),
            forall|k: int| j - 2 <= k < size ==> histogram.counts()[k] == 0,
        decreases lines.len() - j,
    {
        proof {
            assert(lv[j as int] == lines@[j as int]@);
        }
        let frequency: u128 = match parse_decimal(&lines[j]) {
            Ok(v) => v,
            Err(e) => {
                assert(first_body_fault(lv, size, j as int) == Some(HistogramError::Parse));
                return Err(e);
            },
        };
        match histogram.set_frequency_via_index(j - 2, frequency) {
            Ok(u) => u,
            Err(e) => {
                assert(j - 2 >= size);
                assert(first_body_fault(lv, size, j as int) == Some(HistogramError::Bounds));
                return Err(e);
            },
        };
        proof {
            assert(first_body_fault(lv, size, j as int) == first_body_fault(
                lv,
                size,
                j as int + 1,
            ));
        }
        j = j + 1;
    }
    proof {
        assert(first_body_fault(lv, size, j as int) is None);
        assert(lv.len() == lines@.len());
        assert forall|i: int| 0 <= i < size implies histogram.counts()[i] == lines_counts(
            lv,
            size,
        )[i] by {
            if i + 2 < lv.len() {
                assert(i < j - 2);
                assert(histogram.counts()[i] == decimal_value(lv[i + 2]));
            } else {
                assert(i + 2 >= lv.len());
                assert(j >= lines@.len());
                assert(i >= j - 2);
                assert(histogram.counts()[i] == 0);
            }
        }
        assert(histogram.counts() =~= lines_counts(lv, size));
    }
    Ok(histogram)
}

/// No fault is left from position `j` on when every bucket line parses and
/// the lines fit the array.
proof fn lemma_body_fault_none(lines: Seq<Seq<u8>>, size: nat, j: int)
    requires
        2 <= j <= lines.len(),
        lines.len() - 2 <= size,
        forall|k: int| 2 <= k < lines.len() ==> parseable(#[trigger] lines[k]),
    ensures
        first_body_fault(lines, size, j) is None,
    decreases lines.len() - j,
{
    if j < lines.len() {
        lemma_body_fault_none(lines, size, j + 1)
    }
}

/// Round trip: the serialized lines of a well-formed histogram always read
/// back, and they reproduce the precision and every counter exactly.
pub proof fn lemma_lines_round_trip(lines: Seq<Seq<u8>>, sublog_bits: u64, counts: Seq<nat>)
    requires
        valid_sublog_bits(sublog_bits),
        counts.len() == spec_histogram_size(sublog_bits as nat),
        forall|i: int| 0 <= i < counts.len() ==> #[trigger] counts[i] <= u128::MAX as nat,
        lines_encode(lines, sublog_bits, counts),
    ensures
        lines_fault(lines) is None,
        lines_precision(lines) == sublog_bits,
        lines_counts(lines, spec_histogram_size(sublog_bits as nat)) == counts,
{
    assert(parseable(lines[0]));
    assert(forall|j: int| 2 <= j < lines.len() ==> parseable(#[trigger] lines[j]));
    lemma_body_fault_none(lines, spec_histogram_size(sublog_bits as nat), 2);
    assert(lines_counts(lines, spec_histogram_size(sublog_bits as nat)) =~= counts);
}

} // verus!

