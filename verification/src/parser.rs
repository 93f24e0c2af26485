//! Parsing of problem instances from text lines: a count line, then one
//! record of `processing_time due_date weight` per job.
use vstd::prelude::*;
use crate::problem::{Problem, MAX_JOBS, MAX_VALUE};

verus! {

/// Why a problem instance was rejected.
#[derive(Debug, Clone, Copy, PartialEq, Eq, Structural)]
pub enum ParseError {
    /// The input holds no lines at all.
    MissingCount,
    /// The count line is not a single unsigned number.
    InvalidCount,
    /// Fewer records than the count line announces.
    MissingRecord,
    /// A record has fewer than three fields.
    ShortRecord,
    /// A field is not an unsigned number that fits in 64 bits.
    InvalidField,
    /// A record carries content after its third field.
    TrailingField,
    /// The numbers parsed, but violate the instance invariant: the job count
    /// or a value is out of range, or a job past the first has processing
    /// time zero.
    InvalidProblem,
}

pub open spec fn is_space(b: u8) -> bool {
    b == 32 || b == 9 || b == 13
}

pub open spec fn is_digit(b: u8) -> bool {
    48 <= b <= 57
}

/// Index of the first non-blank byte at or after `i`, or the line's length.
pub open spec fn next_non_space(s: Seq<u8>, i: int) -> int
    decreases s.len() - i when 0 <= i <= s.len()
{
    if i >= s.len() {
        s.len() as int
    } else if is_space(s[i]) {
        next_non_space(s, i + 1)
    } else {
        i
    }
}

/// Index of the first blank byte at or after `i`, or the line's length.
pub open spec fn next_space(s: Seq<u8>, i: int) -> int
    decreases s.len() - i when 0 <= i <= s.len()
{
    if i >= s.len() {
        s.len() as int
    } else if !is_space(s[i]) {
        next_space(s, i + 1)
    } else {
        i
    }
}

pub open spec fn all_digits(s: Seq<u8>) -> bool {
    forall|k: int| 0 <= k < s.len() ==> is_digit(#[trigger] s[k])
}

/// Numeric value of a digit string, most significant digit first.
pub open spec fn digits_val(s: Seq<u8>) -> int
    decreases s.len(),
{
    if s.len() == 0 {
        0
    } else {
        digits_val(s.drop_last()) * 10 + (s.last() - 48)
    }
}

/// A well-formed field: non-empty, all digits, and small enough for `u64`.
pub open spec fn token_is_u64(t: Seq<u8>) -> bool {
    &&& t.len() >= 1
    &&& all_digits(t)
    &&& digits_val(t) <= u64::MAX
}

/// What the count line means: exactly one field, a number.
pub open spec fn header_of(line: Seq<u8>) -> Result<u64, ParseError> {
    let a = next_non_space(line, 0);
    let b = next_space(line, a);
    if a == line.len() {
        Err(ParseError::InvalidCount)
    } else if !token_is_u64(line.subrange(a, b)) {
        Err(ParseError::InvalidCount)
    } else if next_non_space(line, b) != line.len() {
        Err(ParseError::InvalidCount)
    } else {
        Ok(digits_val(line.subrange(a, b)) as u64)
    }
}

/// What a record line means: exactly three fields, each a number, read as
/// processing time, due date, weight.
pub open spec fn record_of(line: Seq<u8>) -> Result<(u64, u64, u64), ParseError> {
    let a1 = next_non_space(line, 0);
    let b1 = next_space(line, a1);
    let a2 = next_non_space(line, b1);
    let b2 = next_space(line, a2);
    let a3 = next_non_space(line, b2);
    let b3 = next_space(line, a3);
    if a1 == line.len() || a2 == line.len() || a3 == line.len() {
        Err(ParseError::ShortRecord)
    } else if !token_is_u64(line.subrange(a1, b1)) || !token_is_u64(line.subrange(a2, b2))
        || !token_is_u64(line.subrange(a3, b3)) {
        Err(ParseError::InvalidField)
    } else if next_non_space(line, b3) != line.len() {
        Err(ParseError::TrailingField)
    } else {
        Ok(
            (
                digits_val(line.subrange(a1, b1)) as u64,
                digits_val(line.subrange(a2, b2)) as u64,
                digits_val(line.subrange(a3, b3)) as u64,
            ),
        )
    }
}

/// The records of jobs `1 ..= n`, read from `lines[1 ..= n]`; the first
/// failing record's error wins.
pub open spec fn records_of(lines: Seq<Seq<u8>>, n: nat) -> Result<
    Seq<(u64, u64, u64)>,
    ParseError,
>
    decreases n,
{
    if n == 0 {
        Ok(Seq::empty())
    } else {
        match records_of(lines, (n - 1) as nat) {
            Err(e) => Err(e),
            Ok(s) => match record_of(lines[n as int]) {
                Err(e) => Err(e),
                Ok(v) => Ok(s.push(v)),
            },
        }
    }
}

/// The instance invariant restated over parsed records: values in range, and
/// a non-zero processing time everywhere but at the start job.
pub open spec fn records_bounded(recs: Seq<(u64, u64, u64)>) -> bool {
    forall|k: int|
        0 <= k < recs.len() ==> {
            &&& (#[trigger] recs[k]).0 <= MAX_VALUE
            &&& recs[k].1 <= MAX_VALUE
            &&& recs[k].2 <= MAX_VALUE
            &&& (k >= 1 ==> recs[k].0 >= 1)
        }
}

/// What a whole input means: the count line, then that many records, then
/// the instance invariant; the job count is the first field, and the three
/// value sequences follow the file's column order.
pub open spec fn parse_problem_spec(lines: Seq<Seq<u8>>) -> Result<
    (nat, Seq<u64>, Seq<u64>, Seq<u64>),
    ParseError,
> {
    if lines.len() == 0 {
        Err(ParseError::MissingCount)
    } else {
        match header_of(lines[0]) {
            Err(e) => Err(e),
            Ok(nv) => {
                if nv < 1 || nv > MAX_JOBS as u64 {
                    Err(ParseError::InvalidProblem)
                } else if lines.len() < 1 + nv {
                    Err(ParseError::MissingRecord)
                } else {
                    match records_of(lines, nv as nat) {
                        Err(e) => Err(e),
                        Ok(recs) => {
                            if records_bounded(recs) {
                                Ok(
                                    (
                                        nv as nat,
                                        recs.map_values(|t: (u64, u64, u64)| t.0),
                                        recs.map_values(|t: (u64, u64, u64)| t.1),
                                        recs.map_values(|t: (u64, u64, u64)| t.2),
                                    ),
                                )
                            } else {
                                Err(ParseError::InvalidProblem)
                            }
                        },
                    }
                }
            },
        }
    }
}

fn is_space_b(b: u8) -> (r: bool)
    ensures
        r == is_space(b),
{
    b == 32 || b == 9 || b == 13
}

fn skip_spaces(line: &Vec<u8>, from: usize) -> (r: usize)
    requires
        from <= line@.len(),
    ensures
        r == next_non_space(line@, from as int),
        from <= r <= line@.len(),
{
    let mut i = from;
    while i < line.len() && is_space_b(line[i])
        invariant
            from <= i <= line@.len(),
            next_non_space(line@, from as int) == next_non_space(line@, i as int),
        decreases line@.len() - i,
    {
        i = i + 1;
    }
    i
}

fn scan_token(line: &Vec<u8>, from: usize) -> (r: usize)
    requires
        from <= line@.len(),
    ensures
        r == next_space(line@, from as int),
        from <= r <= line@.len(),
{
    let mut i = from;
    while i < line.len() && !is_space_b(line[i])
        invariant
            from <= i <= line@.len(),
            next_space(line@, from as int) == next_space(line@, i as int),
        decreases line@.len() - i,
    {
        i = i + 1;
    }
    i
}

proof fn lemma_digits_nonneg(s: Seq<u8>)
    requires
        all_digits(s),
    ensures
        digits_val(s) >= 0,
    decreases s.len(),
{
    if s.len() > 0 {
        assert(all_digits(s.drop_last()));
        lemma_digits_nonneg(s.drop_last());
    }
}

/// A digit string's value only grows as more digits are read.
proof fn lemma_digits_prefix_le(s: Seq<u8>, k: int)
    requires
        all_digits(s),
        0 <= k <= s.len(),
    ensures
        digits_val(s.take(k)) <= digits_val(s),
    decreases s.len() - k,
{
    if k == s.len() {
        assert(s.take(k) =~= s);
    } else {
        lemma_digits_prefix_le(s, k + 1);
        assert(s.take(k + 1).drop_last() =~= s.take(k));
        assert(all_digits(s.take(k)));
        lemma_digits_nonneg(s.take(k));
    }
}

/// Reads the digits of `line[start .. end]` as a `u64`; `None` exactly when
/// the range is empty, holds a non-digit, or overflows.
fn parse_u64_in(line: &Vec<u8>, start: usize, end: usize) -> (r: Option<u64>)
    requires
        start <= end <= line@.len(),
    ensures
        ({
            let t = line@.subrange(start as int, end as int);
            match r {
                Some(v) => token_is_u64(t) && v == digits_val(t),
                None => !token_is_u64(t),
            }
        }),
{
    let ghost t = line@.subrange(start as int, end as int);
    if start == end {
        return None;
    }
    let mut acc: u64 = 0;
    let mut i = start;
    while i < end
        invariant
            start <= i <= end <= line@.len(),
            t == line@.subrange(start as int, end as int),
            all_digits(line@.subrange(start as int, i as int)),
            acc == digits_val(line@.subrange(start as int, i as int)),
        decreases end - i,
    {
        let b = line[i];
        let ghost pre = line@.subrange(start as int, i as int);
        let ghost post = line@.subrange(start as int, i as int + 1);
        proof {
            assert(post.drop_last() =~= pre);
            assert(post.last() == line@[i as int]);
        }
        if b < 48 || b > 57 {
            proof {
                assert(t[i - start] == line@[i as int]);
                assert(!all_digits(t));
            }
            return None;
        }
        let d = (b - 48) as u64;
        let shifted = match acc.checked_mul(10) {
            Some(s) => s,
            None => {
                proof {
                    lemma_overflow_means_invalid(line@, start as int, i as int, end as int);
                }
                return None;
            },
        };
        let next = match shifted.checked_add(d) {
            Some(s) => s,
            None => {
                proof {
                    lemma_overflow_means_invalid(line@, start as int, i as int, end as int);
                }
                return None;
            },
        };
        acc = next;
        i = i + 1;
    }
    proof {
        assert(line@.subrange(start as int, end as int) =~= t);
    }
    Some(acc)
}

/// If appending the digit at `i` overflows `u64`, the whole token's value
/// does too, so the token is invalid.
proof fn lemma_overflow_means_invalid(s: Seq<u8>, start: int, i: int, end: int)
    requires
        0 <= start <= i < end <= s.len(),
        all_digits(s.subrange(start, i)),
        is_digit(s[i]),
        digits_val(s.subrange(start, i)) * 10 + (s[i] - 48) > u64::MAX,
    ensures
        !token_is_u64(s.subrange(start, end)),
{
    let t = s.subrange(start, end);
    if all_digits(t) {
        let post = s.subrange(start, i + 1);
        assert(post.drop_last() =~= s.subrange(start, i));
        assert(digits_val(post) == digits_val(s.subrange(start, i)) * 10 + (s[i] - 48));
        assert(t.take(i + 1 - start) =~= post);
        lemma_digits_prefix_le(t, i + 1 - start);
    }
}

/// Parses a record line: exactly three numeric fields.
pub fn parse_record(line: &Vec<u8>) -> (r: Result<(u64, u64, u64), ParseError>)
    ensures
        r == record_of(line@),
{
    let a1 = skip_spaces(line, 0);
    let b1 = scan_token(line, a1);
    let a2 = skip_spaces(line, b1);
    let b2 = scan_token(line, a2);
    let a3 = skip_spaces(line, b2);
    let b3 = scan_token(line, a3);
    if a1 == line.len() || a2 == line.len() || a3 == line.len() {
        return Err(ParseError::ShortRecord);
    }
    let v1 = parse_u64_in(line, a1, b1);
    let v2 = parse_u64_in(line, a2, b2);
    let v3 = parse_u64_in(line, a3, b3);
    match (v1, v2, v3) {
        (Some(x1), Some(x2), Some(x3)) => {
            let rest = skip_spaces(line, b3);
            if rest != line.len() {
                Err(ParseError::TrailingField)
            } else {
                Ok((x1, x2, x3))
            }
        },
        _ => Err(ParseError::InvalidField),
    }
}

/// Parses the count line: exactly one numeric field.
pub fn parse_header(line: &Vec<u8>) -> (r: Result<u64, ParseError>)
    ensures
        r == header_of(line@),
{
    let a = skip_spaces(line, 0);
    let b = scan_token(line, a);
    if a == line.len() {
        return Err(ParseError::InvalidCount);
    }
    match parse_u64_in(line, a, b) {
        Some(v) => {
            let rest = skip_spaces(line, b);
            if rest != line.len() {
                Err(ParseError::InvalidCount)
            } else {
                Ok(v)
            }
        },
        None => Err(ParseError::InvalidCount),
    }
}

impl Problem {
    /// Builds a validated instance from raw text lines: the count line, then
    /// one record per job.  Succeeds exactly when `parse_problem_spec` does,
    /// and then returns a well-formed problem holding the parsed values.
    #[verifier::loop_isolation(false)]
    pub fn parse(lines: &Vec<Vec<u8>>) -> (r: Result<Problem, ParseError>)
        ensures
            match r {
                Ok(p) => {
                    &&& p.wf()
                    &&& parse_problem_spec(lines@.map_values(|l: Vec<u8>| l@)) == Ok::<
                        _,
                        ParseError,
                    >((p.n as nat, p.processing_time@, p.due_date@, p.weight@))
                },
                Err(e) => parse_problem_spec(lines@.map_values(|l: Vec<u8>| l@)) == Err::<
                    (nat, Seq<u64>, Seq<u64>, Seq<u64>),
                    _,
                >(e),
            },
    {
        let ghost lv = lines@.map_values(|l: Vec<u8>| l@);
        if lines.len() == 0 {
            return Err(ParseError::MissingCount);
        }
        proof {
            assert(lv[0] == lines@[0]@);
        }
        let nv = match parse_header(&lines[0]) {
            Ok(v) => v,
            Err(e) => {
                return Err(e);
            },
        };
        if nv < 1 || nv > MAX_JOBS as u64 {
            return Err(ParseError::InvalidProblem);
        }
        let n = nv as usize;
        if lines.len() < 1 + n {
            return Err(ParseError::MissingRecord);
        }
        let mut pt: Vec<u64> = Vec::new();
        let mut dd: Vec<u64> = Vec::new();
        let mut wt: Vec<u64> = Vec::new();
        let ghost recs_total = records_of(lv, n as nat);
        let mut k: usize = 1;
        while k <= n
            invariant
                1 <= k <= n + 1,
                n < lines@.len(),
                lv == lines@.map_values(|l: Vec<u8>| l@),
                pt@.len() == k - 1 && dd@.len() == k - 1 && wt@.len() == k - 1,
                records_of(lv, (k - 1) as nat) matches Ok(s) && s.len() == k - 1 && pt@
                    == s.map_values(|t: (u64, u64, u64)| t.0) && dd@ == s.map_values(
                    |t: (u64, u64, u64)| t.1,
                ) && wt@ == s.map_values(|t: (u64, u64, u64)| t.2),
            decreases n + 1 - k,
        {
            proof {
                assert(lv[k as int] == lines@[k as int]@);
            }
            let rec = match parse_record(&lines[k]) {
                Ok(v) => v,
                Err(e) => {
                    proof {
                        lemma_records_err(lv, k as nat, n as nat);
                    }
                    return Err(e);
                },
            };
            pt.push(rec.0);
            dd.push(rec.1);
            wt.push(rec.2);
            proof {
                let s_pre = records_of(lv, (k - 1) as nat).unwrap();
                let s_post = records_of(lv, k as nat).unwrap();
                assert(s_post == s_pre.push(rec));
                assert(pt@ =~= s_post.map_values(|t: (u64, u64, u64)| t.0));
                assert(dd@ =~= s_post.map_values(|t: (u64, u64, u64)| t.1));
                assert(wt@ =~= s_post.map_values(|t: (u64, u64, u64)| t.2));
            }
            k = k + 1;
        }
        let ghost recs = records_of(lv, n as nat).unwrap();
        // The instance invariant: bounded values, non-zero processing times.
        let mut j: usize = 0;
        while j < n
            invariant
                0 <= j <= n,
                n == pt@.len() == dd@.len() == wt@.len(),
                recs == records_of(lv, n as nat).unwrap(),
                records_of(lv, n as nat) matches Ok(s) && s == recs,
                recs.len() == n,
                pt@ == recs.map_values(|t: (u64, u64, u64)| t.0),
                dd@ == recs.map_values(|t: (u64, u64, u64)| t.1),
                wt@ == recs.map_values(|t: (u64, u64, u64)| t.2),
                forall|b: int|
                    0 <= b < j ==> {
                        &&& (#[trigger] recs[b]).0 <= MAX_VALUE
                        &&& recs[b].1 <= MAX_VALUE
                        &&& recs[b].2 <= MAX_VALUE
                        &&& (b >= 1 ==> recs[b].0 >= 1)
                    },
            decreases n - j,
        {
            if pt[j] > MAX_VALUE || dd[j] > MAX_VALUE || wt[j] > MAX_VALUE || (j >= 1 && pt[j]
                == 0) {
                proof {
                    assert(!records_bounded(recs));
                }
                return Err(ParseError::InvalidProblem);
            }
            j = j + 1;
        }
        proof {
            assert(records_bounded(recs));
        }
        let p = Problem::new(n, pt, wt, dd);
        Ok(p)
    }
}

/// A record error surfaces unchanged from the whole-file parse.
proof fn lemma_records_err(lines: Seq<Seq<u8>>, k: nat, n: nat)
    requires
        1 <= k <= n,
        records_of(lines, (k - 1) as nat) is Ok,
        record_of(lines[k as int]) is Err,
    ensures
        records_of(lines, n) == Err::<Seq<(u64, u64, u64)>, ParseError>(
            record_of(lines[k as int]).unwrap_err(),
        ),
    decreases n,
{
    if n == k {
    } else {
        lemma_records_err(lines, k, (n - 1) as nat);
    }
}

} // verus!
