use vstd::prelude::*;
use crate::CliError;

verus! {

/// An ASCII decimal digit.
pub open spec fn is_ascii_digit(c: char) -> bool {
    '0' <= c && c <= '9'
}

/// The value of one digit character.
pub open spec fn digit_value(c: char) -> int {
    (c as u32) - 48
}

/// The value a digit string denotes in base ten.
pub open spec fn decimal_value(s: Seq<char>) -> int
    decreases s.len(),
{
    if s.len() == 0 {
        0
    } else {
        decimal_value(s.drop_last()) * 10 + digit_value(s.last())
    }
}

pub open spec fn all_digits(s: Seq<char>) -> bool {
    forall|i: int| 0 <= i < s.len() ==> is_ascii_digit(#[trigger] s[i])
}

/// The digit part of a numeral: everything after an optional leading
/// plus sign.
pub open spec fn digits_of(s: Seq<char>) -> Seq<char> {
    if s.len() > 0 && s[0] == '+' {
        s.skip(1)
    } else {
        s
    }
}

/// The strings `u64` parsing accepts: an optional plus sign, then at
/// least one digit, denoting a value that fits.
pub open spec fn is_u64_numeral(s: Seq<char>) -> bool {
    &&& digits_of(s).len() > 0
    &&& all_digits(digits_of(s))
    &&& decimal_value(digits_of(s)) <= u64::MAX
}

proof fn lemma_decimal_nonneg(s: Seq<char>)
    requires
        all_digits(s),
    ensures
        decimal_value(s) >= 0,
    decreases s.len(),
{
    if s.len() > 0 {
        assert forall|i: int| 0 <= i < s.drop_last().len() implies is_ascii_digit(
            #[trigger] s.drop_last()[i],
        ) by {
            assert(s.drop_last()[i] == s[i]);
        }
        lemma_decimal_nonneg(s.drop_last());
    }
}

/// Reading more digits never shrinks the value: every prefix of a digit
/// string denotes at most what the whole string denotes.
proof fn lemma_decimal_prefix_le(s: Seq<char>, k: int)
    requires
        all_digits(s),
        0 <= k <= s.len(),
    ensures
        decimal_value(s.take(k)) <= decimal_value(s),
    decreases s.len() - k,
{
    if k == s.len() {
        assert(s.take(k) =~= s);
    } else {
        assert forall|i: int| 0 <= i < s.take(k).len() implies is_ascii_digit(
            #[trigger] s.take(k)[i],
        ) by {
            assert(s.take(k)[i] == s[i]);
        }
        lemma_decimal_nonneg(s.take(k));
        assert(s.take(k + 1).drop_last() =~= s.take(k));
        assert(s.take(k + 1).last() == s[k]);
        assert(decimal_value(s.take(k + 1)) == decimal_value(s.take(k)) * 10 + digit_value(s[k]));
        lemma_decimal_prefix_le(s, k + 1);
    }
}

/// Reads a base-ten `u64` the way the standard numeric parser does: an
/// optional leading plus sign, one or more digits, and no value past
/// the type's ceiling.
pub fn parse_u64(s: &str) -> (r: Option<u64>)
    ensures
        r is Some <==> is_u64_numeral(s@),
        r matches Some(v) ==> v == decimal_value(digits_of(s@)),
{
    let len = s.unicode_len();
    let mut start: usize = 0;
    if len > 0 && s.get_char(0) == '+' {
        start = 1;
    }
    proof {
        assert(digits_of(s@) =~= s@.skip(start as int));
    }
    if len == start {
        return None;
    }
    let ghost digits = digits_of(s@);
    let mut i: usize = start;
    let mut acc: u64 = 0;
    while i < len
        invariant
            digits == digits_of(s@),
            digits =~= s@.skip(start as int),
            start <= i <= len,
            len == s@.len(),
            start <= 1,
            forall|j: int| start <= j < i ==> is_ascii_digit(#[trigger] s@[j]),
            acc == decimal_value(s@.subrange(start as int, i as int)),
        decreases len - i,
    {
        let c = s.get_char(i);
        let code = c as u32;
        if code < 48 || code > 57 {
            proof {
                assert(digits[i - start] == s@[i as int]);
            }
            return None;
        }
        let d = (code - 48) as u64;
        proof {
            assert(s@.subrange(start as int, i + 1).drop_last() =~= s@.subrange(
                start as int,
                i as int,
            ));
            assert(s@.subrange(start as int, i + 1).last() == s@[i as int]);
            assert(s@.subrange(start as int, i + 1) =~= digits.take(i + 1 - start));
        }
        let widened = match acc.checked_mul(10) {
            Some(w) => w.checked_add(d),
            None => None,
        };
        match widened {
            Some(next) => {
                acc = next;
            },
            None => {
                proof {
                    if all_digits(digits) {
                        lemma_decimal_prefix_le(digits, i + 1 - start);
                        assert(forall|j: int|
                            start <= j <= i ==> is_ascii_digit(#[trigger] s@[j]));
                        assert(decimal_value(digits.take(i + 1 - start)) == acc * 10 + digit_value(
                            s@[i as int],
                        ));
                        assert(decimal_value(digits) > u64::MAX);
                    }
                }
                return None;
            },
        }
        i += 1;
    }
    proof {
        assert(s@.subrange(start as int, len as int) =~= digits);
    }
    Some(acc)
}

/// The epoch seconds humantime reads from an RFC 3339-style timestamp,
/// when the string parses as one; a function of the string alone.
pub uninterp spec fn rfc3339_weak_secs(s: Seq<char>) -> Option<u64>;

/// Relies on humantime::parse_rfc3339_weak: it accepts only years 1970
/// and later, so a parsed instant never precedes the epoch, and the
/// result depends on the string alone. Its acceptance ceiling follows
/// the target's time width (year 9999 on the 64-bit targets this crate
/// builds for), so the name is a function of the string per build, not
/// across builds of different widths.
#[verifier::external_body]
fn parse_rfc3339_weak_secs(s: &str) -> (r: Option<u64>)
    ensures
        r == rfc3339_weak_secs(s@),
{
    humantime::parse_rfc3339_weak(s).ok().and_then(
        |t| t.duration_since(std::time::UNIX_EPOCH).ok(),
    ).map(|d| d.as_secs())
}

/// The whole seconds of the duration a string like "2h 15min" denotes
/// to humantime; a function of the string alone.
pub uninterp spec fn duration_secs(s: Seq<char>) -> Option<u64>;

/// Duration strings are handed to the parser only while the sum of
/// their digit groups stays under this cap. The parser turns every
/// overflow into an error except one: a leftover-nanosecond carry made
/// while assembling the final value, which cannot return when the whole
/// seconds already stand at the very top of u64. A digit group of value
/// n contributes at most n times the largest unit (a year, 31,557,600
/// seconds) to the whole seconds, so under this cap they stay a factor
/// of five below that top. What the cap turns away denotes thousands of
/// years — or spells a plain span with twelve-plus digits of sub-second
/// units, which is read as no duration at all.
pub const DURATION_RUN_SUM_CAP: u64 = 100_000_000_000;

/// Whether a character ends a digit group. The duration parser reads
/// one number across whitespace and rejects the whole string on any
/// other separator, so only an ASCII letter (a unit) or a dot (a
/// fraction) truly ends a number. Everything else keeps the group open
/// here: merging digits that the parser reads apart only raises the
/// sum, since a concatenation is worth at least the sum of its parts.
pub open spec fn closes_digit_group(c: char) -> bool {
    ('a' <= c && c <= 'z') || ('A' <= c && c <= 'Z') || c == '.'
}

/// The digit groups of a string, folded left to right: the sum of the
/// values of the closed groups, beside the value of the group still
/// open at the end.
pub open spec fn run_sum_state(s: Seq<char>) -> (int, int)
    decreases s.len(),
{
    if s.len() == 0 {
        (0, 0)
    } else {
        let prior = run_sum_state(s.drop_last());
        if is_ascii_digit(s.last()) {
            (prior.0, prior.1 * 10 + digit_value(s.last()))
        } else if closes_digit_group(s.last()) {
            (prior.0 + prior.1, 0)
        } else {
            prior
        }
    }
}

/// The sum of the values of a string's digit groups.
pub open spec fn digit_run_sum(s: Seq<char>) -> int {
    run_sum_state(s).0 + run_sum_state(s).1
}

proof fn lemma_run_sum_nonneg(s: Seq<char>)
    ensures
        run_sum_state(s).0 >= 0,
        run_sum_state(s).1 >= 0,
    decreases s.len(),
{
    if s.len() > 0 {
        lemma_run_sum_nonneg(s.drop_last());
    }
}

/// Reading on never shrinks the sum: every prefix's digit runs add up
/// to at most what the whole string's do.
proof fn lemma_run_sum_prefix_le(s: Seq<char>, k: int)
    requires
        0 <= k <= s.len(),
    ensures
        digit_run_sum(s.take(k)) <= digit_run_sum(s),
    decreases s.len() - k,
{
    if k == s.len() {
        assert(s.take(k) =~= s);
    } else {
        assert(s.take(k + 1).drop_last() =~= s.take(k));
        assert(s.take(k + 1).last() == s[k]);
        lemma_run_sum_nonneg(s.take(k));
        lemma_run_sum_prefix_le(s, k + 1);
    }
}

/// Decides whether a string's digit runs stay under the cap, so the
/// duration parser may be asked about it.
pub fn duration_within_bound(s: &str) -> (b: bool)
    ensures
        b <==> digit_run_sum(s@) < DURATION_RUN_SUM_CAP as int,
{
    let len = s.unicode_len();
    let mut i: usize = 0;
    let mut sum: u64 = 0;
    let mut cur: u64 = 0;
    while i < len
        invariant
            i <= len,
            len == s@.len(),
            run_sum_state(s@.take(i as int)) == (sum as int, cur as int),
            sum < DURATION_RUN_SUM_CAP,
            cur < DURATION_RUN_SUM_CAP,
        decreases len - i,
    {
        let c = s.get_char(i);
        let code = c as u32;
        proof {
            assert(s@.take(i + 1).drop_last() =~= s@.take(i as int));
            assert(s@.take(i + 1).last() == s@[i as int]);
        }
        if code >= 48 && code <= 57 {
            cur = cur * 10 + ((code - 48) as u64);
            if cur >= DURATION_RUN_SUM_CAP {
                proof {
                    lemma_run_sum_nonneg(s@.take(i + 1));
                    lemma_run_sum_prefix_le(s@, i + 1);
                }
                return false;
            }
        } else if (code >= 97 && code <= 122) || (code >= 65 && code <= 90) || code == 46 {
            sum = sum + cur;
            cur = 0;
            if sum >= DURATION_RUN_SUM_CAP {
                proof {
                    lemma_run_sum_nonneg(s@.take(i + 1));
                    lemma_run_sum_prefix_le(s@, i + 1);
                }
                return false;
            }
        }
        i += 1;
    }
    proof {
        assert(s@.take(len as int) =~= s@);
    }
    sum + cur < DURATION_RUN_SUM_CAP
}

/// Relies on humantime::parse_duration: the result depends on the
/// string alone. The `requires` keeps the call away from the one corner
/// where the parser cannot return (see `DURATION_RUN_SUM_CAP`); inside
/// it, every overflow is a checked error and the call always comes
/// back.
#[verifier::external_body]
fn parse_duration_secs(s: &str) -> (r: Option<u64>)
    requires
        digit_run_sum(s@) < DURATION_RUN_SUM_CAP as int,
    ensures
        r == duration_secs(s@),
{
    humantime::parse_duration(s).ok().map(|d| d.as_secs())
}

/// Reads one `--from`/`--to` argument. Three forms are tried in order:
/// an RFC 3339-style timestamp; a relative duration, subtracted from
/// the caller's current instant; bare epoch seconds. A duration reaching
/// before the epoch is as fatal as a string in none of the forms, and a
/// string whose digit runs pass the duration cap is read only as a bare
/// numeral.
pub fn parse_time(s: &str, now_secs: u64) -> (r: Result<u64, CliError>)
    ensures
        rfc3339_weak_secs(s@) matches Some(t) ==> r == Ok::<u64, CliError>(t),
        rfc3339_weak_secs(s@) is None && digit_run_sum(s@) < DURATION_RUN_SUM_CAP as int ==> (
        duration_secs(s@) matches Some(d) ==> (if d <= now_secs {
            r == Ok::<u64, CliError>((now_secs - d) as u64)
        } else {
            r == Err::<u64, CliError>(CliError::InvalidTimestamp)
        })),
        rfc3339_weak_secs(s@) is None && (digit_run_sum(s@) >= DURATION_RUN_SUM_CAP as int
            || duration_secs(s@) is None) ==> (if is_u64_numeral(s@) {
            r == Ok::<u64, CliError>(decimal_value(digits_of(s@)) as u64)
        } else {
            r == Err::<u64, CliError>(CliError::InvalidTimestamp)
        }),
{
    if let Some(t) = parse_rfc3339_weak_secs(s) {
        return Ok(t);
    }
    if duration_within_bound(s) {
        if let Some(d) = parse_duration_secs(s) {
            if d <= now_secs {
                return Ok(now_secs - d);
            } else {
                return Err(CliError::InvalidTimestamp);
            }
        }
    }
    match parse_u64(s) {
        Some(v) => Ok(v),
        None => Err(CliError::InvalidTimestamp),
    }
}

} // verus!
