//! The ISO-8601 duration codec: parsing text into a [`RelativeDuration`]
//! and formatting one back.
//!
//! The grammar is `P`, then optional `Y`, `M`, `W` and `D` fields in that
//! order, then optionally `T` and optional `H`, `M` and `S` fields, again
//! in that order. Every field is a signed integer; the seconds field may
//! carry a decimal fraction of up to nine digits, with `.` or `,` as the
//! separator.
use vstd::prelude::*;

use crate::Error;
use crate::duration::Duration;
use crate::duration::in_span_range;
use crate::duration::trunc_div;
use crate::duration::trunc_rem;
use crate::relative_duration::RelDurF;
use crate::relative_duration::RelativeDuration;
use vstd::string::StrSliceExecFns;
use vstd::string::StringSliceAdditionalSpecFns;
use vstd::slice::slice_index_get;
use vstd::slice::slice_subrange;

verus! {

/// True when `b` is an ASCII decimal digit.
pub open spec fn is_digit(b: u8) -> bool {
    48 <= b <= 57
}

/// True when every byte of `s` is an ASCII decimal digit.
pub open spec fn all_digits(s: Seq<u8>) -> bool {
    forall|i: int| 0 <= i < s.len() ==> is_digit(#[trigger] s[i])
}

/// The number written by a string of decimal digits, most significant
/// first.
pub open spec fn digits_value(s: Seq<u8>) -> int
    decreases s.len(),
{
    if s.len() == 0 {
        0
    } else {
        digits_value(s.drop_last()) * 10 + (s.last() - 48)
    }
}

/// True when `s` is an integer literal: an optional sign followed by at
/// least one digit.
pub open spec fn valid_int(s: Seq<u8>) -> bool {
    if s.len() > 0 && (s[0] == 43 || s[0] == 45) {
        s.len() >= 2 && all_digits(s.skip(1))
    } else {
        s.len() >= 1 && all_digits(s)
    }
}

/// The value of an integer literal.
pub open spec fn int_value(s: Seq<u8>) -> int
    recommends
        valid_int(s),
{
    if s.len() > 0 && s[0] == 45 {
        -digits_value(s.skip(1))
    } else if s.len() > 0 && s[0] == 43 {
        digits_value(s.skip(1))
    } else {
        digits_value(s)
    }
}

/// What reading `s` as a signed 64-bit integer gives: its value when it is
/// a well-formed literal in range, and nothing otherwise.
pub open spec fn spec_parse_i64(s: Seq<u8>) -> Option<int> {
    if valid_int(s) && i64::MIN <= int_value(s) <= i64::MAX {
        Some(int_value(s))
    } else {
        None
    }
}

/// The position of the first occurrence of `b` in `s`, if any.
pub open spec fn find_byte(s: Seq<u8>, b: u8) -> Option<int>
    decreases s.len(),
{
    if s.len() == 0 {
        None
    } else if s[0] == b {
        Some(0)
    } else {
        match find_byte(s.skip(1), b) {
            Some(i) => Some(i + 1),
            None => None,
        }
    }
}

/// `find_byte` returns the first occurrence: the byte is there, and no
/// earlier position holds it.
pub proof fn lemma_find_byte(s: Seq<u8>, b: u8)
    ensures
        match find_byte(s, b) {
            Some(i) => 0 <= i < s.len() && s[i] == b && (forall|j: int|
                0 <= j < i ==> s[j] != b),
            None => forall|j: int| 0 <= j < s.len() ==> s[j] != b,
        },
    decreases s.len(),
{
    if s.len() > 0 && s[0] != b {
        lemma_find_byte(s.skip(1), b);
        assert(forall|j: int| 1 <= j < s.len() ==> s[j] == s.skip(1)[j - 1]);
    }
}

/// Digit strings denote non-negative numbers.
proof fn lemma_digits_value_nonneg(s: Seq<u8>)
    requires
        all_digits(s),
    ensures
        digits_value(s) >= 0,
    decreases s.len(),
{
    if s.len() > 0 {
        assert(all_digits(s.drop_last()));
        lemma_digits_value_nonneg(s.drop_last());
    }
}

/// Extending a digit string to the right never shrinks its value.
proof fn lemma_digits_value_mono(s: Seq<u8>, i: int)
    requires
        all_digits(s),
        0 <= i <= s.len(),
    ensures
        digits_value(s.take(i)) <= digits_value(s),
    decreases s.len() - i,
{
    if i < s.len() {
        lemma_digits_value_mono(s, i + 1);
        assert(s.take(i + 1).drop_last() =~= s.take(i));
        assert(all_digits(s.take(i)));
        lemma_digits_value_nonneg(s.take(i));
    } else {
        assert(s.take(i) =~= s);
    }
}

/// Reads `s` as a signed 64-bit integer; the error names the field kind.
#[verifier::loop_isolation(false)]
fn parse_i64(s: &[u8]) -> (r: Result<i64, Error>)
    ensures
        match (r, spec_parse_i64(s@)) {
            (Ok(v), Some(sv)) => v as int == sv,
            (Err(e), None) => e == Error::InvalidInteger,
            _ => false,
        },
{
    let n: usize = s.len();
    if n == 0 {
        return Err(Error::InvalidInteger);
    }
    let first: u8 = *slice_index_get(s, 0);
    let neg: bool = first == 45;
    let ds: usize = if first == 43 || first == 45 {
        1
    } else {
        0
    };
    if n == ds {
        return Err(Error::InvalidInteger);
    }
    let ghost region = s@.skip(ds as int);
    assert(region.len() > 0);
    proof {
        if ds == 0 {
            assert(region =~= s@);
        }
    }
    let mut acc: i128 = 0;
    let mut i: usize = ds;
    while i < n
        invariant
            ds <= i <= n,
            n == s@.len(),
            region == s@.skip(ds as int),
            all_digits(region.take(i - ds)),
            acc == digits_value(region.take(i - ds)),
            0 <= acc <= 0x8000_0000_0000_0000,
        decreases n - i,
    {
        let c: u8 = *slice_index_get(s, i);
        if c < 48 || c > 57 {
            assert(!all_digits(region)) by {
                assert(region[i - ds] == c);
            }
            return Err(Error::InvalidInteger);
        }
        proof {
            assert(region.take(i - ds + 1).drop_last() =~= region.take(i - ds));
        }
        acc = acc * 10 + ((c - 48) as i128);
        i = i + 1;
        if acc > 0x8000_0000_0000_0000 {
            proof {
                if all_digits(region) {
                    lemma_digits_value_mono(region, i - ds);
                }
            }
            return Err(Error::InvalidInteger);
        }
    }
    proof {
        assert(region.take(n - ds) =~= region);
    }
    if neg {
        let v: i128 = -acc;
        if v < (i64::MIN as i128) {
            return Err(Error::InvalidInteger);
        }
        Ok(v as i64)
    } else {
        if acc > (i64::MAX as i128) {
            return Err(Error::InvalidInteger);
        }
        Ok(acc as i64)
    }
}

/// The position of the first `b` in `s`, if any.
#[verifier::loop_isolation(false)]
fn find_first(s: &[u8], b: u8) -> (r: Option<usize>)
    ensures
        match r {
            Some(i) => find_byte(s@, b) == Some(i as int),
            None => find_byte(s@, b) is None,
        },
{
    proof {
        lemma_find_byte(s@, b);
    }
    let n: usize = s.len();
    let mut i: usize = 0;
    while i < n
        invariant
            0 <= i <= n,
            n == s@.len(),
            forall|j: int| 0 <= j < i ==> s@[j] != b,
            match find_byte(s@, b) {
                Some(k) => 0 <= k < s@.len() && s@[k] == b && (forall|j: int|
                    0 <= j < k ==> s@[j] != b),
                None => forall|j: int| 0 <= j < s@.len() ==> s@[j] != b,
            },
        decreases n - i,
    {
        if *slice_index_get(s, i) == b {
            return Some(i);
        }
        i = i + 1;
    }
    None
}

/// What consuming one `terminator`-ended integer field from `input`
/// gives: the unconsumed remainder and the field's value, zero when the
/// terminator is absent (the whole input is then the remainder).
pub open spec fn spec_get_terminated(input: Seq<u8>, terminator: u8) -> Result<
    (Seq<u8>, int),
    Error,
> {
    match find_byte(input, terminator) {
        None => Ok((input, 0)),
        Some(i) => match spec_parse_i64(input.take(i)) {
            Some(v) => Ok((input.skip(i + 1), v)),
            None => Err(Error::InvalidInteger),
        },
    }
}

/// Consumes one `terminator`-ended integer field from `input`, returning
/// the unconsumed remainder and the field's value; the value is zero and
/// the input unconsumed when the terminator is absent.
pub fn get_terminated<'a>(input: &'a [u8], terminator: u8) -> (r: Result<(&'a [u8], i64), Error>)
    ensures
        match (r, spec_get_terminated(input@, terminator)) {
            (Ok((rest, v)), Ok((srest, sv))) => rest@ == srest && v as int == sv,
            (Err(e), Err(se)) => e == se,
            _ => false,
        },
{
    match find_first(input, terminator) {
        None => Ok((input, 0)),
        Some(i) => {
            proof {
                lemma_find_byte(input@, terminator);
            }
            assert(i < input.len());
            let num: &[u8] = slice_subrange(input, 0, i);
            assert(num@ =~= input@.take(i as int));
            let v: i64 = match parse_i64(num) {
                Ok(v) => v,
                Err(e) => {
                    return Err(e);
                },
            };
            let rest: &[u8] = slice_subrange(input, i + 1, input.len());
            assert(rest@ =~= input@.skip(i as int + 1));
            Ok((rest, v))
        },
    }
}

/// Ten to the `k`.
pub open spec fn pow10(k: nat) -> int
    decreases k,
{
    if k == 0 {
        1
    } else {
        10 * pow10((k - 1) as nat)
    }
}

/// A string of `k` digits writes a number below ten to the `k`.
proof fn lemma_digits_value_bound(s: Seq<u8>)
    requires
        all_digits(s),
    ensures
        0 <= digits_value(s) < pow10(s.len()),
    decreases s.len(),
{
    if s.len() > 0 {
        assert(all_digits(s.drop_last()));
        lemma_digits_value_bound(s.drop_last());
    }
}

/// `k` bytes of the digit zero.
pub open spec fn zero_bytes(k: int) -> Seq<u8> {
    Seq::new(k as nat, |i: int| 48u8)
}

/// Reads exactly nine digits as a number; nothing when a byte is not a
/// digit.
#[verifier::loop_isolation(false)]
fn parse_digits9(s: &[u8]) -> (r: Option<u32>)
    requires
        s@.len() == 9,
    ensures
        match r {
            Some(v) => all_digits(s@) && v == digits_value(s@) && v < 1_000_000_000,
            None => !all_digits(s@),
        },
{
    proof {
        reveal_with_fuel(pow10, 11);
    }
    let mut acc: u32 = 0;
    let mut i: usize = 0;
    while i < 9
        invariant
            0 <= i <= 9,
            all_digits(s@.take(i as int)),
            acc == digits_value(s@.take(i as int)),
            acc < pow10(i as nat),
        decreases 9 - i,
    {
        let c: u8 = *slice_index_get(s, i);
        if c < 48 || c > 57 {
            assert(!all_digits(s@)) by {
                assert(s@[i as int] == c);
            }
            return None;
        }
        proof {
            assert(s@.take(i as int + 1).drop_last() =~= s@.take(i as int));
        }
        acc = acc * 10 + ((c - 48) as u32);
        i = i + 1;
    }
    proof {
        assert(s@.take(9) =~= s@);
    }
    Some(acc)
}

/// What consuming the decimal seconds field from `input` gives: the
/// unconsumed remainder, the whole seconds, and the fractional part in
/// nanoseconds, held to the convention that the nanoseconds are never
/// negative and the sign lives on the seconds. Both are zero when the
/// terminator is absent.
pub open spec fn spec_get_terminated_decimal(input: Seq<u8>, terminator: u8) -> Result<
    (Seq<u8>, int, int),
    Error,
> {
    match find_byte(input, terminator) {
        None => Ok((input, 0, 0)),
        Some(i) => {
            let dec = input.take(i);
            let rest = input.skip(i + 1);
            let ipfp = match find_byte(dec, 46) {
                Some(j) => (dec.take(j), dec.skip(j + 1)),
                None => match find_byte(dec, 44) {
                    Some(j) => (dec.take(j), dec.skip(j + 1)),
                    None => (dec, Seq::<u8>::empty()),
                },
            };
            match spec_parse_i64(ipfp.0) {
                None => Err(Error::InvalidInteger),
                Some(iv) => {
                    let fp = ipfp.1;
                    let frac9 = if fp.len() >= 9 {
                        fp.take(9)
                    } else {
                        fp + zero_bytes(9 - fp.len())
                    };
                    if fp.len() > 0 && !all_digits(frac9) {
                        Err(Error::InvalidInteger)
                    } else {
                        let fv = if fp.len() == 0 {
                            0
                        } else {
                            digits_value(frac9)
                        };
                        if dec.len() > 0 && dec[0] == 45 && fv != 0 {
                            if iv == i64::MIN {
                                Err(Error::DurationOutOfRange)
                            } else {
                                Ok((rest, iv - 1, 1_000_000_000 - fv))
                            }
                        } else {
                            Ok((rest, iv, fv))
                        }
                    }
                },
            }
        },
    }
}

/// Consumes the decimal seconds field from `input`: an integer with an
/// optional fraction of up to nine digits, `.` or `,` separated, ended by
/// `terminator`. A negative value with a nonzero fraction is returned as
/// the next lower whole second and the fraction's complement, so that the
/// nanoseconds are never negative.
pub fn get_terminated_decimal<'a>(input: &'a [u8], terminator: u8) -> (r: Result<
    (&'a [u8], i64, u32),
    Error,
>)
    ensures
        match (r, spec_get_terminated_decimal(input@, terminator)) {
            (Ok((rest, secs, nanos)), Ok((sr, ss, sn))) => rest@ == sr && secs as int == ss
                && nanos as int == sn,
            (Err(e), Err(se)) => e == se,
            _ => false,
        },
{
    let i: usize = match find_first(input, terminator) {
        None => {
            return Ok((input, 0, 0));
        },
        Some(i) => i,
    };
    proof {
        lemma_find_byte(input@, terminator);
    }
    assert(i < input.len());
    let dec: &[u8] = slice_subrange(input, 0, i);
    let rest: &[u8] = slice_subrange(input, i + 1, input.len());
    assert(dec@ =~= input@.take(i as int));
    assert(rest@ =~= input@.skip(i as int + 1));
    let j_opt: Option<usize> = match find_first(dec, 46) {
        Some(j) => Some(j),
        None => find_first(dec, 44),
    };
    let ghost spec_split = match find_byte(dec@, 46) {
        Some(j) => (dec@.take(j), dec@.skip(j + 1)),
        None => match find_byte(dec@, 44) {
            Some(j) => (dec@.take(j), dec@.skip(j + 1)),
            None => (dec@, Seq::<u8>::empty()),
        },
    };
    let ip: &[u8];
    let fp: &[u8];
    match j_opt {
        Some(j) => {
            proof {
                lemma_find_byte(dec@, 46);
                lemma_find_byte(dec@, 44);
            }
            assert(j < dec.len());
            ip = slice_subrange(dec, 0, j);
            fp = slice_subrange(dec, j + 1, dec.len());
            assert(ip@ =~= spec_split.0);
            assert(fp@ =~= spec_split.1);
        },
        None => {
            ip = dec;
            fp = slice_subrange(dec, 0, 0);
            assert(fp@ =~= Seq::<u8>::empty());
        },
    }
    let iv: i64 = match parse_i64(ip) {
        Ok(v) => v,
        Err(e) => {
            return Err(e);
        },
    };
    let mut fv: u32 = 0;
    if fp.len() > 0 {
        let digits: Option<u32>;
        if fp.len() >= 9 {
            let f9: &[u8] = slice_subrange(fp, 0, 9);
            assert(f9@ =~= fp@.take(9));
            digits = parse_digits9(f9);
        } else {
            let mut padded: Vec<u8> = Vec::new();
            let mut k: usize = 0;
            while k < fp.len()
                invariant
                    0 <= k <= fp@.len(),
                    padded@ == fp@.take(k as int),
                decreases fp@.len() - k,
            {
                padded.push(*slice_index_get(fp, k));
                proof {
                    assert(fp@.take(k as int + 1) =~= fp@.take(k as int).push(fp@[k as int]));
                }
                k = k + 1;
            }
            proof {
                assert(fp@.take(fp@.len() as int) =~= fp@);
            }
            while padded.len() < 9
                invariant
                    fp@.len() <= padded@.len() <= 9,
                    padded@ == fp@ + zero_bytes(padded@.len() - fp@.len()),
                decreases 9 - padded@.len(),
            {
                padded.push(48);
                proof {
                    assert(fp@ + zero_bytes(padded@.len() - fp@.len()) =~= (fp@ + zero_bytes(
                        padded@.len() - 1 - fp@.len(),
                    )).push(48u8));
                }
            }
            digits = parse_digits9(padded.as_slice());
        }
        match digits {
            Some(v) => {
                fv = v;
            },
            None => {
                return Err(Error::InvalidInteger);
            },
        }
    }
    if dec.len() > 0 && *slice_index_get(dec, 0) == 45 && fv != 0 {
        if iv == i64::MIN {
            return Err(Error::DurationOutOfRange);
        }
        Ok((rest, iv - 1, 1_000_000_000 - fv))
    } else {
        Ok((rest, iv, fv))
    }
}

/// What parsing the date part (fields `Y`, `M`, `W`, `D`, in that order)
/// gives: the years, the months, and the weeks folded into days.
pub open spec fn spec_parse_datespec(s: Seq<u8>) -> Result<(int, int, int), Error> {
    match spec_get_terminated(s, 89) {
        Err(e) => Err(e),
        Ok((r1, years)) => if !(i32::MIN <= years <= i32::MAX) {
            Err(Error::InvalidInteger)
        } else {
            match spec_get_terminated(r1, 77) {
                Err(e) => Err(e),
                Ok((r2, months)) => if !(i32::MIN <= months <= i32::MAX) {
                    Err(Error::InvalidInteger)
                } else {
                    match spec_get_terminated(r2, 87) {
                        Err(e) => Err(e),
                        Ok((r3, weeks)) => match spec_get_terminated(r3, 68) {
                            Err(e) => Err(e),
                            Ok((r4, days)) => if r4.len() != 0 {
                                Err(Error::TrailingCharacters)
                            } else if !(i64::MIN <= weeks * 7 <= i64::MAX) || !(i64::MIN <= weeks
                                * 7 + days <= i64::MAX) {
                                Err(Error::DurationOutOfRange)
                            } else {
                                Ok((years, months, weeks * 7 + days))
                            },
                        },
                    }
                },
            }
        },
    }
}

/// Parses the date part of a duration: optional `Y`, `M`, `W` and `D`
/// fields in that order, with nothing left over; weeks are folded into
/// days, with overflow checked.
pub fn parse_datespec(datespec: &[u8]) -> (r: Result<(i32, i32, i64), Error>)
    ensures
        match (r, spec_parse_datespec(datespec@)) {
            (Ok((y, mo, d)), Ok((sy, smo, sd))) => y as int == sy && mo as int == smo && d as int
                == sd,
            (Err(e), Err(se)) => e == se,
            _ => false,
        },
{
    let (r1, years): (&[u8], i64) = match get_terminated(datespec, 89) {
        Ok(p) => p,
        Err(e) => {
            return Err(e);
        },
    };
    if years < i32::MIN as i64 || years > i32::MAX as i64 {
        return Err(Error::InvalidInteger);
    }
    let (r2, months): (&[u8], i64) = match get_terminated(r1, 77) {
        Ok(p) => p,
        Err(e) => {
            return Err(e);
        },
    };
    if months < i32::MIN as i64 || months > i32::MAX as i64 {
        return Err(Error::InvalidInteger);
    }
    let (r3, weeks): (&[u8], i64) = match get_terminated(r2, 87) {
        Ok(p) => p,
        Err(e) => {
            return Err(e);
        },
    };
    let (r4, days): (&[u8], i64) = match get_terminated(r3, 68) {
        Ok(p) => p,
        Err(e) => {
            return Err(e);
        },
    };
    if r4.len() != 0 {
        return Err(Error::TrailingCharacters);
    }
    let folded: i64 = match weeks.checked_mul(7) {
        Some(w7) => match w7.checked_add(days) {
            Some(f) => f,
            None => {
                return Err(Error::DurationOutOfRange);
            },
        },
        None => {
            return Err(Error::DurationOutOfRange);
        },
    };
    Ok((years as i32, months as i32, folded))
}

/// What parsing the time part (fields `H`, `M` and decimal `S`, in that
/// order) gives: hours, minutes, whole seconds and nanoseconds.
pub open spec fn spec_parse_timespec(s: Seq<u8>) -> Result<(int, int, int, int), Error> {
    match spec_get_terminated(s, 72) {
        Err(e) => Err(e),
        Ok((r1, hours)) => match spec_get_terminated(r1, 77) {
            Err(e) => Err(e),
            Ok((r2, mins)) => match spec_get_terminated_decimal(r2, 83) {
                Err(e) => Err(e),
                Ok((r3, secs, nanos)) => if r3.len() != 0 {
                    Err(Error::TrailingCharacters)
                } else {
                    Ok((hours, mins, secs, nanos))
                },
            },
        },
    }
}

/// Parses the time part of a duration: optional `H`, `M` and decimal `S`
/// fields in that order, with nothing left over.
pub fn parse_timespec(timespec: &[u8]) -> (r: Result<(i64, i64, i64, u32), Error>)
    ensures
        match (r, spec_parse_timespec(timespec@)) {
            (Ok((h, m, sec, n)), Ok((sh, sm, ss, sn))) => h as int == sh && m as int == sm && sec
                as int == ss && n as int == sn,
            (Err(e), Err(se)) => e == se,
            _ => false,
        },
{
    let (r1, hours): (&[u8], i64) = match get_terminated(timespec, 72) {
        Ok(p) => p,
        Err(e) => {
            return Err(e);
        },
    };
    let (r2, mins): (&[u8], i64) = match get_terminated(r1, 77) {
        Ok(p) => p,
        Err(e) => {
            return Err(e);
        },
    };
    let (r3, secs, nanos): (&[u8], i64, u32) = match get_terminated_decimal(r2, 83) {
        Ok(p) => p,
        Err(e) => {
            return Err(e);
        },
    };
    if r3.len() != 0 {
        return Err(Error::TrailingCharacters);
    }
    Ok((hours, mins, secs, nanos))
}

/// What combining days, hours, minutes, seconds and nanoseconds into one
/// absolute span gives, every intermediate step checked against the
/// 64-bit range and the final span against the supported range.
pub open spec fn spec_dhmsn(days: int, hours: int, mins: int, secs: int, nanos: int) -> Option<
    int,
> {
    let a = days * 24;
    let b = a + hours;
    let c = b * 60;
    let d = c + mins;
    let e = d * 60;
    let f = e + secs;
    if !(i64::MIN <= a <= i64::MAX) || !(i64::MIN <= b <= i64::MAX) || !(i64::MIN <= c
        <= i64::MAX) || !(i64::MIN <= d <= i64::MAX) || !(i64::MIN <= e <= i64::MAX) || !(
    i64::MIN <= f <= i64::MAX) {
        None
    } else if 0 <= nanos < 1_000_000_000 && in_span_range(f * 1_000_000_000 + nanos) {
        Some(f * 1_000_000_000 + nanos)
    } else {
        None
    }
}

/// Folds days, hours, minutes, seconds and a nanosecond fraction into one
/// absolute span; `None` when any step overflows.
pub fn dhmsn_to_duration(days: i64, hours: i64, minutes: i64, seconds: i64, nanos: u32) -> (r:
    Option<Duration>)
    ensures
        r is Some <==> spec_dhmsn(days as int, hours as int, minutes as int, seconds as int, nanos as int) is Some,
        r matches Some(d) ==> Some(d@) == spec_dhmsn(
            days as int,
            hours as int,
            minutes as int,
            seconds as int,
            nanos as int,
        ) && d.wf(),
{
    let a: i64 = days.checked_mul(24)?;
    let b: i64 = a.checked_add(hours)?;
    let c: i64 = b.checked_mul(60)?;
    let d: i64 = c.checked_add(minutes)?;
    let e: i64 = d.checked_mul(60)?;
    let f: i64 = e.checked_add(seconds)?;
    Duration::new(f, nanos)
}

/// What parsing an ISO 8601 duration string gives: the month count and
/// the absolute span of the duration it denotes, or the first error the
/// text contains.
pub open spec fn spec_parse_iso8601(s: Seq<u8>) -> Result<RelDurF, Error> {
    if s.len() == 0 || s[0] != 80 {
        Err(Error::MissingPrefix)
    } else {
        let body = s.skip(1);
        let dt = match find_byte(body, 84) {
            Some(i) => (body.take(i), body.skip(i + 1)),
            None => (body, Seq::<u8>::empty()),
        };
        match spec_parse_datespec(dt.0) {
            Err(e) => Err(e),
            Ok((years, months, days)) => match spec_parse_timespec(dt.1) {
                Err(e) => Err(e),
                Ok((hours, mins, secs, nanos)) => if !(i32::MIN <= years * 12 <= i32::MAX) || !(
                i32::MIN <= years * 12 + months <= i32::MAX) {
                    Err(Error::DurationOutOfRange)
                } else {
                    match spec_dhmsn(days, hours, mins, secs, nanos) {
                        None => Err(Error::DurationOutOfRange),
                        Some(total) => Ok(RelDurF { months: years * 12 + months, nanos: total }),
                    }
                },
            },
        }
    }
}

impl RelativeDuration {
    /// Parses an ISO 8601 duration string into a `RelativeDuration` value.
    ///
    /// Only integer field values are supported (`"P1Y"` but not
    /// `"P0.5Y"`), except for the seconds field, whose fraction is held to
    /// nine digits and parsed as nanoseconds.
    pub fn parse_from_iso8601(input: &str) -> (r: Result<RelativeDuration, Error>)
        ensures
            match (r, spec_parse_iso8601(input.spec_bytes())) {
                (Ok(v), Ok(f)) => v@ == f && v.wf(),
                (Err(e), Err(se)) => e == se,
                _ => false,
            },
    {
        let bytes: Vec<u8> = input.as_bytes_vec();
        let s: &[u8] = bytes.as_slice();
        if s.len() == 0 || *slice_index_get(s, 0) != 80 {
            return Err(Error::MissingPrefix);
        }
        let body: &[u8] = slice_subrange(s, 1, s.len());
        assert(body@ =~= input.spec_bytes().skip(1));
        let datespec: &[u8];
        let timespec: &[u8];
        match find_first(body, 84) {
            Some(i) => {
                proof {
                    lemma_find_byte(body@, 84);
                }
                assert(i < body.len());
                datespec = slice_subrange(body, 0, i);
                timespec = slice_subrange(body, i + 1, body.len());
                assert(datespec@ =~= body@.take(i as int));
                assert(timespec@ =~= body@.skip(i as int + 1));
            },
            None => {
                datespec = body;
                timespec = slice_subrange(body, 0, 0);
                assert(timespec@ =~= Seq::<u8>::empty());
            },
        }
        let (years, months, days): (i32, i32, i64) = match parse_datespec(datespec) {
            Ok(p) => p,
            Err(e) => {
                return Err(e);
            },
        };
        let (hours, mins, secs, nanos): (i64, i64, i64, u32) = match parse_timespec(timespec) {
            Ok(p) => p,
            Err(e) => {
                return Err(e);
            },
        };
        let y12: i64 = (years as i64) * 12;
        let total_months: i64 = y12 + (months as i64);
        if y12 < i32::MIN as i64 || y12 > i32::MAX as i64 || total_months < i32::MIN as i64
            || total_months > i32::MAX as i64 {
            return Err(Error::DurationOutOfRange);
        }
        let span: Duration = match dhmsn_to_duration(days, hours, mins, secs, nanos) {
            Some(d) => d,
            None => {
                return Err(Error::DurationOutOfRange);
            },
        };
        Ok(RelativeDuration::months(total_months as i32).with_duration(span))
    }
}

/// The decimal digits of `n`, most significant first.
pub open spec fn dec_digits(n: int) -> Seq<u8>
    recommends
        n >= 0,
    decreases n,
{
    if n < 10 {
        seq![(48 + n) as u8]
    } else {
        dec_digits(n / 10).push((48 + n % 10) as u8)
    }
}

/// The decimal writing of `n`: a minus sign, for a negative value, then
/// its digits.
pub open spec fn dec_int(n: int) -> Seq<u8> {
    if n < 0 {
        seq![45u8] + dec_digits(-n)
    } else {
        dec_digits(n)
    }
}

/// A digit string padded with leading zeros to nine places.
pub open spec fn zero_pad9(s: Seq<u8>) -> Seq<u8> {
    zero_bytes(9 - s.len()) + s
}

/// The digit string with its trailing zeros removed.
pub open spec fn trim_zeros(s: Seq<u8>) -> Seq<u8>
    decreases s.len(),
{
    if s.len() > 0 && s.last() == 48 {
        trim_zeros(s.drop_last())
    } else {
        s
    }
}

/// The decimal writing of a non-negative number is digits only.
proof fn lemma_dec_digits_digits(n: int)
    requires
        n >= 0,
    ensures
        all_digits(dec_digits(n)),
        dec_digits(n).len() >= 1,
    decreases n,
{
    if n >= 10 {
        lemma_dec_digits_digits(n / 10);
        assert(0 <= n % 10 < 10);
    }
}

/// A number below ten to the `k` is written in at most `k` digits.
proof fn lemma_dec_digits_len(n: int, k: nat)
    requires
        0 <= n < pow10(k),
        k >= 1,
    ensures
        dec_digits(n).len() <= k,
    decreases n,
{
    if n >= 10 {
        assert(pow10(k) == 10 * pow10((k - 1) as nat));
        vstd::arithmetic::div_mod::lemma_multiply_divide_lt(n, pow10((k - 1) as nat), 10);
        assert(n / 10 < pow10((k - 1) as nat));
        if k - 1 >= 1 {
            lemma_dec_digits_len(n / 10, (k - 1) as nat);
        } else {
            assert(pow10(0) == 1);
            assert(n / 10 < 1);
            vstd::arithmetic::div_mod::lemma_div_pos_is_pos(n, 10);
        }
    }
}

/// Trimming keeps a prefix of the string.
proof fn lemma_trim_prefix(s: Seq<u8>)
    ensures
        trim_zeros(s).len() <= s.len(),
        forall|i: int| 0 <= i < trim_zeros(s).len() ==> #[trigger] trim_zeros(s)[i] == s[i],
    decreases s.len(),
{
    if s.len() > 0 && s.last() == 48 {
        lemma_trim_prefix(s.drop_last());
        assert(forall|i: int| 0 <= i < s.drop_last().len() ==> s.drop_last()[i] == #[trigger] s[i]);
    }
}

/// Trimming a string that does not trim away entirely leaves any prefix
/// in front of it untouched.
proof fn lemma_trim_concat(a: Seq<u8>, s: Seq<u8>)
    requires
        trim_zeros(s).len() > 0,
    ensures
        trim_zeros(a + s) == a + trim_zeros(s),
    decreases s.len(),
{
    if s.len() > 0 {
        assert((a + s).last() == s.last());
        if s.last() == 48 {
            assert((a + s).drop_last() =~= a + s.drop_last());
            lemma_trim_concat(a, s.drop_last());
        } else {
            assert(trim_zeros(a + s) == a + s);
        }
    }
}

/// The digits of a positive number do not trim away entirely.
proof fn lemma_trim_dec_nonempty(n: int)
    requires
        n > 0,
    ensures
        trim_zeros(dec_digits(n)).len() > 0,
    decreases n,
{
    if n < 10 {
        assert(dec_digits(n).last() == 48 + n);
    } else {
        let d = dec_digits(n);
        assert(d == dec_digits(n / 10).push((48 + n % 10) as u8));
        if n % 10 == 0 {
            assert(d.drop_last() =~= dec_digits(n / 10));
            vstd::arithmetic::div_mod::lemma_div_pos_is_pos(n, 10);
            vstd::arithmetic::div_mod::lemma_div_non_zero(n, 10);
            lemma_trim_dec_nonempty(n / 10);
        } else {
            assert(d.last() == 48 + n % 10);
            assert(d.last() != 48);
        }
    }
}

/// What formatting a relative duration as an ISO 8601 duration string
/// gives. Year, month, day, hour and minute fields appear when nonzero,
/// each with its own sign; the seconds field carries its fraction as up
/// to nine digits with trailing zeros removed, the sign placed so that a
/// bare subsecond value reads as a negative decimal; the zero duration is
/// the bare `P`.
pub open spec fn spec_format_iso8601(d: RelDurF) -> Seq<u8> {
    let years = trunc_div(d.months, 12);
    let months = trunc_rem(d.months, 12);
    let dsecs = trunc_div(d.nanos, 1_000_000_000);
    let days = trunc_div(dsecs, 86400);
    let rs0 = trunc_rem(dsecs, 86400);
    let hours = trunc_div(rs0, 3600);
    let rs1 = trunc_rem(rs0, 3600);
    let minutes = trunc_div(rs1, 60);
    let rs2 = trunc_rem(rs1, 60);
    let subsec = trunc_rem(d.nanos, 1_000_000_000);
    let trip = if rs2 > 0 && subsec < 0 {
        (rs2 - 1, subsec + 1_000_000_000, false)
    } else if rs2 < 0 && subsec > 0 {
        (rs2 + 1, 1_000_000_000 - subsec, false)
    } else if rs2 <= 0 && subsec < 0 {
        (rs2, -subsec, rs2 == 0)
    } else {
        (rs2, subsec, false)
    };
    format_fields(years, months, days, hours, minutes, trip.0, trip.1, trip.2)
}

/// The text of a duration whose fields have already been decomposed:
/// nonzero fields appear in order with their letters, `T` marks a nonzero
/// time part, and the fraction is printed to nine places with trailing
/// zeros removed.
pub open spec fn format_fields(
    years: int,
    months: int,
    days: int,
    hours: int,
    minutes: int,
    seconds: int,
    nanos: int,
    push_minus: bool,
) -> Seq<u8> {
    let datepart = (if years != 0 {
        dec_int(years) + seq![89u8]
    } else {
        Seq::<u8>::empty()
    }) + (if months != 0 {
        dec_int(months) + seq![77u8]
    } else {
        Seq::<u8>::empty()
    }) + (if days != 0 {
        dec_int(days) + seq![68u8]
    } else {
        Seq::<u8>::empty()
    });
    let tmark = if seconds != 0 || nanos != 0 || hours != 0 || minutes != 0 {
        seq![84u8]
    } else {
        Seq::<u8>::empty()
    };
    let hm = (if hours != 0 {
        dec_int(hours) + seq![72u8]
    } else {
        Seq::<u8>::empty()
    }) + (if minutes != 0 {
        dec_int(minutes) + seq![77u8]
    } else {
        Seq::<u8>::empty()
    });
    let minus = if push_minus {
        seq![45u8]
    } else {
        Seq::<u8>::empty()
    };
    let sec = if seconds != 0 || nanos != 0 {
        dec_int(seconds) + (if nanos != 0 {
            seq![46u8] + trim_zeros(zero_pad9(dec_digits(nanos)))
        } else {
            Seq::<u8>::empty()
        }) + seq![83u8]
    } else {
        Seq::<u8>::empty()
    };
    seq![80u8] + datepart + tmark + hm + minus + sec
}

/// Concatenation of byte strings is associative.
proof fn lemma_add_assoc(a: Seq<u8>, b: Seq<u8>, c: Seq<u8>)
    ensures
        (a + b) + c == a + (b + c),
{
    assert((a + b) + c =~= a + (b + c));
}

/// The formatted text is the chain of its segments, appended one at a
/// time in printing order.
proof fn lemma_format_fields_compose(
    years: int,
    months: int,
    days: int,
    hours: int,
    minutes: int,
    seconds: int,
    nanos: int,
    push_minus: bool,
)
    ensures
        ({
            let e = Seq::<u8>::empty();
            let dpy = if years != 0 { dec_int(years) + seq![89u8] } else { e };
            let dpm = if months != 0 { dec_int(months) + seq![77u8] } else { e };
            let dpd = if days != 0 { dec_int(days) + seq![68u8] } else { e };
            let tmark = if seconds != 0 || nanos != 0 || hours != 0 || minutes != 0 {
                seq![84u8]
            } else {
                e
            };
            let hh = if hours != 0 { dec_int(hours) + seq![72u8] } else { e };
            let mm = if minutes != 0 { dec_int(minutes) + seq![77u8] } else { e };
            let minus = if push_minus { seq![45u8] } else { e };
            let frac = if nanos != 0 {
                seq![46u8] + trim_zeros(zero_pad9(dec_digits(nanos)))
            } else {
                e
            };
            let sec = if seconds != 0 || nanos != 0 { dec_int(seconds) + frac + seq![83u8] } else { e };
            format_fields(years, months, days, hours, minutes, seconds, nanos, push_minus)
                == ((((((((seq![80u8] + dpy) + dpm) + dpd) + tmark) + hh) + mm) + minus) + sec)
        }),
{
    let e = Seq::<u8>::empty();
    let p = seq![80u8];
    let dpy = if years != 0 { dec_int(years) + seq![89u8] } else { e };
    let dpm = if months != 0 { dec_int(months) + seq![77u8] } else { e };
    let dpd = if days != 0 { dec_int(days) + seq![68u8] } else { e };
    lemma_add_assoc(p, dpy, dpm);
    lemma_add_assoc(p, dpy + dpm, dpd);
}

/// A bound on the bytes of two strings bounds their concatenation.
proof fn lemma_ascii_concat(a: Seq<u8>, b: Seq<u8>)
    requires
        forall|i: int| 0 <= i < a.len() ==> #[trigger] a[i] < 128,
        forall|i: int| 0 <= i < b.len() ==> #[trigger] b[i] < 128,
    ensures
        forall|i: int| 0 <= i < (a + b).len() ==> #[trigger] (a + b)[i] < 128,
{
    assert forall|i: int| 0 <= i < (a + b).len() implies #[trigger] (a + b)[i] < 128 by {
        if i < a.len() {
            assert((a + b)[i] == a[i]);
        } else {
            assert((a + b)[i] == b[i - a.len()]);
        }
    }
}

/// Every byte of a formatted duration is ASCII.
#[verifier::rlimit(100)]
proof fn lemma_format_fields_ascii(
    years: int,
    months: int,
    days: int,
    hours: int,
    minutes: int,
    seconds: int,
    nanos: int,
    push_minus: bool,
)
    requires
        0 <= nanos,
    ensures
        forall|i: int|
            0 <= i < format_fields(years, months, days, hours, minutes, seconds, nanos,
            push_minus).len() ==> #[trigger] format_fields(
                years,
                months,
                days,
                hours,
                minutes,
                seconds,
                nanos,
                push_minus,
            )[i] < 128,
{
    lemma_dec_int_ascii(years);
    lemma_dec_int_ascii(months);
    lemma_dec_int_ascii(days);
    lemma_dec_int_ascii(hours);
    lemma_dec_int_ascii(minutes);
    lemma_dec_int_ascii(seconds);
    lemma_dec_digits_digits(nanos);
    let padded = zero_pad9(dec_digits(nanos));
    let zb = zero_bytes(9 - dec_digits(nanos).len());
    lemma_trim_prefix(padded);
    assert(forall|i: int| 0 <= i < zb.len() ==> #[trigger] zb[i] == 48);
    lemma_ascii_concat(zb, dec_digits(nanos));
    assert(forall|i: int|
        0 <= i < trim_zeros(padded).len() ==> #[trigger] trim_zeros(padded)[i] < 128);
    let e = Seq::<u8>::empty();
    let dpy = if years != 0 { dec_int(years) + seq![89u8] } else { e };
    let dpm = if months != 0 { dec_int(months) + seq![77u8] } else { e };
    let dpd = if days != 0 { dec_int(days) + seq![68u8] } else { e };
    let tmark = if seconds != 0 || nanos != 0 || hours != 0 || minutes != 0 { seq![84u8] } else { e };
    let hh = if hours != 0 { dec_int(hours) + seq![72u8] } else { e };
    let mm = if minutes != 0 { dec_int(minutes) + seq![77u8] } else { e };
    let minus = if push_minus { seq![45u8] } else { e };
    let frac = if nanos != 0 { seq![46u8] + trim_zeros(padded) } else { e };
    let sec = if seconds != 0 || nanos != 0 { dec_int(seconds) + frac + seq![83u8] } else { e };
    lemma_ascii_concat(dec_int(years), seq![89u8]);
    lemma_ascii_concat(dec_int(months), seq![77u8]);
    lemma_ascii_concat(dec_int(days), seq![68u8]);
    lemma_ascii_concat(dec_int(hours), seq![72u8]);
    lemma_ascii_concat(dec_int(minutes), seq![77u8]);
    lemma_ascii_concat(seq![46u8], trim_zeros(padded));
    lemma_ascii_concat(dec_int(seconds), frac);
    lemma_ascii_concat(dec_int(seconds) + frac, seq![83u8]);
    lemma_ascii_concat(dpy, dpm);
    lemma_ascii_concat(dpy + dpm, dpd);
    lemma_ascii_concat(seq![80u8], dpy + dpm + dpd);
    lemma_ascii_concat(seq![80u8] + (dpy + dpm + dpd), tmark);
    lemma_ascii_concat(hh, mm);
    lemma_ascii_concat(seq![80u8] + (dpy + dpm + dpd) + tmark, hh + mm);
    lemma_ascii_concat(seq![80u8] + (dpy + dpm + dpd) + tmark + (hh + mm), minus);
    lemma_ascii_concat(seq![80u8] + (dpy + dpm + dpd) + tmark + (hh + mm) + minus, sec);
}

/// The decimal writing of any integer uses only the minus sign and
/// digits.
proof fn lemma_dec_int_ascii(n: int)
    ensures
        forall|i: int| 0 <= i < dec_int(n).len() ==> 45 <= #[trigger] dec_int(n)[i] <= 57,
{
    if n < 0 {
        lemma_dec_digits_digits(-n);
    } else {
        lemma_dec_digits_digits(n);
    }
}

/// Appends the decimal digits of `n`.
fn push_u64_decimal(out: &mut Vec<u8>, n: u64)
    ensures
        final(out)@ == old(out)@ + dec_digits(n as int),
        forall|i: int| old(out)@.len() <= i < final(out)@.len() ==> 48 <= #[trigger] final(out)@[i] <= 57,
    decreases n,
{
    if n >= 10 {
        push_u64_decimal(out, n / 10);
    }
    out.push((n % 10) as u8 + 48);
    proof {
        if n >= 10 {
            assert(old(out)@ + dec_digits(n as int) =~= (old(out)@ + dec_digits(
                n as int / 10,
            )).push((48 + n as int % 10) as u8));
        } else {
            assert(old(out)@ + dec_digits(n as int) =~= old(out)@.push((48 + n as int) as u8));
        }
    }
}

/// Appends the decimal writing of `n`, minus sign included.
fn push_i64_decimal(out: &mut Vec<u8>, n: i64)
    requires
        n > i64::MIN,
    ensures
        final(out)@ == old(out)@ + dec_int(n as int),
        forall|i: int| old(out)@.len() <= i < final(out)@.len() ==> 45 <= #[trigger] final(out)@[i] <= 57,
{
    if n < 0 {
        out.push(45);
        push_u64_decimal(out, (-n) as u64);
        proof {
            assert(old(out)@ + dec_int(n as int) =~= old(out)@.push(45u8) + dec_digits(
                -(n as int),
            ));
        }
    } else {
        push_u64_decimal(out, n as u64);
    }
}

/// Appends the fractional-seconds digits: `nanos` as nine zero-padded
/// digits with the trailing zeros removed.
#[verifier::loop_isolation(false)]
fn push_fraction(out: &mut Vec<u8>, nanos: u32)
    requires
        0 < nanos < 1_000_000_000,
    ensures
        final(out)@ == old(out)@ + trim_zeros(zero_pad9(dec_digits(nanos as int))),
        forall|i: int| old(out)@.len() <= i < final(out)@.len() ==> 48 <= #[trigger] final(out)@[i] <= 57,
{
    let mut tmp: Vec<u8> = Vec::new();
    push_u64_decimal(&mut tmp, nanos as u64);
    proof {
        reveal_with_fuel(pow10, 11);
        lemma_dec_digits_len(nanos as int, 9);
        lemma_dec_digits_digits(nanos as int);
        lemma_trim_dec_nonempty(nanos as int);
        lemma_trim_concat(zero_bytes(9 - tmp@.len()), tmp@);
        lemma_trim_prefix(tmp@);
    }
    let pad: usize = 9 - tmp.len();
    let mut k: usize = 0;
    while k < pad
        invariant
            0 <= k <= pad,
            out@ == old(out)@ + zero_bytes(k as int),
        decreases pad - k,
    {
        out.push(48);
        proof {
            assert(old(out)@ + zero_bytes(k as int + 1) =~= (old(out)@ + zero_bytes(
                k as int,
            )).push(48u8));
        }
        k = k + 1;
    }
    let mut end: usize = tmp.len();
    proof {
        assert(tmp@.take(end as int) =~= tmp@);
    }
    while end > 0 && tmp[end - 1] == 48
        invariant
            0 <= end <= tmp@.len(),
            trim_zeros(tmp@) == trim_zeros(tmp@.take(end as int)),
        decreases end,
    {
        proof {
            assert(tmp@.take(end as int).drop_last() =~= tmp@.take(end as int - 1));
            assert(tmp@.take(end as int).last() == 48);
        }
        end = end - 1;
    }
    proof {
        if end > 0 {
            assert(tmp@.take(end as int).last() != 48);
        }
        assert(trim_zeros(tmp@.take(end as int)) == tmp@.take(end as int));
    }
    let ghost mid = out@;
    let mut j: usize = 0;
    while j < end
        invariant
            0 <= j <= end <= tmp@.len(),
            out@ == mid + tmp@.take(end as int).take(j as int),
        decreases end - j,
    {
        out.push(tmp[j]);
        proof {
            assert(tmp@.take(end as int).take(j as int + 1) =~= tmp@.take(end as int).take(
                j as int,
            ).push(tmp@[j as int]));
        }
        j = j + 1;
    }
    proof {
        assert(tmp@.take(end as int).take(end as int) =~= tmp@.take(end as int));
        assert(zero_bytes(9 - tmp@.len()) + trim_zeros(tmp@) =~= trim_zeros(zero_pad9(
            dec_digits(nanos as int),
        )));
        assert(out@ =~= old(out)@ + trim_zeros(zero_pad9(dec_digits(nanos as int))));
    }
}

/// The characters that a sequence of ASCII bytes spells, one per byte.
pub open spec fn bytes_as_chars(s: Seq<u8>) -> Seq<char> {
    s.map_values(|b: u8| b as char)
}

/// Relies on `String::from_utf8`: bytes below 128 are valid UTF-8, one
/// character per byte, and the returned string holds exactly those bytes.
#[verifier::external_body]
fn ascii_to_string(bytes: Vec<u8>) -> (r: String)
    requires
        forall|i: int| 0 <= i < bytes@.len() ==> bytes@[i] < 128,
    ensures
        r@ == bytes_as_chars(bytes@),
{
    match String::from_utf8(bytes) {
        Ok(s) => s,
        Err(_) => String::new(),
    }
}

/// Appends one dated or timed field: its value and letter when the value
/// is nonzero, nothing otherwise.
fn push_field(out: &mut Vec<u8>, value: i64, letter: u8)
    requires
        value > i64::MIN,
    ensures
        final(out)@ == old(out)@ + (if value as int != 0 {
            dec_int(value as int) + seq![letter]
        } else {
            Seq::<u8>::empty()
        }),
{
    if value != 0 {
        push_i64_decimal(out, value);
        out.push(letter);
        proof {
            assert(out@ =~= old(out)@ + (dec_int(value as int) + seq![letter]));
        }
    } else {
        proof {
            assert(out@ =~= old(out)@ + Seq::<u8>::empty());
        }
    }
}

/// Appends one marker byte when `cond` holds, nothing otherwise.
fn push_marker(out: &mut Vec<u8>, cond: bool, letter: u8)
    ensures
        final(out)@ == old(out)@ + (if cond {
            seq![letter]
        } else {
            Seq::<u8>::empty()
        }),
{
    if cond {
        out.push(letter);
        proof {
            assert(out@ =~= old(out)@ + seq![letter]);
        }
    } else {
        proof {
            assert(out@ =~= old(out)@ + Seq::<u8>::empty());
        }
    }
}

/// Appends the seconds field: the whole seconds, a fraction when there is
/// one, and the closing letter; nothing when both are zero.
fn push_seconds_field(out: &mut Vec<u8>, seconds: i64, nanos: i64)
    requires
        seconds > i64::MIN,
        0 <= nanos < 1_000_000_000,
    ensures
        final(out)@ == old(out)@ + (if seconds as int != 0 || nanos as int != 0 {
            dec_int(seconds as int) + (if nanos as int != 0 {
                seq![46u8] + trim_zeros(zero_pad9(dec_digits(nanos as int)))
            } else {
                Seq::<u8>::empty()
            }) + seq![83u8]
        } else {
            Seq::<u8>::empty()
        }),
{
    if seconds != 0 || nanos != 0 {
        push_i64_decimal(out, seconds);
        if nanos != 0 {
            out.push(46);
            push_fraction(out, nanos as u32);
            proof {
                assert(out@ =~= old(out)@ + (dec_int(seconds as int) + (seq![46u8]
                    + trim_zeros(zero_pad9(dec_digits(nanos as int))))));
            }
        } else {
            proof {
                assert(out@ =~= old(out)@ + (dec_int(seconds as int)
                    + Seq::<u8>::empty()));
            }
        }
        out.push(83);
        proof {
            assert(out@ =~= old(out)@ + (dec_int(seconds as int) + (if nanos as int
                != 0 {
                seq![46u8] + trim_zeros(zero_pad9(dec_digits(nanos as int)))
            } else {
                Seq::<u8>::empty()
            }) + seq![83u8]));
        }
    } else {
        proof {
            assert(out@ =~= old(out)@ + Seq::<u8>::empty());
        }
    }
}

/// Builds the byte text of a duration from its decomposed fields.
fn format_fields_bytes(
    years: i64,
    months: i64,
    days: i64,
    hours: i64,
    minutes: i64,
    seconds: i64,
    nanos: i64,
    push_minus: bool,
) -> (out: Vec<u8>)
    requires
        years > i64::MIN,
        months > i64::MIN,
        days > i64::MIN,
        hours > i64::MIN,
        minutes > i64::MIN,
        seconds > i64::MIN,
        0 <= nanos < 1_000_000_000,
    ensures
        out@ == format_fields(
            years as int,
            months as int,
            days as int,
            hours as int,
            minutes as int,
            seconds as int,
            nanos as int,
            push_minus,
        ),
        forall|i: int| 0 <= i < out@.len() ==> out@[i] < 128,
{
    let mut out: Vec<u8> = Vec::new();
    out.push(80);
    proof {
        assert(out@ =~= seq![80u8]);
    }
    push_field(&mut out, years, 89);
    push_field(&mut out, months, 77);
    push_field(&mut out, days, 68);
    push_marker(&mut out, seconds != 0 || nanos != 0 || hours != 0 || minutes != 0, 84);
    push_field(&mut out, hours, 72);
    push_field(&mut out, minutes, 77);
    push_marker(&mut out, push_minus, 45);
    push_seconds_field(&mut out, seconds, nanos);
    proof {
        lemma_format_fields_compose(
            years as int,
            months as int,
            days as int,
            hours as int,
            minutes as int,
            seconds as int,
            nanos as int,
            push_minus,
        );
        assert(out@ == format_fields(
            years as int,
            months as int,
            days as int,
            hours as int,
            minutes as int,
            seconds as int,
            nanos as int,
            push_minus,
        ));
        lemma_format_fields_ascii(
            years as int,
            months as int,
            days as int,
            hours as int,
            minutes as int,
            seconds as int,
            nanos as int,
            push_minus,
        );
        assert(forall|i: int| 0 <= i < out@.len() ==> out@[i] < 128);
    }
    out
}

impl RelativeDuration {
    /// Splits the duration into the field values its text shows: years,
    /// months, days, hours, minutes, seconds, subsecond nanoseconds, and
    /// whether a lone minus sign precedes a zero seconds field.
    fn decompose_fields(&self) -> (r: (i64, i64, i64, i64, i64, i64, i64, bool))
        requires
            self.wf(),
        ensures
            ({
                let years = trunc_div(self@.months, 12);
                let months = trunc_rem(self@.months, 12);
                let dsecs = trunc_div(self@.nanos, 1_000_000_000);
                let days = trunc_div(dsecs, 86400);
                let rs0 = trunc_rem(dsecs, 86400);
                let hours = trunc_div(rs0, 3600);
                let rs1 = trunc_rem(rs0, 3600);
                let minutes = trunc_div(rs1, 60);
                let rs2 = trunc_rem(rs1, 60);
                let subsec = trunc_rem(self@.nanos, 1_000_000_000);
                let trip = if rs2 > 0 && subsec < 0 {
                    (rs2 - 1, subsec + 1_000_000_000, false)
                } else if rs2 < 0 && subsec > 0 {
                    (rs2 + 1, 1_000_000_000 - subsec, false)
                } else if rs2 <= 0 && subsec < 0 {
                    (rs2, -subsec, rs2 == 0)
                } else {
                    (rs2, subsec, false)
                };
                &&& r.0 == years
                &&& r.1 == months
                &&& r.2 == days
                &&& r.3 == hours
                &&& r.4 == minutes
                &&& r.5 == trip.0
                &&& r.6 == trip.1
                &&& r.7 == trip.2
                &&& 0 <= trip.1 < 1_000_000_000
                &&& r.0 > i64::MIN && r.1 > i64::MIN && r.2 > i64::MIN && r.3 > i64::MIN
                    && r.4 > i64::MIN && r.5 > i64::MIN
            }),
    {
        let months_total: i64 = self.month_count() as i64;
        let years: i64 = months_total / 12;
        let months: i64 = months_total % 12;
        let dur: Duration = self.abs_duration();
        let duration_seconds: i64 = dur.num_seconds();
        let days: i64 = duration_seconds / 86400;
        let mut remaining: i64 = duration_seconds % 86400;
        let hours: i64 = remaining / 3600;
        remaining = remaining % 3600;
        let minutes: i64 = remaining / 60;
        remaining = remaining % 60;
        let subsec: i64 = dur.subsec_nanos() as i64;
        if remaining > 0 && subsec < 0 {
            (years, months, days, hours, minutes, remaining - 1, subsec + 1_000_000_000, false)
        } else if remaining < 0 && subsec > 0 {
            (years, months, days, hours, minutes, remaining + 1, 1_000_000_000 - subsec, false)
        } else if remaining <= 0 && subsec < 0 {
            (years, months, days, hours, minutes, remaining, -subsec, remaining == 0)
        } else {
            (years, months, days, hours, minutes, remaining, subsec, false)
        }
    }

    /// Formats a `RelativeDuration` value into an ISO 8601 duration
    /// string.
    pub fn format_to_iso8601(&self) -> (r: String)
        requires
            self.wf(),
        ensures
            r@ == bytes_as_chars(spec_format_iso8601(self@)),
    {
        let (years, months, days, hours, minutes, seconds, nanos, push_minus): (
            i64,
            i64,
            i64,
            i64,
            i64,
            i64,
            i64,
            bool,
        ) = self.decompose_fields();
        let out: Vec<u8> = format_fields_bytes(
            years,
            months,
            days,
            hours,
            minutes,
            seconds,
            nanos,
            push_minus,
        );
        proof {
            assert(spec_format_iso8601(self@) == format_fields(
                years as int,
                months as int,
                days as int,
                hours as int,
                minutes as int,
                seconds as int,
                nanos as int,
                push_minus,
            ));
        }
        ascii_to_string(out)
    }
}

} // verus!
