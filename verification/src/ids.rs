//! Decimal identifiers as they arrive in request paths and bodies.
use vstd::prelude::*;
use vstd::string::*;

use crate::errors::AppError;
use crate::text::{decimal, digit_char};

verus! {

/// An ASCII decimal digit.
pub open spec fn is_digit(c: char) -> bool {
    '0' <= c && c <= '9'
}

/// The value of a run of decimal digits.
pub open spec fn digits_value(s: Seq<char>) -> int
    decreases s.len(),
{
    if s.len() == 0 {
        0
    } else {
        digits_value(s.drop_last()) * 10 + (s.last() as int - '0' as int)
    }
}

/// The text after an optional leading sign.
pub open spec fn unsigned_part(s: Seq<char>) -> Seq<char> {
    if s.len() > 0 && (s[0] == '-' || s[0] == '+') {
        s.skip(1)
    } else {
        s
    }
}

/// Every character of `t` is a decimal digit.
pub open spec fn all_digits(t: Seq<char>) -> bool {
    forall|k: int| 0 <= k < t.len() ==> is_digit(#[trigger] t[k])
}

/// What `str::parse::<i64>` gives: an optional `+` or `-` followed by one or
/// more ASCII digits, whose value fits in an `i64`; `None` for anything else.
pub open spec fn parse_i64_spec(s: Seq<char>) -> Option<i64> {
    let body = unsigned_part(s);
    let magnitude = digits_value(body);
    let v = if s.len() > 0 && s[0] == '-' {
        -magnitude
    } else {
        magnitude
    };
    if body.len() == 0 || !all_digits(body) {
        None
    } else if v < i64::MIN || v > i64::MAX {
        None
    } else {
        Some(v as i64)
    }
}

proof fn lemma_digit_char(d: nat)
    requires
        d < 10,
    ensures
        is_digit(digit_char(d)),
        digit_char(d) as int - '0' as int == d,
{
}

proof fn lemma_decimal_digits(n: nat)
    ensures
        decimal(n).len() > 0,
        all_digits(decimal(n)),
        digits_value(decimal(n)) == n,
    decreases n,
{
    if n < 10 {
        lemma_digit_char(n);
        assert(decimal(n).drop_last() =~= Seq::<char>::empty());
        assert(digits_value(Seq::<char>::empty()) == 0);
        assert(digits_value(decimal(n)) == digits_value(decimal(n).drop_last()) * 10 + (
        decimal(n).last() as int - '0' as int));
    } else {
        lemma_decimal_digits(n / 10);
        lemma_digit_char(n % 10);
        let t = decimal(n / 10);
        assert(decimal(n).drop_last() =~= t);
        assert(decimal(n).last() == digit_char(n % 10));
        assert(digits_value(decimal(n)) == digits_value(t) * 10 + (digit_char(n % 10) as int
            - '0' as int));
        assert((n / 10) * 10 + n % 10 == n);
        assert forall|k: int| 0 <= k < decimal(n).len() implies is_digit(#[trigger] decimal(n)[k]) by {
            if k < t.len() {
                assert(decimal(n)[k] == t[k]);
            }
        }
    }
}

/// Parsing reads back what decimal rendering writes: the digits of any
/// value that fits in an `i64`, bare or behind `+`, give the value; behind
/// `-` they give its negation (down to `i64::MIN`); digits of a larger
/// value, and a sign alone or nothing at all, give nothing.
pub proof fn law_parse_reads_decimal_back(n: nat)
    ensures
        n <= i64::MAX ==> parse_i64_spec(decimal(n)) == Some(n as i64),
        n <= i64::MAX ==> parse_i64_spec(seq!['+'] + decimal(n)) == Some(n as i64),
        n <= i64::MAX + 1 ==> parse_i64_spec(seq!['-'] + decimal(n)) == Some((-n) as i64),
        n > i64::MAX ==> parse_i64_spec(decimal(n)) is None,
        n > i64::MAX + 1 ==> parse_i64_spec(seq!['-'] + decimal(n)) is None,
        parse_i64_spec(Seq::<char>::empty()) is None,
        parse_i64_spec(seq!['+']) is None,
        parse_i64_spec(seq!['-']) is None,
{
    lemma_decimal_digits(n);
    let t = decimal(n);
    assert(is_digit(t[0]));
    assert(unsigned_part(t) == t);
    assert((seq!['+'] + t).skip(1) =~= t);
    assert((seq!['-'] + t).skip(1) =~= t);
    assert((seq!['+'] + t)[0] == '+');
    assert((seq!['-'] + t)[0] == '-');
    assert(unsigned_part(seq!['+'] + t) == t);
    assert(unsigned_part(seq!['-'] + t) == t);
    assert(seq!['+'].skip(1) =~= Seq::<char>::empty());
    assert(seq!['-'].skip(1) =~= Seq::<char>::empty());
}

/// Only an optional sign followed by decimal digits parses: a character
/// other than a digit anywhere after the first position, or a first
/// character that is neither a digit nor a sign, gives nothing.
pub proof fn law_parse_refuses_non_digits(s: Seq<char>)
    ensures
        forall|k: int| 0 < k < s.len() && !is_digit(#[trigger] s[k]) ==> parse_i64_spec(s) is None,
        s.len() > 0 && !is_digit(s[0]) && s[0] != '+' && s[0] != '-' ==> parse_i64_spec(s) is None,
{
    assert forall|k: int| 0 < k < s.len() && !is_digit(#[trigger] s[k]) implies parse_i64_spec(
        s,
    ) is None by {
        let body = unsigned_part(s);
        if s[0] == '-' || s[0] == '+' {
            assert(body[k - 1] == s[k]);
        } else {
            assert(body[k] == s[k]);
        }
    }
    if s.len() > 0 && !is_digit(s[0]) && s[0] != '+' && s[0] != '-' {
        assert(unsigned_part(s)[0] == s[0]);
    }
}

/// Bound above which a magnitude no longer fits in an `i64`.
const MAGNITUDE_LIMIT: u128 = 9223372036854775808u128;

/// Parses a signed decimal number the way `str::parse::<i64>` does.
pub fn parse_i64(s: &str) -> (value: Option<i64>)
    ensures
        value == parse_i64_spec(s@),
{
    let len = s.unicode_len();
    let ghost chars = s@;
    let mut start: usize = 0;
    let mut negative = false;
    if len > 0 {
        let first = s.get_char(0);
        if first == '-' {
            start = 1;
            negative = true;
        } else if first == '+' {
            start = 1;
        }
    }
    let ghost body = chars.skip(start as int);
    assert(body =~= unsigned_part(chars));
    if start == len {
        return None;
    }
    let mut acc: u128 = 0;
    let mut too_big = false;
    let mut k: usize = start;
    while k < len
        invariant
            len == chars.len(),
            chars == s@,
            start <= k <= len,
            start < len,
            body == chars.skip(start as int),
            body == unsigned_part(chars),
            forall|x: int| 0 <= x < k - start ==> is_digit(#[trigger] body[x]),
            !too_big ==> acc == digits_value(body.take(k - start)) && acc <= MAGNITUDE_LIMIT,
            too_big ==> digits_value(body.take(k - start)) > MAGNITUDE_LIMIT,
        decreases len - k,
    {
        let c = s.get_char(k);
        if !('0' <= c && c <= '9') {
            assert(!is_digit(body[k - start]));
            return None;
        }
        let ghost prefix = body.take(k - start);
        let ghost next = body.take(k - start + 1);
        assert(next.drop_last() =~= prefix);
        if !too_big {
            let d = (c as u32 - '0' as u32) as u128;
            acc = acc * 10 + d;
            if acc > MAGNITUDE_LIMIT {
                too_big = true;
            }
        }
        k = k + 1;
    }
    assert(body.take(len - start) =~= body);
    if too_big {
        return None;
    }
    if negative {
        if acc == MAGNITUDE_LIMIT {
            Some(i64::MIN)
        } else {
            Some(-(acc as i64))
        }
    } else if acc < MAGNITUDE_LIMIT {
        Some(acc as i64)
    } else {
        None
    }
}

/// An identifier from a request path; `message` is the client error when
/// the text is not a decimal `i64`.
pub fn parse_path_id(text: &str, message: &'static str) -> (id: Result<i64, AppError>)
    ensures
        match parse_i64_spec(text@) {
            Some(v) => id == Ok::<i64, AppError>(v),
            None => id == Err::<i64, AppError>(AppError::BadRequest(message)),
        },
{
    match parse_i64(text) {
        Some(v) => Ok(v),
        None => Err(AppError::BadRequest(message)),
    }
}

/// The identifiers of `texts` that parse, in order; the others are dropped.
pub open spec fn parsed_ids(texts: Seq<Seq<char>>) -> Seq<i64>
    decreases texts.len(),
{
    if texts.len() == 0 {
        Seq::empty()
    } else {
        let rest = parsed_ids(texts.drop_last());
        match parse_i64_spec(texts.last()) {
            Some(v) => rest.push(v),
            None => rest,
        }
    }
}

/// Parses each text as an identifier and keeps those that parse.
pub fn parse_ids(texts: &Vec<String>) -> (ids: Vec<i64>)
    ensures
        ids@ == parsed_ids(texts@.map_values(|t: String| t@)),
{
    let ghost views = texts@.map_values(|t: String| t@);
    let mut ids: Vec<i64> = Vec::new();
    let mut k: usize = 0;
    while k < texts.len()
        invariant
            k <= texts@.len(),
            views == texts@.map_values(|t: String| t@),
            ids@ == parsed_ids(views.take(k as int)),
        decreases texts.len() - k,
    {
        assert(views.take(k + 1).drop_last() =~= views.take(k as int));
        match parse_i64(texts[k].as_str()) {
            Some(v) => ids.push(v),
            None => {},
        }
        k = k + 1;
    }
    assert(views.take(texts@.len() as int) =~= views);
    ids
}

} // verus!
