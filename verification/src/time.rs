//! The time codec: between a text `minutes:seconds` and a number of seconds.

use vstd::prelude::*;
use vstd::string::StringExecFns;
use crate::errors::AkariParserError;
use crate::text::{
    decimal_value, digit_of, digit_str, digits, is_digit, read_decimal, skip_digits, to_chars,
};

verus! {

/// At `from..to` of `s` stands a time: digits, a colon at `colon`, digits.
pub open spec fn time_at(s: Seq<char>, from: int, colon: int, to: int) -> bool {
    &&& from < colon
    &&& digits(s, from, colon)
    &&& colon < s.len()
    &&& s[colon] == ':'
    &&& colon + 1 < to
    &&& digits(s, colon + 1, to)
}

/// The seconds that a run of minute digits and a run of second digits stand
/// for: none where the seconds are 60 or more.
pub open spec fn time_seconds(minutes: Seq<char>, seconds: Seq<char>) -> Option<nat> {
    if decimal_value(seconds) < 60 {
        Some(decimal_value(minutes) * 60 + decimal_value(seconds))
    } else {
        None
    }
}

/// The seconds that the time at `from..to` of `s` stands for.
pub open spec fn time_value_at(s: Seq<char>, from: int, colon: int, to: int) -> Option<nat> {
    time_seconds(s.subrange(from, colon), s.subrange(colon + 1, to))
}

/// The whole of `s` is a time.
pub open spec fn is_time_text(s: Seq<char>) -> bool {
    exists|colon: int| time_at(s, 0, colon, s.len() as int)
}

/// The seconds that the text `s` stands for: none where `s` is no time or
/// its seconds are 60 or more.
pub open spec fn decoded_time(s: Seq<char>) -> Option<nat> {
    if is_time_text(s) {
        let colon = choose|colon: int| time_at(s, 0, colon, s.len() as int);
        time_value_at(s, 0, colon, s.len() as int)
    } else {
        None
    }
}

/// The decimal digits of `n`, without leading zeros.
pub open spec fn decimal_text(n: nat) -> Seq<char>
    decreases n,
{
    if n < 10 {
        seq![digit_of(n)]
    } else {
        decimal_text(n / 10).push(digit_of(n % 10))
    }
}

/// The decimal digits of `n`, with a leading zero where it is below ten.
pub open spec fn two_digits(n: nat) -> Seq<char> {
    if n < 10 {
        seq!['0', digit_of(n)]
    } else {
        decimal_text(n)
    }
}

/// The text that stands for `seconds`: minutes and seconds, each in two
/// digits at least, with a colon between them.
pub open spec fn encoded_time(seconds: nat) -> Seq<char> {
    two_digits(seconds / 60) + seq![':'] + two_digits(seconds % 60)
}

/// A time has its colon in one place only.
pub proof fn lemma_time_colon_unique(s: Seq<char>, from: int, c1: int, c2: int, to: int)
    requires
        time_at(s, from, c1, to),
        time_at(s, from, c2, to),
    ensures
        c1 == c2,
{
    if c1 < c2 {
        assert(is_digit(s[c1]));
    }
    if c2 < c1 {
        assert(is_digit(s[c2]));
    }
}

/// The seconds that the time number `t` stands for as a `u64`, where it is
/// one.
pub open spec fn in_u64(t: Option<nat>) -> Option<u64> {
    match t {
        Some(t) => if t <= u64::MAX {
            Some(t as u64)
        } else {
            None
        },
        None => None,
    }
}

/// The seconds that the minute digits at `mfrom..mto` of `minutes` and the
/// second digits at `sfrom..sto` of `seconds` stand for, where they are at
/// most `u64::MAX`.
pub(crate) fn read_time_parts(
    minutes: &Vec<char>,
    mfrom: usize,
    mto: usize,
    seconds: &Vec<char>,
    sfrom: usize,
    sto: usize,
) -> (r: Option<u64>)
    requires
        digits(minutes@, mfrom as int, mto as int),
        digits(seconds@, sfrom as int, sto as int),
    ensures
        r == in_u64(
            time_seconds(
                minutes@.subrange(mfrom as int, mto as int),
                seconds@.subrange(sfrom as int, sto as int),
            ),
        ),
{
    let s = read_decimal(seconds, sfrom, sto);
    let m = read_decimal(minutes, mfrom, mto);
    match s {
        Some(s) => {
            if s >= 60 {
                return None;
            }
            match m {
                Some(m) => {
                    if m > (u64::MAX - s) / 60 {
                        None
                    } else {
                        Some(m * 60 + s)
                    }
                },
                None => None,
            }
        },
        None => None,
    }
}

/// The seconds that the time at `from..to` of `v` stands for, where they are
/// at most `u64::MAX`.
pub(crate) fn read_time(v: &Vec<char>, from: usize, colon: usize, to: usize) -> (r: Option<u64>)
    requires
        time_at(v@, from as int, colon as int, to as int),
    ensures
        r == in_u64(time_value_at(v@, from as int, colon as int, to as int)),
{
    read_time_parts(v, from, colon, v, colon + 1, to)
}

/// Decodes a text `minutes:seconds` into seconds.
///
/// The text is digits, a colon and digits, and nothing else. It is refused
/// where it has another shape, where its seconds are 60 or more, and where the
/// result exceeds `u64::MAX`.
pub fn decode_time(text: &str) -> (r: Result<u64, AkariParserError>)
    ensures
        r == match in_u64(decoded_time(text@)) {
            Some(t) => Ok::<u64, AkariParserError>(t),
            None => Err(AkariParserError::InvalidScoreFormat),
        },
{
    let v = to_chars(text);
    let colon = skip_digits(&v, 0);
    if colon == 0 || colon >= v.len() || v[colon] != ':' {
        proof {
            assert forall|c: int| !time_at(v@, 0, c, v.len() as int) by {
                if time_at(v@, 0, c, v.len() as int) {
                    if c < colon {
                        assert(is_digit(v@[c]));
                    } else if c > colon {
                        assert(is_digit(v@[colon as int]));
                    }
                }
            }
        }
        return Err(AkariParserError::InvalidScoreFormat);
    }
    let end = skip_digits(&v, colon + 1);
    if end == colon + 1 || end < v.len() {
        proof {
            assert forall|c: int| !time_at(v@, 0, c, v.len() as int) by {
                if time_at(v@, 0, c, v.len() as int) {
                    if c < colon {
                        assert(is_digit(v@[c]));
                    } else if c > colon {
                        assert(is_digit(v@[colon as int]));
                    } else {
                        if end < v.len() {
                            assert(is_digit(v@[end as int]));
                        }
                    }
                }
            }
        }
        return Err(AkariParserError::InvalidScoreFormat);
    }
    proof {
        assert(time_at(v@, 0, colon as int, v.len() as int));
        let c = choose|c: int| time_at(v@, 0, c, v.len() as int);
        lemma_time_colon_unique(v@, 0, c, colon as int, v.len() as int);
    }
    match read_time(&v, 0, colon, v.len()) {
        Some(t) => Ok(t),
        None => Err(AkariParserError::InvalidScoreFormat),
    }
}

/// Appends the decimal digits of `n` to `out`.
fn push_decimal(out: &mut String, n: u64)
    ensures
        final(out)@ == old(out)@ + decimal_text(n as nat),
    decreases n,
{
    if n >= 10 {
        push_decimal(out, n / 10);
    }
    out.append(digit_str(n % 10));
    proof {
        if n >= 10 {
            assert(old(out)@ + decimal_text(n as nat / 10) + seq![digit_of(n as nat % 10)] =~= old(
                out,
            )@ + decimal_text(n as nat));
        }
    }
}

/// Appends the decimal digits of `n` to `out`, in two digits at least.
fn push_two_digits(out: &mut String, n: u64)
    ensures
        final(out)@ == old(out)@ + two_digits(n as nat),
{
    if n < 10 {
        out.append("0");
        proof {
            reveal_strlit("0");
        }
    }
    push_decimal(out, n);
    proof {
        if n < 10 {
            assert(old(out)@ + seq!['0'] + decimal_text(n as nat) =~= old(out)@ + two_digits(
                n as nat,
            ));
        }
    }
}

/// Encodes seconds as a text `minutes:seconds`, each part in two digits at
/// least.
pub fn encode_time(seconds: u64) -> (r: String)
    ensures
        r@ == encoded_time(seconds as nat),
{
    let mut r = String::new();
    push_two_digits(&mut r, seconds / 60);
    r.append(":");
    push_two_digits(&mut r, seconds % 60);
    proof {
        reveal_strlit(":");
        assert(r@ =~= encoded_time(seconds as nat));
    }
    r
}

/// The decimal digits of a number are digits, at least one, and write that
/// number.
pub proof fn lemma_decimal_text(n: nat)
    ensures
        decimal_text(n).len() >= 1,
        digits(decimal_text(n), 0, decimal_text(n).len() as int),
        decimal_value(decimal_text(n)) == n,
    decreases n,
{
    let t = decimal_text(n);
    if n < 10 {
        assert(t.drop_last() =~= Seq::<char>::empty());
        assert(decimal_value(t.drop_last()) == 0);
    } else {
        lemma_decimal_text(n / 10);
        assert(t.drop_last() =~= decimal_text(n / 10));
    }
}

/// The two-digit form of a number is made of digits, at least one, and writes
/// that number.
pub proof fn lemma_two_digits(n: nat)
    ensures
        two_digits(n).len() >= 1,
        digits(two_digits(n), 0, two_digits(n).len() as int),
        decimal_value(two_digits(n)) == n,
{
    lemma_decimal_text(n);
    if n < 10 {
        let t = two_digits(n);
        assert(t.drop_last() =~= seq!['0']);
        assert(seq!['0'].drop_last() =~= Seq::<char>::empty());
        assert(decimal_value(seq!['0'].drop_last()) == 0);
        assert(decimal_value(seq!['0']) == 0);
    }
}

/// Decoding the text that encodes a number of seconds gives that number back:
/// for all minutes and all seconds below 60,
/// `decode(encode(minutes * 60 + seconds)) == minutes * 60 + seconds`.
pub proof fn lemma_time_round_trip(minutes: nat, seconds: nat)
    requires
        seconds <= 59,
    ensures
        decoded_time(encoded_time(minutes * 60 + seconds)) == Some(minutes * 60 + seconds),
{
    let total = minutes * 60 + seconds;
    assert(total / 60 == minutes && total % 60 == seconds);
    let a = two_digits(minutes);
    let b = two_digits(seconds);
    let t = encoded_time(total);
    lemma_two_digits(minutes);
    lemma_two_digits(seconds);
    let colon = a.len() as int;
    assert forall|k: int| 0 <= k < colon implies is_digit(#[trigger] t[k]) by {
        assert(t[k] == a[k]);
    }
    assert forall|k: int| colon + 1 <= k < t.len() implies is_digit(#[trigger] t[k]) by {
        assert(t[k] == b[k - colon - 1]);
    }
    assert(t[colon] == ':');
    assert(time_at(t, 0, colon, t.len() as int));
    let c = choose|c: int| time_at(t, 0, c, t.len() as int);
    lemma_time_colon_unique(t, 0, c, colon, t.len() as int);
    assert(t.subrange(0, colon) =~= a);
    assert(t.subrange(colon + 1, t.len() as int) =~= b);
}

/// A time whose seconds are 60 or more is refused, whatever its minutes.
pub proof fn lemma_large_seconds_refused(s: Seq<char>, colon: int)
    requires
        time_at(s, 0, colon, s.len() as int),
        decimal_value(s.subrange(colon + 1, s.len() as int)) >= 60,
    ensures
        decoded_time(s) is None,
{
    let c = choose|c: int| time_at(s, 0, c, s.len() as int);
    lemma_time_colon_unique(s, 0, c, colon, s.len() as int);
}

} // verus!
