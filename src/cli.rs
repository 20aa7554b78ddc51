//! Run configuration, and the text form of the initial bucket quantities.
use std::collections::HashMap;
use std::num::ParseIntError;
use std::str::FromStr;

use vstd::prelude::*;
use vstd::string::StrSliceExecFns;

use crate::buckets::BucketType;
use crate::policy::Policy;

verus! {

broadcast use vstd::std_specs::hash::group_hash_axioms;

#[verifier::external_type_specification]
#[verifier::external_body]
pub struct ExParseIntError(ParseIntError);

/// Everything the control loop is started with.
pub struct Args {
    /// Kind of bucket backend to use.
    pub bucket_type: BucketType,
    /// Policy to apply.
    pub policy: Policy,
    /// Initial quantity of each bucket.
    pub initial_data: HashMap<u64, u64>,
    /// Controller loop latency (ms).
    pub controller_latency: u64,
    /// Actuator loop latency (ms).
    pub actuator_latency: u64,
    /// Fill loop latency (ms).
    pub fill_latency: u64,
}

/// Unicode White_Space, the characters that `str::trim` removes.
pub open spec fn is_white_space(c: char) -> bool {
    ||| '\u{9}' <= c <= '\u{d}'
    ||| c == ' '
    ||| c == '\u{85}'
    ||| c == '\u{a0}'
    ||| c == '\u{1680}'
    ||| '\u{2000}' <= c <= '\u{200a}'
    ||| c == '\u{2028}'
    ||| c == '\u{2029}'
    ||| c == '\u{202f}'
    ||| c == '\u{205f}'
    ||| c == '\u{3000}'
}

/// `t` without its leading and trailing white space.
pub open spec fn trimmed(t: Seq<char>) -> Seq<char>
    decreases t.len(),
{
    if t.len() > 0 && is_white_space(t[0]) {
        trimmed(t.drop_first())
    } else if t.len() > 0 && is_white_space(t.last()) {
        trimmed(t.drop_last())
    } else {
        t
    }
}

/// The value of a string of decimal digits.
pub open spec fn digits_value(d: Seq<char>) -> nat
    decreases d.len(),
{
    if d.len() == 0 {
        0
    } else {
        digits_value(d.drop_last()) * 10 + (d.last() as nat - '0' as nat) as nat
    }
}

/// The `u64` written by `t`: an optional `+` and one or more ASCII digits
/// whose value fits in 64 bits.
pub open spec fn number_of(t: Seq<char>) -> Option<u64> {
    let d = if t.len() > 0 && t[0] == '+' {
        t.drop_first()
    } else {
        t
    };
    if d.len() > 0 && (forall|i: int| 0 <= i < d.len() ==> '0' <= #[trigger] d[i] <= '9')
        && digits_value(d) <= u64::MAX {
        Some(digits_value(d) as u64)
    } else {
        None
    }
}

/// How often `c` occurs in `s`.
pub open spec fn count_char(s: Seq<char>, c: char) -> nat
    decreases s.len(),
{
    if s.len() == 0 {
        0
    } else {
        count_char(s.drop_last(), c) + if s.last() == c {
            1nat
        } else {
            0nat
        }
    }
}

/// The bucket and quantity written by one `id:value` pair, white space
/// allowed around each number.
pub open spec fn pair_of(piece: Seq<char>) -> Option<(u64, u64)> {
    if count_char(piece, ':') == 1 {
        let k = choose|k: int| 0 <= k < piece.len() && piece[k] == ':';
        match (
            number_of(trimmed(piece.subrange(0, k))),
            number_of(trimmed(piece.subrange(k + 1, piece.len() as int))),
        ) {
            (Some(id), Some(value)) => Some((id, value)),
            _ => None,
        }
    } else {
        None
    }
}

/// `message` reports the malformed pair `piece`: in full when it is not one
/// `id:value`, otherwise by naming the number that does not parse.
pub open spec fn describes_fault(piece: Seq<char>, message: Seq<char>) -> bool {
    if count_char(piece, ':') != 1 {
        message == "Invalid format for pair: "@ + piece
    } else {
        let k = choose|k: int| 0 <= k < piece.len() && piece[k] == ':';
        if number_of(trimmed(piece.subrange(0, k))) is None {
            "Invalid ID: "@.is_prefix_of(message)
        } else {
            "Invalid value: "@.is_prefix_of(message)
        }
    }
}

/// Adds the pair written by `piece` to what was read so far; a malformed
/// pair is kept as the error.
pub open spec fn with_pair(read: Result<Map<u64, u64>, Seq<char>>, piece: Seq<char>) -> Result<
    Map<u64, u64>,
    Seq<char>,
> {
    match read {
        Ok(m) => match pair_of(piece) {
            Some((id, value)) => Ok(m.insert(id, value)),
            None => Err(piece),
        },
        Err(first) => Err(first),
    }
}

/// After the first `n` characters of `s`: the pairs read so far, or the
/// first malformed pair, and where the pair being read begins.
pub open spec fn scan(s: Seq<char>, n: nat) -> (Result<Map<u64, u64>, Seq<char>>, nat)
    decreases n,
{
    if n == 0 {
        (Ok(Map::empty()), 0)
    } else {
        let (read, start) = scan(s, (n - 1) as nat);
        if s[n - 1] == ',' {
            (with_pair(read, s.subrange(start as int, n - 1)), n)
        } else {
            (read, start)
        }
    }
}

/// The bucket quantities written by `s` as comma-separated `id:value`
/// pairs, a later pair overriding an earlier one with the same id; or the
/// first malformed pair. An empty text writes no buckets.
pub open spec fn initial_data_of(s: Seq<char>) -> Result<Map<u64, u64>, Seq<char>> {
    if s.len() == 0 {
        Ok(Map::empty())
    } else {
        let (read, start) = scan(s, s.len());
        with_pair(read, s.subrange(start as int, s.len() as int))
    }
}

/// Once a pair is malformed, the text is refused for it whatever follows.
proof fn lemma_scan_stays_failed(s: Seq<char>, j: nat, n: nat, piece: Seq<char>)
    requires
        j <= n,
        scan(s, j).0 == Err::<Map<u64, u64>, Seq<char>>(piece),
    ensures
        scan(s, n).0 == Err::<Map<u64, u64>, Seq<char>>(piece),
    decreases n - j,
{
    if n > j {
        lemma_scan_stays_failed(s, j, (n - 1) as nat, piece);
    }
}

/// Relies on std's `str::trim`: the text without leading and trailing
/// Unicode White_Space.
#[verifier::external_body]
fn trim(t: &str) -> (r: &str)
    ensures
        r@ == trimmed(t@),
{
    t.trim()
}

/// Relies on std's `u64::from_str`, which accepts an optional `+` followed
/// by decimal digits only, and refuses anything else and values above
/// `u64::MAX`.
#[verifier::external_body]
fn parse_u64(t: &str) -> (r: Result<u64, ParseIntError>)
    ensures
        match r {
            Ok(v) => number_of(t@) == Some(v),
            Err(_) => number_of(t@) is None,
        },
{
    u64::from_str(t)
}

/// Relies on std's `format!`: the message for a pair that is not `id:value`.
#[verifier::external_body]
fn pair_error(pair: &str) -> (r: String)
    ensures
        r@ == "Invalid format for pair: "@ + pair@,
{
    format!("Invalid format for pair: {}", pair)
}

/// Relies on std's `format!`: the message for a number that does not parse,
/// `prefix` followed by the parse error.
#[verifier::external_body]
fn number_error(prefix: &str, e: &ParseIntError) -> (r: String)
    ensures
        prefix@.is_prefix_of(r@),
{
    format!("{}{}", prefix, e)
}

/// Reads the pair `s[start..end]`.
fn parse_pair(s: &str, start: usize, end: usize) -> (r: Result<(u64, u64), String>)
    requires
        start <= end <= s@.len(),
    ensures
        match pair_of(s@.subrange(start as int, end as int)) {
            Some(p) => r == Ok::<(u64, u64), String>(p),
            None => r matches Err(e) && describes_fault(s@.subrange(start as int, end as int), e@),
        },
{
    let pair = s.substring_char(start, end);
    let len = end - start;
    let mut colons: usize = 0;
    let mut colon: usize = 0;
    let mut j: usize = 0;
    while j < len
        invariant
            pair@.len() == len,
            0 <= j <= len,
            colons <= j,
            colons == count_char(pair@.subrange(0, j as int), ':'),
            colons >= 1 ==> colon < j && pair@[colon as int] == ':',
            forall|q: int|
                0 <= q < j && #[trigger] pair@[q] == ':' ==> colons >= 1 && (colons == 1 ==> q
                    == colon),
        decreases len - j,
    {
        proof {
            assert(pair@.subrange(0, j + 1).drop_last() =~= pair@.subrange(0, j as int));
        }
        if pair.get_char(j) == ':' {
            if colons == 0 {
                colon = j;
            }
            colons = colons + 1;
        }
        j += 1;
    }
    proof {
        assert(pair@.subrange(0, len as int) =~= pair@);
    }
    if colons != 1 {
        return Err(pair_error(pair));
    }
    let id_text = trim(pair.substring_char(0, colon));
    let value_text = trim(pair.substring_char(colon + 1, len));
    let id = match parse_u64(id_text) {
        Ok(v) => v,
        Err(e) => return Err(number_error("Invalid ID: ", &e)),
    };
    let value = match parse_u64(value_text) {
        Ok(v) => v,
        Err(e) => return Err(number_error("Invalid value: ", &e)),
    };
    Ok((id, value))
}

/// Reads initial bucket quantities written as `id1:value1,id2:value2,...`.
pub fn parse_initial_data(s: &str) -> (r: Result<HashMap<u64, u64>, String>)
    ensures
        match initial_data_of(s@) {
            Ok(m) => r matches Ok(data) && data@ == m,
            Err(piece) => r matches Err(e) && describes_fault(piece, e@),
        },
{
    let mut data: HashMap<u64, u64> = HashMap::new();
    if s.is_empty() {
        return Ok(data);
    }
    let n = s.unicode_len();
    let mut start: usize = 0;
    let mut i: usize = 0;
    while i < n
        invariant
            n == s@.len(),
            0 <= start <= i <= n,
            scan(s@, i as nat) == (Ok::<Map<u64, u64>, Seq<char>>(data@), start as nat),
        decreases n - i,
    {
        if s.get_char(i) == ',' {
            match parse_pair(s, start, i) {
                Ok((id, value)) => {
                    data.insert(id, value);
                },
                Err(e) => {
                    proof {
                        lemma_scan_stays_failed(
                            s@,
                            (i + 1) as nat,
                            n as nat,
                            s@.subrange(start as int, i as int),
                        );
                    }
                    return Err(e);
                },
            }
            start = i + 1;
        }
        i += 1;
    }
    match parse_pair(s, start, n) {
        Ok((id, value)) => {
            data.insert(id, value);
            Ok(data)
        },
        Err(e) => Err(e),
    }
}

} // verus!
