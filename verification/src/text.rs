//! Verified text utilities: decimal parsing for the seeder and leecher
//! counters, extraction of the first whitespace-delimited token of the
//! size column, and percent-escaping of search terms for query URLs.

use vstd::prelude::*;
use vstd::string::{StrSliceExecFns, StringSliceAdditionalSpecFns};

verus! {

/// Whitespace as used to delimit the size token.
pub open spec fn is_space(c: char) -> bool {
    c == ' ' || c == '\t' || c == '\n' || c == '\r'
}

/// A decimal digit.
pub open spec fn is_digit(c: char) -> bool {
    48 <= c as u32 <= 57
}

pub open spec fn all_digits(s: Seq<char>) -> bool {
    forall|i: int| 0 <= i < s.len() ==> is_digit(#[trigger] s[i])
}

/// The numeric value of a digit string, most significant digit first.
pub open spec fn digits_val(s: Seq<char>) -> int
    decreases s.len(),
{
    if s.len() == 0 {
        0
    } else {
        digits_val(s.drop_last()) * 10 + (s.last() as u32 - 48)
    }
}

/// What parsing a decimal counter returns: the value of a non-empty,
/// all-digit string whose value fits in a `u32`; `None` otherwise.
pub open spec fn parse_u32_spec(s: Seq<char>) -> Option<u32> {
    if s.len() > 0 && all_digits(s) && digits_val(s) <= u32::MAX {
        Some(digits_val(s) as u32)
    } else {
        None
    }
}

proof fn lemma_digits_val_nonneg(s: Seq<char>)
    requires
        all_digits(s),
    ensures
        digits_val(s) >= 0,
    decreases s.len(),
{
    if s.len() > 0 {
        let pre = s.drop_last();
        assert(forall|i: int| 0 <= i < pre.len() ==> #[trigger] pre[i] == s[i]);
        lemma_digits_val_nonneg(pre);
        assert(is_digit(s[s.len() - 1]));
    }
}

/// Parses a decimal `u32`, rejecting empty strings, non-digit characters
/// and values that do not fit.
pub fn parse_u32(s: &str) -> (r: Option<u32>)
    ensures
        r == parse_u32_spec(s@),
{
    let n = s.unicode_len();
    if n == 0 {
        return None;
    }
    let mut val: u64 = 0;
    let mut over: bool = false;
    let mut i: usize = 0;
    while i < n
        invariant
            i <= n,
            n as nat == s@.len(),
            all_digits(s@.take(i as int)),
            !over ==> val as int == digits_val(s@.take(i as int)) && val <= u32::MAX,
            over ==> digits_val(s@.take(i as int)) > u32::MAX,
        decreases n - i,
    {
        let c = s.get_char(i);
        let code = c as u32;
        if code < 48 || code > 57 {
            proof {
                assert(!is_digit(s@[i as int]));
            }
            return None;
        }
        let d: u64 = (code - 48) as u64;
        proof {
            let stepped = s@.take(i as int + 1);
            assert(stepped.drop_last() =~= s@.take(i as int));
            assert(stepped.last() == s@[i as int]);
            assert(all_digits(stepped));
        }
        if over {
            proof {
                let prev = digits_val(s@.take(i as int));
                assert(digits_val(s@.take(i as int + 1)) == prev * 10 + d);
                assert(prev * 10 >= prev + prev);
            }
        } else {
            let next = val * 10 + d;
            if next > 4294967295u64 {
                over = true;
            } else {
                val = next;
            }
            proof {
                assert(digits_val(s@.take(i as int + 1)) == digits_val(s@.take(i as int)) * 10
                    + d);
            }
        }
        i += 1;
    }
    proof {
        assert(s@.take(n as int) =~= s@);
    }
    if over {
        None
    } else {
        proof {
            lemma_digits_val_nonneg(s@);
        }
        Some(val as u32)
    }
}

/// The number of leading whitespace characters.
pub open spec fn leading_spaces(s: Seq<char>) -> int
    decreases s.len(),
{
    if s.len() == 0 || !is_space(s[0]) {
        0
    } else {
        1 + leading_spaces(s.drop_first())
    }
}

/// The length of the leading run of non-whitespace characters.
pub open spec fn token_len(s: Seq<char>) -> int
    decreases s.len(),
{
    if s.len() == 0 || is_space(s[0]) {
        0
    } else {
        1 + token_len(s.drop_first())
    }
}

/// The first whitespace-delimited token of `s` (empty when `s` is all
/// whitespace or empty).
pub open spec fn first_token_spec(s: Seq<char>) -> Seq<char> {
    let a = leading_spaces(s);
    s.subrange(a, a + token_len(s.skip(a)))
}

proof fn lemma_leading_spaces_is(s: Seq<char>, a: int)
    requires
        0 <= a <= s.len(),
        forall|k: int| 0 <= k < a ==> is_space(#[trigger] s[k]),
        a == s.len() || !is_space(s[a]),
    ensures
        leading_spaces(s) == a,
    decreases s.len(),
{
    if s.len() == 0 {
    } else if !is_space(s[0]) {
        assert(a == 0);
    } else {
        assert(a != 0);
        let rest = s.drop_first();
        assert(forall|k: int| 0 <= k < rest.len() ==> #[trigger] rest[k] == s[k + 1]);
        lemma_leading_spaces_is(rest, a - 1);
    }
}

proof fn lemma_token_len_is(s: Seq<char>, t: int)
    requires
        0 <= t <= s.len(),
        forall|k: int| 0 <= k < t ==> !is_space(#[trigger] s[k]),
        t == s.len() || is_space(s[t]),
    ensures
        token_len(s) == t,
    decreases s.len(),
{
    if s.len() == 0 {
    } else if is_space(s[0]) {
        assert(t == 0);
    } else {
        assert(t != 0);
        let rest = s.drop_first();
        assert(forall|k: int| 0 <= k < rest.len() ==> #[trigger] rest[k] == s[k + 1]);
        lemma_token_len_is(rest, t - 1);
    }
}

fn is_space_char(c: char) -> (b: bool)
    ensures
        b == is_space(c),
{
    c == ' ' || c == '\t' || c == '\n' || c == '\r'
}

/// Extracts the first whitespace-delimited token of `s`.
pub fn first_token(s: &str) -> (r: String)
    ensures
        r@ == first_token_spec(s@),
{
    let n = s.unicode_len();
    let mut a: usize = 0;
    while a < n && is_space_char(s.get_char(a))
        invariant
            a <= n,
            n as nat == s@.len(),
            forall|k: int| 0 <= k < a ==> is_space(#[trigger] s@[k]),
        decreases n - a,
    {
        a += 1;
    }
    let mut b: usize = a;
    while b < n && !is_space_char(s.get_char(b))
        invariant
            a <= b <= n,
            n as nat == s@.len(),
            forall|k: int| a <= k < b ==> !is_space(#[trigger] s@[k]),
        decreases n - b,
    {
        b += 1;
    }
    proof {
        lemma_leading_spaces_is(s@, a as int);
        let suffix = s@.skip(a as int);
        assert(forall|k: int| 0 <= k < suffix.len() ==> #[trigger] suffix[k] == s@[k + a]);
        lemma_token_len_is(suffix, b as int - a as int);
        assert(first_token_spec(s@) == s@.subrange(a as int, b as int));
    }
    let tok = s.substring_char(a, b);
    tok.to_owned()
}

/// A byte kept as-is by percent-escaping: the unreserved characters of a
/// URL (letters, digits, `-`, `.`, `_`, `~`).
pub open spec fn is_unreserved_byte(b: u8) -> bool {
    (48 <= b && b <= 57) || (65 <= b && b <= 90) || (97 <= b && b <= 122) || b == 45 || b == 46
        || b == 95 || b == 126
}

/// The ASCII code of the upper-case hex digit for `n` (meaningful for
/// `n < 16`).
pub open spec fn hex_byte(n: u8) -> u8 {
    if n < 10 {
        (48 + n) as u8
    } else {
        (55 + n) as u8
    }
}

/// What percent-escaping makes of one byte: the byte itself when
/// unreserved, otherwise `%` followed by its two hex digits.
pub open spec fn escape_byte(b: u8) -> Seq<u8> {
    if is_unreserved_byte(b) {
        seq![b]
    } else {
        seq![37u8, hex_byte(b / 16), hex_byte(b % 16)]
    }
}

/// Percent-escaping of a byte sequence, in order.
pub open spec fn escape_bytes(bs: Seq<u8>) -> Seq<u8>
    decreases bs.len(),
{
    if bs.len() == 0 {
        Seq::empty()
    } else {
        escape_bytes(bs.drop_last()) + escape_byte(bs.last())
    }
}

/// A pure-ASCII byte sequence read as characters.
pub open spec fn bytes_as_chars(bs: Seq<u8>) -> Seq<char> {
    bs.map_values(|b: u8| b as char)
}

/// The percent-escaped form of `s`: each byte of its UTF-8 encoding kept
/// when unreserved and written as `%XX` otherwise.
pub open spec fn escaped(s: &str) -> Seq<char> {
    bytes_as_chars(escape_bytes(s.spec_bytes()))
}

/// Relies on String::from_utf8: bytes below 128 are ASCII and valid UTF-8,
/// decoding to exactly one char per byte, each the byte's own code point.
#[verifier::external_body]
fn ascii_string(bytes: Vec<u8>) -> (r: String)
    requires
        forall|i: int| 0 <= i < bytes@.len() ==> bytes@[i] < 128,
    ensures
        r@ == bytes_as_chars(bytes@),
{
    match String::from_utf8(bytes) {
        Ok(s) => s,
        Err(_) => String::new(),
    }
}

fn unreserved_byte(b: u8) -> (r: bool)
    ensures
        r == is_unreserved_byte(b),
{
    (48 <= b && b <= 57) || (65 <= b && b <= 90) || (97 <= b && b <= 122) || b == 45 || b == 46
        || b == 95 || b == 126
}

fn hex_ascii(n: u8) -> (c: u8)
    requires
        n < 16,
    ensures
        c == hex_byte(n),
{
    if n < 10 {
        48 + n
    } else {
        55 + n
    }
}

/// Percent-escapes `s` for embedding in a URL path: unreserved bytes are
/// kept, every other byte of the UTF-8 encoding becomes `%` and two upper-
/// case hex digits.
pub fn escape_terms(s: &str) -> (r: String)
    ensures
        r@ == escaped(s),
{
    let bytes = s.as_bytes_vec();
    let mut out: Vec<u8> = Vec::new();
    let mut i: usize = 0;
    while i < bytes.len()
        invariant
            i <= bytes@.len(),
            bytes@ == s.spec_bytes(),
            out@ == escape_bytes(bytes@.take(i as int)),
            forall|k: int| 0 <= k < out@.len() ==> out@[k] < 128,
        decreases bytes@.len() - i,
    {
        let ghost pre = out@;
        let b = bytes[i];
        if unreserved_byte(b) {
            out.push(b);
            proof {
                assert(out@ =~= pre + escape_byte(b));
            }
        } else {
            out.push(37);
            out.push(hex_ascii(b / 16));
            out.push(hex_ascii(b % 16));
            proof {
                assert(out@ =~= pre + escape_byte(b));
            }
        }
        proof {
            let stepped = bytes@.take(i as int + 1);
            assert(stepped.drop_last() =~= bytes@.take(i as int));
            assert(stepped.last() == bytes@[i as int]);
        }
        i += 1;
    }
    proof {
        assert(bytes@.take(bytes@.len() as int) =~= bytes@);
    }
    ascii_string(out)
}

} // verus!
