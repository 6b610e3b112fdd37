//! Text encodings used on the upload path: lower-case hexadecimal (object
//! identifiers and etags), Base64 (content MD5), decimal numbers, quote
//! trimming, and ASCII and UTF-8 text.

use vstd::prelude::*;
use vstd::utf8::*;

verus! {

/// The hexadecimal digit, lower case, for a value below sixteen.
pub open spec fn hex_digit(d: int) -> char {
    if d < 10 {
        (d + 48) as char
    } else {
        (d + 87) as char
    }
}

/// Lower-case hexadecimal text of a byte string: two digits per byte, high
/// nibble first.
pub open spec fn hex_encode_spec(b: Seq<u8>) -> Seq<char> {
    Seq::new(
        2 * b.len(),
        |i: int|
            if i % 2 == 0 {
                hex_digit(b[i / 2] as int / 16)
            } else {
                hex_digit(b[i / 2] as int % 16)
            },
    )
}

/// The hexadecimal digit, upper case, for a value below sixteen.
pub open spec fn hex_digit_upper(d: int) -> char {
    if d < 10 {
        (d + 48) as char
    } else {
        (d + 55) as char
    }
}

/// Upper-case hexadecimal text of a byte string: two digits per byte, high
/// nibble first.
pub open spec fn hex_encode_upper_spec(b: Seq<u8>) -> Seq<char> {
    Seq::new(
        2 * b.len(),
        |i: int|
            if i % 2 == 0 {
                hex_digit_upper(b[i / 2] as int / 16)
            } else {
                hex_digit_upper(b[i / 2] as int % 16)
            },
    )
}

/// A character that hexadecimal decoding accepts, in either case.
pub open spec fn is_hex_char(c: char) -> bool {
    ||| 48 <= (c as u32) <= 57
    ||| 97 <= (c as u32) <= 102
    ||| 65 <= (c as u32) <= 70
}

/// The value of a hexadecimal digit.
pub open spec fn hex_value(c: char) -> int {
    if 48 <= (c as u32) <= 57 {
        (c as u32) - 48
    } else if 97 <= (c as u32) <= 102 {
        (c as u32) - 87
    } else {
        (c as u32) - 55
    }
}

/// Text that hexadecimal decoding accepts: an even number of hex digits.
pub open spec fn hex_decodable(s: Seq<char>) -> bool {
    &&& s.len() % 2 == 0
    &&& forall|i: int| 0 <= i < s.len() ==> #[trigger] is_hex_char(s[i])
}

/// The bytes that a decodable hexadecimal text stands for.
pub open spec fn hex_decode_spec(s: Seq<char>) -> Seq<u8> {
    Seq::new(s.len() / 2, |i: int| (hex_value(s[2 * i]) * 16 + hex_value(s[2 * i + 1])) as u8)
}

/// `hex::encode`: lower-case hexadecimal text of `data`, two digits per byte.
#[verifier::external_body]
pub(crate) fn hex_encode(data: &[u8]) -> (r: String)
    ensures
        r@ == hex_encode_spec(data@),
{
    hex::encode(data)
}

#[verifier::external_type_specification]
#[verifier::external_body]
pub struct ExFromHexError(hex::FromHexError);

/// `hex::decode` on the bytes of `s`: it succeeds exactly when the text has an
/// even length and holds only hex digits (either case), and then yields one
/// byte per pair of digits.
#[verifier::external_body]
pub(crate) fn hex_decode(s: &str) -> (r: Result<Vec<u8>, hex::FromHexError>)
    ensures
        r is Ok <==> hex_decodable(s@),
        r matches Ok(v) ==> v@ == hex_decode_spec(s@),
{
    hex::decode(s)
}

/// Decoding the hexadecimal text of a byte string gives the byte string back.
pub proof fn lemma_hex_roundtrip(b: Seq<u8>)
    ensures
        hex_decodable(hex_encode_spec(b)),
        hex_decode_spec(hex_encode_spec(b)) == b,
{
    let e = hex_encode_spec(b);
    assert forall|i: int| 0 <= i < e.len() implies #[trigger] is_hex_char(e[i]) by {
        let byte = b[i / 2] as int;
        assert(0 <= byte / 16 < 16 && 0 <= byte % 16 < 16);
    }
    assert(e.len() % 2 == 0);
    let d = hex_decode_spec(e);
    assert forall|i: int| 0 <= i < b.len() implies #[trigger] d[i] == b[i] by {
        assert((2 * i) % 2 == 0);
        assert((2 * i + 1) % 2 == 1);
        assert((2 * i) / 2 == i);
        assert((2 * i + 1) / 2 == i);
        let byte = b[i] as int;
        assert(hex_value(hex_digit(byte / 16)) == byte / 16);
        assert(hex_value(hex_digit(byte % 16)) == byte % 16);
        assert((byte / 16) * 16 + byte % 16 == byte);
    }
    assert(d =~= b);
}


/// The character of the standard Base64 alphabet for a value below 64.
pub open spec fn base64_char(v: int) -> char {
    if v < 26 {
        (65 + v) as char
    } else if v < 52 {
        (71 + v) as char
    } else if v < 62 {
        (v - 4) as char
    } else if v == 62 {
        '+'
    } else {
        '/'
    }
}

/// Standard padded Base64 text (RFC 4648) of a byte string: each group of
/// three bytes gives four characters; a last group of one or two bytes is
/// padded with `=`.
pub open spec fn base64_encode_spec(b: Seq<u8>) -> Seq<char>
    decreases b.len(),
{
    if b.len() == 0 {
        Seq::empty()
    } else {
        let x: int = b[0] as int;
        let y: int = if b.len() > 1 { b[1] as int } else { 0 };
        let z: int = if b.len() > 2 { b[2] as int } else { 0 };
        let c0 = base64_char(x / 4);
        let c1 = base64_char((x % 4) * 16 + y / 16);
        let c2 = base64_char((y % 16) * 4 + z / 64);
        let c3 = base64_char(z % 64);
        if b.len() == 1 {
            seq![c0, c1, '=', '=']
        } else if b.len() == 2 {
            seq![c0, c1, c2, '=']
        } else {
            seq![c0, c1, c2, c3] + base64_encode_spec(b.skip(3))
        }
    }
}

/// `base64::encode`: the standard padded Base64 text of `data`.
#[verifier::external_body]
pub(crate) fn base64_encode(data: &[u8]) -> (r: String)
    ensures
        r@ == base64_encode_spec(data@),
{
    base64::encode(data)
}

/// Decoding the upper-case hexadecimal text of a byte string gives the byte
/// string back too.
pub proof fn lemma_hex_upper_roundtrip(b: Seq<u8>)
    ensures
        hex_decodable(hex_encode_upper_spec(b)),
        hex_decode_spec(hex_encode_upper_spec(b)) == b,
{
    let e = hex_encode_upper_spec(b);
    assert forall|i: int| 0 <= i < e.len() implies #[trigger] is_hex_char(e[i]) by {
        let byte = b[i / 2] as int;
        assert(0 <= byte / 16 < 16 && 0 <= byte % 16 < 16);
    }
    assert(e.len() % 2 == 0);
    let d = hex_decode_spec(e);
    assert forall|i: int| 0 <= i < b.len() implies #[trigger] d[i] == b[i] by {
        assert((2 * i) % 2 == 0);
        assert((2 * i + 1) % 2 == 1);
        assert((2 * i) / 2 == i);
        assert((2 * i + 1) / 2 == i);
        let byte = b[i] as int;
        assert(hex_value(hex_digit_upper(byte / 16)) == byte / 16);
        assert(hex_value(hex_digit_upper(byte % 16)) == byte % 16);
        assert((byte / 16) * 16 + byte % 16 == byte);
    }
    assert(d =~= b);
}

/// No character of the standard Base64 text of a byte string is a double
/// quote.
pub proof fn lemma_base64_unquoted(b: Seq<u8>)
    ensures
        forall|i: int| 0 <= i < base64_encode_spec(b).len() ==> #[trigger] base64_encode_spec(b)[i] != '"',
    decreases b.len(),
{
    if b.len() > 0 {
        let x: int = b[0] as int;
        let y: int = if b.len() > 1 { b[1] as int } else { 0 };
        let z: int = if b.len() > 2 { b[2] as int } else { 0 };
        assert(base64_char(x / 4) != '"');
        assert(base64_char((x % 4) * 16 + y / 16) != '"');
        assert(base64_char((y % 16) * 4 + z / 64) != '"');
        assert(base64_char(z % 64) != '"');
        let e = base64_encode_spec(b);
        if b.len() > 2 {
            lemma_base64_unquoted(b.skip(3));
            let r = base64_encode_spec(b.skip(3));
            let h = seq![base64_char(x / 4), base64_char((x % 4) * 16 + y / 16), base64_char((y % 16) * 4 + z / 64), base64_char(z % 64)];
            assert(e == h + r);
            assert forall|i: int| 0 <= i < e.len() implies #[trigger] e[i] != '"' by {
                if i >= 4 {
                    assert(e[i] == r[i - 4]);
                }
            }
        }
    }
}

/// Text without double quotes is left as it is by quote trimming, and is
/// given back when it comes in quotes.
pub proof fn lemma_trim_quotes_unquoted(h: Seq<char>)
    requires
        forall|i: int| 0 <= i < h.len() ==> #[trigger] h[i] != '"',
    ensures
        trim_quotes_spec(h) == h,
        trim_quotes_spec(seq!['"'] + h + seq!['"']) == h,
{
    let q = seq!['"'] + h + seq!['"'];
    assert(q.drop_first() =~= h + seq!['"']);
    assert(q[0] == '"');
    assert(trim_quotes_start(q) == trim_quotes_start(h + seq!['"']));
    if h.len() == 0 {
        let t = h + seq!['"'];
        assert(t[0] == '"');
        assert(t.drop_first() =~= Seq::<char>::empty());
        assert(trim_quotes_start(t) == trim_quotes_start(Seq::<char>::empty()));
        assert(trim_quotes_start(q) == Seq::<char>::empty());
        assert(trim_quotes_start(h) == h);
    } else {
        assert((h + seq!['"'])[0] == h[0]);
        assert(trim_quotes_start(h + seq!['"']) == h + seq!['"']);
        assert(trim_quotes_start(q) == h + seq!['"']);
        assert((h + seq!['"']).drop_last() =~= h);
        assert(h.last() == h[h.len() - 1]);
        assert(trim_quotes_end(h) == h);
        assert(trim_quotes_start(h) == h);
    }
}

/// A decimal digit character.
pub open spec fn is_decimal_digit(c: char) -> bool {
    48 <= (c as u32) <= 57
}

/// The decimal text of a number, without sign or leading zeros.
pub open spec fn decimal_spec(n: nat) -> Seq<char>
    decreases n,
{
    if n < 10 {
        seq![(n + 48) as char]
    } else {
        decimal_spec(n / 10).push(((n % 10) + 48) as char)
    }
}

/// The value of a string of decimal digits.
pub open spec fn digits_value(s: Seq<char>) -> nat
    decreases s.len(),
{
    if s.len() == 0 {
        0
    } else {
        digits_value(s.drop_last()) * 10 + ((s.last() as u32) - 48) as nat
    }
}

/// Every character of `s` is a decimal digit.
pub open spec fn all_decimal_digits(s: Seq<char>) -> bool {
    forall|i: int| 0 <= i < s.len() ==> #[trigger] is_decimal_digit(s[i])
}

/// What parsing a `u64` from text accepts: an optional `+`, then one or more
/// decimal digits whose value fits in 64 bits.
pub open spec fn parse_u64_spec(s: Seq<char>) -> Option<u64> {
    let d = if s.len() > 0 && s[0] == '+' {
        s.drop_first()
    } else {
        s
    };
    if d.len() > 0 && all_decimal_digits(d) && digits_value(d) <= u64::MAX {
        Some(digits_value(d) as u64)
    } else {
        None
    }
}

/// The single-character text of a decimal digit.
fn digit_str(d: u64) -> (r: &'static str)
    requires
        d < 10,
    ensures
        r@ == seq![(d + 48) as char],
{
    let digits = "0123456789";
    proof {
        reveal_strlit("0123456789");
    }
    let r = digits.substring_ascii(d as usize, d as usize + 1);
    assert(r@ =~= seq![(d + 48) as char]);
    r
}

/// Appends the decimal text of `n` to `s`.
pub fn append_decimal(s: &mut String, n: u64)
    ensures
        final(s)@ == old(s)@ + decimal_spec(n as nat),
    decreases n,
{
    if n >= 10 {
        append_decimal(s, n / 10);
    }
    s.append(digit_str(n % 10));
    proof {
        if n >= 10 {
            assert(decimal_spec(n as nat) == decimal_spec((n / 10) as nat).push(((n % 10) + 48) as char));
        } else {
            assert(decimal_spec(n as nat) == seq![(n + 48) as char]);
        }
    }
}

/// The decimal text of `n`, as `u64::to_string` writes it.
pub fn u64_to_decimal(n: u64) -> (r: String)
    ensures
        r@ == decimal_spec(n as nat),
{
    let mut s = String::new();
    append_decimal(&mut s, n);
    assert(s@ =~= decimal_spec(n as nat));
    s
}

proof fn lemma_digits_value_push(s: Seq<char>, c: char)
    ensures
        digits_value(s.push(c)) == digits_value(s) * 10 + ((c as u32) - 48) as nat,
{
    assert(s.push(c).drop_last() =~= s);
}

/// Parses a `u64` as `str::parse::<u64>` does: an optional `+` followed by
/// decimal digits, rejecting empty digit strings and values above `u64::MAX`.
pub fn parse_u64(s: &str) -> (r: Option<u64>)
    ensures
        r == parse_u64_spec(s@),
{
    let n = s.unicode_len();
    let mut start: usize = 0;
    if n > 0 && s.get_char(0) == '+' {
        start = 1;
    }
    let ghost d = if s@.len() > 0 && s@[0] == '+' {
        s@.drop_first()
    } else {
        s@
    };
    assert(d =~= s@.subrange(start as int, n as int));
    if start == n {
        return None;
    }
    let mut value: u64 = 0;
    let mut i: usize = start;
    while i < n
        invariant
            start <= i <= n,
            n == s@.len(),
            d == s@.subrange(start as int, n as int),
            d == (if s@.len() > 0 && s@[0] == '+' { s@.drop_first() } else { s@ }),
            d.len() > 0,
            all_decimal_digits(s@.subrange(start as int, i as int)),
            value as nat == digits_value(s@.subrange(start as int, i as int)),
        decreases n - i,
    {
        let c = s.get_char(i);
        let ghost prefix = s@.subrange(start as int, i as int);
        assert(s@.subrange(start as int, i + 1) =~= prefix.push(c));
        proof {
            lemma_digits_value_push(prefix, c);
        }
        let cu = c as u32;
        if !(48 <= cu && cu <= 57) {
            assert(d[i - start] == c);
            assert(!is_decimal_digit(d[i - start]));
            return None;
        }
        let digit = (cu - 48) as u64;
        match value.checked_mul(10) {
            None => {
                proof {
                    lemma_digits_value_prefix_bound(d, (i - start + 1) as int);
                    assert(d.subrange(0, (i - start + 1) as int) =~= prefix.push(c));
                }
                return None;
            },
            Some(v10) => match v10.checked_add(digit) {
                None => {
                    proof {
                        lemma_digits_value_prefix_bound(d, (i - start + 1) as int);
                        assert(d.subrange(0, (i - start + 1) as int) =~= prefix.push(c));
                    }
                    return None;
                },
                Some(v) => {
                    value = v;
                },
            },
        }
        i = i + 1;
    }
    assert(s@.subrange(start as int, n as int) =~= d);
    Some(value)
}

/// A longer digit string is worth at least as much as any of its prefixes.
proof fn lemma_digits_value_prefix_bound(d: Seq<char>, k: int)
    requires
        0 <= k <= d.len(),
    ensures
        all_decimal_digits(d) ==> digits_value(d.subrange(0, k)) <= digits_value(d),
    decreases d.len() - k,
{
    if k < d.len() {
        lemma_digits_value_prefix_bound(d, k + 1);
        let p = d.subrange(0, k);
        assert(d.subrange(0, k + 1) =~= p.push(d[k]));
        lemma_digits_value_push(p, d[k]);
        if all_decimal_digits(d) {
            assert(is_decimal_digit(d[k]));
        }
    } else {
        assert(d.subrange(0, k) =~= d);
    }
}


proof fn lemma_decimal_digits(n: nat)
    ensures
        decimal_spec(n).len() > 0,
        all_decimal_digits(decimal_spec(n)),
        digits_value(decimal_spec(n)) == n,
    decreases n,
{
    if n < 10 {
        let s = decimal_spec(n);
        assert(s.drop_last() =~= Seq::<char>::empty());
        assert(((n + 48) as char) as u32 == n + 48);
        assert(digits_value(s.drop_last()) == 0);
        assert(is_decimal_digit(s[0]));
    } else {
        lemma_decimal_digits(n / 10);
        let p = decimal_spec(n / 10);
        let c = ((n % 10) + 48) as char;
        lemma_digits_value_push(p, c);
        assert(c as u32 == (n % 10) + 48);
        assert((n / 10) * 10 + n % 10 == n);
        let s = decimal_spec(n);
        assert(s == p.push(c));
        assert forall|i: int| 0 <= i < s.len() implies #[trigger] is_decimal_digit(s[i]) by {
            if i < p.len() {
                assert(s[i] == p[i]);
                assert(is_decimal_digit(p[i]));
            }
        }
    }
}

/// Parsing the decimal text that this library writes for a number gives the
/// number back.
pub proof fn lemma_decimal_roundtrip(n: u64)
    ensures
        parse_u64_spec(decimal_spec(n as nat)) == Some(n),
{
    lemma_decimal_digits(n as nat);
    let s = decimal_spec(n as nat);
    assert(is_decimal_digit(s[0]));
}

/// Drops every leading `"` character.
pub open spec fn trim_quotes_start(s: Seq<char>) -> Seq<char>
    decreases s.len(),
{
    if s.len() > 0 && s[0] == '"' {
        trim_quotes_start(s.drop_first())
    } else {
        s
    }
}

/// Drops every trailing `"` character.
pub open spec fn trim_quotes_end(s: Seq<char>) -> Seq<char>
    decreases s.len(),
{
    if s.len() > 0 && s.last() == '"' {
        trim_quotes_end(s.drop_last())
    } else {
        s
    }
}

/// `str::trim_matches('"')`: the text without its leading and trailing
/// double quotes.
pub open spec fn trim_quotes_spec(s: Seq<char>) -> Seq<char> {
    trim_quotes_end(trim_quotes_start(s))
}

proof fn lemma_trim_start_skip(s: Seq<char>, k: int)
    requires
        0 <= k <= s.len(),
        forall|j: int| 0 <= j < k ==> s[j] == '"',
    ensures
        trim_quotes_start(s) == trim_quotes_start(s.subrange(k, s.len() as int)),
    decreases k,
{
    if k > 0 {
        assert(s[0] == '"');
        let t = s.drop_first();
        lemma_trim_start_skip(t, k - 1);
        assert(t.subrange(k - 1, t.len() as int) =~= s.subrange(k, s.len() as int));
    } else {
        assert(s.subrange(0, s.len() as int) =~= s);
    }
}

proof fn lemma_trim_end_skip(s: Seq<char>, k: int)
    requires
        0 <= k <= s.len(),
        forall|j: int| k <= j < s.len() ==> s[j] == '"',
    ensures
        trim_quotes_end(s) == trim_quotes_end(s.subrange(0, k)),
    decreases s.len() - k,
{
    if k < s.len() {
        assert(s.last() == '"');
        let t = s.drop_last();
        lemma_trim_end_skip(t, k);
        assert(t.subrange(0, k) =~= s.subrange(0, k));
    } else {
        assert(s.subrange(0, k) =~= s);
    }
}

/// The text of `s` without its leading and trailing double quotes, as
/// `str::trim_matches('"')` gives it.
pub fn trim_quotes(s: &str) -> (r: String)
    ensures
        r@ == trim_quotes_spec(s@),
{
    let n = s.unicode_len();
    let mut a: usize = 0;
    while a < n && s.get_char(a) == '"'
        invariant
            a <= n,
            n == s@.len(),
            forall|j: int| 0 <= j < a ==> s@[j] == '"',
        decreases n - a,
    {
        a = a + 1;
    }
    proof {
        lemma_trim_start_skip(s@, a as int);
    }
    let ghost t = s@.subrange(a as int, n as int);
    assert(a == n || t[0] != '"');
    assert(trim_quotes_start(t) == t);
    let mut b: usize = n;
    while b > a && s.get_char(b - 1) == '"'
        invariant
            a <= b <= n,
            n == s@.len(),
            t == s@.subrange(a as int, n as int),
            forall|j: int| b <= j < n ==> s@[j] == '"',
        decreases b,
    {
        b = b - 1;
    }
    proof {
        lemma_trim_end_skip(t, b - a);
        let u = t.subrange(0, b - a);
        assert(u =~= s@.subrange(a as int, b as int));
        assert(u.len() == 0 || u.last() != '"');
    }
    let r = s.substring_char(a, b);
    String::from_str(r)
}


/// `std::str::from_utf8`: the text that `v` encodes, when `v` is valid UTF-8.
#[verifier::external_body]
pub(crate) fn str_from_utf8(v: &[u8]) -> (r: Option<&str>)
    ensures
        r is Some <==> valid_utf8(v@),
        r matches Some(s) ==> s@ == decode_utf8(v@),
{
    std::str::from_utf8(v).ok()
}

/// The characters of ASCII bytes, one per byte.
pub open spec fn ascii_chars(v: Seq<u8>) -> Seq<char> {
    Seq::new(v.len(), |i: int| v[i] as char)
}

/// Every byte is below 128.
pub open spec fn all_ascii(v: Seq<u8>) -> bool {
    forall|i: int| 0 <= i < v.len() ==> #[trigger] v[i] < 128
}

proof fn lemma_ascii_utf8(v: Seq<u8>)
    requires
        all_ascii(v),
    ensures
        valid_utf8(v),
        decode_utf8(v) == ascii_chars(v),
    decreases v.len(),
{
    if v.len() > 0 {
        let b = v[0];
        assert(b < 128);
        assert((b & 0x7F) as u32 == b as u32) by (bit_vector)
            requires
                b < 128,
        ;
        let rest = v.subrange(1, v.len() as int);
        assert(pop_first_scalar(v) == rest);
        assert forall|i: int| 0 <= i < rest.len() implies #[trigger] rest[i] < 128 by {
            assert(rest[i] == v[i + 1]);
        }
        lemma_ascii_utf8(rest);
        assert(decode_utf8(v) == seq![decode_first_scalar(v) as char] + decode_utf8(rest));
        assert(decode_utf8(v) =~= ascii_chars(v));
    } else {
        assert(decode_utf8(v) =~= ascii_chars(v));
    }
}

/// The text of ASCII bytes, one character per byte.
pub fn ascii_to_string(v: &[u8]) -> (r: String)
    requires
        all_ascii(v@),
    ensures
        r@ == ascii_chars(v@),
{
    proof {
        lemma_ascii_utf8(v@);
    }
    let s = str_from_utf8(v);
    match s {
        Some(s) => String::from_str(s),
        None => {
            assert(false);
            String::new()
        },
    }
}

/// Whether `s` starts with `prefix`.
pub fn has_prefix(s: &str, prefix: &str) -> (r: bool)
    ensures
        r == (prefix@.len() <= s@.len() && s@.subrange(0, prefix@.len() as int) == prefix@),
{
    let n = s.unicode_len();
    let m = prefix.unicode_len();
    if m > n {
        return false;
    }
    let mut i: usize = 0;
    while i < m
        invariant
            i <= m <= n,
            n == s@.len(),
            m == prefix@.len(),
            forall|j: int| 0 <= j < i ==> s@[j] == prefix@[j],
        decreases m - i,
    {
        if s.get_char(i) != prefix.get_char(i) {
            assert(s@.subrange(0, m as int)[i as int] != prefix@[i as int]);
            return false;
        }
        i = i + 1;
    }
    assert(s@.subrange(0, m as int) =~= prefix@);
    true
}

} // verus!
