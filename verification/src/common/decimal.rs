//! Decimal text of integers: the digit strings that bencode and the
//! discovery records use, and the parsers that read them back.

use vstd::prelude::*;

verus! {

/// `b` is an ASCII decimal digit.
pub open spec fn is_digit(b: u8) -> bool {
    48 <= b <= 57
}

/// Every byte of `s` is a decimal digit.
pub open spec fn all_digits(s: Seq<u8>) -> bool {
    forall|i: int| 0 <= i < s.len() ==> is_digit(#[trigger] s[i])
}

/// The decimal digits of `n`, most significant first, without leading zeros.
pub open spec fn nat_digits(n: nat) -> Seq<u8>
    decreases n,
{
    if n < 10 {
        seq![(n + 48) as u8]
    } else {
        nat_digits(n / 10).push((n % 10 + 48) as u8)
    }
}

/// The decimal text of a signed integer: a minus sign before the digits of a negative value.
pub open spec fn int_digits(n: int) -> Seq<u8> {
    if n < 0 {
        seq![45u8] + nat_digits((-n) as nat)
    } else {
        nat_digits(n as nat)
    }
}

/// The value of a string of decimal digits.
pub open spec fn digits_value(s: Seq<u8>) -> nat
    decreases s.len(),
{
    if s.len() == 0 {
        0
    } else {
        digits_value(s.drop_last()) * 10 + (s.last() - 48) as nat
    }
}

/// What `str::parse::<u64>`-style parsing of unsigned integers accepts: an
/// optional `+`, then at least one digit. The bound is checked by the caller.
pub open spec fn unsigned_value(s: Seq<u8>) -> Option<nat> {
    let body = if s.len() > 0 && s[0] == 43u8 { s.drop_first() } else { s };
    if body.len() > 0 && all_digits(body) {
        Some(digits_value(body))
    } else {
        None
    }
}

/// What `str::parse::<i64>`-style parsing of signed integers accepts: an
/// optional `+` or `-`, then at least one digit.
pub open spec fn signed_value(s: Seq<u8>) -> Option<int> {
    if s.len() > 0 && s[0] == 45u8 {
        let body = s.drop_first();
        if body.len() > 0 && all_digits(body) {
            Some(-(digits_value(body) as int))
        } else {
            None
        }
    } else {
        match unsigned_value(s) {
            Some(v) => Some(v as int),
            None => None,
        }
    }
}

/// The result of parsing `s` as a `usize`.
pub open spec fn parse_usize_spec(s: Seq<u8>) -> Option<usize> {
    match unsigned_value(s) {
        Some(v) => if v <= usize::MAX { Some(v as usize) } else { None },
        None => None,
    }
}

/// The result of parsing `s` as a `u16`.
pub open spec fn parse_u16_spec(s: Seq<u8>) -> Option<u16> {
    match unsigned_value(s) {
        Some(v) => if v <= u16::MAX { Some(v as u16) } else { None },
        None => None,
    }
}

/// The result of parsing `s` as an `i64`.
pub open spec fn parse_i64_spec(s: Seq<u8>) -> Option<i64> {
    match signed_value(s) {
        Some(v) => if i64::MIN <= v <= i64::MAX { Some(v as i64) } else { None },
        None => None,
    }
}

pub proof fn lemma_nat_digits_shape(n: nat)
    ensures
        nat_digits(n).len() > 0,
        all_digits(nat_digits(n)),
        digits_value(nat_digits(n)) == n,
    decreases n,
{
    if n >= 10 {
        lemma_nat_digits_shape(n / 10);
        let s = nat_digits(n);
        assert(s.drop_last() =~= nat_digits(n / 10));
        assert(n == (n / 10) * 10 + n % 10) by (nonlinear_arith);
        assert(0 <= n % 10 < 10);
        assert(s.last() == (n % 10 + 48) as u8);
        assert((s.last() - 48) as nat == n % 10);
        assert(digits_value(s) == digits_value(s.drop_last()) * 10 + (s.last() - 48) as nat);
    } else {
        let s = nat_digits(n);
        assert(s.drop_last() =~= Seq::<u8>::empty());
        assert(digits_value(s) == digits_value(s.drop_last()) * 10 + (s.last() - 48) as nat);
    }
}

/// Parsing the digits of a natural number gives the number back.
pub proof fn lemma_unsigned_value_of_digits(n: nat)
    ensures
        unsigned_value(nat_digits(n)) == Some(n),
{
    lemma_nat_digits_shape(n);
    assert(is_digit(nat_digits(n)[0]));
}

/// Parsing the text of a signed integer gives the integer back.
pub proof fn lemma_signed_value_of_digits(n: int)
    ensures
        signed_value(int_digits(n)) == Some(n),
        int_digits(n).len() > 0,
        forall|i: int| 0 <= i < int_digits(n).len() ==>
            (is_digit(#[trigger] int_digits(n)[i]) || int_digits(n)[i] == 45u8),
{
    if n < 0 {
        let m = (-n) as nat;
        lemma_nat_digits_shape(m);
        let s = int_digits(n);
        assert(s.drop_first() =~= nat_digits(m));
        assert forall|i: int| 0 <= i < s.len() implies (is_digit(#[trigger] s[i]) || s[i] == 45u8) by {
            if i > 0 {
                assert(s[i] == nat_digits(m)[i - 1]);
            }
        }
    } else {
        lemma_unsigned_value_of_digits(n as nat);
        lemma_nat_digits_shape(n as nat);
        assert(is_digit(nat_digits(n as nat)[0]));
    }
}

proof fn lemma_digits_value_prefix_le(s: Seq<u8>, i: int)
    requires
        all_digits(s),
        0 <= i <= s.len(),
    ensures
        digits_value(s.take(i)) <= digits_value(s),
    decreases s.len() - i,
{
    if i < s.len() {
        lemma_digits_value_prefix_le(s, i + 1);
        let t = s.take(i + 1);
        assert(t.drop_last() =~= s.take(i));
        assert(is_digit(s[i]));
    } else {
        assert(s.take(i) =~= s);
    }
}

proof fn lemma_digits_value_step(s: Seq<u8>, i: int)
    requires
        0 <= i < s.len(),
    ensures
        digits_value(s.take(i + 1)) == digits_value(s.take(i)) * 10 + (s[i] - 48) as nat,
{
    assert(s.take(i + 1).drop_last() =~= s.take(i));
}

/// Reads the decimal digits of `s[start..end]`: `Some` of their value when
/// the range is a non-empty run of digits whose value is at most `bound`.
fn read_digits(s: &[u8], start: usize, end: usize, bound: u64) -> (r: Option<u64>)
    requires
        start <= end <= s@.len(),
    ensures
        ({
            let body = s@.subrange(start as int, end as int);
            match r {
                Some(v) => body.len() > 0 && all_digits(body) && v == digits_value(body) && v <= bound,
                None => !(body.len() > 0 && all_digits(body) && digits_value(body) <= bound),
            }
        }),
{
    let ghost body = s@.subrange(start as int, end as int);
    if start == end {
        return None;
    }
    let mut acc: u64 = 0;
    let mut i = start;
    while i < end
        invariant
            start <= i <= end <= s@.len(),
            body == s@.subrange(start as int, end as int),
            all_digits(body.take(i - start)),
            acc == digits_value(body.take(i - start)),
            acc <= bound,
        decreases end - i,
    {
        let b = s[i];
        proof {
            lemma_digits_value_step(body, i - start);
        }
        if b < 48 || b > 57 {
            return None;
        }
        let d = (b - 48) as u64;
        if d > bound || acc > (bound - d) / 10 {
            proof {
                assert(all_digits(body.take(i - start + 1)));
                assert(acc * 10 + d > bound) by (nonlinear_arith)
                    requires d > bound || acc > (bound - d) / 10, d <= 9;
                if all_digits(body) {
                    lemma_digits_value_prefix_le(body, i - start + 1);
                }
            }
            return None;
        }
        proof {
            assert(acc * 10 + d <= bound) by (nonlinear_arith)
                requires acc <= (bound - d) / 10, d <= bound;
        }
        acc = acc * 10 + d;
        i = i + 1;
        assert(all_digits(body.take(i - start)));
    }
    assert(body.take(end - start) =~= body);
    Some(acc)
}


/// Parses `s[start..end]` as a `usize`, as `str::parse::<usize>` does on that text.
pub fn parse_usize(s: &[u8], start: usize, end: usize) -> (r: Option<usize>)
    requires
        start <= end <= s@.len(),
    ensures
        r == parse_usize_spec(s@.subrange(start as int, end as int)),
{
    let ghost whole = s@.subrange(start as int, end as int);
    let mut b = start;
    if start < end && s[start] == 43u8 {
        b = start + 1;
        assert(whole.drop_first() =~= s@.subrange(b as int, end as int));
    } else {
        assert(whole =~= s@.subrange(b as int, end as int));
    }
    let bound: u64 = usize::MAX as u64;
    match read_digits(s, b, end, bound) {
        Some(v) => Some(v as usize),
        None => None,
    }
}

/// Parses `s[start..end]` as a `u16`, as `str::parse::<u16>` does on that text.
pub fn parse_u16(s: &[u8], start: usize, end: usize) -> (r: Option<u16>)
    requires
        start <= end <= s@.len(),
    ensures
        r == parse_u16_spec(s@.subrange(start as int, end as int)),
{
    let ghost whole = s@.subrange(start as int, end as int);
    let mut b = start;
    if start < end && s[start] == 43u8 {
        b = start + 1;
        assert(whole.drop_first() =~= s@.subrange(b as int, end as int));
    } else {
        assert(whole =~= s@.subrange(b as int, end as int));
    }
    match read_digits(s, b, end, 65535u64) {
        Some(v) => Some(v as u16),
        None => None,
    }
}

/// Parses `s[start..end]` as an `i64`, as `str::parse::<i64>` does on that text.
pub fn parse_i64(s: &[u8], start: usize, end: usize) -> (r: Option<i64>)
    requires
        start <= end <= s@.len(),
    ensures
        r == parse_i64_spec(s@.subrange(start as int, end as int)),
{
    let ghost whole = s@.subrange(start as int, end as int);
    if start < end && s[start] == 45u8 {
        assert(whole.drop_first() =~= s@.subrange(start + 1, end as int));
        match read_digits(s, start + 1, end, 9223372036854775808u64) {
            Some(v) => {
                if v == 9223372036854775808u64 {
                    Some(i64::MIN)
                } else {
                    Some(0i64 - (v as i64))
                }
            },
            None => None,
        }
    } else {
        let mut b = start;
        if start < end && s[start] == 43u8 {
            b = start + 1;
            assert(whole.drop_first() =~= s@.subrange(b as int, end as int));
        } else {
            assert(whole =~= s@.subrange(b as int, end as int));
        }
        match read_digits(s, b, end, 9223372036854775807u64) {
            Some(v) => Some(v as i64),
            None => None,
        }
    }
}

/// The decimal digits of `n` as ASCII bytes.
pub fn u64_digits(n: u64) -> (r: Vec<u8>)
    ensures
        r@ == nat_digits(n as nat),
    decreases n,
{
    if n < 10 {
        let mut v: Vec<u8> = Vec::new();
        v.push((n as u8) + 48);
        assert(v@ =~= nat_digits(n as nat));
        v
    } else {
        let mut v = u64_digits(n / 10);
        v.push(((n % 10) as u8) + 48);
        v
    }
}

/// The decimal text of `n` as ASCII bytes, with a leading `-` when negative.
pub fn i64_digits(n: i64) -> (r: Vec<u8>)
    ensures
        r@ == int_digits(n as int),
{
    if n < 0 {
        let mag: u64 = if n == i64::MIN { 9223372036854775808u64 } else { (0i64 - n) as u64 };
        let digits = u64_digits(mag);
        let mut v: Vec<u8> = Vec::new();
        v.push(45u8);
        let mut i: usize = 0;
        while i < digits.len()
            invariant
                i <= digits@.len(),
                v@ == seq![45u8] + digits@.take(i as int),
            decreases digits.len() - i,
        {
            v.push(digits[i]);
            i = i + 1;
            assert(v@ =~= seq![45u8] + digits@.take(i as int));
        }
        assert(digits@.take(i as int) =~= digits@);
        v
    } else {
        u64_digits(n as u64)
    }
}

/// The decimal digits of `n` as characters.
pub open spec fn decimal_text(n: nat) -> Seq<char> {
    nat_digits(n).map_values(|b: u8| b as char)
}

/// The characters of ASCII bytes, one for each byte.
pub open spec fn ascii_chars(b: Seq<u8>) -> Seq<char> {
    b.map_values(|x: u8| x as char)
}

/// ASCII bytes are the UTF-8 encoding of their characters.
proof fn lemma_ascii_encode(b: Seq<u8>)
    requires
        forall|i: int| 0 <= i < b.len() ==> #[trigger] b[i] < 128,
    ensures
        vstd::utf8::encode_utf8(ascii_chars(b)) == b,
    decreases b.len(),
{
    if b.len() > 0 {
        let c = ascii_chars(b);
        let x = b[0];
        assert(c[0] == x as char);
        assert((x as char) as u32 == x as u32);
        let u = x as u32;
        assert(u < 128 ==> (u & 0x7Fu32) as u8 == u as u8) by (bit_vector);
        assert(c.drop_first() =~= ascii_chars(b.drop_first()));
        lemma_ascii_encode(b.drop_first());
        assert(vstd::utf8::encode_utf8(c) =~= b);
    }
}

/// The `String` of ASCII bytes.
fn ascii_string(b: Vec<u8>) -> (r: String)
    requires
        forall|i: int| 0 <= i < b@.len() ==> #[trigger] b@[i] < 128,
    ensures
        r@ == ascii_chars(b@),
{
    proof {
        lemma_ascii_encode(b@);
        vstd::utf8::encode_utf8_valid_utf8(ascii_chars(b@));
        vstd::utf8::encode_utf8_decode_utf8(ascii_chars(b@));
    }
    crate::torrent::bencode::string_from_utf8(b)
}

/// The decimal digits of `n`, as `u64`'s `Display` writes them.
pub(crate) fn u64_to_string(n: u64) -> (r: String)
    ensures
        r@ == decimal_text(n as nat),
{
    let digits = u64_digits(n);
    proof {
        lemma_nat_digits_shape(n as nat);
        assert forall|i: int| 0 <= i < digits@.len() implies #[trigger] digits@[i] < 128 by {
            assert(is_digit(digits@[i]));
        }
    }
    ascii_string(digits)
}

/// The lowercase hexadecimal digits of `n`, without leading zeros.
pub open spec fn hex_digits(n: nat) -> Seq<char>
    decreases n,
{
    if n < 16 {
        seq![crate::discovery::broadcast::hex_digit(n as int)]
    } else {
        hex_digits(n / 16) + seq![crate::discovery::broadcast::hex_digit((n % 16) as int)]
    }
}

/// The lowercase hexadecimal digits of `n` as ASCII bytes.
fn u64_hex_bytes(n: u64) -> (r: Vec<u8>)
    ensures
        ascii_chars(r@) == hex_digits(n as nat),
        forall|i: int| 0 <= i < r@.len() ==> #[trigger] r@[i] < 128,
    decreases n,
{
    let d: u8 = (n % 16) as u8;
    let c: u8 = if d < 10 { 48 + d } else { 87 + d };
    assert(c as char == crate::discovery::broadcast::hex_digit(d as int));
    if n < 16 {
        let mut v: Vec<u8> = Vec::new();
        v.push(c);
        assert(ascii_chars(v@) =~= hex_digits(n as nat));
        v
    } else {
        let mut v = u64_hex_bytes(n / 16);
        let ghost before = v@;
        v.push(c);
        assert(ascii_chars(v@) =~= ascii_chars(before) + seq![c as char]);
        v
    }
}

/// The lowercase hexadecimal digits of `n`, without leading zeros, as
/// `u64`'s `LowerHex` (`{:x}`) writes them.
pub(crate) fn u64_to_lower_hex(n: u64) -> (r: String)
    ensures
        r@ == hex_digits(n as nat),
{
    ascii_string(u64_hex_bytes(n))
}

} // verus!
