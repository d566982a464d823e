use vstd::prelude::*;
use vstd::utf8::*;

verus! {

/// The characters that ASCII bytes stand for.
pub open spec fn ascii_chars(bytes: Seq<u8>) -> Seq<char> {
    Seq::new(bytes.len(), |i: int| bytes[i] as char)
}

/// Every byte is below 128.
pub open spec fn all_ascii(bytes: Seq<u8>) -> bool {
    forall|i: int| 0 <= i < bytes.len() ==> bytes[i] < 128
}

/// ASCII bytes are well-formed UTF-8 and decode byte by byte.
pub proof fn lemma_ascii_bytes_decode(bytes: Seq<u8>)
    requires
        all_ascii(bytes),
    ensures
        valid_utf8(bytes),
        decode_utf8(bytes) == ascii_chars(bytes),
        encode_utf8(ascii_chars(bytes)) == bytes,
{
    let chars = ascii_chars(bytes);
    assert(is_ascii_chars(chars)) by {
        assert forall|i: int| 0 <= i < chars.len() implies '\0' <= #[trigger] chars[i]
            <= '\u{7f}' by {
            assert(bytes[i] < 128);
        }
    }
    is_ascii_chars_encode_utf8(chars);
    assert(encode_utf8(chars) =~= bytes) by {
        assert forall|i: int| 0 <= i < bytes.len() implies encode_utf8(chars)[i] == bytes[i] by {
            assert(chars[i] as u8 == encode_utf8(chars)[i]);
            assert(bytes[i] < 128);
        }
    }
    encode_utf8_valid_utf8(chars);
    encode_utf8_decode_utf8(chars);
}

/// The text that ASCII bytes spell.
pub fn ascii_string(bytes: Vec<u8>) -> (r: String)
    requires
        all_ascii(bytes@),
    ensures
        r@ == ascii_chars(bytes@),
{
    proof {
        lemma_ascii_bytes_decode(bytes@);
    }
    match String::from_utf8(bytes) {
        Ok(s) => s,
        Err(_) => String::new(),
    }
}

/// The digits of a number in base ten, most significant first, as ASCII.
pub open spec fn decimal_bytes(n: nat) -> Seq<u8>
    decreases n,
{
    if n < 10 {
        seq![(48 + n) as u8]
    } else {
        decimal_bytes(n / 10).push((48 + n % 10) as u8)
    }
}

/// A number written in base ten, without sign or leading zeros.
pub open spec fn decimal(n: nat) -> Seq<char> {
    ascii_chars(decimal_bytes(n))
}

/// Decimal digits are ASCII digits.
pub proof fn lemma_decimal_bytes_digits(n: nat)
    ensures
        decimal_bytes(n).len() >= 1,
        forall|i: int| 0 <= i < decimal_bytes(n).len() ==> 48 <= #[trigger] decimal_bytes(n)[i] <= 57,
    decreases n,
{
    if n >= 10 {
        lemma_decimal_bytes_digits(n / 10);
    }
}

/// Writes a number in base ten.
pub fn u64_to_decimal(n: u64) -> (r: String)
    ensures
        r@ == decimal(n as nat),
{
    // Digits from the least significant on, then turned round.
    let mut rev: Vec<u8> = Vec::new();
    let mut m: u64 = n;
    while m >= 10
        invariant
            decimal_bytes(n as nat) == decimal_bytes(m as nat) + rev@.reverse(),
        decreases m,
    {
        let d: u8 = (m % 10) as u8;
        proof {
            let next = rev@.push((48 + d) as u8);
            assert(next.reverse() =~= seq![(48 + d) as u8] + rev@.reverse());
            assert(decimal_bytes(m as nat) == decimal_bytes((m / 10) as nat).push((48 + d) as u8));
            assert(decimal_bytes((m / 10) as nat).push((48 + d) as u8) + rev@.reverse()
                =~= decimal_bytes((m / 10) as nat) + next.reverse());
        }
        rev.push(48 + d);
        m = m / 10;
    }
    proof {
        let next = rev@.push((48 + m) as u8);
        assert(next.reverse() =~= seq![(48 + m) as u8] + rev@.reverse());
        assert(decimal_bytes(n as nat) =~= next.reverse());
    }
    rev.push(48 + m as u8);
    let mut out: Vec<u8> = Vec::new();
    let mut i: usize = rev.len();
    while i > 0
        invariant
            i <= rev@.len(),
            out@.len() == rev@.len() - i,
            forall|j: int| 0 <= j < out@.len() ==> out@[j] == rev@[rev@.len() - 1 - j],
        decreases i,
    {
        i -= 1;
        out.push(rev[i]);
    }
    proof {
        assert(out@ =~= rev@.reverse());
        lemma_decimal_bytes_digits(n as nat);
    }
    ascii_string(out)
}

/// An ASCII digit.
pub open spec fn is_digit(c: char) -> bool {
    '0' <= c && c <= '9'
}

/// Every character is an ASCII digit.
pub open spec fn all_digits(s: Seq<char>) -> bool {
    forall|i: int| 0 <= i < s.len() ==> is_digit(#[trigger] s[i])
}

/// The number that a run of digits spells in base ten.
pub open spec fn digits_value(s: Seq<char>) -> nat
    decreases s.len(),
{
    if s.len() == 0 {
        0
    } else {
        (digits_value(s.drop_last()) * 10 + (s.last() as int - 48)) as nat
    }
}

/// The text without a leading `+`.
pub open spec fn unsigned_body(s: Seq<char>) -> Seq<char> {
    if s.len() > 0 && s[0] == '+' {
        s.drop_first()
    } else {
        s
    }
}

/// The number that a text spells: an optional `+`, then one or more digits
/// and nothing else.
pub open spec fn parse_decimal(s: Seq<char>) -> Option<nat> {
    let body = unsigned_body(s);
    if body.len() > 0 && all_digits(body) {
        Some(digits_value(body))
    } else {
        None
    }
}

/// More digits never spell a smaller number.
pub proof fn lemma_digits_value_prefix(s: Seq<char>, k: int)
    requires
        all_digits(s),
        0 <= k <= s.len(),
    ensures
        digits_value(s.take(k)) <= digits_value(s),
    decreases s.len() - k,
{
    if k < s.len() {
        lemma_digits_value_prefix(s, k + 1);
        assert(s.take(k + 1).drop_last() =~= s.take(k));
        assert(is_digit(s[k]));
        assert(s.take(k + 1).last() == s[k]);
    } else {
        assert(s.take(k) =~= s);
    }
}

/// Reads a number in base ten: `None` where the text spells none, or one
/// that does not fit.
pub fn parse_usize(s: &str) -> (r: Option<usize>)
    ensures
        r == match parse_decimal(s@) {
            Some(n) => if n <= usize::MAX {
                Some(n as usize)
            } else {
                None
            },
            None => None,
        },
{
    let ghost body = unsigned_body(s@);
    if !s.is_ascii() {
        proof {
            let i = choose|i: int| 0 <= i < s@.len() && !('\0' <= #[trigger] s@[i] <= '\u{7f}');
            if s@[0] == '+' {
                assert(i > 0);
                assert(body[i - 1] == s@[i]);
                assert(!is_digit(body[i - 1]));
            } else {
                assert(!is_digit(body[i]));
            }
        }
        return None;
    }
    let bytes = s.as_bytes();
    proof {
        is_ascii_chars_encode_utf8(s@);
    }
    let len: usize = bytes.len();
    let start: usize = if len > 0 && bytes[0] == 43 {
        1
    } else {
        0
    };
    assert(body =~= s@.subrange(start as int, len as int)) by {
        if len > 0 {
            assert(s@[0] as u8 == bytes@[0]);
        }
    }
    if start == len {
        return None;
    }
    let mut v: usize = 0;
    let mut i: usize = start;
    assert(body.take(0) =~= Seq::<char>::empty());
    while i < len
        invariant
            start <= i <= len,
            len == bytes@.len(),
            len == s@.len(),
            body == s@.subrange(start as int, len as int),
            body == unsigned_body(s@),
            forall|j: int| 0 <= j < len ==> s@[j] as u8 == #[trigger] bytes@[j],
            is_ascii_chars(s@),
            all_digits(body.take(i - start)),
            v == digits_value(body.take(i - start)),
        decreases len - i,
    {
        let b: u8 = bytes[i];
        let ghost c = s@[i as int];
        assert(c as u8 == b);
        assert('\0' <= c <= '\u{7f}');
        assert(body[i - start] == c);
        if b < 48 || b > 57 {
            assert(!is_digit(c));
            return None;
        }
        let d: usize = (b - 48) as usize;
        proof {
            assert(is_digit(c));
            assert(body.take(i - start + 1).drop_last() =~= body.take(i - start));
            assert(body.take(i - start + 1).last() == c);
            assert(all_digits(body.take(i - start + 1))) by {
                assert forall|j: int| 0 <= j < i - start + 1 implies is_digit(
                    #[trigger] body.take(i - start + 1)[j],
                ) by {
                    if j < i - start {
                        assert(body.take(i - start)[j] == body.take(i - start + 1)[j]);
                    }
                }
            }
            assert(digits_value(body.take(i - start + 1)) == v * 10 + d);
        }
        if v > (usize::MAX - d) / 10 {
            proof {
                if all_digits(body) {
                    lemma_digits_value_prefix(body, i - start + 1);
                }
            }
            return None;
        }
        v = v * 10 + d;
        i += 1;
    }
    assert(body.take(len - start) =~= body);
    Some(v)
}

/// Writing a number and reading it again gives the number.
pub proof fn lemma_parse_decimal(n: nat)
    ensures
        parse_decimal(decimal(n)) == Some(n),
    decreases n,
{
    lemma_decimal_bytes_digits(n);
    let s = decimal(n);
    assert(s[0] != '+');
    assert(all_digits(s)) by {
        assert forall|i: int| 0 <= i < s.len() implies is_digit(#[trigger] s[i]) by {
            assert(48 <= decimal_bytes(n)[i] <= 57);
        }
    }
    if n < 10 {
        assert(s.drop_last() =~= Seq::<char>::empty());
        assert(digits_value(s.drop_last()) == 0);
    } else {
        lemma_parse_decimal(n / 10);
        lemma_decimal_bytes_digits(n / 10);
        assert(s.drop_last() =~= decimal(n / 10));
        assert(decimal(n / 10)[0] != '+');
    }
}

} // verus!
