use vstd::prelude::*;
use vstd::utf8::*;
use vstd::string::*;

verus! {

/// The ASCII lower-case form of one character: `A`..`Z` move to `a`..`z`,
/// every other character stays.
pub open spec fn ascii_lower_char(c: char) -> char {
    if 'A' <= c && c <= 'Z' {
        ((c as u32 + 32) as u8) as char
    } else {
        c
    }
}

/// The ASCII lower-case form of a text, character by character.
pub open spec fn ascii_lower(s: Seq<char>) -> Seq<char> {
    s.map_values(|c: char| ascii_lower_char(c))
}

/// The error of `String::from_utf8` of std; nothing is said of what it
/// holds.
#[verifier::external_type_specification]
#[verifier::external_body]
pub struct ExFromUtf8Error(std::string::FromUtf8Error);

/// `String::from_utf8` of std succeeds exactly on well-formed UTF-8, and the
/// text it returns is the decoding of the bytes it was given.
pub assume_specification[ String::from_utf8 ](vec: Vec<u8>) -> (r: Result<
    String,
    std::string::FromUtf8Error,
>)
    ensures
        r is Ok <==> valid_utf8(vec@),
        r is Ok ==> r->Ok_0@ == decode_utf8(vec@),
;

/// `str::to_ascii_lowercase` of std maps `A`..`Z` to `a`..`z` and leaves every
/// other character as it is.
pub assume_specification[ str::to_ascii_lowercase ](s: &str) -> (r: String)
    ensures
        r@ == ascii_lower(s@),
;

/// `String::push` of std appends the character to the text.
pub assume_specification[ String::push ](s: &mut String, ch: char)
    ensures
        final(s)@ == old(s)@.push(ch),
;

/// What `String::from_utf8_lossy` of std makes of a byte sequence: its
/// decoding where it is well-formed UTF-8, and else a text in which each
/// ill-formed part is replaced by U+FFFD.
pub uninterp spec fn utf8_lossy(bytes: Seq<u8>) -> Seq<char>;

/// `String::from_utf8_lossy` of std, with its result as an owned text. On
/// well-formed UTF-8 it is the decoding; on other input only the name above
/// says what it is.
#[verifier::external_body]
pub(crate) fn string_from_utf8_lossy(bytes: &[u8]) -> (r: String)
    ensures
        r@ == utf8_lossy(bytes@),
        valid_utf8(bytes@) ==> r@ == decode_utf8(bytes@),
{
    String::from_utf8_lossy(bytes).into_owned()
}

/// The text that a byte sequence is read as where nothing may be refused:
/// its decoding where it is well-formed UTF-8, and else what
/// `String::from_utf8_lossy` makes of it.
pub open spec fn lossy_text(bytes: Seq<u8>) -> Seq<char> {
    if valid_utf8(bytes) {
        decode_utf8(bytes)
    } else {
        utf8_lossy(bytes)
    }
}

/// The characters of a text.
pub fn chars_of(s: &str) -> (r: Vec<char>)
    ensures
        r@ == s@,
{
    let mut out: Vec<char> = Vec::new();
    for c in it: s.chars()
        invariant
            it.seq() == s@,
            out@ == it.seq().take(it.index() as int),
    {
        assert(it.seq().take(it.index() + 1) =~= it.seq().take(it.index() as int).push(c));
        out.push(c);
    }
    assert(s@.take(s@.len() as int) =~= s@);
    out
}

/// Whether two texts are the same, decided on their bytes.
pub fn str_eq(a: &str, b: &str) -> (r: bool)
    ensures
        r == (a@ == b@),
{
    let x = a.as_bytes();
    let y = b.as_bytes();
    proof {
        encode_utf8_decode_utf8(a@);
        encode_utf8_decode_utf8(b@);
    }
    if x.len() != y.len() {
        return false;
    }
    let mut i: usize = 0;
    while i < x.len()
        invariant
            i <= x.len(),
            x.len() == y.len(),
            x@ == encode_utf8(a@),
            y@ == encode_utf8(b@),
            forall|j: int| 0 <= j < i ==> x@[j] == y@[j],
        decreases x.len() - i,
    {
        if x[i] != y[i] {
            return false;
        }
        i += 1;
    }
    assert(x@ =~= y@);
    true
}

/// No byte of the sequence is NUL.
pub open spec fn nul_free(bytes: Seq<u8>) -> bool {
    forall|i: int| 0 <= i < bytes.len() ==> bytes[i] != 0
}

/// No character of the text is NUL.
pub open spec fn no_nul_char(s: Seq<char>) -> bool {
    forall|i: int| 0 <= i < s.len() ==> s[i] != '\0'
}

proof fn lemma_scalar_bytes_nonzero(c: u32)
    by (bit_vector)
    requires
        c != 0,
    ensures
        c <= 0x7F ==> (c & 0x7F) as u8 != 0,
        0xC0 | ((c >> 6) & 0x1F) as u8 != 0,
        0xE0 | ((c >> 12) & 0x0F) as u8 != 0,
        0xF0 | ((c >> 18) & 0x7) as u8 != 0,
        0x80 | (c & 0x3F) as u8 != 0,
        0x80 | ((c >> 6) & 0x3F) as u8 != 0,
        0x80 | ((c >> 12) & 0x3F) as u8 != 0,
{
}

/// The UTF-8 form of a text without NUL characters holds no NUL byte.
pub proof fn lemma_encode_nul_free(s: Seq<char>)
    requires
        no_nul_char(s),
    ensures
        nul_free(encode_utf8(s)),
    decreases s.len(),
{
    if s.len() > 0 {
        let c = s[0] as u32;
        assert(c != 0) by {
            char_is_scalar(s[0]);
            char_u32_cast(s[0], c);
            char_u32_cast('\0', 0u32);
            assert(s[0] != '\0');
        }
        char_is_scalar(s[0]);
        lemma_scalar_bytes_nonzero(c);
        lemma_encode_nul_free(s.drop_first());
        assert(nul_free(encode_scalar(c)));
    }
}

} // verus!
