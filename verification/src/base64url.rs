//! Base64 with the URL-safe alphabet and without padding, as JOSE and ACME use it.

use base64::prelude::{Engine, BASE64_URL_SAFE_NO_PAD};
use vstd::prelude::*;

verus! {

/// Why a text is not base64url.
#[verifier::external_type_specification]
#[verifier::external_body]
pub struct ExDecodeError(base64::DecodeError);

/// The symbol that stands for six bits: `A` to `Z`, `a` to `z`, `0` to `9`, `-`, `_`.
pub open spec fn symbol(bits: int) -> char {
    if bits < 26 {
        ('A' as u32 + bits) as char
    } else if bits < 52 {
        ('a' as u32 + (bits - 26)) as char
    } else if bits < 62 {
        ('0' as u32 + (bits - 52)) as char
    } else if bits == 62 {
        '-'
    } else {
        '_'
    }
}

/// `bytes` in base64url: four symbols for three bytes, and two or three symbols for the one or
/// two bytes that are left, with zero bits to fill the last symbol.
pub open spec fn base64url(bytes: Seq<u8>) -> Seq<char>
    decreases bytes.len(),
{
    if bytes.len() == 0 {
        seq![]
    } else if bytes.len() == 1 {
        seq![symbol(bytes[0] as int / 4), symbol(bytes[0] % 4 * 16)]
    } else if bytes.len() == 2 {
        seq![
            symbol(bytes[0] as int / 4),
            symbol(bytes[0] % 4 * 16 + bytes[1] / 16),
            symbol(bytes[1] % 16 * 4),
        ]
    } else {
        seq![
            symbol(bytes[0] as int / 4),
            symbol(bytes[0] % 4 * 16 + bytes[1] / 16),
            symbol(bytes[1] % 16 * 4 + bytes[2] / 64),
            symbol(bytes[2] as int % 64),
        ] + base64url(bytes.skip(3))
    }
}

/// How many symbols `len` bytes take.
pub open spec fn base64url_len(len: nat) -> nat {
    (len / 3 * 4 + (if len % 3 == 0 {
        0
    } else {
        len % 3 + 1
    })) as nat
}

/// Whether the encoding of `len` bytes is a text that can be allocated.
pub open spec fn encodable(len: nat) -> bool {
    base64url_len(len) <= isize::MAX
}

/// A symbol of the URL-safe alphabet.
pub open spec fn is_symbol(c: char) -> bool {
    ||| 'A' <= c <= 'Z'
    ||| 'a' <= c <= 'z'
    ||| '0' <= c <= '9'
    ||| c == '-'
    ||| c == '_'
}

/// The error that `Engine::decode` of [`BASE64_URL_SAFE_NO_PAD`] gives for a text that is not
/// base64url.
pub uninterp spec fn decode_error(text: Seq<char>) -> base64::DecodeError;

/// `Engine::encode` of [`BASE64_URL_SAFE_NO_PAD`]: the base64url encoding of `bytes`.
///
/// It panics where the encoding is longer than any allocation.
#[verifier::external_body]
pub(crate) fn encode(bytes: &[u8]) -> (text: String)
    requires
        encodable(bytes@.len()),
    ensures
        text@ == base64url(bytes@),
{
    BASE64_URL_SAFE_NO_PAD.encode(bytes)
}

/// `Engine::decode` of [`BASE64_URL_SAFE_NO_PAD`]: the bytes that encode to exactly `text`, and an
/// error where none do. Padding, symbols of another alphabet and non-zero bits after the last
/// byte are all refused.
#[verifier::external_body]
pub(crate) fn decode(text: &str) -> (decoded: Result<Vec<u8>, base64::DecodeError>)
    ensures
        match decoded {
            Ok(bytes) => text@ == base64url(bytes@),
            Err(err) => {
                &&& forall|other: Seq<u8>| text@ != #[trigger] base64url(other)
                &&& err == decode_error(text@)
            },
        },
{
    BASE64_URL_SAFE_NO_PAD.decode(text)
}

/// Whether the encoding of `len` bytes is a text that can be allocated
pub fn is_encodable(len: usize) -> (is: bool)
    ensures
        is == encodable(len as nat),
{
    let rest: u128 = if len % 3 == 0 {
        0
    } else {
        (len % 3) as u128 + 1
    };
    len as u128 / 3 * 4 + rest <= isize::MAX as u128
}

proof fn lemma_symbol(a: int, b: int)
    requires
        0 <= a < 64,
        0 <= b < 64,
    ensures
        is_symbol(symbol(a)),
        symbol(a) == symbol(b) ==> a == b,
{
}

/// The encoding of `bytes` has the length [`base64url_len`] and holds symbols only.
pub proof fn law_encoding_is_url_safe(bytes: Seq<u8>)
    ensures
        base64url(bytes).len() == base64url_len(bytes.len()),
        forall|i: int|
            0 <= i < base64url(bytes).len() ==> is_symbol(#[trigger] base64url(bytes)[i]),
    decreases bytes.len(),
{
    if bytes.len() >= 3 {
        law_encoding_is_url_safe(bytes.skip(3));
    }
}

/// Different byte strings have different encodings.
pub proof fn law_encoding_is_injective(a: Seq<u8>, b: Seq<u8>)
    requires
        base64url(a) == base64url(b),
    ensures
        a == b,
    decreases a.len(),
{
    law_encoding_is_url_safe(a);
    law_encoding_is_url_safe(b);
    assert(a.len() == b.len());
    let (s, t) = (base64url(a), base64url(b));
    if a.len() > 0 {
        assert(s[0] == t[0] && s[1] == t[1]);
        lemma_symbol((a[0] / 4) as int, (b[0] / 4) as int);
        if a.len() == 1 {
            lemma_symbol(a[0] % 4 * 16, b[0] % 4 * 16);
        } else {
            assert(s[2] == t[2]);
            lemma_symbol(a[0] % 4 * 16 + a[1] / 16, b[0] % 4 * 16 + b[1] / 16);
            if a.len() == 2 {
                lemma_symbol(a[1] % 16 * 4, b[1] % 16 * 4);
            } else {
                assert(s[3] == t[3]);
                lemma_symbol(a[1] % 16 * 4 + a[2] / 64, b[1] % 16 * 4 + b[2] / 64);
                lemma_symbol((a[2] % 64) as int, (b[2] % 64) as int);
                assert(s.skip(4) =~= base64url(a.skip(3)));
                assert(t.skip(4) =~= base64url(b.skip(3)));
                law_encoding_is_injective(a.skip(3), b.skip(3));
                assert(forall|i: int| 3 <= i < a.len() ==> a[i] == a.skip(3)[i - 3]);
                assert(forall|i: int| 3 <= i < b.len() ==> b[i] == b.skip(3)[i - 3]);
            }
        }
    }
    assert(a =~= b);
}

/// Bytes can be encoded exactly if four symbols for every three of them, rounded up, can be
/// allocated; and that is how long the encoding is.
pub proof fn law_encoding_takes_four_symbols_for_three_bytes(bytes: Seq<u8>, len: usize, is: bool)
    requires
        call_ensures(is_encodable, (len,), is),
    ensures
        base64url(bytes).len() == (4 * bytes.len() + 2) / 3,
        is <==> (4 * len + 2) / 3 <= isize::MAX,
        encodable(bytes.len()) <==> base64url(bytes).len() <= isize::MAX,
{
    law_encoding_is_url_safe(bytes);
}

/// The six bits that a symbol stands for.
pub open spec fn six_bits(c: char) -> int {
    if 'A' <= c <= 'Z' {
        c as u32 - 'A' as u32
    } else if 'a' <= c <= 'z' {
        c as u32 - 'a' as u32 + 26
    } else if '0' <= c <= '9' {
        c as u32 - '0' as u32 + 52
    } else if c == '-' {
        62
    } else {
        63
    }
}

proof fn lemma_six_bits(bits: int)
    requires
        0 <= bits < 64,
    ensures
        six_bits(symbol(bits)) == bits,
{
}

proof fn lemma_first_symbols(bytes: Seq<u8>)
    requires
        bytes.len() > 0,
    ensures
        six_bits(base64url(bytes)[0]) == bytes[0] / 4,
        bytes.len() == 1 ==> six_bits(base64url(bytes)[1]) == bytes[0] % 4 * 16,
        bytes.len() >= 2 ==> six_bits(base64url(bytes)[1]) == bytes[0] % 4 * 16 + bytes[1] / 16,
        bytes.len() == 2 ==> six_bits(base64url(bytes)[2]) == bytes[1] % 16 * 4,
        bytes.len() >= 3 ==> six_bits(base64url(bytes)[2]) == bytes[1] % 16 * 4 + bytes[2] / 64,
        bytes.len() >= 3 ==> six_bits(base64url(bytes)[3]) == bytes[2] % 64,
{
    lemma_six_bits(bytes[0] as int / 4);
    if bytes.len() == 1 {
        lemma_six_bits(bytes[0] % 4 * 16);
    } else {
        lemma_six_bits(bytes[0] % 4 * 16 + bytes[1] / 16);
        if bytes.len() == 2 {
            lemma_six_bits(bytes[1] % 16 * 4);
        } else {
            lemma_six_bits(bytes[1] % 16 * 4 + bytes[2] / 64);
            lemma_six_bits(bytes[2] as int % 64);
        }
    }
}

proof fn lemma_later_symbols(bytes: Seq<u8>, at: int)
    requires
        bytes.len() >= 3,
        4 <= at < base64url(bytes).len(),
    ensures
        base64url(bytes)[at] == base64url(bytes.skip(3))[at - 4],
{
    let rest = base64url(bytes.skip(3));
    let first = base64url(bytes).take(4);
    assert(base64url(bytes).len() == 4 + rest.len());
    assert(base64url(bytes) =~= first + rest);
}

/// The byte that two neighbouring symbols hold, by the place of the byte among its three.
pub open spec fn eight_bits(a: char, b: char, place: int) -> int {
    if place == 0 {
        six_bits(a) * 4 + six_bits(b) / 16
    } else if place == 1 {
        six_bits(a) % 16 * 16 + six_bits(b) / 4
    } else {
        six_bits(a) % 4 * 64 + six_bits(b)
    }
}

proof fn lemma_first_bytes(bytes: Seq<u8>, i: int)
    requires
        0 <= i < bytes.len(),
        i < 3,
    ensures
        bytes[i] == eight_bits(base64url(bytes)[i], base64url(bytes)[i + 1], i),
{
    lemma_first_symbols(bytes);
    if i == 0 {
        assert(bytes[0] == bytes[0] / 4 * 4 + bytes[0] % 4);
    } else if i == 1 {
        assert(bytes[1] == bytes[1] / 16 * 16 + bytes[1] % 16);
    } else {
        assert(bytes[2] == bytes[2] / 64 * 64 + bytes[2] % 64);
    }
}

/// Each byte of what was encoded is read back from the two symbols that hold its eight bits: the
/// first byte of each three from six and two bits, the second from four and four, and the third
/// from two and six.
pub proof fn law_symbols_hold_the_bits(bytes: Seq<u8>, i: int)
    requires
        0 <= i < bytes.len(),
    ensures
        i / 3 * 4 + i % 3 + 1 < base64url(bytes).len(),
        bytes[i] == eight_bits(
            base64url(bytes)[i / 3 * 4 + i % 3],
            base64url(bytes)[i / 3 * 4 + i % 3 + 1],
            i % 3,
        ),
    decreases bytes.len(),
{
    law_encoding_is_url_safe(bytes);
    lemma_symbol_fits(bytes.len(), i);
    if i >= 3 {
        let at = i / 3 * 4 + i % 3;
        law_symbols_hold_the_bits(bytes.skip(3), i - 3);
        assert(bytes.skip(3)[i - 3] == bytes[i]);
        assert((i - 3) / 3 == i / 3 - 1 && (i - 3) % 3 == i % 3);
        lemma_later_symbols(bytes, at);
        lemma_later_symbols(bytes, at + 1);
    } else {
        lemma_first_bytes(bytes, i);
    }
}

proof fn lemma_symbol_fits(len: nat, i: int)
    requires
        0 <= i < len,
    ensures
        i / 3 * 4 + i % 3 + 1 < base64url_len(len),
{
}

} // verus!
