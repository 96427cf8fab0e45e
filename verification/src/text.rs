//! Text: the numbers, case folding and splitting that the wire formats need.

use vstd::prelude::*;

verus! {

/// [`String::push`]: the string ends in `c`, and is otherwise as before.
pub assume_specification[ String::push ](s: &mut String, c: char)
    ensures
        final(s)@ == old(s)@.push(c),
;

/// [`str::to_ascii_lowercase`]: a copy in which `A` to `Z` became `a` to `z`, and every other
/// character stayed what it was.
pub assume_specification[ str::to_ascii_lowercase ](s: &str) -> (lower: String)
    ensures
        lower@ == ascii_lowercase(s@),
;

/// `c` in lower case if it is an ASCII letter, and otherwise `c`.
pub open spec fn ascii_lowercase_char(c: char) -> char {
    if 'A' <= c <= 'Z' {
        (c as u32 + 32) as char
    } else {
        c
    }
}

/// `s` with its ASCII letters in lower case.
pub open spec fn ascii_lowercase(s: Seq<char>) -> Seq<char> {
    s.map_values(|c: char| ascii_lowercase_char(c))
}

/// The digit for `d` in a base up to sixteen, in lower case.
pub open spec fn digit(d: nat) -> char {
    if d < 10 {
        ('0' as u32 + d) as char
    } else {
        ('a' as u32 + (d - 10)) as char
    }
}

/// `n` in decimal, without leading zeros.
pub open spec fn decimal(n: nat) -> Seq<char>
    decreases n,
{
    if n < 10 {
        seq![digit(n)]
    } else {
        decimal(n / 10).push(digit(n % 10))
    }
}

/// `n` in lower case hexadecimal, without leading zeros.
pub open spec fn hexadecimal(n: nat) -> Seq<char>
    decreases n,
{
    if n < 16 {
        seq![digit(n)]
    } else {
        hexadecimal(n / 16).push(digit(n % 16))
    }
}

/// The texts one after the other, with `separator` between each two.
pub open spec fn joined(texts: Seq<Seq<char>>, separator: Seq<char>) -> Seq<char>
    decreases texts.len(),
{
    if texts.len() == 0 {
        seq![]
    } else if texts.len() == 1 {
        texts[0]
    } else {
        joined(texts.drop_last(), separator) + separator + texts.last()
    }
}

fn digit_char(d: u8) -> (c: char)
    requires
        d < 16,
    ensures
        c == digit(d as nat),
{
    if d < 10 {
        (48u8 + d) as char
    } else {
        (87u8 + d) as char
    }
}

/// Write `n` in decimal at the end of `out`.
pub fn push_decimal(out: &mut String, n: u64)
    ensures
        final(out)@ == old(out)@ + decimal(n as nat),
    decreases n,
{
    if n >= 10 {
        push_decimal(out, n / 10);
    }
    out.push(digit_char((n % 10) as u8));
    assert(out@ =~= old(out)@ + decimal(n as nat));
}

/// Write `n` in hexadecimal at the end of `out`.
pub fn push_hexadecimal(out: &mut String, n: u16)
    ensures
        final(out)@ == old(out)@ + hexadecimal(n as nat),
    decreases n,
{
    if n >= 16 {
        push_hexadecimal(out, n / 16);
    }
    out.push(digit_char((n % 16) as u8));
    assert(out@ =~= old(out)@ + hexadecimal(n as nat));
}

/// [`str::split_once`] on a character: what stands before and after the first `delimiter`, or
/// `None` where the text does not hold it.
#[verifier::external_body]
pub(crate) fn split_once<'a>(s: &'a str, delimiter: char) -> (parts: Option<(&'a str, &'a str)>)
    ensures
        match parts {
            Some((before, after)) => {
                &&& s@ == before@.push(delimiter) + after@
                &&& !before@.contains(delimiter)
            },
            None => !s@.contains(delimiter),
        },
{
    s.split_once(delimiter)
}

/// Two texts are the same but for the case of their ASCII letters: at each place they hold the
/// same character, or an upper case letter and the lower case letter that is 32 further on.
pub open spec fn same_ignoring_case(a: Seq<char>, b: Seq<char>) -> bool {
    &&& a.len() == b.len()
    &&& forall|i: int|
        0 <= i < a.len() ==> {
            ||| #[trigger] a[i] == b[i]
            ||| 'A' <= a[i] <= 'Z' && b[i] as u32 == a[i] as u32 + 32
            ||| 'A' <= b[i] <= 'Z' && a[i] as u32 == b[i] as u32 + 32
        }
}

/// Two texts are the same in lower case exactly if they are the same but for the case of their
/// ASCII letters.
pub proof fn law_lowercase_folds_case_only(a: Seq<char>, b: Seq<char>)
    ensures
        ascii_lowercase(a) == ascii_lowercase(b) <==> same_ignoring_case(a, b),
{
    let (x, y) = (ascii_lowercase(a), ascii_lowercase(b));
    if x == y {
        assert(a.len() == x.len() && b.len() == y.len());
        assert forall|i: int| 0 <= i < a.len() implies {
            ||| #[trigger] a[i] == b[i]
            ||| 'A' <= a[i] <= 'Z' && b[i] as u32 == a[i] as u32 + 32
            ||| 'A' <= b[i] <= 'Z' && a[i] as u32 == b[i] as u32 + 32
        } by {
            assert(x[i] == ascii_lowercase_char(a[i]) && y[i] == ascii_lowercase_char(b[i]));
        }
    }
    if same_ignoring_case(a, b) {
        assert forall|i: int| 0 <= i < a.len() implies x[i] == y[i] by {
            assert(a[i] == a[i] && b[i] == b[i]);
        }
        assert(x =~= y);
    }
}

/// A text in lower case holds no upper case letter, and is the text itself but for case.
pub proof fn law_lowercase_has_no_upper_case(s: Seq<char>)
    ensures
        same_ignoring_case(ascii_lowercase(s), s),
        forall|i: int|
            0 <= i < ascii_lowercase(s).len() ==> !('A' <= #[trigger] ascii_lowercase(s)[i]
                <= 'Z'),
{
    let lower = ascii_lowercase(s);
    assert forall|i: int| 0 <= i < lower.len() implies {
        ||| #[trigger] lower[i] == s[i]
        ||| 'A' <= s[i] <= 'Z' && lower[i] as u32 == s[i] as u32 + 32
    } by {
        assert(lower[i] == ascii_lowercase_char(s[i]));
    }
}

/// The number that a text of digits is in a base up to sixteen.
pub open spec fn number(digits: Seq<char>, base: nat) -> nat
    decreases digits.len(),
{
    if digits.len() == 0 {
        0
    } else {
        number(digits.drop_last(), base) * base + (if '0' <= digits.last() <= '9' {
            digits.last() as u32 - '0' as u32
        } else {
            digits.last() as u32 - 'a' as u32 + 10
        }) as nat
    }
}

/// A number in decimal reads as that number, is made of the digits from 0 to 9, and has no leading
/// zero unless it is one digit.
pub proof fn law_decimal_is_the_number(n: nat)
    ensures
        number(decimal(n), 10) == n,
        decimal(n).len() > 0,
        forall|i: int| 0 <= i < decimal(n).len() ==> '0' <= #[trigger] decimal(n)[i] <= '9',
        decimal(n).len() > 1 ==> decimal(n)[0] != '0',
    decreases n,
{
    if n < 10 {
        assert(decimal(n).drop_last() =~= Seq::<char>::empty());
        reveal_with_fuel(number, 2);
    } else {
        law_decimal_is_the_number(n / 10);
        assert(decimal(n).drop_last() =~= decimal(n / 10));
        if n / 10 >= 10 {
            law_decimal_is_the_number(n / 10 / 10);
        }
    }
}

/// A number in hexadecimal reads as that number, is made of the digits from 0 to 9 and from a to f,
/// and has no leading zero unless it is one digit.
pub proof fn law_hexadecimal_is_the_number(n: nat)
    ensures
        number(hexadecimal(n), 16) == n,
        hexadecimal(n).len() > 0,
        forall|i: int|
            0 <= i < hexadecimal(n).len() ==> '0' <= #[trigger] hexadecimal(n)[i] <= '9' || 'a'
                <= hexadecimal(n)[i] <= 'f',
        hexadecimal(n).len() > 1 ==> hexadecimal(n)[0] != '0',
    decreases n,
{
    if n < 16 {
        assert(hexadecimal(n).drop_last() =~= Seq::<char>::empty());
        reveal_with_fuel(number, 2);
    } else {
        law_hexadecimal_is_the_number(n / 16);
        assert(hexadecimal(n).drop_last() =~= hexadecimal(n / 16));
        if n / 16 >= 16 {
            law_hexadecimal_is_the_number(n / 16 / 16);
        }
    }
}

/// Texts are joined from the front: the first stands before the separator, and that before the
/// others, joined. One text alone stands as it is, and of no texts comes an empty one.
pub proof fn law_joined_from_the_front(first: Seq<char>, rest: Seq<Seq<char>>, separator: Seq<char>)
    ensures
        joined(seq![first] + rest, separator) == if rest.len() == 0 {
            first
        } else {
            first + separator + joined(rest, separator)
        },
        joined(Seq::empty(), separator) == Seq::<char>::empty(),
    decreases rest.len(),
{
    let all = seq![first] + rest;
    if rest.len() > 0 {
        law_joined_from_the_front(first, rest.drop_last(), separator);
        assert(all.drop_last() =~= seq![first] + rest.drop_last());
        assert(all.last() == rest.last());
        if rest.len() == 1 {
            assert(all.drop_last() =~= seq![first]);
            assert(rest[0] == rest.last());
        }
        assert(joined(all, separator) =~= first + separator + joined(rest, separator));
    } else {
        assert(all =~= seq![first]);
    }
}

} // verus!
