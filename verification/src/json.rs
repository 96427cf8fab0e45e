//! JSON objects of strings, written without any white space.

use crate::text;
use serde::Serializer;
use serde_json::Error as JsonError;
use vstd::prelude::*;

verus! {

/// Why a JSON document could not be written or read.
#[verifier::external_type_specification]
#[verifier::external_body]
pub struct ExJsonError(JsonError);

/// A character inside a JSON string: escaped if it is a quote, a backslash or a control
/// character, and otherwise as it is.
pub open spec fn json_char(c: char) -> Seq<char> {
    if c == '"' {
        seq!['\\', '"']
    } else if c == '\\' {
        seq!['\\', '\\']
    } else if c == '\u{8}' {
        seq!['\\', 'b']
    } else if c == '\u{c}' {
        seq!['\\', 'f']
    } else if c == '\n' {
        seq!['\\', 'n']
    } else if c == '\r' {
        seq!['\\', 'r']
    } else if c == '\t' {
        seq!['\\', 't']
    } else if ' ' > c {
        seq!['\\', 'u', '0', '0', text::digit(c as nat / 16), text::digit(c as nat % 16)]
    } else {
        seq![c]
    }
}

/// The characters of a JSON string, without the quotes around them.
pub open spec fn json_chars(chars: Seq<char>) -> Seq<char>
    decreases chars.len(),
{
    if chars.len() == 0 {
        seq![]
    } else {
        json_chars(chars.drop_last()) + json_char(chars.last())
    }
}

/// A text as a JSON string.
pub open spec fn json_string(chars: Seq<char>) -> Seq<char> {
    seq!['"'] + json_chars(chars) + seq!['"']
}

/// A member of a JSON object, from its name and its value.
pub open spec fn json_member(member: (Seq<char>, Seq<char>)) -> Seq<char> {
    json_string(member.0) + seq![':'] + json_string(member.1)
}

/// A JSON object with these members, in this order.
pub open spec fn json_object(members: Seq<(Seq<char>, Seq<char>)>) -> Seq<char> {
    seq!['{'] + text::joined(
        members.map_values(|member: (Seq<char>, Seq<char>)| json_member(member)),
        seq![','],
    ) + seq!['}']
}

/// The names and values of members.
pub open spec fn member_texts(members: Seq<(&'static str, String)>) -> Seq<(Seq<char>, Seq<char>)> {
    members.map_values(|member: (&'static str, String)| (member.0@, member.1@))
}

/// `Serializer::collect_map` of serde on a `serde_json::Serializer` that writes to a vector: the
/// JSON object with these members, in this order. Neither the names and values, which are
/// strings, nor the writing to a vector can make it fail.
#[verifier::external_body]
pub(crate) fn write_object(members: &Vec<(&'static str, String)>) -> (object: Result<
    Vec<u8>,
    JsonError,
>)
    ensures
        object is Ok,
        object->Ok_0@ == vstd::utf8::encode_utf8(json_object(member_texts(members@))),
{
    let mut bytes = Vec::new();
    let mut serializer = serde_json::Serializer::new(&mut bytes);
    serializer.collect_map(members.iter().map(|(name, value)| (name, value)))?;
    Ok(bytes)
}

/// A character that a JSON string holds as it is.
pub open spec fn is_plain(c: char) -> bool {
    ' ' <= c && c != '"' && c != '\\'
}

/// A text of plain characters is a JSON string once it stands between quotes.
pub proof fn lemma_plain_json(chars: Seq<char>)
    requires
        forall|i: int| 0 <= i < chars.len() ==> is_plain(#[trigger] chars[i]),
    ensures
        json_string(chars) == seq!['"'] + chars + seq!['"'],
{
    lemma_plain_chars(chars);
}

proof fn lemma_plain_chars(chars: Seq<char>)
    requires
        forall|i: int| 0 <= i < chars.len() ==> is_plain(#[trigger] chars[i]),
    ensures
        json_chars(chars) == chars,
    decreases chars.len(),
{
    if chars.len() > 0 {
        lemma_plain_chars(chars.drop_last());
        assert(is_plain(chars[chars.len() - 1]));
        assert(json_chars(chars) =~= chars);
    } else {
        assert(json_chars(chars) =~= chars);
    }
}

/// The names and values of members are plain.
pub open spec fn are_plain(members: Seq<(Seq<char>, Seq<char>)>) -> bool {
    forall|i: int, k: int|
        #![trigger members[i].0[k]]
        #![trigger members[i].1[k]]
        0 <= i < members.len() ==> (0 <= k < members[i].0.len() ==> is_plain(members[i].0[k])) && (0
            <= k < members[i].1.len() ==> is_plain(members[i].1[k]))
}

proof fn lemma_quoted_end(
    before: Seq<char>,
    chars: Seq<char>,
    other_before: Seq<char>,
    other_chars: Seq<char>,
)
    requires
        forall|i: int| 0 <= i < chars.len() ==> is_plain(#[trigger] chars[i]),
        forall|i: int| 0 <= i < other_chars.len() ==> is_plain(#[trigger] other_chars[i]),
        before + json_string(chars) == other_before + json_string(other_chars),
    ensures
        before == other_before,
        chars == other_chars,
{
    lemma_plain_json(chars);
    lemma_plain_json(other_chars);
    let (a, b) = (before + json_string(chars), other_before + json_string(other_chars));
    let (m, n) = (chars.len() as int, other_chars.len() as int);
    assert(a.len() == before.len() + m + 2);
    assert(b.len() == other_before.len() + n + 2);
    assert(a[before.len() as int] == '"');
    assert(b[other_before.len() as int] == '"');
    if m < n {
        assert(b[before.len() as int] == other_chars[n - m - 1]);
    } else if n < m {
        assert(a[other_before.len() as int] == chars[m - n - 1]);
    }
    assert forall|k: int| 0 <= k < m implies chars[k] == other_chars[k] by {
        assert(a[before.len() + 1 + k] == chars[k]);
        assert(b[before.len() + 1 + k] == other_chars[k]);
    }
    assert forall|k: int| 0 <= k < before.len() implies before[k] == other_before[k] by {
        assert(a[k] == before[k]);
        assert(b[k] == other_before[k]);
    }
    assert(chars =~= other_chars);
    assert(before =~= other_before);
}

proof fn lemma_member_end(
    before: Seq<char>,
    member: (Seq<char>, Seq<char>),
    other_before: Seq<char>,
    other: (Seq<char>, Seq<char>),
)
    requires
        are_plain(seq![member]),
        are_plain(seq![other]),
        before + json_member(member) == other_before + json_member(other),
    ensures
        before == other_before,
        member == other,
{
    let (members, others) = (seq![member], seq![other]);
    assert forall|k: int| 0 <= k < member.0.len() implies is_plain(#[trigger] member.0[k]) by {
        assert(is_plain(members[0].0[k]));
    }
    assert forall|k: int| 0 <= k < member.1.len() implies is_plain(#[trigger] member.1[k]) by {
        assert(is_plain(members[0].1[k]));
    }
    assert forall|k: int| 0 <= k < other.0.len() implies is_plain(#[trigger] other.0[k]) by {
        assert(is_plain(others[0].0[k]));
    }
    assert forall|k: int| 0 <= k < other.1.len() implies is_plain(#[trigger] other.1[k]) by {
        assert(is_plain(others[0].1[k]));
    }
    let a = before + json_string(member.0);
    let b = other_before + json_string(other.0);
    assert(before + json_member(member) =~= a.push(':') + json_string(member.1));
    assert(other_before + json_member(other) =~= b.push(':') + json_string(other.1));
    lemma_quoted_end(a.push(':'), member.1, b.push(':'), other.1);
    assert(a.push(':').drop_last() =~= a);
    assert(b.push(':').drop_last() =~= b);
    lemma_quoted_end(before, member.0, other_before, other.0);
}

proof fn lemma_joined_members(
    members: Seq<(Seq<char>, Seq<char>)>,
    others: Seq<(Seq<char>, Seq<char>)>,
)
    requires
        are_plain(members),
        are_plain(others),
        text::joined(
            members.map_values(|member: (Seq<char>, Seq<char>)| json_member(member)),
            seq![','],
        ) == text::joined(
            others.map_values(|member: (Seq<char>, Seq<char>)| json_member(member)),
            seq![','],
        ),
    ensures
        members == others,
    decreases members.len(),
{
    let f = |member: (Seq<char>, Seq<char>)| json_member(member);
    let (a, b) = (members.map_values(f), others.map_values(f));
    let (x, y) = (text::joined(a, seq![',']), text::joined(b, seq![',']));
    lemma_joined_len(members);
    lemma_joined_len(others);
    if members.len() > 0 && others.len() > 0 {
        let (m, n) = (members.drop_last(), others.drop_last());
        assert(a.drop_last() =~= m.map_values(f));
        assert(b.drop_last() =~= n.map_values(f));
        let before = if members.len() == 1 {
            seq![]
        } else {
            text::joined(a.drop_last(), seq![',']).push(',')
        };
        let other_before = if others.len() == 1 {
            seq![]
        } else {
            text::joined(b.drop_last(), seq![',']).push(',')
        };
        assert(x =~= before + json_member(members.last()));
        assert(y =~= other_before + json_member(others.last()));
        assert(are_plain(seq![members.last()])) by {
            assert(seq![members.last()][0] == members[members.len() - 1]);
        }
        assert(are_plain(seq![others.last()])) by {
            assert(seq![others.last()][0] == others[others.len() - 1]);
        }
        lemma_member_end(before, members.last(), other_before, others.last());
        if members.len() > 1 {
            assert(others.len() > 1);
            assert(before.drop_last() =~= text::joined(a.drop_last(), seq![',']));
            assert(other_before.drop_last() =~= text::joined(b.drop_last(), seq![',']));
            assert(are_plain(m)) by {
                assert(forall|i: int| 0 <= i < m.len() ==> m[i] == members[i]);
            }
            assert(are_plain(n)) by {
                assert(forall|i: int| 0 <= i < n.len() ==> n[i] == others[i]);
            }
            lemma_joined_members(m, n);
        } else {
            assert(others.len() == 1);
        }
        assert(members =~= m.push(members.last()));
        assert(others =~= n.push(others.last()));
        assert(m =~= n);
    } else {
        assert(members =~= others);
    }
}

proof fn lemma_joined_len(members: Seq<(Seq<char>, Seq<char>)>)
    ensures
        members.len() > 0 ==> text::joined(
            members.map_values(|member: (Seq<char>, Seq<char>)| json_member(member)),
            seq![','],
        ).len() > 0,
{
}

/// Two JSON objects of plain members are the same text only if they have the same members in the
/// same order.
pub proof fn law_plain_objects_tell_their_members(
    members: Seq<(Seq<char>, Seq<char>)>,
    others: Seq<(Seq<char>, Seq<char>)>,
)
    requires
        are_plain(members),
        are_plain(others),
        json_object(members) == json_object(others),
    ensures
        members == others,
{
    let f = |member: (Seq<char>, Seq<char>)| json_member(member);
    let a = text::joined(members.map_values(f), seq![',']);
    let b = text::joined(others.map_values(f), seq![',']);
    let (x, y) = (json_object(members), json_object(others));
    assert(a =~= x.subrange(1, x.len() - 1));
    assert(b =~= y.subrange(1, y.len() - 1));
    lemma_joined_members(members, others);
}

} // verus!
