//! Byte strings: when two are the same, and when they are the same integer.

use vstd::prelude::*;
use vstd::slice::slice_subrange;

verus! {

/// A big-endian integer without its leading zero bytes.
pub open spec fn trimmed(bytes: Seq<u8>) -> Seq<u8>
    decreases bytes.len(),
{
    if bytes.len() > 0 && bytes[0] == 0 {
        trimmed(bytes.skip(1))
    } else {
        bytes
    }
}

/// The value of a big-endian integer.
pub open spec fn integer(bytes: Seq<u8>) -> nat
    decreases bytes.len(),
{
    if bytes.len() == 0 {
        0
    } else {
        integer(bytes.drop_last()) * 256 + bytes.last() as nat
    }
}

/// Whether two byte strings are the same.
pub fn same_bytes(a: &[u8], b: &[u8]) -> (same: bool)
    ensures
        same == (a@ == b@),
{
    if a.len() != b.len() {
        return false;
    }
    let mut i: usize = 0;
    while i < a.len()
        invariant
            i <= a@.len() == b@.len(),
            forall|k: int| 0 <= k < i ==> a@[k] == b@[k],
        decreases a@.len() - i,
    {
        if a[i] != b[i] {
            assert(a@[i as int] != b@[i as int]);
            return false;
        }
        i = i + 1;
    }
    assert(a@ =~= b@);
    true
}

/// Compare integers that may or may not carry a leading zero byte
pub fn trim_leading_zeros(bytes: &[u8]) -> (rest: &[u8])
    ensures
        rest@ == trimmed(bytes@),
{
    let mut zeros: usize = 0;
    assert(bytes@.skip(0) =~= bytes@);
    while zeros < bytes.len() && bytes[zeros] == 0
        invariant
            zeros <= bytes@.len(),
            trimmed(bytes@) == trimmed(bytes@.skip(zeros as int)),
        decreases bytes@.len() - zeros,
    {
        assert(bytes@.skip(zeros as int).skip(1) =~= bytes@.skip(zeros + 1));
        zeros = zeros + 1;
    }
    let rest = slice_subrange(bytes, zeros, bytes.len());
    assert(rest@ =~= bytes@.skip(zeros as int));
    rest
}

proof fn lemma_trimmed(bytes: Seq<u8>)
    ensures
        integer(trimmed(bytes)) == integer(bytes),
        trimmed(bytes).len() > 0 ==> trimmed(bytes)[0] != 0,
    decreases bytes.len(),
{
    if bytes.len() > 0 && bytes[0] == 0 {
        lemma_trimmed(bytes.skip(1));
        lemma_leading_zero(bytes);
    }
}

proof fn lemma_leading_zero(bytes: Seq<u8>)
    requires
        bytes.len() > 0,
        bytes[0] == 0,
    ensures
        integer(bytes.skip(1)) == integer(bytes),
    decreases bytes.len(),
{
    if bytes.len() > 1 {
        lemma_leading_zero(bytes.drop_last());
        assert(bytes.skip(1).drop_last() =~= bytes.drop_last().skip(1));
    } else {
        assert(bytes.drop_last() =~= Seq::<u8>::empty());
        assert(bytes.skip(1) =~= Seq::<u8>::empty());
    }
}

proof fn lemma_nonzero(bytes: Seq<u8>)
    requires
        bytes.len() > 0,
        bytes[0] != 0,
    ensures
        integer(bytes) > 0,
    decreases bytes.len(),
{
    if bytes.len() > 1 {
        lemma_nonzero(bytes.drop_last());
    }
}

proof fn lemma_integer_injective(a: Seq<u8>, b: Seq<u8>)
    requires
        a.len() > 0 ==> a[0] != 0,
        b.len() > 0 ==> b[0] != 0,
        integer(a) == integer(b),
    ensures
        a == b,
    decreases a.len(),
{
    if a.len() == 0 {
        if b.len() > 0 {
            lemma_nonzero(b);
        }
        assert(a =~= b);
    } else {
        lemma_nonzero(a);
        assert(b.len() > 0);
        assert(integer(a.drop_last()) == integer(b.drop_last()) && a.last() == b.last());
        lemma_integer_injective(a.drop_last(), b.drop_last());
        assert(a =~= a.drop_last().push(a.last()));
        assert(b =~= b.drop_last().push(b.last()));
    }
}

/// Without their leading zeros, two big-endian integers are the same bytes exactly if they have
/// the same value.
pub proof fn law_trimmed_compares_integers(a: Seq<u8>, b: Seq<u8>)
    ensures
        trimmed(a) == trimmed(b) <==> integer(a) == integer(b),
{
    lemma_trimmed(a);
    lemma_trimmed(b);
    if integer(a) == integer(b) {
        lemma_integer_injective(trimmed(a), trimmed(b));
    }
}

/// Bytes are the same exactly if they are equally many and the same at each place.
pub proof fn law_same_bytes(a: &[u8], b: &[u8], same: bool)
    requires
        call_ensures(same_bytes, (a, b), same),
    ensures
        same <==> a@.len() == b@.len() && forall|i: int| 0 <= i < a@.len() ==> a@[i] == b@[i],
{
    if a@.len() == b@.len() && forall|i: int| 0 <= i < a@.len() ==> a@[i] == b@[i] {
        assert(a@ =~= b@);
    }
}

/// Leading zeros are all that is trimmed: what is left is an end of the bytes, before it are only
/// zeros, and it does not start with one.
pub proof fn law_trimming_leaves_all_but_leading_zeros(bytes: &[u8], rest: &[u8])
    requires
        call_ensures(trim_leading_zeros, (bytes,), rest),
    ensures
        rest@.len() <= bytes@.len(),
        rest@ == bytes@.skip(bytes@.len() - rest@.len()),
        forall|i: int| 0 <= i < bytes@.len() - rest@.len() ==> bytes@[i] == 0,
        rest@.len() > 0 ==> rest@[0] != 0,
{
    lemma_trimmed_end(bytes@);
}

proof fn lemma_trimmed_end(bytes: Seq<u8>)
    ensures
        trimmed(bytes).len() <= bytes.len(),
        trimmed(bytes) == bytes.skip(bytes.len() - trimmed(bytes).len()),
        forall|i: int| 0 <= i < bytes.len() - trimmed(bytes).len() ==> bytes[i] == 0,
        trimmed(bytes).len() > 0 ==> trimmed(bytes)[0] != 0,
    decreases bytes.len(),
{
    if bytes.len() > 0 && bytes[0] == 0 {
        let rest = bytes.skip(1);
        lemma_trimmed_end(rest);
        assert(bytes.skip(bytes.len() - trimmed(bytes).len()) =~= rest.skip(
            rest.len() - trimmed(rest).len(),
        ));
        assert forall|i: int| 0 <= i < bytes.len() - trimmed(bytes).len() implies bytes[i]
            == 0 by {
            if i > 0 {
                assert(rest[i - 1] == bytes[i]);
            }
        }
    } else {
        assert(bytes.skip(0) =~= bytes);
    }
}

} // verus!
