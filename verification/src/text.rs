//! Equality and order of strings.
use vstd::prelude::*;
use vstd::string::*;
use vstd::utf8::*;

verus! {

/// Equality of string slices, `<str as PartialEq>::eq` of the standard library: two slices are
/// equal exactly when they hold the same characters in the same order.
pub assume_specification[ <str as PartialEq<str>>::eq ](a: &str, b: &str) -> (res: bool)
    ensures
        res == (a@ == b@),
;

/// The bytes agree up to position `k`, and there `a` ends before `b` does, or has the smaller
/// byte.
pub open spec fn is_smaller_at(a: Seq<u8>, b: Seq<u8>, k: int) -> bool {
    &&& 0 <= k <= a.len()
    &&& k < b.len()
    &&& forall|i: int| 0 <= i < k ==> a[i] == b[i]
    &&& k == a.len() || a[k] < b[k]
}

/// The lexicographic order of strings by the bytes of their UTF-8 encoding.
pub open spec fn precedes(a: Seq<char>, b: Seq<char>) -> bool {
    exists|k: int| is_smaller_at(encode_utf8(a), encode_utf8(b), k)
}

/// Each string precedes those after it.
pub open spec fn is_increasing(strings: Seq<Seq<char>>) -> bool {
    forall|i: int, j: int|
        0 <= i < j < strings.len() ==> precedes(#[trigger] strings[i], #[trigger] strings[j])
}

/// Whether the string `a` precedes the string `b`.
pub fn comes_before(a: &str, b: &str) -> (before: bool)
    ensures
        before == precedes(a@, b@),
{
    let left = a.as_bytes();
    let right = b.as_bytes();
    let mut k: usize = 0;
    while k < left.len() && k < right.len() && left[k] == right[k]
        invariant
            k <= left@.len(),
            k <= right@.len(),
            forall|i: int| 0 <= i < k ==> left@[i] == right@[i],
        decreases left@.len() - k,
    {
        k += 1;
    }
    let before = k < right.len() && (k == left.len() || left[k] < right[k]);
    proof {
        if before {
            assert(is_smaller_at(left@, right@, k as int));
        }
        assert forall|i: int| is_smaller_at(left@, right@, i) implies before by {
            assert(i == k);
        }
    }
    before
}

/// No string precedes itself.
pub proof fn lemma_precedes_irreflexive(a: Seq<char>)
    ensures
        !precedes(a, a),
{
}

/// What precedes a string precedes what comes after it.
pub proof fn lemma_precedes_transitive(a: Seq<char>, b: Seq<char>, c: Seq<char>)
    requires
        precedes(a, b),
        precedes(b, c),
    ensures
        precedes(a, c),
{
    let (x, y, z) = (encode_utf8(a), encode_utf8(b), encode_utf8(c));
    let i = choose|k: int| is_smaller_at(x, y, k);
    let j = choose|k: int| is_smaller_at(y, z, k);
    assert(is_smaller_at(
        x,
        z,
        if i < j {
            i
        } else {
            j
        },
    ));
}

/// Of two different strings, one precedes the other.
pub proof fn lemma_precedes_total(a: Seq<char>, b: Seq<char>)
    ensures
        a == b || precedes(a, b) || precedes(b, a),
{
    let (x, y) = (encode_utf8(a), encode_utf8(b));
    lemma_first_difference(x, y, 0);
    encode_utf8_decode_utf8(a);
    encode_utf8_decode_utf8(b);
}

proof fn lemma_first_difference(x: Seq<u8>, y: Seq<u8>, k: int)
    requires
        0 <= k <= x.len(),
        k <= y.len(),
        forall|i: int| 0 <= i < k ==> x[i] == y[i],
    ensures
        x == y || (exists|i: int| is_smaller_at(x, y, i)) || (exists|i: int|
            is_smaller_at(y, x, i)),
    decreases x.len() - k,
{
    if k < x.len() && k < y.len() && x[k] == y[k] {
        lemma_first_difference(x, y, k + 1);
    } else if k == x.len() && k == y.len() {
        assert(x =~= y);
    } else {
        assert(is_smaller_at(x, y, k) || is_smaller_at(y, x, k));
    }
}

/// Inserting a string where it belongs keeps an increasing list increasing, and the string was
/// not in the list.
pub proof fn lemma_insert_increasing(strings: Seq<Seq<char>>, pos: int, new: Seq<char>)
    requires
        is_increasing(strings),
        0 <= pos <= strings.len(),
        forall|i: int| 0 <= i < pos ==> precedes(#[trigger] strings[i], new),
        pos < strings.len() ==> precedes(new, strings[pos]),
    ensures
        is_increasing(strings.insert(pos, new)),
        !strings.contains(new),
{
    assert forall|i: int| pos <= i < strings.len() implies precedes(
        new,
        #[trigger] strings[i],
    ) by {
        if pos < i {
            lemma_precedes_transitive(new, strings[pos], strings[i]);
        }
    }
    lemma_precedes_irreflexive(new);
    let after = strings.insert(pos, new);
    assert forall|i: int, j: int| 0 <= i < j < after.len() implies precedes(
        #[trigger] after[i],
        #[trigger] after[j],
    ) by {
        assert(after[i] == if i < pos {
            strings[i]
        } else if i == pos {
            new
        } else {
            strings[i - 1]
        });
        assert(after[j] == if j < pos {
            strings[j]
        } else if j == pos {
            new
        } else {
            strings[j - 1]
        });
    }
}

/// No string occurs twice in an increasing list.
pub proof fn lemma_increasing_no_duplicates(strings: Seq<Seq<char>>)
    requires
        is_increasing(strings),
    ensures
        strings.no_duplicates(),
{
    assert forall|i: int, j: int|
        0 <= i < strings.len() && 0 <= j < strings.len() && i != j implies strings[i]
        != strings[j] by {
        lemma_precedes_irreflexive(strings[i]);
        if i < j {
            assert(precedes(strings[i], strings[j]));
        } else {
            assert(precedes(strings[j], strings[i]));
        }
    }
}

} // verus!
