//! Properties of the list operations, stated over the views that their
//! contracts use and proved here.
use crate::list::{
    copy_of, first_index, lemma_first_index, run_from, same_items, without_first, LinkedList,
};
use vstd::prelude::*;

verus! {

/// A duplicate of an `i32` is that same integer.
pub proof fn lemma_i32_copy_is_same(a: Seq<i32>, b: Seq<i32>)
    requires
        copy_of(a, b),
    ensures
        a == b,
{
    assert forall|i: int| 0 <= i < a.len() implies a[i] == b[i] by {
        assert(cloned::<i32>(a[i], b[i]));
    }
    assert(a =~= b);
}

/// The list built from `start .. start + n` has `n` elements.
pub proof fn law_built_length(l: &LinkedList<i32>, start: i32, n: i32)
    requires
        n >= 1,
        start + n - 1 <= i32::MAX,
        l@ == run_from(start as int, n as int),
    ensures
        l@.len() == n,
{
}

/// In the list built from `start .. start + n`, every position `i` below `n`
/// holds `start + i`, and so does any duplicate of that element.
pub proof fn law_built_get(l: &LinkedList<i32>, start: i32, n: i32, i: int, d: i32)
    requires
        n >= 1,
        start + n - 1 <= i32::MAX,
        l@ == run_from(start as int, n as int),
        0 <= i < n,
        cloned::<i32>(l@[i], d),
    ensures
        0 <= i < l@.len(),
        l@[i] == start + i,
        d == start + i,
{
}

/// In the list built from `start .. start + n`, no position below zero or
/// from `n` on is in range.
pub proof fn law_built_get_out_of_range(l: &LinkedList<i32>, start: i32, n: i32, i: int)
    requires
        n >= 1,
        start + n - 1 <= i32::MAX,
        l@ == run_from(start as int, n as int),
        i < 0 || i >= n,
    ensures
        !(0 <= i < l@.len()),
{
}

/// In the list built from `start .. start + n`, the value `start + i` is first
/// found at position `i`.
pub proof fn law_built_find(l: &LinkedList<i32>, start: i32, n: i32, i: int)
    requires
        n >= 1,
        start + n - 1 <= i32::MAX,
        l@ == run_from(start as int, n as int),
        0 <= i < n,
    ensures
        first_index(l@, (start + i) as i32) == Some(i),
{
    let v = (start + i) as i32;
    lemma_first_index(l@, v);
    match first_index(l@, v) {
        Some(k) => {
            assert(l@[k] == start + k);
        },
        None => {
            assert(l@[i] == v);
        },
    }
}

/// In the list built from `start .. start + n`, a value outside that range is
/// never found.
pub proof fn law_built_find_absent(l: &LinkedList<i32>, start: i32, n: i32, v: i32)
    requires
        n >= 1,
        start + n - 1 <= i32::MAX,
        l@ == run_from(start as int, n as int),
        v < start || v > start + n - 1,
    ensures
        first_index(l@, v) is None,
{
    lemma_first_index(l@, v);
    if let Some(k) = first_index(l@, v) {
        assert(l@[k] == start + k);
    }
}

/// Putting `v` at the head of a list of length `n` gives a list of length
/// `n + 1` in which `v` is first found at position zero.
pub proof fn law_insert_then_find(l: &LinkedList<i32>, v: i32, r: &LinkedList<i32>)
    requires
        r@.len() == l@.len() + 1,
        r@[0] == v,
    ensures
        r@.len() == l@.len() + 1,
        first_index(r@, v) == Some(0int),
{
}

/// Deleting from the list built from `start .. start + n` a value that it
/// holds once leaves `n - 1` elements, none of them equal to that value.
pub proof fn law_built_delete_present(
    l: &LinkedList<i32>,
    start: i32,
    n: i32,
    v: i32,
    rest: Seq<i32>,
)
    requires
        n >= 1,
        start + n - 1 <= i32::MAX,
        l@ == run_from(start as int, n as int),
        start <= v <= start + n - 1,
        copy_of(without_first(l@, v), rest),
    ensures
        rest.len() == n - 1,
        first_index(rest, v) is None,
{
    let k = v - start;
    law_built_find(l, start, n, k);
    lemma_i32_copy_is_same(without_first(l@, v), rest);
    assert(rest == l@.remove(k));
    lemma_first_index(rest, v);
    if let Some(j) = first_index(rest, v) {
        if j < k {
            assert(rest[j] == l@[j]);
        } else {
            assert(rest[j] == l@[j + 1]);
        }
    }
}

/// Deleting a value that a list does not hold leaves its elements as they were.
pub proof fn law_delete_absent(l: &LinkedList<i32>, v: i32, rest: Seq<i32>)
    requires
        first_index(l@, v) is None,
        copy_of(without_first(l@, v), rest),
    ensures
        rest == l@,
{
    lemma_i32_copy_is_same(without_first(l@, v), rest);
}

/// In particular, deleting from the list built from `start .. start + n` a
/// value outside that range leaves its `n` elements as they were.
pub proof fn law_built_delete_absent(
    l: &LinkedList<i32>,
    start: i32,
    n: i32,
    v: i32,
    rest: Seq<i32>,
)
    requires
        n >= 1,
        start + n - 1 <= i32::MAX,
        l@ == run_from(start as int, n as int),
        v < start || v > start + n - 1,
        copy_of(without_first(l@, v), rest),
    ensures
        rest.len() == n,
        rest == l@,
{
    law_built_find_absent(l, start, n, v);
    law_delete_absent(l, v, rest);
}

/// A copy made by `clone` has the length of the original and equals it.
pub proof fn law_clone_equals(l: &LinkedList<i32>, c: &LinkedList<i32>)
    requires
        cloned::<i32>(l.data, c.data),
        c.next == l.next,
    ensures
        c@.len() == l@.len(),
        same_items(l@, c@),
{
    l.lemma_unfold();
    c.lemma_unfold();
    assert(l@ =~= c@);
}

/// Deleting the one element of a single-element list leaves nothing.
pub proof fn law_delete_sole_element(l: &LinkedList<i32>)
    requires
        l.next is None,
    ensures
        without_first(l@, l.data).len() == 0,
{
    l.lemma_unfold();
    assert(first_index(l@, l.data) == Some(0int));
}

/// Every list equals itself; lists with the same elements are equal; lists
/// of different lengths are not.
pub proof fn law_equality(a: &LinkedList<i32>, b: &LinkedList<i32>)
    ensures
        same_items(a@, a@),
        a@ == b@ ==> same_items(a@, b@),
        a@.len() != b@.len() ==> !same_items(a@, b@),
{
}

} // verus!
