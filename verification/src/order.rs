//! Stable ordering by a key.

use vstd::prelude::*;

verus! {

/// A value that is ordered by a number.
pub trait Keyed: Copy {
    /// The number by which the value is ordered.
    spec fn key(self) -> int;

    /// Computes the key.
    fn key_of(&self) -> (k: u64)
        ensures
            k == self.key(),
    ;
}

/// `x` put into `s` behind every value whose key is no larger than that of `x`.
pub open spec fn insert_by_key<T: Keyed>(s: Seq<T>, x: T) -> Seq<T>
    decreases s.len(),
{
    if s.len() == 0 {
        seq![x]
    } else if s.last().key() <= x.key() {
        s.push(x)
    } else {
        insert_by_key(s.drop_last(), x).push(s.last())
    }
}

/// The values in ascending order of their keys; values with the same key keep
/// the order in which they came.
pub open spec fn sorted_by_key<T: Keyed>(s: Seq<T>) -> Seq<T>
    decreases s.len(),
{
    if s.len() == 0 {
        seq![]
    } else {
        insert_by_key(sorted_by_key(s.drop_last()), s.last())
    }
}

/// No value has a smaller key than one that stands in front of it.
pub open spec fn ordered_by_key<T: Keyed>(s: Seq<T>) -> bool {
    forall|i: int, j: int| 0 <= i < j < s.len() ==> s[i].key() <= s[j].key()
}

/// Where a value goes: behind the last value whose key is no larger.
pub proof fn lemma_insert_at<T: Keyed>(s: Seq<T>, x: T, j: int)
    requires
        0 <= j <= s.len(),
        forall|k: int| j <= k < s.len() ==> s[k].key() > x.key(),
        j > 0 ==> s[j - 1].key() <= x.key(),
    ensures
        insert_by_key(s, x) == s.insert(j, x),
    decreases s.len() - j,
{
    if s.len() == 0 {
        assert(s.insert(j, x) =~= seq![x]);
    } else if j == s.len() {
        assert(s.insert(j, x) =~= s.push(x));
    } else {
        lemma_insert_at(s.drop_last(), x, j);
        assert(s.insert(j, x) =~= s.drop_last().insert(j, x).push(s.last()));
    }
}

/// Putting a value into ordered values keeps them ordered and adds that value
/// and no other.
pub proof fn lemma_insert_keeps_order<T: Keyed>(s: Seq<T>, x: T)
    requires
        ordered_by_key(s),
    ensures
        ordered_by_key(insert_by_key(s, x)),
        insert_by_key(s, x).len() == s.len() + 1,
        insert_by_key(s, x).to_multiset() == s.to_multiset().insert(x),
    decreases s.len(),
{
    broadcast use vstd::seq_lib::group_to_multiset_ensures;

    if s.len() == 0 {
        assert(s =~= Seq::empty());
        assert(seq![x] =~= Seq::<T>::empty().push(x));
    } else if s.last().key() <= x.key() {
    } else {
        let head = s.drop_last();
        lemma_insert_keeps_order(head, x);
        let t = insert_by_key(head, x);
        assert(s =~= head.push(s.last()));
        assert forall|i: int| 0 <= i < t.len() implies t[i].key() <= s.last().key() by {
            assert(t.to_multiset().count(t[i]) > 0);
            if t[i] != x {
                assert(head.to_multiset().count(t[i]) > 0);
                let k = choose|k: int| 0 <= k < head.len() && head[k] == t[i];
                assert(s[k] == t[i]);
            }
        }
        assert(s.to_multiset() =~= head.to_multiset().insert(s.last()));
        assert(t.push(s.last()).to_multiset() =~= s.to_multiset().insert(x));
    }
}

/// Sorting puts the values in ascending order of their keys and neither adds
/// nor drops a value.
pub proof fn lemma_sorted_by_key<T: Keyed>(s: Seq<T>)
    ensures
        ordered_by_key(sorted_by_key(s)),
        sorted_by_key(s).len() == s.len(),
        sorted_by_key(s).to_multiset() == s.to_multiset(),
    decreases s.len(),
{
    broadcast use vstd::seq_lib::group_to_multiset_ensures;

    if s.len() == 0 {
        assert(s =~= Seq::empty());
    } else {
        lemma_sorted_by_key(s.drop_last());
        lemma_insert_keeps_order(sorted_by_key(s.drop_last()), s.last());
        assert(s =~= s.drop_last().push(s.last()));
    }
}

/// Values that are in order already stay as they are: values with the same
/// key are not moved past each other.
pub proof fn lemma_sorted_of_ordered<T: Keyed>(s: Seq<T>)
    requires
        ordered_by_key(s),
    ensures
        sorted_by_key(s) == s,
    decreases s.len(),
{
    if s.len() > 0 {
        let head = s.drop_last();
        lemma_sorted_of_ordered(head);
        if head.len() > 0 {
            assert(head.last() == s[s.len() - 2]);
        }
        assert(s =~= head.push(s.last()));
    }
}

/// The values whose key is `k`.
pub open spec fn with_key<T: Keyed>(s: Seq<T>, k: int) -> Seq<T> {
    s.filter(|x: T| x.key() == k)
}

proof fn lemma_insert_with_key<T: Keyed>(s: Seq<T>, x: T, k: int)
    ensures
        with_key(insert_by_key(s, x), k) == if x.key() == k {
            with_key(s, k).push(x)
        } else {
            with_key(s, k)
        },
    decreases s.len(),
{
    reveal(Seq::filter);
    let pred = |y: T| y.key() == k;
    if s.len() == 0 {
        assert(seq![x].drop_last() =~= s);
        assert(s.filter(pred) =~= s);
    } else if s.last().key() <= x.key() {
        assert(s.push(x).drop_last() =~= s);
    } else {
        let head = s.drop_last();
        lemma_insert_with_key(head, x, k);
        let u = insert_by_key(head, x);
        assert(u.push(s.last()).drop_last() =~= u);
    }
}

/// Sorting is stable: the values of one key stand in the sorted list in the
/// order in which they came.
pub proof fn lemma_sorted_is_stable<T: Keyed>(s: Seq<T>, k: int)
    ensures
        with_key(sorted_by_key(s), k) == with_key(s, k),
    decreases s.len(),
{
    reveal(Seq::filter);
    if s.len() > 0 {
        lemma_sorted_is_stable(s.drop_last(), k);
        lemma_insert_with_key(sorted_by_key(s.drop_last()), s.last(), k);
    }
}

/// Orders the values by their keys. Values with the same key keep their order.
pub fn sort_by_key<T: Keyed>(items: &Vec<T>) -> (r: Vec<T>)
    ensures
        r@ == sorted_by_key(items@),
{
    let mut out: Vec<T> = Vec::new();
    let mut i: usize = 0;
    while i < items.len()
        invariant
            i <= items.len(),
            out@ == sorted_by_key(items@.subrange(0, i as int)),
            out@.len() == i,
        decreases items.len() - i,
    {
        let x = items[i];
        let key = x.key_of();
        let mut j: usize = out.len();
        while j > 0 && out[j - 1].key_of() > key
            invariant
                j <= out@.len(),
                key == x.key(),
                forall|k: int| j <= k < out@.len() ==> out@[k].key() > x.key(),
            decreases j,
        {
            j = j - 1;
        }
        proof {
            lemma_insert_at(out@, x, j as int);
            assert(items@.subrange(0, i + 1).drop_last() =~= items@.subrange(0, i as int));
            assert(items@.subrange(0, i + 1).last() == x);
        }
        out.insert(j, x);
        i = i + 1;
    }
    assert(items@.subrange(0, items@.len() as int) =~= items@);
    out
}

} // verus!
