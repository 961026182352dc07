use vstd::prelude::*;
use vstd::std_specs::cmp::{PartialOrdIs, PartialOrdSpec};

use crate::list::LinkedList;

verus! {

/// `x <= y`, by `T`'s `partial_cmp`.
pub open spec fn leq<T: PartialOrd>(x: T, y: T) -> bool {
    x.is_le(&y)
}

/// The two-pointer merge of `a` and `b`: the smaller head goes first, and on
/// a tie (`a`'s head `<=` `b`'s head) the head of `a` does; once one side is
/// used up the rest of the other follows in its order.
pub open spec fn merged<T: PartialOrd>(a: Seq<T>, b: Seq<T>) -> Seq<T>
    decreases a.len() + b.len(),
{
    if a.len() == 0 {
        b
    } else if b.len() == 0 {
        a
    } else if leq(a[0], b[0]) {
        seq![a[0]] + merged(a.drop_first(), b)
    } else {
        seq![b[0]] + merged(a, b.drop_first())
    }
}

/// One step of `merged` on the suffixes of `a` and `b` from `i` and `j`.
proof fn lemma_merged_step<T: PartialOrd>(a: Seq<T>, b: Seq<T>, i: int, j: int)
    requires
        0 <= i <= a.len(),
        0 <= j <= b.len(),
    ensures
        i < a.len() && j < b.len() && leq(a[i], b[j]) ==> merged(a.skip(i), b.skip(j))
            == seq![a[i]] + merged(a.skip(i + 1), b.skip(j)),
        i < a.len() && j < b.len() && !leq(a[i], b[j]) ==> merged(a.skip(i), b.skip(j))
            == seq![b[j]] + merged(a.skip(i), b.skip(j + 1)),
        i < a.len() && j == b.len() ==> merged(a.skip(i), b.skip(j)) == seq![a[i]] + merged(
            a.skip(i + 1),
            b.skip(j),
        ),
        i == a.len() && j < b.len() ==> merged(a.skip(i), b.skip(j)) == seq![b[j]] + merged(
            a.skip(i),
            b.skip(j + 1),
        ),
        i == a.len() && j == b.len() ==> merged(a.skip(i), b.skip(j)) == Seq::<T>::empty(),
{
    assert(a.skip(i).len() > 0 ==> a.skip(i).drop_first() =~= a.skip(i + 1));
    assert(b.skip(j).len() > 0 ==> b.skip(j).drop_first() =~= b.skip(j + 1));
    if i < a.len() && j == b.len() {
        assert(merged(a.skip(i + 1), b.skip(j)) == a.skip(i + 1));
        assert(a.skip(i) =~= seq![a[i]] + a.skip(i + 1));
    }
    if i == a.len() && j < b.len() {
        assert(merged(a.skip(i), b.skip(j + 1)) == b.skip(j + 1));
        assert(b.skip(j) =~= seq![b[j]] + b.skip(j + 1));
    }
    if i == a.len() && j == b.len() {
        assert(b.skip(j) =~= Seq::<T>::empty());
    }
}

/// `s` is non-decreasing: each element is `<=` the one after it.
pub open spec fn non_decreasing<T: PartialOrd>(s: Seq<T>) -> bool {
    forall|i: int| 0 <= i && i + 1 < s.len() ==> #[trigger] leq(s[i], s[i + 1])
}

/// Any two values of `T` are comparable by `<=`.
pub open spec fn total_le<T: PartialOrd>() -> bool {
    forall|x: T, y: T| #[trigger] leq(x, y) || leq(y, x)
}

/// `<=` on `i32` is total.
pub proof fn lemma_i32_total_le()
    ensures
        total_le::<i32>(),
{
}

/// The first element of `merged(a, b)`: the smaller head, `a`'s on a tie.
proof fn lemma_merged_first<T: PartialOrd>(a: Seq<T>, b: Seq<T>)
    requires
        a.len() + b.len() > 0,
    ensures
        merged(a, b).len() > 0,
        merged(a, b)[0] == (if a.len() == 0 {
            b[0]
        } else if b.len() == 0 {
            a[0]
        } else if leq(a[0], b[0]) {
            a[0]
        } else {
            b[0]
        }),
{
}

/// Merging keeps every element: the result is a permutation of `a + b`, and
/// so its length is `a.len() + b.len()`.
pub proof fn lemma_merge_permutes<T: PartialOrd>(a: Seq<T>, b: Seq<T>)
    ensures
        merged(a, b).to_multiset() == (a + b).to_multiset(),
        merged(a, b).len() == a.len() + b.len(),
    decreases a.len() + b.len(),
{
    broadcast use vstd::multiset::group_multiset_axioms;
    broadcast use vstd::seq_lib::lemma_multiset_commutative;

    if a.len() == 0 {
        assert(a + b =~= b);
    } else if b.len() == 0 {
        assert(a + b =~= a);
    } else if leq(a[0], b[0]) {
        let rest = a.drop_first();
        lemma_merge_permutes(rest, b);
        assert(a =~= seq![a[0]] + rest);
        assert(merged(a, b).to_multiset() =~= (a + b).to_multiset());
    } else {
        let rest = b.drop_first();
        lemma_merge_permutes(a, rest);
        assert(b =~= seq![b[0]] + rest);
        assert(merged(a, b).to_multiset() =~= (a + b).to_multiset());
    }
}

/// Merging two non-decreasing sequences gives a non-decreasing sequence.
pub proof fn lemma_merge_sorted<T: PartialOrd>(a: Seq<T>, b: Seq<T>)
    requires
        total_le::<T>(),
        non_decreasing(a),
        non_decreasing(b),
    ensures
        non_decreasing(merged(a, b)),
    decreases a.len() + b.len(),
{
    if a.len() == 0 || b.len() == 0 {
    } else if leq(a[0], b[0]) {
        let rest = a.drop_first();
        assert(non_decreasing(rest)) by {
            assert forall|i: int| 0 <= i && i + 1 < rest.len() implies #[trigger] leq(rest[i], rest[i + 1]) by {
                let k = i + 1;
                assert(leq(a[k], a[k + 1]));
            }
        }
        lemma_merge_sorted(rest, b);
        if rest.len() > 0 {
            assert(leq(a[0], a[1]));
            assert(rest[0] == a[1]);
        }
        if rest.len() + b.len() > 0 {
            lemma_merged_first(rest, b);
        }
        let m = merged(a, b);
        let tail = merged(rest, b);
        assert forall|i: int| 0 <= i && i + 1 < m.len() implies #[trigger] leq(m[i], m[i + 1]) by {
            if i > 0 {
                let k = i - 1;
                assert(leq(tail[k], tail[k + 1]));
                assert(m[i] == tail[k]);
                assert(m[i + 1] == tail[k + 1]);
            } else {
                assert(m[1] == tail[0]);
            }
        }
    } else {
        let rest = b.drop_first();
        assert(non_decreasing(rest)) by {
            assert forall|i: int| 0 <= i && i + 1 < rest.len() implies #[trigger] leq(rest[i], rest[i + 1]) by {
                let k = i + 1;
                assert(leq(b[k], b[k + 1]));
            }
        }
        lemma_merge_sorted(a, rest);
        if rest.len() > 0 {
            assert(leq(b[0], b[1]));
            assert(rest[0] == b[1]);
        }
        assert(leq(b[0], a[0]));
        lemma_merged_first(a, rest);
        let m = merged(a, b);
        let tail = merged(a, rest);
        assert forall|i: int| 0 <= i && i + 1 < m.len() implies #[trigger] leq(m[i], m[i + 1]) by {
            if i > 0 {
                let k = i - 1;
                assert(leq(tail[k], tail[k + 1]));
                assert(m[i] == tail[k]);
                assert(m[i + 1] == tail[k + 1]);
            } else {
                assert(m[1] == tail[0]);
            }
        }
    }
}

/// On a tie between the two heads (`a`'s head `<=` `b`'s head, in particular
/// when they are equal) the head of `a` comes out first, before `b`'s.
pub proof fn lemma_merge_prefers_first<T: PartialOrd>(a: Seq<T>, b: Seq<T>)
    requires
        a.len() > 0,
        b.len() > 0,
        leq(a[0], b[0]),
    ensures
        merged(a, b) == seq![a[0]] + merged(a.drop_first(), b),
{
}

/// Merging with an empty sequence gives the other sequence unchanged.
pub proof fn lemma_merge_empty<T: PartialOrd>(a: Seq<T>, b: Seq<T>)
    ensures
        a.len() == 0 ==> merged(a, b) == b,
        b.len() == 0 ==> merged(a, b) == a,
{
}

impl<T: PartialOrd + Copy> LinkedList<T> {
    /// A new list holding every element of `list_a` and `list_b`, merged by
    /// `merged`: sorted when both inputs are sorted, with `list_a`'s element
    /// first on each tie.
    pub fn merge(list_a: LinkedList<T>, list_b: LinkedList<T>) -> (r: Self)
        requires
            T::obeys_partial_cmp_spec(),
            list_a.wf(),
            list_b.wf(),
            list_a@.len() + list_b@.len() <= u32::MAX,
        ensures
            r.wf(),
            r@ == merged(list_a@, list_b@),
    {
        let mut merged_list = LinkedList::new();
        let vec_a = list_a.collect_values();
        let vec_b = list_b.collect_values();
        let ghost a = vec_a@;
        let ghost b = vec_b@;
        let mut i: usize = 0;
        let mut j: usize = 0;
        proof {
            assert(a.skip(0) =~= a);
            assert(b.skip(0) =~= b);
        }
        while i < vec_a.len() || j < vec_b.len()
            invariant
                T::obeys_partial_cmp_spec(),
                a == vec_a@,
                b == vec_b@,
                a.len() + b.len() <= u32::MAX,
                i <= a.len(),
                j <= b.len(),
                merged_list.wf(),
                merged_list@.len() == i + j,
                merged_list@ + merged(a.skip(i as int), b.skip(j as int)) == merged(a, b),
            decreases a.len() + b.len() - i - j,
        {
            proof {
                lemma_merged_step(a, b, i as int, j as int);
            }
            let ghost before = merged_list@;
            if j >= vec_b.len() || (i < vec_a.len() && vec_a[i] <= vec_b[j]) {
                merged_list.add(vec_a[i]);
                proof {
                    assert(merged_list@ == before.push(a[i as int]));
                    assert(before + (seq![a[i as int]] + merged(a.skip(i + 1), b.skip(j as int)))
                        =~= merged_list@ + merged(a.skip(i + 1), b.skip(j as int)));
                }
                i = i + 1;
            } else {
                merged_list.add(vec_b[j]);
                proof {
                    assert(before + (seq![b[j as int]] + merged(a.skip(i as int), b.skip(j + 1)))
                        =~= merged_list@ + merged(a.skip(i as int), b.skip(j + 1)));
                }
                j = j + 1;
            }
        }
        proof {
            lemma_merged_step(a, b, i as int, j as int);
            assert(merged_list@ =~= merged_list@ + Seq::<T>::empty());
        }
        merged_list
    }
}

} // verus!
