use crate::total_float::TotalFloat;
use std::cmp::Ordering;
use vstd::multiset::Multiset;
use vstd::prelude::*;

verus! {

broadcast use vstd::seq_lib::group_to_multiset_ensures;

/// Every element is at most every later one, in the total order.
pub open spec fn is_ascending(s: Seq<TotalFloat>) -> bool {
    forall|i: int, j: int| 0 <= i <= j < s.len() ==> s[i].rank() <= s[j].rank()
}

/// `r` holds the elements of `s`, as often as `s` holds them, in ascending order.
pub open spec fn is_sorting_of(r: Seq<TotalFloat>, s: Seq<TotalFloat>) -> bool {
    &&& r.len() == s.len()
    &&& r.to_multiset() == s.to_multiset()
    &&& is_ascending(r)
}

/// The two sequences agree position by position under the total order's equality.
pub open spec fn equal_elementwise(a: Seq<TotalFloat>, b: Seq<TotalFloat>) -> bool {
    &&& a.len() == b.len()
    &&& forall|i: int| 0 <= i < a.len() ==> (#[trigger] a[i]).equals(b[i])
}

/// The merge of `a` and `b`: repeatedly take the smaller head, the head of `a`
/// when the two are equal; once one side is empty, the rest of the other.
pub open spec fn merged(a: Seq<TotalFloat>, b: Seq<TotalFloat>) -> Seq<TotalFloat>
    decreases a.len() + b.len(),
{
    if a.len() == 0 {
        b
    } else if b.len() == 0 {
        a
    } else if a[0].rank() > b[0].rank() {
        seq![b[0]] + merged(a, b.drop_first())
    } else {
        seq![a[0]] + merged(a.drop_first(), b)
    }
}

/// The merge holds the elements of both inputs, as often as they hold them.
pub proof fn lemma_merged_multiset(a: Seq<TotalFloat>, b: Seq<TotalFloat>)
    ensures
        merged(a, b).len() == a.len() + b.len(),
        merged(a, b).to_multiset() == a.to_multiset().add(b.to_multiset()),
    decreases a.len() + b.len(),
{
    broadcast use vstd::seq_lib::lemma_multiset_commutative;

    if a.len() == 0 {
        assert(a.to_multiset() =~= Multiset::empty());
        assert(b.to_multiset() =~= a.to_multiset().add(b.to_multiset()));
    } else if b.len() == 0 {
        assert(b.to_multiset() =~= Multiset::empty());
        assert(a.to_multiset() =~= a.to_multiset().add(b.to_multiset()));
    } else if a[0].rank() > b[0].rank() {
        lemma_merged_multiset(a, b.drop_first());
        assert(b =~= seq![b[0]] + b.drop_first());
        assert(merged(a, b).to_multiset() =~= a.to_multiset().add(b.to_multiset()));
    } else {
        lemma_merged_multiset(a.drop_first(), b);
        assert(a =~= seq![a[0]] + a.drop_first());
        assert(merged(a, b).to_multiset() =~= a.to_multiset().add(b.to_multiset()));
    }
}

/// Merging two ascending sequences gives an ascending sequence.
pub proof fn lemma_merged_ascending(a: Seq<TotalFloat>, b: Seq<TotalFloat>)
    requires
        is_ascending(a),
        is_ascending(b),
    ensures
        is_ascending(merged(a, b)),
    decreases a.len() + b.len(),
{
    if a.len() > 0 && b.len() > 0 {
        let (head, rest_a, rest_b) = if a[0].rank() > b[0].rank() {
            (b[0], a, b.drop_first())
        } else {
            (a[0], a.drop_first(), b)
        };
        lemma_merged_ascending(rest_a, rest_b);
        lemma_merged_multiset(rest_a, rest_b);
        let tail = merged(rest_a, rest_b);
        assert(merged(a, b) == seq![head] + tail);
        assert forall|k: int| 0 <= k < tail.len() implies head.rank() <= tail[k].rank() by {
            let x = tail[k];
            assert(tail.contains(x));
            assert(tail.to_multiset().count(x) > 0);
            assert(rest_a.to_multiset().count(x) > 0 || rest_b.to_multiset().count(x) > 0);
            if rest_a.contains(x) {
                let m = choose|m: int| 0 <= m < rest_a.len() && rest_a[m] == x;
                if a[0].rank() <= b[0].rank() {
                    assert(a[0].rank() <= a[m + 1].rank());
                }
            } else {
                assert(rest_b.contains(x));
                let m = choose|m: int| 0 <= m < rest_b.len() && rest_b[m] == x;
                if a[0].rank() > b[0].rank() {
                    assert(b[0].rank() <= b[m + 1].rank());
                }
            }
        }
    }
}

/// Merges two ascending sequences into one ascending sequence.
///
/// On equal heads the element of `a` comes first. Inputs that are not
/// ascending are merged by the same rule, and the result need not be ascending.
pub fn merge(a: Vec<TotalFloat>, b: Vec<TotalFloat>) -> (r: Vec<TotalFloat>)
    ensures
        r@ == merged(a@, b@),
        r@.len() == a@.len() + b@.len(),
        r@.to_multiset() == a@.to_multiset().add(b@.to_multiset()),
        is_ascending(a@) && is_ascending(b@) ==> is_ascending(r@),
{
    let mut buffer: Vec<TotalFloat> = Vec::with_capacity(a.len().saturating_add(b.len()));
    let mut i: usize = 0;
    let mut j: usize = 0;
    assert(a@.subrange(0, a@.len() as int) =~= a@);
    assert(b@.subrange(0, b@.len() as int) =~= b@);
    while i < a.len() || j < b.len()
        invariant
            i <= a@.len(),
            j <= b@.len(),
            buffer@ + merged(a@.subrange(i as int, a@.len() as int), b@.subrange(j as int, b@.len() as int))
                == merged(a@, b@),
        decreases a@.len() - i + b@.len() - j,
    {
        let ghost rest_a = a@.subrange(i as int, a@.len() as int);
        let ghost rest_b = b@.subrange(j as int, b@.len() as int);
        let ghost before = buffer@;
        if i < a.len() && j < b.len() && a[i] > b[j] {
            buffer.push(b[j]);
            j = j + 1;
            proof {
                assert(rest_b.drop_first() =~= b@.subrange(j as int, b@.len() as int));
                assert(buffer@ + merged(rest_a, rest_b.drop_first()) =~= before + merged(rest_a, rest_b));
            }
        } else if i < a.len() {
            buffer.push(a[i]);
            i = i + 1;
            proof {
                assert(rest_a.drop_first() =~= a@.subrange(i as int, a@.len() as int));
                assert(buffer@ + merged(rest_a.drop_first(), rest_b) =~= before + merged(rest_a, rest_b));
            }
        } else {
            buffer.push(b[j]);
            j = j + 1;
            proof {
                assert(rest_a.len() == 0);
                assert(rest_b.drop_first() =~= b@.subrange(j as int, b@.len() as int));
                assert(buffer@ + merged(rest_a, rest_b.drop_first()) =~= before + merged(rest_a, rest_b));
            }
        }
    }
    proof {
        assert(merged(a@.subrange(i as int, a@.len() as int), b@.subrange(j as int, b@.len() as int)) =~= seq![]);
        assert(buffer@ =~= merged(a@, b@));
        lemma_merged_multiset(a@, b@);
        if is_ascending(a@) && is_ascending(b@) {
            lemma_merged_ascending(a@, b@);
        }
    }
    buffer
}

/// In an ascending sequence no element is greater than the next.
pub proof fn lemma_ascending_adjacent(s: Seq<TotalFloat>)
    requires
        is_ascending(s),
    ensures
        forall|i: int| 0 <= i < s.len() - 1 ==> #[trigger] s[i].cmp_spec(s[i + 1]) != Ordering::Greater,
{
    assert forall|i: int| 0 <= i < s.len() - 1 implies #[trigger] s[i].cmp_spec(s[i + 1])
        != Ordering::Greater by {
        assert(s[i].rank() <= s[i + 1].rank());
    }
}

/// Two ascending sequences that hold the same elements, as often, agree
/// position by position under the total order's equality.
pub proof fn lemma_ascending_unique(r1: Seq<TotalFloat>, r2: Seq<TotalFloat>)
    requires
        is_ascending(r1),
        is_ascending(r2),
        r1.to_multiset() == r2.to_multiset(),
    ensures
        equal_elementwise(r1, r2),
    decreases r1.len(),
{
    broadcast use vstd::multiset::group_multiset_axioms;

    assert(r1.len() == r1.to_multiset().len());
    assert(r2.len() == r2.to_multiset().len());
    if r1.len() > 0 {
        let x = r1[0];
        let y = r2[0];
        assert(r1.contains(x));
        assert(r1.to_multiset().count(x) > 0);
        assert(r2.contains(x));
        let j = choose|j: int| 0 <= j < r2.len() && r2[j] == x;
        assert(r2.contains(y));
        assert(r2.to_multiset().count(y) > 0);
        assert(r1.contains(y));
        let k = choose|k: int| 0 <= k < r1.len() && r1[k] == y;
        assert(y.rank() <= x.rank() <= y.rank()) by {
            assert(r2[0].rank() <= r2[j].rank());
            assert(r1[0].rank() <= r1[k].rank());
        }
        let rest1 = r1.drop_first();
        let rest2 = r2.remove(j);
        assert(r1.remove(0) =~= rest1);
        assert(rest1.to_multiset() =~= rest2.to_multiset());
        assert(is_ascending(rest2)) by {
            assert forall|p: int, q: int| 0 <= p <= q < rest2.len() implies rest2[p].rank() <= rest2[q].rank() by {
                let p2 = if p < j { p } else { p + 1 };
                let q2 = if q < j { q } else { q + 1 };
                assert(r2[p2].rank() <= r2[q2].rank());
            }
        }
        lemma_ascending_unique(rest1, rest2);
        assert forall|i: int| 0 <= i < r1.len() implies (#[trigger] r1[i]).equals(r2[i]) by {
            if i > 0 {
                assert(rest1[i - 1].equals(rest2[i - 1]));
                if i <= j {
                    assert(r2[0].rank() <= r2[i - 1].rank() <= r2[j].rank());
                    assert(r2[0].rank() <= r2[i].rank() <= r2[j].rank());
                }
            }
        }
    }
}

/// Sorting a sorted sequence again changes nothing that the total order's
/// equality can see: a sorting of a sorting of `s` agrees with it elementwise.
pub proof fn lemma_sort_idempotent(s: Seq<TotalFloat>, once: Seq<TotalFloat>, twice: Seq<TotalFloat>)
    requires
        is_sorting_of(once, s),
        is_sorting_of(twice, once),
    ensures
        equal_elementwise(twice, once),
{
    lemma_ascending_unique(twice, once);
}

/// Sorts the values into ascending order of the total order.
///
/// Splits at the middle, sorts both halves and merges them, the first half as
/// the left input; so equal values keep their relative order.
pub fn merge_sort(input: Vec<TotalFloat>) -> (r: Vec<TotalFloat>)
    ensures
        is_sorting_of(r@, input@),
        forall|i: int|
            0 <= i < r@.len() - 1 ==> #[trigger] r@[i].cmp_spec(r@[i + 1]) != Ordering::Greater,
    decreases input@.len(),
{
    let mut input = input;
    let n = input.len();
    if n <= 1 {
        proof {
            lemma_ascending_adjacent(input@);
        }
        input
    } else {
        let ghost whole = input@;
        let back = input.split_off(n / 2);
        let r = merge(merge_sort(input), merge_sort(back));
        proof {
            assert(whole =~= input@ + back@);
            vstd::seq_lib::lemma_multiset_commutative(input@, back@);
            lemma_ascending_adjacent(r@);
        }
        r
    }
}

} // verus!
