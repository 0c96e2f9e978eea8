use vstd::prelude::*;
use vstd::multiset::Multiset;

use crate::model::view_all;

verus! {

/// A total, transitive "may stand at or before" order on records, stated
/// over their views. The listing endpoints sort over such an order.
pub trait SortOrd: View + Sized {
    /// `a` may stand at or before `b` in a sorted sequence.
    spec fn ord(a: Self::V, b: Self::V) -> bool;

    /// Executable decision of `ord`.
    fn ord_exec(&self, other: &Self) -> (r: bool)
        ensures
            r == Self::ord(self@, other@),
    ;

    proof fn lemma_ord_total(a: Self::V, b: Self::V)
        ensures
            Self::ord(a, b) || Self::ord(b, a),
    ;

    proof fn lemma_ord_trans(a: Self::V, b: Self::V, c: Self::V)
        requires
            Self::ord(a, b),
            Self::ord(b, c),
        ensures
            Self::ord(a, c),
    ;
}

/// Every element stands at or before every later one.
pub open spec fn sorted_by_ord<T: SortOrd>(s: Seq<T::V>) -> bool {
    forall|i: int, j: int| 0 <= i < j < s.len() ==> #[trigger] T::ord(s[i], s[j])
}

/// `x`, placed before the first element it may precede.
pub open spec fn insert_ord<T: SortOrd>(s: Seq<T::V>, x: T::V) -> Seq<T::V>
    decreases s.len(),
{
    if s.len() == 0 {
        seq![x]
    } else if T::ord(x, s[0]) {
        seq![x] + s
    } else {
        seq![s[0]] + insert_ord::<T>(s.drop_first(), x)
    }
}

/// Insertion sort of `s` under the order of `T`.
pub open spec fn sort_ord<T: SortOrd>(s: Seq<T::V>) -> Seq<T::V>
    decreases s.len(),
{
    if s.len() == 0 {
        Seq::empty()
    } else {
        insert_ord::<T>(sort_ord::<T>(s.drop_first()), s[0])
    }
}

pub proof fn lemma_insert_ord_elems<T: SortOrd>(s: Seq<T::V>, x: T::V)
    ensures
        insert_ord::<T>(s, x).len() == s.len() + 1,
        forall|j: int|
            0 <= j < insert_ord::<T>(s, x).len() ==> (#[trigger] insert_ord::<T>(s, x)[j] == x
                || s.contains(insert_ord::<T>(s, x)[j])),
    decreases s.len(),
{
    if s.len() != 0 && !T::ord(x, s[0]) {
        lemma_insert_ord_elems::<T>(s.drop_first(), x);
        let r = insert_ord::<T>(s, x);
        assert forall|j: int| 0 <= j < r.len() implies (r[j] == x || s.contains(r[j])) by {
            if j > 0 {
                let rr = insert_ord::<T>(s.drop_first(), x);
                assert(r[j] == rr[j - 1]);
                if rr[j - 1] != x {
                    let k = choose|k: int|
                        0 <= k < s.drop_first().len() && s.drop_first()[k] == rr[j - 1];
                    assert(s[k + 1] == rr[j - 1]);
                }
            }
        }
    }
}

pub proof fn lemma_insert_ord_sorted<T: SortOrd>(s: Seq<T::V>, x: T::V)
    requires
        sorted_by_ord::<T>(s),
    ensures
        sorted_by_ord::<T>(insert_ord::<T>(s, x)),
    decreases s.len(),
{
    let r = insert_ord::<T>(s, x);
    if s.len() == 0 {
        assert(sorted_by_ord::<T>(r));
    } else if T::ord(x, s[0]) {
        assert forall|i: int, j: int| 0 <= i < j < r.len() implies #[trigger] T::ord(
            r[i],
            r[j],
        ) by {
            if i == 0 {
                if j > 1 {
                    T::lemma_ord_trans(x, s[0], s[j - 1]);
                }
            }
        }
    } else {
        T::lemma_ord_total(x, s[0]);
        assert(T::ord(s[0], x));
        assert(sorted_by_ord::<T>(s.drop_first()));
        lemma_insert_ord_sorted::<T>(s.drop_first(), x);
        lemma_insert_ord_elems::<T>(s.drop_first(), x);
        let rr = insert_ord::<T>(s.drop_first(), x);
        assert forall|i: int, j: int| 0 <= i < j < r.len() implies #[trigger] T::ord(
            r[i],
            r[j],
        ) by {
            if i == 0 {
                assert(r[j] == rr[j - 1]);
                if rr[j - 1] == x {
                    assert(T::ord(s[0], x));
                } else {
                    let k = choose|k: int|
                        0 <= k < s.drop_first().len() && s.drop_first()[k] == rr[j - 1];
                    assert(s[k + 1] == rr[j - 1]);
                    assert(T::ord(s[0], s[k + 1]));
                }
            } else {
                assert(r[i] == rr[i - 1] && r[j] == rr[j - 1]);
            }
        }
    }
}

pub proof fn lemma_sort_ord_sorted<T: SortOrd>(s: Seq<T::V>)
    ensures
        sorted_by_ord::<T>(sort_ord::<T>(s)),
        sort_ord::<T>(s).len() == s.len(),
    decreases s.len(),
{
    if s.len() != 0 {
        lemma_sort_ord_sorted::<T>(s.drop_first());
        lemma_insert_ord_sorted::<T>(sort_ord::<T>(s.drop_first()), s[0]);
        lemma_insert_ord_elems::<T>(sort_ord::<T>(s.drop_first()), s[0]);
    }
}

/// Sorting permutes: the multiset of records is unchanged.
pub proof fn lemma_sort_ord_multiset<T: SortOrd>(s: Seq<T::V>)
    ensures
        sort_ord::<T>(s).to_multiset() == s.to_multiset(),
    decreases s.len(),
{
    broadcast use vstd::seq_lib::group_to_multiset_ensures;

    if s.len() != 0 {
        lemma_sort_ord_multiset::<T>(s.drop_first());
        lemma_insert_ord_multiset::<T>(sort_ord::<T>(s.drop_first()), s[0]);
        assert(s =~= seq![s[0]] + s.drop_first());
        vstd::seq_lib::lemma_multiset_commutative(seq![s[0]], s.drop_first());
        assert(seq![s[0]].to_multiset() =~= Multiset::empty().insert(s[0]));
        assert(s.to_multiset() =~= s.drop_first().to_multiset().insert(s[0]));
    }
}

pub proof fn lemma_insert_ord_multiset<T: SortOrd>(s: Seq<T::V>, x: T::V)
    ensures
        insert_ord::<T>(s, x).to_multiset() == s.to_multiset().insert(x),
    decreases s.len(),
{
    broadcast use vstd::seq_lib::group_to_multiset_ensures;

    if s.len() == 0 {
        assert(seq![x] =~= Seq::empty().push(x));
        assert(insert_ord::<T>(s, x).to_multiset() =~= s.to_multiset().insert(x));
    } else if T::ord(x, s[0]) {
        vstd::seq_lib::lemma_multiset_commutative(seq![x], s);
        assert(seq![x].to_multiset() =~= Multiset::empty().insert(x));
        assert(insert_ord::<T>(s, x).to_multiset() =~= s.to_multiset().insert(x));
    } else {
        lemma_insert_ord_multiset::<T>(s.drop_first(), x);
        let rr = insert_ord::<T>(s.drop_first(), x);
        vstd::seq_lib::lemma_multiset_commutative(seq![s[0]], rr);
        vstd::seq_lib::lemma_multiset_commutative(seq![s[0]], s.drop_first());
        assert(seq![s[0]].to_multiset() =~= Multiset::empty().insert(s[0]));
        assert(s =~= seq![s[0]] + s.drop_first());
        assert(insert_ord::<T>(s, x).to_multiset() =~= s.to_multiset().insert(x));
    }
}

/// Where the loop below stops is exactly where `insert_ord` places `x`.
proof fn lemma_insert_ord_at<T: SortOrd>(s: Seq<T::V>, x: T::V, j: int)
    requires
        0 <= j <= s.len(),
        forall|k: int| 0 <= k < j ==> !T::ord(x, #[trigger] s[k]),
        j < s.len() ==> T::ord(x, s[j]),
    ensures
        insert_ord::<T>(s, x) == s.subrange(0, j).push(x) + s.subrange(j, s.len() as int),
    decreases j,
{
    if j == 0 {
        if s.len() == 0 {
            assert(insert_ord::<T>(s, x) =~= s.subrange(0, 0).push(x) + s.subrange(0, 0));
        } else {
            assert(insert_ord::<T>(s, x) =~= s.subrange(0, 0).push(x) + s.subrange(
                0,
                s.len() as int,
            ));
        }
    } else {
        assert(!T::ord(x, s[0]));
        assert(forall|k: int|
            0 <= k < j - 1 ==> s.drop_first()[k] == s[k + 1] && !T::ord(
                x,
                #[trigger] s.drop_first()[k],
            ));
        lemma_insert_ord_at::<T>(s.drop_first(), x, j - 1);
        assert(insert_ord::<T>(s, x) =~= s.subrange(0, j).push(x) + s.subrange(
            j,
            s.len() as int,
        ));
    }
}

/// Insert `x` into the sorted vector `v`, keeping it sorted.
fn insert_sorted_vec<T: SortOrd>(v: &mut Vec<T>, x: T)
    ensures
        view_all(final(v)@) == insert_ord::<T>(view_all(old(v)@), x@),
{
    let n = v.len();
    let mut i: usize = 0;
    while i < n && !x.ord_exec(&v[i])
        invariant
            i <= n,
            n == v@.len(),
            *v == *old(v),
            forall|k: int| 0 <= k < i ==> !T::ord(x@, #[trigger] view_all(v@)[k]),
        decreases n - i,
    {
        assert(view_all(v@)[i as int] == v@[i as int]@);
        i = i + 1;
    }
    proof {
        if i < n {
            assert(view_all(v@)[i as int] == v@[i as int]@);
        }
        lemma_insert_ord_at::<T>(view_all(v@), x@, i as int);
    }
    v.insert(i, x);
    proof {
        let s = view_all(old(v)@);
        assert(view_all(final(v)@) =~= s.subrange(0, i as int).push(x@) + s.subrange(
            i as int,
            s.len() as int,
        ));
    }
}

/// Sort `v` under the order of `T`.
pub fn sort_records<T: SortOrd>(v: Vec<T>) -> (r: Vec<T>)
    ensures
        view_all(r@) == sort_ord::<T>(view_all(v@)),
{
    let mut v = v;
    let ghost ov = v@;
    let mut r: Vec<T> = Vec::new();
    proof {
        assert(view_all(ov).skip(ov.len() as int) =~= Seq::empty());
        assert(view_all(r@) =~= Seq::empty());
    }
    proof {
        assert(v@ =~= ov.subrange(0, v@.len() as int));
    }
    while v.len() > 0
        invariant
            v@.len() <= ov.len(),
            v@ == ov.subrange(0, v@.len() as int),
            view_all(r@) == sort_ord::<T>(view_all(ov).skip(v@.len() as int)),
        decreases v@.len(),
    {
        let ghost k = v@.len() - 1;
        let x = match v.pop() {
            Some(x) => x,
            None => {
                proof {
                    assert(false);
                }
                unreached()
            },
        };
        proof {
            assert(x@ == view_all(ov)[k]);
            assert(view_all(ov).skip(k).drop_first() =~= view_all(ov).skip(k + 1));
            assert(view_all(ov).skip(k)[0] == view_all(ov)[k]);
            assert(v@ =~= ov.subrange(0, k));
        }
        insert_sorted_vec(&mut r, x);
    }
    proof {
        assert(view_all(ov).skip(0) =~= view_all(ov));
    }
    r
}

} // verus!
