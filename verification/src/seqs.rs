use vstd::prelude::*;

verus! {

// ---------------------------------------------------------------------------
// First matching element of a sequence
// ---------------------------------------------------------------------------

/// The least index at or after `i` whose element satisfies `p`, if any.
pub open spec fn first_where_from<A>(s: Seq<A>, p: spec_fn(A) -> bool, i: int) -> Option<int>
    decreases s.len() - i,
{
    if i < 0 || i >= s.len() {
        None
    } else if p(s[i]) {
        Some(i)
    } else {
        first_where_from(s, p, i + 1)
    }
}

/// The least index whose element satisfies `p`, if any.
pub open spec fn first_where<A>(s: Seq<A>, p: spec_fn(A) -> bool) -> Option<int> {
    first_where_from(s, p, 0)
}

pub proof fn lemma_first_where_from<A>(s: Seq<A>, p: spec_fn(A) -> bool, i: int)
    requires
        0 <= i <= s.len(),
    ensures
        match first_where_from(s, p, i) {
            Some(j) => i <= j < s.len() && p(s[j]) && (forall|k: int|
                i <= k < j ==> !p(#[trigger] s[k])),
            None => forall|k: int| i <= k < s.len() ==> !p(#[trigger] s[k]),
        },
    decreases s.len() - i,
{
    if i < s.len() {
        lemma_first_where_from(s, p, i + 1);
    }
}

pub proof fn lemma_first_where<A>(s: Seq<A>, p: spec_fn(A) -> bool)
    ensures
        match first_where(s, p) {
            Some(j) => 0 <= j < s.len() && p(s[j]) && (forall|k: int|
                0 <= k < j ==> !p(#[trigger] s[k])),
            None => forall|k: int| 0 <= k < s.len() ==> !p(#[trigger] s[k]),
        },
{
    lemma_first_where_from(s, p, 0);
}

// ---------------------------------------------------------------------------
// Pagination
// ---------------------------------------------------------------------------

/// The page that `offset` and `limit` select: `limit` elements starting at
/// `offset`, clipped to the end of the sequence. A `limit` of zero selects
/// nothing.
pub open spec fn page_spec<A>(s: Seq<A>, offset: nat, limit: nat) -> Seq<A> {
    let start = if offset > s.len() {
        s.len()
    } else {
        offset
    };
    let end = if offset + limit > s.len() {
        s.len()
    } else {
        offset + limit
    };
    s.subrange(start as int, end as int)
}

/// Two adjacent pages, read in order, hold exactly what one page covering
/// both ranges holds.
pub proof fn lemma_pages_adjacent<A>(s: Seq<A>, offset: nat, n: nat, m: nat)
    ensures
        page_spec(s, offset, n) + page_spec(s, (offset + n) as nat, m) == page_spec(
            s,
            offset,
            (n + m) as nat,
        ),
{
    assert(page_spec(s, offset, n) + page_spec(s, (offset + n) as nat, m) =~= page_spec(
        s,
        offset,
        (n + m) as nat,
    ));
}

/// The page a find with skip and limit yields: as `page_spec`, except that
/// a limit of zero leaves the tail unbounded.
pub open spec fn find_page_spec<A>(s: Seq<A>, offset: nat, limit: nat) -> Seq<A> {
    if limit == 0 {
        let start = if offset > s.len() {
            s.len()
        } else {
            offset
        };
        s.subrange(start as int, s.len() as int)
    } else {
        page_spec(s, offset, limit)
    }
}

/// Select the records a find with skip `offset` and limit `limit` returns.
pub fn take_find_page<T>(v: Vec<T>, offset: u32, limit: u32) -> (r: Vec<T>)
    ensures
        r@ == find_page_spec(v@, offset as nat, limit as nat),
{
    if limit == 0 {
        let mut v = v;
        let ghost orig = v@;
        let len = v.len();
        let start: usize = if (offset as usize) > len {
            len
        } else {
            offset as usize
        };
        let tail = v.split_off(start);
        assert(tail@ =~= find_page_spec(orig, offset as nat, limit as nat));
        tail
    } else {
        take_page(v, offset, limit)
    }
}

// ---------------------------------------------------------------------------
// Filtering keeps records distinct
// ---------------------------------------------------------------------------

pub proof fn lemma_filter_sub<A>(s: Seq<A>, p: spec_fn(A) -> bool)
    ensures
        forall|k: int| 0 <= k < s.filter(p).len() ==> s.contains(#[trigger] s.filter(p)[k]),
    decreases s.len(),
{
    reveal_with_fuel(Seq::filter, 2);
    if s.len() != 0 {
        let pre = s.drop_last();
        lemma_filter_sub(pre, p);
        if p(s.last()) {
            assert(s.filter(p) == pre.filter(p).push(s.last()));
        } else {
            assert(s.filter(p) == pre.filter(p));
        }
        assert forall|k: int| 0 <= k < s.filter(p).len() implies s.contains(
            #[trigger] s.filter(p)[k],
        ) by {
            if k < pre.filter(p).len() {
                assert(pre.contains(pre.filter(p)[k]));
                let w = choose|w: int| 0 <= w < pre.len() && pre[w] == pre.filter(p)[k];
                assert(0 <= w < s.len());
                assert(s[w] == pre[w]);
                assert(s[w] == s.filter(p)[k]);
            } else {
                assert(p(s.last()));
                assert(s.filter(p)[k] == s.last());
                assert(s[s.len() - 1] == s.last());
            }
        }
    }
}

/// Filtering a sequence whose records carry pairwise distinct keys yields
/// one whose records carry pairwise distinct keys.
pub proof fn lemma_filter_keeps_distinct<A>(s: Seq<A>, p: spec_fn(A) -> bool, idf: spec_fn(A) -> u64)
    requires
        forall|i: int, j: int|
            0 <= i < j < s.len() ==> idf(#[trigger] s[i]) != idf(#[trigger] s[j]),
    ensures
        forall|i: int, j: int|
            0 <= i < j < s.filter(p).len() ==> idf(#[trigger] s.filter(p)[i]) != idf(
                #[trigger] s.filter(p)[j],
            ),
    decreases s.len(),
{
    reveal_with_fuel(Seq::filter, 2);
    if s.len() != 0 {
        let pre = s.drop_last();
        assert forall|i: int, j: int| 0 <= i < j < pre.len() implies idf(#[trigger] pre[i]) != idf(
            #[trigger] pre[j],
        ) by {
            assert(pre[i] == s[i]);
            assert(pre[j] == s[j]);
        }
        lemma_filter_keeps_distinct(pre, p, idf);
        lemma_filter_sub(pre, p);
        if p(s.last()) {
            assert(s.filter(p) == pre.filter(p).push(s.last()));
        } else {
            assert(s.filter(p) == pre.filter(p));
        }
        assert forall|i: int, j: int| 0 <= i < j < s.filter(p).len() implies idf(
            #[trigger] s.filter(p)[i],
        ) != idf(#[trigger] s.filter(p)[j]) by {
            if p(s.last()) && j == s.filter(p).len() - 1 {
                assert(s.filter(p)[j] == s.last());
                assert(s.filter(p)[i] == pre.filter(p)[i]);
                assert(pre.contains(pre.filter(p)[i]));
                let w = choose|w: int| 0 <= w < pre.len() && pre[w] == pre.filter(p)[i];
                assert(0 <= w < s.len() - 1);
                assert(s[w] == pre[w]);
                assert(s[s.len() - 1] == s.last());
                assert(idf(s[w]) != idf(s[s.len() - 1]));
            } else {
                assert(s.filter(p)[i] == pre.filter(p)[i]);
                assert(s.filter(p)[j] == pre.filter(p)[j]);
            }
        }
    }
}

/// Select the page that `offset` and `limit` describe, in order.
pub fn take_page<T>(v: Vec<T>, offset: u32, limit: u32) -> (r: Vec<T>)
    ensures
        r@ == page_spec(v@, offset as nat, limit as nat),
{
    let mut v = v;
    let ghost orig = v@;
    let len = v.len();
    let start: usize = if (offset as usize) > len {
        len
    } else {
        offset as usize
    };
    let mut tail = v.split_off(start);
    if (limit as usize) < tail.len() {
        tail.truncate(limit as usize);
    }
    assert(tail@ =~= page_spec(orig, offset as nat, limit as nat));
    tail
}

} // verus!
