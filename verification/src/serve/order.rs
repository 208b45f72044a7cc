//! Sorting and paging.

use vstd::prelude::*;

verus! {

/// Values that can be put in order.
pub trait Ordered: Sized {
    /// Whether this one comes before the other.
    spec fn before(self, other: Self) -> bool;

    /// Nothing comes before itself, and not coming before carries over.
    proof fn order(a: Self, b: Self, c: Self)
        ensures
            !a.before(a),
            !a.before(b) && !b.before(c) ==> !a.before(c),
            a.before(b) ==> !b.before(a),
    ;

    /// Whether this one comes before the other.
    fn comes_before(&self, other: &Self) -> (b: bool)
        ensures
            b == self.before(*other),
    ;
}

/// A value put in its place: behind everything that it does not come before.
pub open spec fn placed<T: Ordered>(sorted: Seq<T>, x: T) -> Seq<T>
    decreases sorted.len(),
{
    if sorted.len() > 0 && x.before(sorted.last()) {
        placed(sorted.drop_last(), x).push(sorted.last())
    } else {
        sorted.push(x)
    }
}

/// The values in order; those of the same rank stay as they were.
pub open spec fn in_order<T: Ordered>(items: Seq<T>) -> Seq<T>
    decreases items.len(),
{
    if items.len() == 0 {
        items
    } else {
        placed(in_order(items.drop_last()), items.last())
    }
}

proof fn lemma_placed<T: Ordered>(sorted: Seq<T>, x: T, k: int)
    requires
        0 <= k <= sorted.len(),
        forall|i: int| k <= i < sorted.len() ==> x.before(#[trigger] sorted[i]),
        k > 0 ==> !x.before(sorted[k - 1]),
    ensures
        placed(sorted, x) == sorted.insert(k, x),
    decreases sorted.len(),
{
    if k < sorted.len() {
        let rest = sorted.drop_last();
        assert(x.before(sorted[sorted.len() - 1]));
        assert forall|i: int| k <= i < rest.len() implies x.before(#[trigger] rest[i]) by {
            assert(rest[i] == sorted[i]);
        }
        lemma_placed(rest, x, k);
        assert(rest.insert(k, x).push(sorted.last()) =~= sorted.insert(k, x));
    } else {
        assert(sorted.insert(k, x) =~= sorted.push(x));
    }
}

/// Sorts; values of the same rank stay as they were.
pub fn sort<T: Ordered>(items: Vec<T>) -> (sorted: Vec<T>)
    ensures
        sorted@ == in_order(items@),
{
    let ghost all = items@;
    let mut sorted: Vec<T> = Vec::new();
    proof {
        assert(sorted@ =~= in_order(all.take(0)));
    }
    for x in it: items
        invariant
            it.seq() == all,
            sorted@ == in_order(all.take(it.index() as int)),
    {
        proof {
            assert(all.take(it.index() as int + 1).drop_last() =~= all.take(it.index() as int));
            assert(all.take(it.index() as int + 1).last() == x);
        }
        let mut k: usize = sorted.len();
        while k > 0 && x.comes_before(&sorted[k - 1])
            invariant
                k <= sorted.len(),
                forall|i: int| k <= i < sorted.len() ==> x.before(#[trigger] sorted@[i]),
            decreases k,
        {
            k -= 1;
        }
        proof {
            lemma_placed(sorted@, x, k as int);
        }
        sorted.insert(k, x);
    }
    proof {
        assert(all.take(all.len() as int) =~= all);
    }
    sorted
}

/// What is left after skipping `offset` values, at most `limit` of it.
pub open spec fn page_of<T>(items: Seq<T>, offset: nat, limit: nat) -> Seq<T> {
    let rest = if offset < items.len() {
        items.skip(offset as int)
    } else {
        Seq::empty()
    };
    if limit < rest.len() {
        rest.take(limit as int)
    } else {
        rest
    }
}

/// Where a page begins and ends in a list of `len` values.
pub fn page_bounds(len: usize, offset: usize, limit: usize) -> (b: (usize, usize))
    ensures
        b.0 <= b.1 <= len,
        b.0 == if offset < len {
            offset
        } else {
            len
        },
        b.1 == if limit < len - b.0 {
            b.0 + limit
        } else {
            len as int
        },
{
    let from: usize = if offset < len {
        offset
    } else {
        len
    };
    let to: usize = if limit < len - from {
        from + limit
    } else {
        len
    };
    (from, to)
}

/// A page is the part of the list between its bounds.
pub proof fn lemma_page_is_subrange<T>(items: Seq<T>, offset: nat, limit: nat, from: int, to: int)
    requires
        from == if offset < items.len() {
            offset as int
        } else {
            items.len() as int
        },
        to == if limit < items.len() - from {
            from + limit
        } else {
            items.len() as int
        },
    ensures
        page_of(items, offset, limit) == items.subrange(from, to),
{
    assert(page_of(items, offset, limit) =~= items.subrange(from, to));
}

// ---- Laws --------------------------------------------------------------------

/// No value comes before one that stands in front of it.
pub open spec fn is_sorted<T: Ordered>(s: Seq<T>) -> bool {
    forall|i: int, j: int| 0 <= i < j < s.len() ==> !(#[trigger] s[j]).before(#[trigger] s[i])
}

proof fn lemma_placed_keeps_order<T: Ordered>(sorted: Seq<T>, x: T)
    requires
        is_sorted(sorted),
    ensures
        is_sorted(placed(sorted, x)),
        placed(sorted, x).to_multiset() == sorted.to_multiset().insert(x),
        placed(sorted, x).len() == sorted.len() + 1,
        forall|i: int|
            0 <= i < placed(sorted, x).len() ==> #[trigger] placed(sorted, x)[i] == x
                || sorted.contains(placed(sorted, x)[i]),
    decreases sorted.len(),
{
    broadcast use vstd::seq_lib::group_to_multiset_ensures;

    let p = placed(sorted, x);
    if sorted.len() > 0 && x.before(sorted.last()) {
        let rest = sorted.drop_last();
        let last = sorted.last();
        assert(is_sorted(rest)) by {
            assert forall|i: int, j: int| 0 <= i < j < rest.len() implies !(
            #[trigger] rest[j]).before(#[trigger] rest[i]) by {
                assert(rest[i] == sorted[i] && rest[j] == sorted[j]);
            }
        }
        lemma_placed_keeps_order(rest, x);
        let q = placed(rest, x);
        assert(sorted =~= rest.push(last));
        assert(p == q.push(last));
        assert(p.to_multiset() =~= sorted.to_multiset().insert(x));
        assert forall|i: int, j: int| 0 <= i < j < p.len() implies !(#[trigger] p[j]).before(
            #[trigger] p[i],
        ) by {
            if j < q.len() {
                assert(p[i] == q[i] && p[j] == q[j]);
            } else {
                assert(p[i] == q[i]);
                T::order(x, last, last);
                if q[i] != x {
                    let k = choose|k: int| 0 <= k < rest.len() && rest[k] == q[i];
                    assert(sorted[k] == q[i] && sorted[sorted.len() - 1] == last);
                }
            }
        }
        assert forall|i: int| 0 <= i < p.len() implies #[trigger] p[i] == x || sorted.contains(
            p[i],
        ) by {
            if i < q.len() {
                assert(p[i] == q[i]);
                if q[i] != x {
                    let k = choose|k: int| 0 <= k < rest.len() && rest[k] == q[i];
                    assert(sorted[k] == q[i]);
                }
            } else {
                assert(sorted[sorted.len() - 1] == last);
            }
        }
    } else {
        assert forall|i: int, j: int| 0 <= i < j < p.len() implies !(#[trigger] p[j]).before(
            #[trigger] p[i],
        ) by {
            if j == sorted.len() {
                let last = sorted.last();
                assert(p[i] == sorted[i]);
                T::order(x, last, sorted[i]);
                if i < sorted.len() - 1 {
                    assert(!sorted[sorted.len() - 1].before(sorted[i]));
                }
            } else {
                assert(p[i] == sorted[i] && p[j] == sorted[j]);
            }
        }
        assert forall|i: int| 0 <= i < p.len() implies #[trigger] p[i] == x || sorted.contains(
            p[i],
        ) by {
            if i < sorted.len() {
                assert(p[i] == sorted[i]);
            }
        }
    }
}

/// Sorting puts the values in order and neither loses nor adds one.
pub proof fn law_sorting_orders_and_keeps<T: Ordered>(items: Seq<T>)
    ensures
        is_sorted(in_order(items)),
        in_order(items).to_multiset() == items.to_multiset(),
        in_order(items).len() == items.len(),
    decreases items.len(),
{
    broadcast use vstd::seq_lib::group_to_multiset_ensures;

    if items.len() > 0 {
        let rest = items.drop_last();
        law_sorting_orders_and_keeps(rest);
        lemma_placed_keeps_order(in_order(rest), items.last());
        assert(items =~= rest.push(items.last()));
    }
}

/// Pages of the same length that follow one another make up the list.
pub proof fn law_pages_make_up_the_list<T>(items: Seq<T>, offset: nat, limit: nat)
    requires
        offset <= items.len(),
    ensures
        page_of(items, offset, limit).len() <= limit,
        items.skip(offset as int) == page_of(items, offset, limit) + items.skip(
            offset + page_of(items, offset, limit).len() as int,
        ),
{
    assert(items.skip(offset as int) =~= page_of(items, offset, limit) + items.skip(
        offset + page_of(items, offset, limit).len() as int,
    ));
}

/// Whether neither of the two comes before the other.
pub open spec fn same_rank<T: Ordered>(a: T, b: T) -> bool {
    !a.before(b) && !b.before(a)
}

/// Adding an item to a list adds it to what is picked from the list, if it is picked.
pub proof fn lemma_filter_push<T>(s: Seq<T>, x: T, p: spec_fn(T) -> bool)
    ensures
        s.push(x).filter(p) == if p(x) {
            s.filter(p).push(x)
        } else {
            s.filter(p)
        },
{
    reveal(Seq::filter);
    assert(s.push(x).drop_last() =~= s);
}

/// Two ways to pick that agree on every item of a list pick the same.
pub proof fn lemma_filter_agree<T>(s: Seq<T>, p: spec_fn(T) -> bool, q: spec_fn(T) -> bool)
    requires
        forall|i: int| 0 <= i < s.len() ==> p(#[trigger] s[i]) == q(s[i]),
    ensures
        s.filter(p) == s.filter(q),
    decreases s.len(),
{
    reveal(Seq::filter);
    if s.len() > 0 {
        let rest = s.drop_last();
        assert forall|i: int| 0 <= i < rest.len() implies p(#[trigger] rest[i]) == q(rest[i]) by {
            assert(rest[i] == s[i]);
        }
        lemma_filter_agree(rest, p, q);
        assert(s.last() == s[s.len() - 1]);
    }
}

/// What is picked from a list are the items that pass.
pub proof fn lemma_filter_items<T>(s: Seq<T>, p: spec_fn(T) -> bool)
    ensures
        s.filter(p).len() <= s.len(),
        forall|i: int| 0 <= i < s.len() && p(#[trigger] s[i]) ==> s.filter(p).contains(s[i]),
        forall|i: int|
            0 <= i < s.filter(p).len() ==> p(#[trigger] s.filter(p)[i]) && s.contains(
                s.filter(p)[i],
            ),
    decreases s.len(),
{
    reveal(Seq::filter);
    if s.len() > 0 {
        let rest = s.drop_last();
        let before = rest.filter(p);
        let now = s.filter(p);
        lemma_filter_items(rest, p);
        assert(s.last() == s[s.len() - 1]);
        assert forall|i: int| 0 <= i < s.len() && p(#[trigger] s[i]) implies now.contains(s[i]) by {
            if i < rest.len() {
                assert(rest[i] == s[i]);
                let k = choose|k: int| 0 <= k < before.len() && before[k] == rest[i];
                assert(now[k] == s[i]);
            } else {
                assert(now[now.len() - 1] == s[i]);
            }
        }
        assert forall|i: int| 0 <= i < now.len() implies p(#[trigger] now[i]) && s.contains(
            now[i],
        ) by {
            if i < before.len() {
                assert(now[i] == before[i]);
                let k = choose|k: int| 0 <= k < rest.len() && rest[k] == before[i];
                assert(s[k] == now[i]);
            } else {
                assert(now[i] == s[s.len() - 1]);
            }
        }
    }
}

proof fn lemma_placed_is_stable<T: Ordered>(sorted: Seq<T>, x: T, r: T)
    ensures
        ({
            let p = |y: T| same_rank(y, r);
            placed(sorted, x).filter(p) == if p(x) {
                sorted.filter(p).push(x)
            } else {
                sorted.filter(p)
            }
        }),
    decreases sorted.len(),
{
    let p = |y: T| same_rank(y, r);
    if sorted.len() > 0 && x.before(sorted.last()) {
        let rest = sorted.drop_last();
        lemma_placed_is_stable(rest, x, r);
        lemma_filter_push(placed(rest, x), sorted.last(), p);
        lemma_filter_push(rest, sorted.last(), p);
        assert(rest.push(sorted.last()) =~= sorted);
        if p(x) {
            T::order(x, r, sorted.last());
        }
    } else {
        lemma_filter_push(sorted, x, p);
    }
}

/// Sorting leaves values of the same rank in the order they came in.
pub proof fn law_sorting_is_stable<T: Ordered>(items: Seq<T>, r: T)
    ensures
        in_order(items).filter(|y: T| same_rank(y, r)) == items.filter(|y: T| same_rank(y, r)),
    decreases items.len(),
{
    if items.len() > 0 {
        let rest = items.drop_last();
        law_sorting_is_stable(rest, r);
        lemma_placed_is_stable(in_order(rest), items.last(), r);
        lemma_filter_push(rest, items.last(), |y: T| same_rank(y, r));
        assert(rest.push(items.last()) =~= items);
    }
}

/// A page starts at its offset, and is as long as its limit unless the list ends before.
pub proof fn law_a_page_is_a_stretch_of_the_list<T>(items: Seq<T>, offset: nat, limit: nat)
    ensures
        offset >= items.len() ==> page_of(items, offset, limit).len() == 0,
        offset + limit <= items.len() ==> page_of(items, offset, limit).len() == limit,
        offset <= items.len() <= offset + limit ==> page_of(items, offset, limit).len()
            == items.len() - offset,
        forall|i: int|
            0 <= i < page_of(items, offset, limit).len() ==> #[trigger] page_of(
                items,
                offset,
                limit,
            )[i] == items[offset + i],
{
}

/// The values of two lists that hold the same ones as often are the same ones.
pub proof fn lemma_same_items<T>(a: Seq<T>, b: Seq<T>)
    requires
        a.to_multiset() == b.to_multiset(),
    ensures
        a.len() == b.len(),
        forall|x: T| #[trigger] a.contains(x) <==> b.contains(x),
{
    broadcast use vstd::seq_lib::group_to_multiset_ensures;

    assert(a.to_multiset().len() == a.len());
    assert(b.to_multiset().len() == b.len());
    assert forall|x: T| #[trigger] a.contains(x) <==> b.contains(x) by {
        assert(a.contains(x) <==> a.to_multiset().count(x) > 0);
        assert(b.contains(x) <==> b.to_multiset().count(x) > 0);
    }
}

} // verus!
