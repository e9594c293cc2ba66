//! Operations on lists.

use std::ops::Range;

use vstd::prelude::*;

verus! {

/// The first `n` of `list`, or all where there are fewer.
pub open spec fn at_most<T>(list: Seq<T>, n: int) -> Seq<T> {
    if list.len() <= n {
        list
    } else {
        list.take(n)
    }
}

/// `items` with `replacement` in place of `items[start..end]`.
pub open spec fn spliced<T>(items: Seq<T>, start: int, end: int, replacement: Seq<T>) -> Seq<T> {
    items.take(start) + replacement + items.skip(end)
}

/// Puts `replacement` in place of the items in `range`.
pub fn splice<T>(items: &mut Vec<T>, range: Range<usize>, replacement: Vec<T>)
    requires
        range.start <= range.end <= old(items)@.len(),
    ensures
        final(items)@ == spliced(
            old(items)@,
            range.start as int,
            range.end as int,
            replacement@,
        ),
{
    let mut tail = items.split_off(range.end);
    items.truncate(range.start);
    let mut middle = replacement;
    items.append(&mut middle);
    items.append(&mut tail);
    assert(items@ =~= spliced(
        old(items)@,
        range.start as int,
        range.end as int,
        replacement@,
    ));
}

// ---------------------------------------------------------------------------
// Picking
// ---------------------------------------------------------------------------

/// How many of the first `n` of `list` are picked by `p`.
pub open spec fn rank<T>(list: Seq<T>, p: spec_fn(T) -> bool, n: int) -> int
    decreases n,
{
    if n <= 0 {
        0
    } else if p(list[n - 1]) {
        rank(list, p, n - 1) + 1
    } else {
        rank(list, p, n - 1)
    }
}

/// Whether `out` holds exactly one entry for each of `list` that `p` picks, in their
/// order: the k-th entry is `f` of the k-th that is picked.
pub open spec fn picks<T, U>(
    list: Seq<T>,
    p: spec_fn(T) -> bool,
    f: spec_fn(T) -> U,
    out: Seq<U>,
) -> bool {
    &&& out.len() == rank(list, p, list.len() as int)
    &&& forall|i: int|
        #![trigger list[i]]
        0 <= i < list.len() && p(list[i]) ==> 0 <= rank(list, p, i) < out.len() && out[rank(
            list,
            p,
            i,
        )] == f(list[i])
}

/// The ranks within a list do not depend on what stands behind.
pub proof fn lemma_rank_within<T>(list: Seq<T>, more: Seq<T>, p: spec_fn(T) -> bool, n: int)
    requires
        0 <= n <= list.len(),
    ensures
        rank(list + more, p, n) == rank(list, p, n),
        0 <= rank(list, p, n) <= n,
    decreases n,
{
    if n > 0 {
        lemma_rank_within(list, more, p, n - 1);
        assert((list + more)[n - 1] == list[n - 1]);
    }
}

/// What is picked of a list that is one longer.
pub proof fn lemma_picks_push<T, U>(
    list: Seq<T>,
    p: spec_fn(T) -> bool,
    f: spec_fn(T) -> U,
    out: Seq<U>,
    x: T,
)
    requires
        picks(list, p, f, out),
    ensures
        picks(
            list.push(x),
            p,
            f,
            if p(x) {
                out.push(f(x))
            } else {
                out
            },
        ),
{
    let all = list.push(x);
    let now = if p(x) {
        out.push(f(x))
    } else {
        out
    };
    assert(all =~= list + seq![x]);
    lemma_rank_within(list, seq![x], p, list.len() as int);
    assert(all[list.len() as int] == x);
    assert forall|i: int| #![trigger all[i]] 0 <= i < all.len() && p(all[i]) implies 0 <= rank(
        all,
        p,
        i,
    ) < now.len() && now[rank(all, p, i)] == f(all[i]) by {
        lemma_rank_within(list, seq![x], p, i);
        if i < list.len() {
            assert(all[i] == list[i]);
        }
    }
}

/// What is picked of a list, given what is picked of all but the last of it.
pub proof fn lemma_picks_last<T, U>(
    list: Seq<T>,
    p: spec_fn(T) -> bool,
    f: spec_fn(T) -> U,
    before: Seq<U>,
)
    requires
        list.len() > 0,
        picks(list.drop_last(), p, f, before),
    ensures
        picks(
            list,
            p,
            f,
            if p(list.last()) {
                before.push(f(list.last()))
            } else {
                before
            },
        ),
{
    lemma_picks_push(list.drop_last(), p, f, before, list.last());
    assert(list.drop_last().push(list.last()) =~= list);
}

/// Where none is picked, the ranks are zero.
pub proof fn lemma_none_picked<T>(list: Seq<T>, p: spec_fn(T) -> bool, n: int)
    requires
        0 <= n <= list.len(),
        forall|i: int| 0 <= i < list.len() ==> !p(#[trigger] list[i]),
    ensures
        rank(list, p, n) == 0,
    decreases n,
{
    if n > 0 {
        lemma_none_picked(list, p, n - 1);
        assert(!p(list[n - 1]));
    }
}

/// The first of a list: none is passed over, and none is left out while there is room.
pub proof fn law_the_first_are_kept<T>(list: Seq<T>, n: int)
    requires
        0 <= n,
    ensures
        at_most(list, n).is_prefix_of(list),
        at_most(list, n).len() == (if n <= list.len() {
            n
        } else {
            list.len() as int
        }),
{
    if list.len() > n {
        assert(list.take(n) =~= list.subrange(0, n));
    } else {
        assert(list =~= list.subrange(0, list.len() as int));
    }
}

/// What stands around a run that is replaced stays, and the replacement stands in its
/// place.
pub proof fn law_splicing<T>(before: Seq<T>, out: Seq<T>, behind: Seq<T>, replacement: Seq<T>)
    ensures
        spliced(
            before + out + behind,
            before.len() as int,
            (before.len() + out.len()) as int,
            replacement,
        ) == before + replacement + behind,
{
    let items = before + out + behind;
    assert(items.take(before.len() as int) =~= before);
    assert(items.skip((before.len() + out.len()) as int) =~= behind);
}

} // verus!
