//! Ordered lists of windows. A window is known by a number that it keeps for
//! as long as it exists.

use vstd::prelude::*;

verus! {

/// The predicate "is one of `alive`".
pub open spec fn one_of(alive: Seq<u64>) -> spec_fn(u64) -> bool {
    |w: u64| alive.contains(w)
}

/// The predicate "is not `window`".
pub open spec fn other_than(window: u64) -> spec_fn(u64) -> bool {
    |w: u64| w != window
}

/// The windows of `order` that are still alive.
pub open spec fn only_alive(order: Seq<u64>, alive: Seq<u64>) -> Seq<u64> {
    order.filter(one_of(alive))
}

/// The windows of `order` other than `window`.
pub open spec fn without(order: Seq<u64>, window: u64) -> Seq<u64> {
    order.filter(other_than(window))
}

/// `order` with `window` at its end, unless it is in there already.
pub open spec fn with_at_end(order: Seq<u64>, window: u64) -> Seq<u64> {
    if order.contains(window) {
        order
    } else {
        order.push(window)
    }
}

/// Whether the first occurrence of `window` is at `i`.
pub open spec fn is_first_at(order: Seq<u64>, window: u64, i: int) -> bool {
    &&& 0 <= i < order.len()
    &&& order[i] == window
    &&& forall|j: int| 0 <= j < i ==> order[j] != window
}

/// Where `window` first occurs.
pub open spec fn position(order: Seq<u64>, window: u64) -> Option<int> {
    if order.contains(window) {
        Some(choose|i: int| is_first_at(order, window, i))
    } else {
        None
    }
}

/// The first occurrence is the position.
pub proof fn lemma_position(order: Seq<u64>, window: u64, i: int)
    requires
        is_first_at(order, window, i),
    ensures
        position(order, window) == Some(i),
{
    let chosen = choose|j: int| is_first_at(order, window, j);
    assert(is_first_at(order, window, chosen));
    assert(chosen == i);
}

/// Every member has a position.
pub proof fn lemma_position_exists(order: Seq<u64>, window: u64)
    requires
        order.contains(window),
    ensures
        position(order, window) is Some,
        is_first_at(order, window, position(order, window)->0),
    decreases order.len(),
{
    let i = choose|i: int| 0 <= i < order.len() && order[i] == window;
    lemma_first_before(order, window, i);
}

proof fn lemma_first_before(order: Seq<u64>, window: u64, i: int)
    requires
        0 <= i < order.len(),
        order[i] == window,
    ensures
        exists|j: int| is_first_at(order, window, j),
    decreases i,
{
    if exists|j: int| 0 <= j < i && order[j] == window {
        let j = choose|j: int| 0 <= j < i && order[j] == window;
        lemma_first_before(order, window, j);
    } else {
        assert(is_first_at(order, window, i));
    }
}

/// Filtering keeps members apart, keeps what the predicate accepts and adds
/// nothing.
pub proof fn lemma_filter(order: Seq<u64>, keep: spec_fn(u64) -> bool)
    ensures
        order.no_duplicates() ==> order.filter(keep).no_duplicates(),
        forall|w: u64| #[trigger]
            order.filter(keep).contains(w) <==> order.contains(w) && keep(w),
    decreases order.len(),
{
    reveal(Seq::filter);
    if order.len() > 0 {
        let rest = order.drop_last();
        lemma_filter(rest, keep);
        let out = order.filter(keep);
        assert(order =~= rest.push(order.last()));
        assert forall|w: u64| #[trigger] out.contains(w) <==> order.contains(w) && keep(w) by {
            if out.contains(w) {
                let i = choose|i: int| 0 <= i < out.len() && out[i] == w;
                if keep(order.last()) && i == out.len() - 1 {
                    assert(order[order.len() - 1] == w);
                } else {
                    assert(rest.filter(keep)[i] == w);
                    assert(rest.filter(keep).contains(w));
                    let j = choose|j: int| 0 <= j < rest.len() && rest[j] == w;
                    assert(order[j] == w);
                }
            }
            if order.contains(w) && keep(w) {
                let j = choose|j: int| 0 <= j < order.len() && order[j] == w;
                if j < rest.len() {
                    assert(rest[j] == w);
                    assert(rest.filter(keep).contains(w));
                    let i = choose|i: int| 0 <= i < rest.filter(keep).len() && rest.filter(keep)[i] == w;
                    assert(out[i] == w);
                } else {
                    assert(out[out.len() - 1] == w);
                }
            }
        }
        if order.no_duplicates() {
            assert(rest.no_duplicates());
            assert(!rest.contains(order.last()));
            assert(!rest.filter(keep).contains(order.last()));
        }
    } else {
        assert(order.filter(keep) =~= order);
    }
}

/// A predicate that accepts every member filters nothing out.
pub proof fn lemma_filter_all(order: Seq<u64>, keep: spec_fn(u64) -> bool)
    requires
        forall|i: int| 0 <= i < order.len() ==> keep(#[trigger] order[i]),
    ensures
        order.filter(keep) == order,
    decreases order.len(),
{
    reveal(Seq::filter);
    if order.len() > 0 {
        lemma_filter_all(order.drop_last(), keep);
        assert(keep(order[order.len() - 1]));
        assert(order.drop_last().push(order.last()) =~= order);
    }
}

/// Whether `window` is in the list.
pub fn contains(list: &[u64], window: u64) -> (r: bool)
    ensures
        r == list@.contains(window),
{
    let mut i: usize = 0;
    while i < list.len()
        invariant
            i <= list@.len(),
            forall|k: int| 0 <= k < i ==> list@[k] != window,
        decreases list@.len() - i,
    {
        if list[i] == window {
            assert(list@[i as int] == window);
            return true;
        }
        i = i + 1;
    }
    false
}

/// Where `window` first occurs in the list.
pub fn find(list: &[u64], window: u64) -> (r: Option<usize>)
    ensures
        r is Some <==> list@.contains(window),
        r is Some ==> is_first_at(list@, window, r->0 as int) && position(list@, window) == Some(
            r->0 as int,
        ),
{
    let mut i: usize = 0;
    while i < list.len()
        invariant
            i <= list@.len(),
            forall|k: int| 0 <= k < i ==> list@[k] != window,
        decreases list@.len() - i,
    {
        if list[i] == window {
            proof {
                assert(list@[i as int] == window);
                lemma_position(list@, window, i as int);
            }
            return Some(i);
        }
        i = i + 1;
    }
    None
}

/// Copy of the members that are alive.
pub fn keep_alive(list: &[u64], alive: &[u64]) -> (r: Vec<u64>)
    ensures
        r@ == only_alive(list@, alive@),
{
    let mut r: Vec<u64> = Vec::new();
    let mut i: usize = 0;
    proof {
        reveal(Seq::filter);
        assert(list@.take(0).filter(one_of(alive@)) =~= Seq::<u64>::empty());
    }
    while i < list.len()
        invariant
            i <= list@.len(),
            r@ == list@.take(i as int).filter(one_of(alive@)),
        decreases list@.len() - i,
    {
        let w: u64 = list[i];
        let ghost next = list@.take(i + 1);
        proof {
            reveal(Seq::filter);
            assert(next.drop_last() =~= list@.take(i as int));
            assert(next.last() == w);
        }
        if contains(alive, w) {
            r.push(w);
        }
        i = i + 1;
    }
    assert(list@.take(i as int) =~= list@);
    r
}

/// Copy without `window`.
pub fn drop_window(list: &[u64], window: u64) -> (r: Vec<u64>)
    ensures
        r@ == without(list@, window),
{
    let mut r: Vec<u64> = Vec::new();
    let mut i: usize = 0;
    proof {
        reveal(Seq::filter);
        assert(list@.take(0).filter(other_than(window)) =~= Seq::<u64>::empty());
    }
    while i < list.len()
        invariant
            i <= list@.len(),
            r@ == list@.take(i as int).filter(other_than(window)),
        decreases list@.len() - i,
    {
        let w: u64 = list[i];
        let ghost next = list@.take(i + 1);
        proof {
            reveal(Seq::filter);
            assert(next.drop_last() =~= list@.take(i as int));
            assert(next.last() == w);
        }
        if w != window {
            r.push(w);
        }
        i = i + 1;
    }
    assert(list@.take(i as int) =~= list@);
    r
}

/// The windows that are alive stay, one by one and in their order; the others
/// go.
pub proof fn live_windows_stay_in_order(a: Seq<u64>, b: Seq<u64>, w: u64, alive: Seq<u64>)
    ensures
        only_alive(a + b, alive) == only_alive(a, alive) + only_alive(b, alive),
        alive.contains(w) ==> only_alive(seq![w], alive) == seq![w],
        !alive.contains(w) ==> only_alive(seq![w], alive).len() == 0,
        only_alive(Seq::empty(), alive).len() == 0,
{
    reveal(Seq::filter);
    let keep = one_of(alive);
    Seq::<u64>::filter_distributes_over_add(a, b, keep);
    let one = seq![w];
    assert(one.drop_last() =~= Seq::<u64>::empty());
    assert(Seq::<u64>::empty().filter(keep) =~= Seq::<u64>::empty());
    assert(one.filter(keep) =~= (if alive.contains(w) {
        seq![w]
    } else {
        Seq::<u64>::empty()
    }));
}

/// All windows but one stay, one by one and in their order.
pub proof fn other_windows_stay_in_order(a: Seq<u64>, b: Seq<u64>, w: u64, window: u64)
    ensures
        without(a + b, window) == without(a, window) + without(b, window),
        w != window ==> without(seq![w], window) == seq![w],
        without(seq![window], window).len() == 0,
        !without(a, window).contains(window),
        !a.contains(window) ==> without(a, window) == a,
{
    reveal(Seq::filter);
    let keep = other_than(window);
    Seq::<u64>::filter_distributes_over_add(a, b, keep);
    lemma_filter(a, keep);
    if !a.contains(window) {
        assert forall|i: int| 0 <= i < a.len() implies keep(#[trigger] a[i]) by {
            assert(a.contains(a[i]));
        }
        lemma_filter_all(a, keep);
    }
    assert(Seq::<u64>::empty().filter(keep) =~= Seq::<u64>::empty());
    let one = seq![w];
    assert(one.drop_last() =~= Seq::<u64>::empty());
    if w != window {
        assert(one.filter(keep) =~= one);
    }
    let gone = seq![window];
    assert(gone.drop_last() =~= Seq::<u64>::empty());
    assert(gone.last() == window);
    assert(gone.filter(keep) =~= Seq::<u64>::empty());
}

/// A window that is added to an order is in it exactly once more than before if
/// it was not in there, at the end; all others stay where they are.
pub proof fn added_window_comes_last(order: Seq<u64>, window: u64)
    ensures
        with_at_end(order, window).contains(window),
        order.contains(window) ==> with_at_end(order, window) == order,
        !order.contains(window) ==> with_at_end(order, window).last() == window && with_at_end(
            order,
            window,
        ).drop_last() == order,
        order.no_duplicates() ==> with_at_end(order, window).no_duplicates(),
{
    let after = with_at_end(order, window);
    if !order.contains(window) {
        assert(after[order.len() as int] == window);
        assert(after.drop_last() =~= order);
        if order.no_duplicates() {
            assert forall|i: int, j: int|
                0 <= i < after.len() && 0 <= j < after.len() && i != j implies after[i]
                != after[j] by {
                if i < order.len() {
                    assert(order.contains(order[i]));
                }
                if j < order.len() {
                    assert(order.contains(order[j]));
                }
            }
        }
    }
}

/// The position of a window is the first place that it is at.
pub proof fn position_is_the_first_place(order: Seq<u64>, window: u64)
    ensures
        position(order, window) is Some <==> order.contains(window),
        position(order, window) matches Some(i) ==> {
            &&& 0 <= i < order.len()
            &&& order[i] == window
            &&& !order.take(i).contains(window)
        },
{
    if order.contains(window) {
        lemma_position_exists(order, window);
        let i = position(order, window)->0;
        if order.take(i).contains(window) {
            let k = choose|k: int| 0 <= k < i && #[trigger] order.take(i)[k] == window;
            assert(order[k] == window);
        }
    }
}

} // verus!
