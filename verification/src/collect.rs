//! Sequences in which every element has to be there.

use vstd::prelude::*;

verus! {

/// The elements, where every one of them is there.
pub open spec fn all_of<A>(elements: Seq<Option<A>>) -> Option<Seq<A>> {
    if forall|i: int| 0 <= i < elements.len() ==> (#[trigger] elements[i]) is Some {
        Some(Seq::new(elements.len(), |i: int| elements[i]->0))
    } else {
        None
    }
}

/// What [`all_of`] makes of one element more.
pub proof fn lemma_all_of_step<A>(elements: Seq<Option<A>>, i: int)
    requires
        0 <= i < elements.len(),
    ensures
        all_of(elements.take(i + 1)) == match (all_of(elements.take(i)), elements[i]) {
            (Some(before), Some(element)) => Some(before.push(element)),
            _ => None,
        },
{
    let before = elements.take(i);
    let after = elements.take(i + 1);
    assert forall|j: int| 0 <= j < i implies before[j] == after[j] by {}
    assert(after[i] == elements[i]);
    if all_of(before) is Some && elements[i] is Some {
        assert forall|j: int| 0 <= j < after.len() implies (#[trigger] after[j]) is Some by {
            if j < i {
                assert(before[j] is Some);
            }
        }
        assert(all_of(after)->0 =~= all_of(before)->0.push(elements[i]->0));
    } else if all_of(before) is None {
        let j = choose|j: int| 0 <= j < before.len() && !((#[trigger] before[j]) is Some);
        assert(after[j] is None);
    }
}

/// One element that is not there leaves nothing.
pub proof fn lemma_all_of_none<A>(elements: Seq<Option<A>>, i: int)
    requires
        0 <= i < elements.len(),
        elements[i] is None,
    ensures
        all_of(elements) is None,
{
}

/// What a filter keeps was there, and has the property.
pub proof fn lemma_kept<A>(elements: Seq<A>, is_kept: spec_fn(A) -> bool)
    ensures
        forall|k: int|
            0 <= k < elements.filter(is_kept).len() ==> elements.contains(
                #[trigger] elements.filter(is_kept)[k],
            ) && is_kept(elements.filter(is_kept)[k]),
    decreases elements.len(),
{
    reveal(Seq::filter);
    if elements.len() > 0 {
        let fewer = elements.drop_last();
        lemma_kept(fewer, is_kept);
        let now = elements.filter(is_kept);
        assert forall|k: int| 0 <= k < now.len() implies elements.contains(#[trigger] now[k])
            && is_kept(now[k]) by {
            if k < fewer.filter(is_kept).len() {
                assert(now[k] == fewer.filter(is_kept)[k]);
                assert(fewer.contains(now[k]));
                let i = choose|i: int| 0 <= i < fewer.len() && fewer[i] == now[k];
                assert(elements[i] == now[k]);
            } else {
                assert(elements[elements.len() - 1] == now[k]);
            }
        }
    }
}

/// Whether positions are some of the first, each once, in their order.
pub open spec fn are_positions(positions: Seq<int>, n: int) -> bool {
    &&& forall|k: int| 0 <= k < positions.len() ==> 0 <= #[trigger] positions[k] < n
    &&& forall|j: int, k: int|
        0 <= j < k < positions.len() ==> #[trigger] positions[j] < #[trigger] positions[k]
}

/// Where what a filter keeps was: at positions in their order, all those at
/// which an element has the property.
pub proof fn lemma_kept_positions<A>(elements: Seq<A>, is_kept: spec_fn(A) -> bool) -> (positions:
    Seq<int>)
    ensures
        are_positions(positions, elements.len() as int),
        positions.len() == elements.filter(is_kept).len(),
        forall|k: int|
            0 <= k < positions.len() ==> elements.filter(is_kept)[k]
                == elements[#[trigger] positions[k]] && is_kept(elements[positions[k]]),
        forall|i: int|
            0 <= i < elements.len() && is_kept(#[trigger] elements[i]) ==> positions.contains(i),
    decreases elements.len(),
{
    reveal(Seq::filter);
    if elements.len() == 0 {
        Seq::empty()
    } else {
        let fewer = elements.drop_last();
        let last = elements.len() - 1;
        let before = lemma_kept_positions(fewer, is_kept);
        if is_kept(elements.last()) {
            let positions = before.push(last);
            assert forall|i: int|
                0 <= i < elements.len() && is_kept(#[trigger] elements[i])
                    implies positions.contains(
                i,
            ) by {
                if i < last {
                    assert(fewer[i] == elements[i]);
                    let k = choose|k: int| 0 <= k < before.len() && before[k] == i;
                    assert(positions[k] == i);
                } else {
                    assert(positions[positions.len() - 1] == i);
                }
            }
            assert forall|k: int| 0 <= k < positions.len() implies elements.filter(is_kept)[k]
                == elements[#[trigger] positions[k]] && is_kept(elements[positions[k]]) by {
                if k < before.len() {
                    assert(positions[k] == before[k]);
                    assert(fewer[before[k]] == elements[before[k]]);
                }
            }
            assert(are_positions(positions, elements.len() as int)) by {
                assert forall|j: int, k: int| 0 <= j < k < positions.len() implies
                    #[trigger] positions[j] < #[trigger] positions[k] by {
                    assert(positions[j] == before[j]);
                    if k < before.len() {
                        assert(positions[k] == before[k]);
                    }
                }
            }
            positions
        } else {
            assert forall|i: int|
                0 <= i < elements.len() && is_kept(#[trigger] elements[i]) implies before.contains(
                i,
            ) by {
                assert(fewer[i] == elements[i]);
            }
            assert forall|k: int| 0 <= k < before.len() implies elements.filter(is_kept)[k]
                == elements[#[trigger] before[k]] && is_kept(elements[before[k]]) by {
                assert(fewer[before[k]] == elements[before[k]]);
            }
            before
        }
    }
}

/// Positions among positions.
pub proof fn lemma_positions_among(outer: Seq<int>, inner: Seq<int>,
    n: int) -> (positions: Seq<int>)
    requires
        are_positions(outer, n),
        are_positions(inner, outer.len() as int),
    ensures
        are_positions(positions, n),
        positions.len() == inner.len(),
        forall|k: int|
            0 <= k < positions.len() ==> #[trigger] positions[k] == outer[inner[k]] && 0 <= inner[k]
                < outer.len(),
{
    let positions = Seq::new(inner.len(), |k: int| outer[inner[k]]);
    assert forall|k: int| 0 <= k < positions.len() implies 0 <= #[trigger] positions[k] < n by {
        assert(0 <= inner[k] < outer.len());
        assert(0 <= outer[inner[k]] < n);
    }
    assert forall|j: int, k: int| 0 <= j < k < positions.len() implies #[trigger] positions[j]
        < #[trigger] positions[k] by {
        assert(inner[j] < inner[k]);
        assert(0 <= inner[j] && inner[k] < outer.len());
        assert(outer[inner[j]] < outer[inner[k]]);
    }
    assert forall|k: int| 0 <= k < positions.len() implies #[trigger] positions[k]
        == outer[inner[k]] && 0 <= inner[k] < outer.len() by {
        assert(0 <= inner[k] < outer.len());
    }
    positions
}

/// Ascending positions stay ascending when the next position joins them.
pub proof fn lemma_grown_positions(before: Seq<int>, last: int, is_kept: bool, places: Seq<int>)
    requires
        0 <= last,
        are_positions(before, last),
        is_kept ==> places == before.push(last),
        !is_kept ==> places == before,
    ensures
        are_positions(places, last + 1),
        forall|i: int| 0 <= i < last ==> (#[trigger] places.contains(i) <==> before.contains(i)),
        places.contains(last) <==> is_kept,
{
    assert forall|i: int| 0 <= i < last implies (#[trigger] places.contains(i) <==> before.contains(
        i,
    )) by {
        if before.contains(i) {
            let k = choose|k: int| 0 <= k < before.len() && before[k] == i;
            assert(places[k] == i);
        }
    }
    if is_kept {
        assert(places[before.len() as int] == last);
        assert forall|j: int, k: int| 0 <= j < k < places.len() implies #[trigger] places[j]
            < #[trigger] places[k] by {
            assert(places[j] == before[j]);
            if k < before.len() {
                assert(places[k] == before[k]);
            }
        }
        assert forall|k: int| 0 <= k < places.len() implies 0 <= #[trigger] places[k] < last
            + 1 by {
            if k < before.len() {
                assert(places[k] == before[k]);
            }
        }
    } else if places.contains(last) {
        let k = choose|k: int| 0 <= k < before.len() && before[k] == last;
        assert(before[k] < last);
    }
}

/// A filter keeps all that has the property.
pub proof fn lemma_keeps<A>(elements: Seq<A>, is_kept: spec_fn(A) -> bool, element: A)
    requires
        elements.contains(element),
        is_kept(element),
    ensures
        elements.filter(is_kept).contains(element),
    decreases elements.len(),
{
    reveal(Seq::filter);
    let i = choose|i: int| 0 <= i < elements.len() && elements[i] == element;
    let fewer = elements.drop_last();
    let now = elements.filter(is_kept);
    if i < elements.len() - 1 {
        assert(fewer[i] == element);
        lemma_keeps(fewer, is_kept, element);
        let k = choose|k: int|
            0 <= k < fewer.filter(is_kept).len() && fewer.filter(is_kept)[k] == element;
        assert(now[k] == element);
    } else {
        assert(now[now.len() - 1] == element);
    }
}

} // verus!
