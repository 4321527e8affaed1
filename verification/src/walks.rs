//! The least walk between two places of a graph.
//!
//! A graph is a list of arcs, each from one named place to another; a walk is
//! the list of the positions of the arcs it takes. A walk with fewer arcs comes
//! before one with more; of two with as many, the one that takes the earlier
//! arc where they first part.

use vstd::prelude::*;

verus! {

/// An arc between two named places.
#[derive(Debug)]
pub struct Arc {
    pub from: String,
    pub to: String,
}

pub ghost struct ArcView {
    pub from: Seq<char>,
    pub to: Seq<char>,
}

impl View for Arc {
    type V = ArcView;

    open spec fn view(&self) -> ArcView {
        ArcView { from: self.from@, to: self.to@ }
    }
}

/// The views of a list of arcs.
pub open spec fn arc_views(arcs: Seq<Arc>) -> Seq<ArcView> {
    arcs.map_values(|arc: Arc| arc@)
}

/// Whether `walk` takes arcs, one behind the other, from one place to another.
pub open spec fn is_walk(
    arcs: Seq<ArcView>,
    walk: Seq<int>,
    from: Seq<char>,
    to: Seq<char>,
) -> bool
    decreases walk.len(),
{
    if walk.len() == 0 {
        from == to
    } else {
        &&& 0 <= walk.last() < arcs.len()
        &&& arcs[walk.last()].to == to
        &&& is_walk(arcs, walk.drop_last(), from, arcs[walk.last()].from)
    }
}

/// Whether two walks part at `k`, the first of them with the earlier arc.
pub open spec fn parts_below(a: Seq<int>, b: Seq<int>, k: int) -> bool {
    &&& 0 <= k < a.len()
    &&& k < b.len()
    &&& a.take(k) == b.take(k)
    &&& a[k] < b[k]
}

/// Whether one walk comes before another.
pub open spec fn walk_below(a: Seq<int>, b: Seq<int>) -> bool {
    a.len() < b.len() || (a.len() == b.len() && exists|k: int| parts_below(a, b, k))
}

/// Whether `walk` is a walk between two places and comes before every other.
pub open spec fn is_least_walk(
    arcs: Seq<ArcView>,
    walk: Seq<int>,
    from: Seq<char>,
    to: Seq<char>,
) -> bool {
    &&& is_walk(arcs, walk, from, to)
    &&& forall|other: Seq<int>| #[trigger]
        is_walk(arcs, other, from, to) ==> other == walk || walk_below(walk, other)
}

/// A list of positions as integers.
pub open spec fn positions(walk: Seq<usize>) -> Seq<int> {
    walk.map_values(|k: usize| k as int)
}

proof fn lemma_below_is_transitive(a: Seq<int>, b: Seq<int>, c: Seq<int>)
    requires
        walk_below(a, b),
        walk_below(b, c),
    ensures
        walk_below(a, c),
{
    if a.len() == b.len() && b.len() == c.len() {
        let j = choose|k: int| parts_below(a, b, k);
        let k = choose|k: int| parts_below(b, c, k);
        let m = if j < k {
            j
        } else {
            k
        };
        assert(a.take(m) =~= b.take(j).take(m)) by {
            assert(a.take(m) =~= a.take(j).take(m));
        }
        assert(b.take(m) =~= b.take(k).take(m));
        assert(c.take(m) =~= c.take(k).take(m));
        assert(b.take(j).take(m) =~= b.take(m));
        assert(a.take(m) == c.take(m));
        if j < k {
            assert(b[j] == b.take(k)[j]);
            assert(c[j] == c.take(k)[j]);
        } else if k < j {
            assert(a[k] == a.take(j)[k]);
            assert(b[k] == b.take(j)[k]);
        }
        assert(parts_below(a, c, m));
    }
}

/// A walk before another stays before it, whatever arcs both take next.
proof fn lemma_below_then(a: Seq<int>, b: Seq<int>, d: int, e: int)
    requires
        walk_below(a, b) || (a == b && d < e),
    ensures
        walk_below(a.push(d), b.push(e)),
{
    if a == b {
        assert(a.push(d).take(a.len() as int) =~= b.push(e).take(a.len() as int));
        assert(parts_below(a.push(d), b.push(e), a.len() as int));
    } else if a.len() == b.len() {
        let k = choose|k: int| parts_below(a, b, k);
        assert(a.push(d).take(k) =~= a.take(k));
        assert(b.push(e).take(k) =~= b.take(k));
        assert(parts_below(a.push(d), b.push(e), k));
    }
}

/// A place that the search has come to, and the walk by which it came there.
ghost struct Stop {
    place: Seq<char>,
    walk: Seq<int>,
}

/// Whether some stop is at the place, by a walk that is not behind `walk`.
spec fn is_reached(stops: Seq<Stop>, place: Seq<char>, walk: Seq<int>) -> bool {
    exists|j: int|
        0 <= j < stops.len() && (#[trigger] stops[j]).place == place && (stops[j].walk == walk
            || walk_below(stops[j].walk, walk))
}

/// Whether the search has followed the first arcs out of a stop.
spec fn is_followed(arcs: Seq<ArcView>, stops: Seq<Stop>, stop: Stop, upto: int) -> bool {
    forall|e: int|
        0 <= e < upto && (#[trigger] arcs[e]).from == stop.place ==> is_reached(
            stops,
            arcs[e].to,
            stop.walk.push(e),
        )
}

/// Whether a stop was come to from one before it in the search.
spec fn is_grown(stops: Seq<Stop>, stop: Stop, head: int, upto: int) -> bool {
    &&& stop.walk.len() > 0
    &&& exists|i: int|
        0 <= i <= head && i < stops.len() && stop.walk.drop_last() == (#[trigger] stops[i]).walk
            && (i < head || stop.walk.last() < upto)
}

/// The state of the search: the stops before `head` have been followed, and
/// the one at `head` along the first arcs.
spec fn is_search(
    arcs: Seq<ArcView>,
    stops: Seq<Stop>,
    from: Seq<char>,
    head: int,
    upto: int,
) -> bool {
    &&& stops.len() > 0
    &&& 0 <= head <= stops.len()
    &&& 0 <= upto <= arcs.len()
    &&& stops[0] == (Stop { place: from, walk: Seq::empty() })
    &&& forall|j: int|
        0 <= j < stops.len() ==> is_walk(
            arcs,
            (#[trigger] stops[j]).walk,
            from,
            stops[j].place,
        )
    &&& forall|i: int, j: int|
        0 <= i < j < stops.len() ==> (#[trigger] stops[i]).place != (#[trigger] stops[j]).place
            && walk_below(stops[i].walk, stops[j].walk)
    &&& forall|i: int| 0 <= i < head ==> is_followed(
        arcs,
        stops,
        #[trigger] stops[i],
        arcs.len() as int,
    )
    &&& head < stops.len() ==> is_followed(arcs, stops, stops[head], upto)
    &&& forall|j: int| 0 < j < stops.len() ==> is_grown(stops, #[trigger] stops[j], head, upto)
}

/// Every stop is by a walk before the one that the arc at `upto` leads to.
proof fn lemma_next_is_behind(
    arcs: Seq<ArcView>,
    stops: Seq<Stop>,
    from: Seq<char>,
    head: int,
    upto: int,
    j: int,
)
    requires
        is_search(arcs, stops, from, head, upto),
        head < stops.len(),
        0 <= j < stops.len(),
    ensures
        walk_below(stops[j].walk, stops[head].walk.push(upto)),
{
    if j > 0 {
        assert(is_grown(stops, stops[j], head, upto));
        let i = choose|i: int|
            0 <= i <= head && i < stops.len() && stops[j].walk.drop_last() == (
            #[trigger] stops[i]).walk && (i < head || stops[j].walk.last() < upto);
        if i < head {
            assert(stops[i].place != stops[head].place);
        }
        lemma_below_then(stops[i].walk, stops[head].walk, stops[j].walk.last(), upto);
        assert(stops[j].walk =~= stops[i].walk.push(stops[j].walk.last()));
    }
}

proof fn lemma_reached_stays(stops: Seq<Stop>, stop: Stop, place: Seq<char>, walk: Seq<int>)
    requires
        is_reached(stops, place, walk),
    ensures
        is_reached(stops.push(stop), place, walk),
{
    let j = choose|j: int|
        0 <= j < stops.len() && (#[trigger] stops[j]).place == place && (stops[j].walk == walk
            || walk_below(stops[j].walk, walk));
    assert(stops.push(stop)[j] == stops[j]);
}

/// The arc at `upto` leads to a place that is new to the search.
proof fn lemma_search_grows(
    arcs: Seq<ArcView>,
    stops: Seq<Stop>,
    from: Seq<char>,
    head: int,
    upto: int,
)
    requires
        is_search(arcs, stops, from, head, upto),
        head < stops.len(),
        upto < arcs.len(),
        arcs[upto].from == stops[head].place,
        forall|j: int| 0 <= j < stops.len() ==> (#[trigger] stops[j]).place != arcs[upto].to,
    ensures
        is_search(
            arcs,
            stops.push(Stop { place: arcs[upto].to, walk: stops[head].walk.push(upto) }),
            from,
            head,
            upto + 1,
        ),
{
    let stop = Stop { place: arcs[upto].to, walk: stops[head].walk.push(upto) };
    let more = stops.push(stop);
    assert(stop.walk.drop_last() =~= stops[head].walk);
    assert forall|j: int| 0 <= j < more.len() implies is_walk(
        arcs,
        (#[trigger] more[j]).walk,
        from,
        more[j].place,
    ) by {
        if j < stops.len() {
            assert(more[j] == stops[j]);
        }
    }
    assert forall|i: int, j: int| 0 <= i < j < more.len() implies (#[trigger] more[i]).place != (
    #[trigger] more[j]).place && walk_below(more[i].walk, more[j].walk) by {
        assert(more[i] == stops[i]);
        if j < stops.len() {
            assert(more[j] == stops[j]);
        } else {
            lemma_next_is_behind(arcs, stops, from, head, upto, i);
        }
    }
    assert forall|i: int| 0 <= i < head implies is_followed(
        arcs,
        more,
        #[trigger] more[i],
        arcs.len() as int,
    ) by {
        assert(more[i] == stops[i]);
        assert(is_followed(arcs, stops, stops[i], arcs.len() as int));
        assert forall|e: int|
            0 <= e < arcs.len() && (#[trigger] arcs[e]).from == more[i].place implies is_reached(
            more,
            arcs[e].to,
            more[i].walk.push(e),
        ) by {
            lemma_reached_stays(stops, stop, arcs[e].to, more[i].walk.push(e));
        }
    }
    assert(is_followed(arcs, more, more[head], upto + 1)) by {
        assert forall|e: int|
            0 <= e < upto + 1 && (#[trigger] arcs[e]).from == more[head].place implies is_reached(
            more,
            arcs[e].to,
            more[head].walk.push(e),
        ) by {
            if e < upto {
                lemma_reached_stays(stops, stop, arcs[e].to, more[head].walk.push(e));
            } else {
                assert(more[stops.len() as int] == stop);
            }
        }
    }
    assert forall|j: int| 0 < j < more.len() implies is_grown(
        more,
        #[trigger] more[j],
        head,
        upto + 1,
    ) by {
        if j < stops.len() {
            assert(more[j] == stops[j]);
            assert(is_grown(stops, stops[j], head, upto));
            let i = choose|i: int|
                0 <= i <= head && i < stops.len() && stops[j].walk.drop_last() == (
                #[trigger] stops[i]).walk && (i < head || stops[j].walk.last() < upto);
            assert(more[i] == stops[i]);
        } else {
            assert(more[head] == stops[head]);
        }
    }
}

/// The arc at `upto` does not leave the stop, or leads to a place that the
/// search has come to already.
proof fn lemma_search_passes(
    arcs: Seq<ArcView>,
    stops: Seq<Stop>,
    from: Seq<char>,
    head: int,
    upto: int,
)
    requires
        is_search(arcs, stops, from, head, upto),
        head < stops.len(),
        upto < arcs.len(),
        arcs[upto].from != stops[head].place || exists|j: int|
            0 <= j < stops.len() && (#[trigger] stops[j]).place == arcs[upto].to,
    ensures
        is_search(arcs, stops, from, head, upto + 1),
{
    assert(is_followed(arcs, stops, stops[head], upto + 1)) by {
        assert forall|e: int|
            0 <= e < upto + 1 && (#[trigger] arcs[e]).from == stops[head].place implies is_reached(
            stops,
            arcs[e].to,
            stops[head].walk.push(e),
        ) by {
            if e == upto {
                let j = choose|j: int|
                    0 <= j < stops.len() && (#[trigger] stops[j]).place == arcs[upto].to;
                lemma_next_is_behind(arcs, stops, from, head, upto, j);
            }
        }
    }
    assert forall|j: int| 0 < j < stops.len() implies is_grown(
        stops,
        #[trigger] stops[j],
        head,
        upto + 1,
    ) by {
        assert(is_grown(stops, stops[j], head, upto));
    }
}

/// Every arc has been tried from the stop at `head`.
proof fn lemma_search_advances(
    arcs: Seq<ArcView>,
    stops: Seq<Stop>,
    from: Seq<char>,
    head: int,
)
    requires
        is_search(arcs, stops, from, head, arcs.len() as int),
        head < stops.len(),
    ensures
        is_search(arcs, stops, from, head + 1, 0),
{
    assert forall|j: int| 0 < j < stops.len() implies is_grown(
        stops,
        #[trigger] stops[j],
        head + 1,
        0,
    ) by {
        assert(is_grown(stops, stops[j], head, arcs.len() as int));
        let i = choose|i: int|
            0 <= i <= head && i < stops.len() && stops[j].walk.drop_last() == (
            #[trigger] stops[i]).walk && (i < head || stops[j].walk.last() < arcs.len());
        assert(i < head + 1);
    }
}

/// The end of every walk has been come to by a walk that is not behind it, or
/// some stop that has not been followed yet is before the walk.
proof fn lemma_search_is_ahead(
    arcs: Seq<ArcView>,
    stops: Seq<Stop>,
    from: Seq<char>,
    head: int,
    walk: Seq<int>,
    to: Seq<char>,
)
    requires
        is_search(arcs, stops, from, head, 0),
        is_walk(arcs, walk, from, to),
    ensures
        is_reached(stops, to, walk) || exists|j: int|
            head <= j < stops.len() && walk_below((#[trigger] stops[j]).walk, walk),
    decreases walk.len(),
{
    if walk.len() == 0 {
        assert(walk =~= Seq::empty());
        assert(stops[0].place == to && stops[0].walk == walk);
    } else {
        let before = walk.drop_last();
        let e = walk.last();
        lemma_search_is_ahead(arcs, stops, from, head, before, arcs[e].from);
        assert(walk =~= before.push(e));
        if is_reached(stops, arcs[e].from, before) {
            let j = choose|j: int|
                0 <= j < stops.len() && (#[trigger] stops[j]).place == arcs[e].from && (
                stops[j].walk == before || walk_below(stops[j].walk, before));
            if j < head {
                assert(is_followed(arcs, stops, stops[j], arcs.len() as int));
                assert(is_reached(stops, arcs[e].to, stops[j].walk.push(e)));
                let k = choose|k: int|
                    0 <= k < stops.len() && (#[trigger] stops[k]).place == arcs[e].to && (
                    stops[k].walk == stops[j].walk.push(e) || walk_below(
                        stops[k].walk,
                        stops[j].walk.push(e),
                    ));
                if stops[j].walk != before {
                    lemma_below_then(stops[j].walk, before, e, e);
                    if stops[k].walk != stops[j].walk.push(e) {
                        lemma_below_is_transitive(
                            stops[k].walk,
                            stops[j].walk.push(e),
                            before.push(e),
                        );
                    }
                }
                assert(is_reached(stops, to, walk));
            } else {
                assert(walk_below(before, walk));
                if stops[j].walk != before {
                    lemma_below_is_transitive(stops[j].walk, before, walk);
                }
            }
        } else {
            let j = choose|j: int|
                head <= j < stops.len() && walk_below((#[trigger] stops[j]).walk, before);
            assert(walk_below(before, walk));
            lemma_below_is_transitive(stops[j].walk, before, walk);
        }
    }
}

/// When the search comes to follow the place it was for, the walk to it is the
/// least.
proof fn lemma_search_finds(
    arcs: Seq<ArcView>,
    stops: Seq<Stop>,
    from: Seq<char>,
    head: int,
)
    requires
        is_search(arcs, stops, from, head, 0),
        head < stops.len(),
    ensures
        is_least_walk(arcs, stops[head].walk, from, stops[head].place),
{
    let to = stops[head].place;
    let least = stops[head].walk;
    assert forall|other: Seq<int>| #[trigger]
        is_walk(arcs, other, from, to) implies other == least || walk_below(least, other) by {
        lemma_search_is_ahead(arcs, stops, from, head, other, to);
        if is_reached(stops, to, other) {
            let j = choose|j: int|
                0 <= j < stops.len() && (#[trigger] stops[j]).place == to && (stops[j].walk
                    == other || walk_below(stops[j].walk, other));
            assert(j == head);
        } else {
            let j = choose|j: int|
                head <= j < stops.len() && walk_below((#[trigger] stops[j]).walk, other);
            if j > head {
                assert(stops[head].place != stops[j].place);
                lemma_below_is_transitive(least, stops[j].walk, other);
            }
        }
    }
}

/// When the search has followed every stop, no walk leads to any other place.
proof fn lemma_search_misses(
    arcs: Seq<ArcView>,
    stops: Seq<Stop>,
    from: Seq<char>,
    to: Seq<char>,
    walk: Seq<int>,
)
    requires
        is_search(arcs, stops, from, stops.len() as int, 0),
        forall|j: int| 0 <= j < stops.len() ==> (#[trigger] stops[j]).place != to,
    ensures
        !is_walk(arcs, walk, from, to),
{
    if is_walk(arcs, walk, from, to) {
        lemma_search_is_ahead(arcs, stops, from, stops.len() as int, walk, to);
    }
}

/// No two stops were come to by the same arc, so there are no more of them
/// than arcs, but for the first.
proof fn lemma_search_is_bounded(
    arcs: Seq<ArcView>,
    stops: Seq<Stop>,
    from: Seq<char>,
    head: int,
    upto: int,
)
    requires
        is_search(arcs, stops, from, head, upto),
    ensures
        stops.len() <= arcs.len() + 1,
{
    let last = Seq::new((stops.len() - 1) as nat, |j: int| stops[j + 1].walk.last());
    assert forall|j: int| 0 <= j < last.len() implies 0 <= (#[trigger] last[j]) < arcs.len()
        && arcs[last[j]].to == stops[j + 1].place by {
        assert(is_grown(stops, stops[j + 1], head, upto));
        assert(is_walk(arcs, stops[j + 1].walk, from, stops[j + 1].place));
    }
    assert(last.no_duplicates()) by {
        assert forall|i: int, j: int| 0 <= i < j < last.len() implies last[i] != last[j] by {
            assert(stops[i + 1].place != stops[j + 1].place);
            assert(arcs[last[i]].to == stops[i + 1].place);
            assert(arcs[last[j]].to == stops[j + 1].place);
        }
    }
    last.unique_seq_to_set();
    let every = vstd::set_lib::set_int_range(0, arcs.len() as int);
    vstd::set_lib::lemma_int_range(0, arcs.len() as int);
    assert(last.to_set().subset_of(every)) by {
        assert forall|e: int| last.to_set().contains(e) implies every.contains(e) by {
            let j = choose|j: int| 0 <= j < last.len() && last[j] == e;
            assert(0 <= last[j] < arcs.len());
        }
    }
    vstd::set_lib::lemma_len_subset(last.to_set(), every);
}

/// The stops that the search's two lists stand for.
spec fn stops_of(places: Seq<String>, walks: Seq<Vec<usize>>) -> Seq<Stop> {
    Seq::new(places.len(), |j: int| Stop { place: places[j]@, walk: positions(walks[j]@) })
}

fn is_listed(places: &Vec<String>, place: &String) -> (r: bool)
    ensures
        r == exists|j: int| 0 <= j < places@.len() && (#[trigger] places@[j])@ == place@,
{
    for i in 0..places.len()
        invariant
            forall|j: int| 0 <= j < i ==> (#[trigger] places@[j])@ != place@,
    {
        if places[i] == *place {
            return true;
        }
    }
    false
}

/// A walk with one more arc.
fn longer(walk: &Vec<usize>, arc: usize) -> (r: Vec<usize>)
    ensures
        r@ == walk@.push(arc),
{
    let mut r: Vec<usize> = Vec::new();
    for i in 0..walk.len()
        invariant
            r@ == walk@.take(i as int),
    {
        assert(walk@.take(i + 1) =~= walk@.take(i as int).push(walk@[i as int]));
        r.push(walk[i]);
    }
    assert(r@ =~= walk@);
    r.push(arc);
    r
}

/// The least walk between two places, where there is a walk: the one with the
/// fewest arcs, and of those the one that takes the earliest arcs.
pub fn least_walk(arcs: &Vec<Arc>, from: &String, to: &String) -> (walk: Option<Vec<usize>>)
    ensures
        match walk {
            Some(found) => is_least_walk(arc_views(arcs@), positions(found@), from@, to@),
            None => forall|other: Seq<int>| !is_walk(arc_views(arcs@), other, from@, to@),
        },
{
    let ghost graph = arc_views(arcs@);
    let mut places: Vec<String> = Vec::new();
    let mut walks: Vec<Vec<usize>> = Vec::new();
    places.push(from.clone());
    let start: Vec<usize> = Vec::new();
    walks.push(start);
    let mut head: usize = 0;
    proof {
        let stops = stops_of(places@, walks@);
        assert(positions(walks@[0]@) =~= Seq::<int>::empty());
        assert(is_followed(graph, stops, stops[0], 0));
    }
    while head < places.len()
        invariant
            graph == arc_views(arcs@),
            places@.len() == walks@.len(),
            is_search(graph, stops_of(places@, walks@), from@, head as int, 0),
            forall|j: int| 0 <= j < head ==> (#[trigger] places@[j])@ != to@,
        decreases graph.len() + 1 - head,
    {
        let ghost stops = stops_of(places@, walks@);
        proof {
            lemma_search_is_bounded(graph, stops, from@, head as int, 0);
        }
        if places[head] == *to {
            proof {
                lemma_search_finds(graph, stops, from@, head as int);
            }
            let last: usize = walks[head].len();
            let mut found: Vec<usize> = Vec::new();
            for i in 0..last
                invariant
                    head < walks@.len(),
                    last == walks@[head as int]@.len(),
                    found@ == walks@[head as int]@.take(i as int),
            {
                assert(walks@[head as int]@.take(i + 1) =~= walks@[head as int]@.take(
                    i as int,
                ).push(walks@[head as int]@[i as int]));
                found.push(walks[head][i]);
            }
            assert(found@ =~= walks@[head as int]@);
            return Some(found);
        }
        for e in 0..arcs.len()
            invariant
                graph == arc_views(arcs@),
                places@.len() == walks@.len(),
                head < places@.len(),
                is_search(graph, stops_of(places@, walks@), from@, head as int, e as int),
                forall|j: int| 0 <= j <= head ==> (#[trigger] places@[j])@ != to@,
        {
            let ghost stops = stops_of(places@, walks@);
            assert(graph[e as int] == arcs@[e as int]@);
            if arcs[e].from == places[head] {
                if is_listed(&places, &arcs[e].to) {
                    proof {
                        let j = choose|j: int|
                            0 <= j < places@.len() && (#[trigger] places@[j])@
                                == arcs@[e as int].to@;
                        assert(stops[j].place == graph[e as int].to);
                        lemma_search_passes(graph, stops, from@, head as int, e as int);
                    }
                } else {
                    let next = longer(&walks[head], e);
                    proof {
                        assert(positions(next@) =~= stops[head as int].walk.push(e as int));
                        assert forall|j: int| 0 <= j < stops.len() implies (
                        #[trigger] stops[j]).place != graph[e as int].to by {
                            assert(places@[j]@ != arcs@[e as int].to@);
                        }
                        lemma_search_grows(graph, stops, from@, head as int, e as int);
                    }
                    places.push(arcs[e].to.clone());
                    walks.push(next);
                    assert(stops_of(places@, walks@) =~= stops.push(
                        Stop {
                            place: graph[e as int].to,
                            walk: stops[head as int].walk.push(e as int),
                        },
                    ));
                }
            } else {
                proof {
                    lemma_search_passes(graph, stops, from@, head as int, e as int);
                }
            }
        }
        proof {
            let stops = stops_of(places@, walks@);
            lemma_search_advances(graph, stops, from@, head as int);
            lemma_search_is_bounded(graph, stops, from@, head + 1, 0);
        }
        head = head + 1;
    }
    proof {
        let stops = stops_of(places@, walks@);
        assert forall|j: int| 0 <= j < stops.len() implies (#[trigger] stops[j]).place != to@ by {
            assert(places@[j]@ != to@);
        }
        assert forall|other: Seq<int>| !is_walk(graph, other, from@, to@) by {
            lemma_search_misses(graph, stops, from@, to@, other);
        }
    }
    None
}

} // verus!
