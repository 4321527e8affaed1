//! Texts, each once, in ascending order.

use crate::text::{
    is_text_below, lemma_text_not_below_itself, lemma_text_order_is_total,
    lemma_text_order_is_transitive, text_below, texts,
};
use vstd::prelude::*;

verus! {

/// Whether each text comes before the next.
pub open spec fn is_ascending(list: Seq<Seq<char>>) -> bool {
    forall|i: int, j: int|
        0 <= i < j < list.len() ==> text_below(#[trigger] list[i], #[trigger] list[j])
}

/// Whether a list holds the members of a set, each once, in ascending order.
pub open spec fn is_listing(list: Seq<Seq<char>>, members: Set<Seq<char>>) -> bool {
    is_ascending(list) && list.to_set() == members
}

/// The members of a set, each once, in ascending order.
pub open spec fn listing(members: Set<Seq<char>>) -> Seq<Seq<char>> {
    choose|list: Seq<Seq<char>>| is_listing(list, members)
}

/// There is only one way to list a set in ascending order.
pub proof fn lemma_listing_is_unique(
    a: Seq<Seq<char>>,
    b: Seq<Seq<char>>,
    members: Set<Seq<char>>,
)
    requires
        is_listing(a, members),
        is_listing(b, members),
    ensures
        a == b,
    decreases a.len(),
{
    if a.len() == 0 {
        assert(b.len() == 0) by {
            if b.len() > 0 {
                assert(b.to_set().contains(b[0]));
                assert(a.to_set().contains(b[0]));
            }
        }
        assert(a =~= b);
    } else {
        assert(a.to_set().contains(a.last()));
        assert(b.to_set().contains(a.last()));
        let j = choose|j: int| 0 <= j < b.len() && b[j] == a.last();
        assert(b.to_set().contains(b.last()));
        assert(a.to_set().contains(b.last()));
        let i = choose|i: int| 0 <= i < a.len() && a[i] == b.last();
        if a.last() != b.last() {
            assert(text_below(b[j], b[b.len() - 1]));
            assert(text_below(a[i], a[a.len() - 1]));
            lemma_text_order_is_transitive(a.last(), b.last(), a.last());
            lemma_text_not_below_itself(a.last());
        }
        let rest = a.drop_last().to_set();
        lemma_listing_without_last(a);
        lemma_listing_without_last(b);
        lemma_listing_is_unique(a.drop_last(), b.drop_last(), rest);
        assert(a =~= a.drop_last().push(a.last()));
        assert(b =~= b.drop_last().push(b.last()));
    }
}

proof fn lemma_listing_without_last(a: Seq<Seq<char>>)
    requires
        a.len() > 0,
        is_ascending(a),
    ensures
        is_ascending(a.drop_last()),
        a.drop_last().to_set() == a.to_set().remove(a.last()),
{
    assert forall|x: Seq<char>| a.drop_last().to_set().contains(x) == a.to_set().remove(
        a.last(),
    ).contains(x) by {
        if a.drop_last().to_set().contains(x) {
            let i = choose|i: int| 0 <= i < a.drop_last().len() && a.drop_last()[i] == x;
            assert(a[i] == x);
            assert(text_below(a[i], a[a.len() - 1]));
            lemma_text_not_below_itself(x);
        }
        if a.to_set().contains(x) && x != a.last() {
            let i = choose|i: int| 0 <= i < a.len() && a[i] == x;
            assert(a.drop_last()[i] == x);
        }
    }
    assert(a.drop_last().to_set() =~= a.to_set().remove(a.last()));
}

/// Puts a text in its place in a list that is in ascending order, unless it is
/// there already.
fn insert_text(list: &mut Vec<String>, text: &String)
    requires
        is_ascending(texts(old(list)@)),
    ensures
        is_ascending(texts(final(list)@)),
        texts(final(list)@).to_set() == texts(old(list)@).to_set().insert(text@),
{
    let ghost before = texts(list@);
    let mut p: usize = 0;
    while p < list.len() && is_text_below(list[p].as_str(), text.as_str())
        invariant
            texts(list@) == before,
            p <= list@.len(),
            forall|k: int| 0 <= k < p ==> text_below(#[trigger] before[k], text@),
        decreases list@.len() - p,
    {
        assert(before[p as int] == list@[p as int]@);
        p = p + 1;
    }
    if p < list.len() && list[p] == *text {
        proof {
            assert(before[p as int] == text@);
            assert(before.to_set().contains(text@));
            assert(before.to_set() =~= before.to_set().insert(text@));
        }
    } else {
        list.insert(p, text.clone());
        proof {
            let now = texts(list@);
            assert(now =~= before.insert(p as int, text@));
            if p < before.len() {
                lemma_text_order_is_total(text@, before[p as int]);
                assert(text_below(text@, before[p as int]));
            }
            assert forall|i: int, j: int| 0 <= i < j < now.len() implies text_below(
                #[trigger] now[i],
                #[trigger] now[j],
            ) by {
                if j < p {
                    assert(now[i] == before[i] && now[j] == before[j]);
                } else if j == p {
                    assert(now[i] == before[i]);
                } else if i < p {
                    assert(now[i] == before[i] && now[j] == before[j - 1]);
                } else if i == p {
                    assert(now[j] == before[j - 1]);
                    if j - 1 > p {
                        lemma_text_order_is_transitive(text@, before[p as int], before[j - 1]);
                    }
                } else {
                    assert(now[i] == before[i - 1] && now[j] == before[j - 1]);
                }
            }
            assert forall|x: Seq<char>| now.to_set().contains(x) == before.to_set().insert(
                text@,
            ).contains(x) by {
                if now.to_set().contains(x) {
                    let i = choose|i: int| 0 <= i < now.len() && now[i] == x;
                    if i < p {
                        assert(before[i] == x);
                    } else if i > p {
                        assert(before[i - 1] == x);
                    }
                }
                if before.to_set().contains(x) {
                    let i = choose|i: int| 0 <= i < before.len() && before[i] == x;
                    if i < p {
                        assert(now[i] == x);
                    } else {
                        assert(now[i + 1] == x);
                    }
                }
                assert(now[p as int] == text@);
            }
            assert(now.to_set() =~= before.to_set().insert(text@));
        }
    }
}

/// The texts of a list, each once, in ascending order.
pub fn sorted_distinct(list: &Vec<String>) -> (sorted: Vec<String>)
    ensures
        is_listing(texts(sorted@), texts(list@).to_set()),
        texts(sorted@) == listing(texts(list@).to_set()),
        forall|i: int, j: int|
            0 <= i < j < sorted@.len() ==> text_below(
                (#[trigger] sorted@[i])@,
                (#[trigger] sorted@[j])@,
            ),
        forall|text: Seq<char>| #[trigger]
            texts(sorted@).contains(text) <==> texts(list@).contains(text),
{
    let mut sorted: Vec<String> = Vec::new();
    let ghost every = texts(list@);
    assert(texts(sorted@).to_set() =~= every.take(0).to_set());
    for i in 0..list.len()
        invariant
            every == texts(list@),
            is_ascending(texts(sorted@)),
            texts(sorted@).to_set() == every.take(i as int).to_set(),
    {
        proof {
            let before = every.take(i as int);
            let now = every.take(i + 1);
            assert(now =~= before.push(every[i as int]));
            assert forall|x: Seq<char>| now.to_set().contains(x) == before.to_set().insert(
                every[i as int],
            ).contains(x) by {
                if before.to_set().contains(x) {
                    let k = choose|k: int| 0 <= k < before.len() && before[k] == x;
                    assert(now[k] == x);
                }
                assert(now[i as int] == every[i as int]);
                if now.to_set().contains(x) && x != every[i as int] {
                    let k = choose|k: int| 0 <= k < now.len() && now[k] == x;
                    assert(before[k] == x);
                }
            }
            assert(now.to_set() =~= before.to_set().insert(every[i as int]));
        }
        insert_text(&mut sorted, &list[i]);
    }
    proof {
        assert(every.take(every.len() as int) =~= every);
        lemma_listing_is_unique(texts(sorted@), listing(every.to_set()), every.to_set());
        let views = texts(sorted@);
        assert forall|i: int, j: int| 0 <= i < j < sorted@.len() implies text_below(
            (#[trigger] sorted@[i])@,
            (#[trigger] sorted@[j])@,
        ) by {
            assert(text_below(views[i], views[j]));
        }
        assert forall|text: Seq<char>| #[trigger] views.contains(text)
            <==> every.contains(text) by {
            assert(views.to_set().contains(text) <==> every.to_set().contains(text));
        }
    }
    sorted
}

/// A list with a text put in its place.
proof fn place(list: Seq<Seq<char>>, text: Seq<char>) -> (placed: Seq<Seq<char>>)
    requires
        is_ascending(list),
    ensures
        is_listing(placed, list.to_set().insert(text)),
    decreases list.len(),
{
    if list.len() == 0 || text_below(list.last(), text) {
        let placed = list.push(text);
        assert forall|i: int, j: int| 0 <= i < j < placed.len() implies text_below(
            #[trigger] placed[i],
            #[trigger] placed[j],
        ) by {
            assert(placed[i] == list[i]);
            if j < list.len() {
                assert(placed[j] == list[j]);
            } else if i < list.len() - 1 {
                assert(text_below(list[i], list[list.len() - 1]));
                lemma_text_order_is_transitive(list[i], list.last(), text);
            }
        }
        lemma_pushed_set(list, text);
        placed
    } else if list.last() == text {
        assert(list.to_set().contains(list.last()));
        assert(list.to_set().insert(text) =~= list.to_set());
        list
    } else {
        lemma_text_order_is_total(list.last(), text);
        let fewer = list.drop_last();
        let before = place(fewer, text);
        let placed = before.push(list.last());
        assert forall|i: int, j: int| 0 <= i < j < placed.len() implies text_below(
            #[trigger] placed[i],
            #[trigger] placed[j],
        ) by {
            assert(placed[i] == before[i]);
            if j < before.len() {
                assert(placed[j] == before[j]);
            } else {
                assert(before.to_set().contains(before[i]));
                if before[i] != text {
                    assert(fewer.to_set().contains(before[i]));
                    let k = choose|k: int| 0 <= k < fewer.len() && fewer[k] == before[i];
                    assert(text_below(list[k], list[list.len() - 1]));
                }
            }
        }
        lemma_pushed_set(before, list.last());
        lemma_pushed_set(fewer, list.last());
        assert(list =~= fewer.push(list.last()));
        assert(placed.to_set() =~= list.to_set().insert(text));
        placed
    }
}

proof fn lemma_pushed_set(list: Seq<Seq<char>>, text: Seq<char>)
    ensures
        list.push(text).to_set() == list.to_set().insert(text),
{
    let more = list.push(text);
    assert forall|x: Seq<char>| more.to_set().contains(x) == list.to_set().insert(text).contains(
        x,
    ) by {
        if list.to_set().contains(x) {
            let k = choose|k: int| 0 <= k < list.len() && list[k] == x;
            assert(more[k] == x);
        }
        assert(more[list.len() as int] == text);
        if more.to_set().contains(x) && x != text {
            let k = choose|k: int| 0 <= k < more.len() && more[k] == x;
            assert(list[k] == x);
        }
    }
    assert(more.to_set() =~= list.to_set().insert(text));
}

proof fn list_in_order(list: Seq<Seq<char>>) -> (sorted: Seq<Seq<char>>)
    ensures
        is_listing(sorted, list.to_set()),
    decreases list.len(),
{
    if list.len() == 0 {
        list
    } else {
        let before = list_in_order(list.drop_last());
        lemma_pushed_set(list.drop_last(), list.last());
        assert(list =~= list.drop_last().push(list.last()));
        place(before, list.last())
    }
}

/// The texts of every list can be listed in ascending order.
pub proof fn lemma_listing_exists(list: Seq<Seq<char>>)
    ensures
        is_listing(listing(list.to_set()), list.to_set()),
{
    let sorted = list_in_order(list);
    assert(is_listing(sorted, list.to_set()));
}

} // verus!
