//! Values under keys, each key once.

use vstd::prelude::*;

verus! {

/// Entries with a value under a key: in place of the one under the key, where
/// there is one, or behind the others.
pub open spec fn with_entry<V>(entries: Seq<(String, V)>, key: String, value: V) -> Seq<
    (String, V),
>
    decreases entries.len(),
{
    if entries.len() == 0 {
        seq![(key, value)]
    } else if entries[0].0@ == key@ {
        seq![(key, value)] + entries.drop_first()
    } else {
        seq![entries[0]] + with_entry(entries.drop_first(), key, value)
    }
}

/// A value is put in place of the first one under its key, where there is one,
/// and behind the others where there is none; nothing else changes.
pub proof fn lemma_with_entry<V>(entries: Seq<(String, V)>, key: String, value: V, place: int)
    requires
        0 <= place <= entries.len(),
        forall|k: int| 0 <= k < place ==> (#[trigger] entries[k]).0@ != key@,
        place < entries.len() ==> entries[place].0@ == key@,
    ensures
        with_entry(entries, key, value) == if place < entries.len() {
            entries.update(place, (key, value))
        } else {
            entries.push((key, value))
        },
    decreases entries.len(),
{
    if entries.len() == 0 {
        assert(entries.push((key, value)) =~= seq![(key, value)]);
    } else if place == 0 {
        assert(entries.update(0, (key, value)) =~= seq![(key, value)] + entries.drop_first());
    } else {
        let rest = entries.drop_first();
        assert forall|k: int| 0 <= k < place - 1 implies (#[trigger] rest[k]).0@ != key@ by {
            assert(entries[k + 1].0@ != key@);
        }
        lemma_with_entry(rest, key, value, place - 1);
        assert(entries[0].0@ != key@);
        if place < entries.len() {
            assert(entries.update(place, (key, value)) =~= seq![entries[0]] + rest.update(
                place - 1,
                (key, value),
            ));
        } else {
            assert(entries.push((key, value)) =~= seq![entries[0]] + rest.push((key, value)));
        }
    }
}

/// Puts a value under a key.
pub fn put_entry<V>(entries: &mut Vec<(String, V)>, key: String, value: V)
    ensures
        final(entries)@ == with_entry(old(entries)@, key, value),
        (forall|k: int| 0 <= k < old(entries)@.len() ==> (#[trigger] old(entries)@[k]).0@ != key@)
            ==> final(entries)@ == old(entries)@.push((key, value)),
        forall|place: int|
            0 <= place < old(entries)@.len() && (#[trigger] old(entries)@[place]).0@ == key@ && (
            forall|k: int| 0 <= k < place ==> (#[trigger] old(entries)@[k]).0@ != key@)
                ==> final(entries)@ == old(entries)@.update(place, (key, value)),
{
    let ghost before = entries@;
    let mut place: usize = 0;
    while place < entries.len() && entries[place].0 != key
        invariant
            entries@ == before,
            place <= entries@.len(),
            forall|k: int| 0 <= k < place ==> (#[trigger] before[k]).0@ != key@,
        decreases entries@.len() - place,
    {
        place = place + 1;
    }
    proof {
        lemma_with_entry(before, key, value, place as int);
        assert forall|p: int|
            0 <= p < before.len() && (#[trigger] before[p]).0@ == key@ && (forall|k: int|
                0 <= k < p ==> (#[trigger] before[k]).0@ != key@) implies p == place by {
            if place < p {
                assert(before[place as int].0@ != key@);
            }
        }
    }
    if place < entries.len() {
        entries.set(place, (key, value));
    } else {
        entries.push((key, value));
    }
}

} // verus!
