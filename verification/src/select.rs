//! What a filter over the characters keeps.

use crate::server::db::Person;
use vstd::prelude::*;

verus! {

/// Going one character further along a list either keeps that character or
/// passes over it.
pub proof fn lemma_filter_next(people: Seq<Person>, keep: spec_fn(Person) -> bool, i: int)
    requires
        0 <= i < people.len(),
    ensures
        people.take(i + 1).filter(keep) == if keep(people[i]) {
            people.take(i).filter(keep).push(people[i])
        } else {
            people.take(i).filter(keep)
        },
{
    assert(people.take(i + 1) =~= people.take(i).push(people[i]));
    people.take(i).lemma_filter_push(people[i], keep);
}

/// What a filter keeps was in the list.
pub proof fn lemma_filter_member(people: Seq<Person>, keep: spec_fn(Person) -> bool, i: int)
    requires
        0 <= i < people.filter(keep).len(),
    ensures
        people.contains(people.filter(keep)[i]),
    decreases people.len(),
{
    reveal(Seq::filter);
    if people.len() > 0 {
        let front = people.drop_last();
        if i < front.filter(keep).len() {
            lemma_filter_member(front, keep, i);
            let j = choose|j: int| 0 <= j < front.len() && front[j] == front.filter(keep)[i];
            assert(people[j] == front[j]);
        } else {
            assert(people.filter(keep)[i] == people[people.len() - 1]);
        }
    }
}

/// A filter that nothing passes keeps nothing.
pub proof fn lemma_filter_nothing(people: Seq<Person>, keep: spec_fn(Person) -> bool)
    requires
        forall|i: int| 0 <= i < people.len() ==> !keep(#[trigger] people[i]),
    ensures
        people.filter(keep).len() == 0,
    decreases people.len(),
{
    reveal(Seq::filter);
    if people.len() > 0 {
        let front = people.drop_last();
        assert forall|i: int| 0 <= i < front.len() implies !keep(#[trigger] front[i]) by {
            assert(front[i] == people[i]);
        }
        lemma_filter_nothing(front, keep);
        assert(!keep(people[people.len() - 1]));
    }
}

/// A filter keeps exactly those of the list that pass it.
pub proof fn lemma_filter_members(people: Seq<Person>, keep: spec_fn(Person) -> bool)
    ensures
        forall|p: Person| #[trigger]
            people.filter(keep).contains(p) <==> people.contains(p) && keep(p),
{
    assert forall|p: Person| #[trigger]
        people.filter(keep).contains(p) <==> people.contains(p) && keep(p) by {
        if people.filter(keep).contains(p) {
            let i = choose|i: int| 0 <= i < people.filter(keep).len() && people.filter(keep)[i] == p;
            people.lemma_filter_pred(keep, i);
            lemma_filter_member(people, keep, i);
        }
        if people.contains(p) && keep(p) {
            let i = choose|i: int| 0 <= i < people.len() && people[i] == p;
            people.lemma_filter_contains(keep, i);
        }
    }
}

} // verus!
