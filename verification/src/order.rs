//! Ordering candidates by name, and finding the first of them who lives.

use crate::names::{
    lemma_name_lt_asymmetric, lemma_name_lt_irreflexive, lemma_name_lt_total, lemma_name_lt_transitive, name_before, name_le,
    name_lt,
};
use crate::select::lemma_filter_nothing;
use crate::server::db::{Character, Person};
use vstd::prelude::*;

verus! {

/// Puts `p` into `s` behind the last of those that `p` does not sort before.
pub open spec fn insert_by_name(s: Seq<Person>, p: Person) -> Seq<Person>
    decreases s.len(),
{
    if s.len() > 0 && name_lt(p.name, s.last().name) {
        insert_by_name(s.drop_last(), p).push(s.last())
    } else {
        s.push(p)
    }
}

/// `s` in the order of the names; those of one name stay in the order they
/// had.
pub open spec fn sorted_by_name(s: Seq<Person>) -> Seq<Person>
    decreases s.len(),
{
    if s.len() == 0 {
        s
    } else {
        insert_by_name(sorted_by_name(s.drop_last()), s.last())
    }
}

/// No member of `s` sorts before one that stands in front of it.
pub open spec fn ordered_by_name(s: Seq<Person>) -> bool {
    forall|i: int, j: int| 0 <= i < j < s.len() ==> name_le(s[i].name, s[j].name)
}

/// `pos` is where `p` belongs in `s`: in front of all that it sorts before,
/// behind one that it does not sort before.
pub open spec fn is_place_of(s: Seq<Person>, p: Person, pos: int) -> bool {
    &&& 0 <= pos <= s.len()
    &&& forall|j: int| pos <= j < s.len() ==> name_lt(p.name, (#[trigger] s[j]).name)
    &&& pos == 0 || !name_lt(p.name, s[pos - 1].name)
}

/// Inserting by name puts the new member at its place and moves nothing else.
pub proof fn lemma_insert_at_place(s: Seq<Person>, p: Person, pos: int)
    requires
        is_place_of(s, p, pos),
    ensures
        insert_by_name(s, p) == s.insert(pos, p),
    decreases s.len(),
{
    if pos < s.len() {
        let front = s.drop_last();
        assert(name_lt(p.name, s[s.len() - 1].name));
        assert forall|j: int| pos <= j < front.len() implies name_lt(
            p.name,
            (#[trigger] front[j]).name,
        ) by {
            assert(front[j] == s[j]);
        }
        lemma_insert_at_place(front, p, pos);
        assert(front.insert(pos, p).push(s.last()) =~= s.insert(pos, p));
    } else {
        assert(s.push(p) =~= s.insert(pos, p));
    }
}

/// Every member has a place.
pub proof fn lemma_place_exists(s: Seq<Person>, p: Person) -> (pos: int)
    ensures
        is_place_of(s, p, pos),
    decreases s.len(),
{
    if s.len() > 0 && name_lt(p.name, s.last().name) {
        let front = s.drop_last();
        let pos = lemma_place_exists(front, p);
        assert forall|j: int| pos <= j < s.len() implies name_lt(p.name, (#[trigger] s[j]).name) by {
            if j < front.len() {
                assert(front[j] == s[j]);
            }
        }
        if pos > 0 {
            assert(front[pos - 1] == s[pos - 1]);
        }
        pos
    } else {
        s.len() as int
    }
}

/// A name that sorts before another sorts before all that the other does not
/// sort behind.
pub proof fn lemma_lt_then_le(a: Seq<char>, b: Seq<char>, c: Seq<char>)
    requires
        name_lt(a, b),
        name_le(b, c),
    ensures
        name_lt(a, c),
{
    lemma_name_lt_total(b, c);
    if b != c {
        lemma_name_lt_transitive(a, b, c);
    }
}

/// Inserting by name into an ordered list leaves it ordered.
pub proof fn lemma_insert_keeps_order(s: Seq<Person>, p: Person)
    requires
        ordered_by_name(s),
    ensures
        ordered_by_name(insert_by_name(s, p)),
{
    let pos = lemma_place_exists(s, p);
    lemma_insert_at_place(s, p, pos);
    let t = s.insert(pos, p);
    assert forall|i: int, j: int| 0 <= i < j < t.len() implies name_le(t[i].name, t[j].name) by {
        if i == pos {
            assert(t[j] == s[j - 1]);
            lemma_name_lt_asymmetric(p.name, s[j - 1].name);
        } else if j == pos {
            assert(t[i] == s[i]);
            if name_lt(p.name, s[i].name) {
                if i < pos - 1 {
                    lemma_lt_then_le(p.name, s[i].name, s[pos - 1].name);
                }
            }
        } else {
            let i0 = if i < pos { i } else { i - 1 };
            let j0 = if j < pos { j } else { j - 1 };
            assert(t[i] == s[i0]);
            assert(t[j] == s[j0]);
        }
    }
}

/// What was sorted by name is ordered by name.
pub proof fn lemma_sorted_is_ordered(s: Seq<Person>)
    ensures
        ordered_by_name(sorted_by_name(s)),
    decreases s.len(),
{
    if s.len() > 0 {
        lemma_sorted_is_ordered(s.drop_last());
        lemma_insert_keeps_order(sorted_by_name(s.drop_last()), s.last());
    }
}

/// Sorting by name neither adds nor loses a member.
pub proof fn lemma_sorted_same_members(s: Seq<Person>)
    ensures
        sorted_by_name(s).to_multiset() == s.to_multiset(),
        sorted_by_name(s).len() == s.len(),
        forall|p: Person| sorted_by_name(s).contains(p) == s.contains(p),
    decreases s.len(),
{
    broadcast use {
        vstd::seq_lib::to_multiset_build,
        vstd::seq_lib::to_multiset_insert,
        vstd::seq_lib::to_multiset_contains,
        vstd::seq_lib::to_multiset_len,
    };

    if s.len() > 0 {
        let front = s.drop_last();
        lemma_sorted_same_members(front);
        let pos = lemma_place_exists(sorted_by_name(front), s.last());
        lemma_insert_at_place(sorted_by_name(front), s.last(), pos);
        assert(front.push(s.last()) =~= s);
    }
    assert forall|p: Person| sorted_by_name(s).contains(p) == s.contains(p) by {
        assert(sorted_by_name(s).to_multiset().count(p) == s.to_multiset().count(p));
    }
}

/// Sorts the characters by name. Those of one name stay in the order they
/// had.
pub fn sort_by_name(v: &mut Vec<Character>)
    ensures
        final(v).deep_view() == sorted_by_name(old(v).deep_view()),
{
    let ghost given = v.deep_view();
    let mut i: usize = 0;
    assert(v.deep_view() =~= sorted_by_name(given.take(0)) + given.skip(0));
    while i < v.len()
        invariant
            i <= v.len(),
            v.len() == given.len(),
            v.deep_view() == sorted_by_name(given.take(i as int)) + given.skip(i as int),
            sorted_by_name(given.take(i as int)).len() == i,
        decreases v.len() - i,
    {
        let ghost done = sorted_by_name(given.take(i as int));
        let ghost before = v.deep_view();
        let ghost held = v@;
        let c = v.remove(i);
        assert(c@ == given[i as int]) by {
            assert(before[i as int] == held[i as int]@);
            assert(before[i as int] == given.skip(i as int)[0]);
        }
        assert(v.deep_view() =~= done + given.skip(i + 1)) by {
            assert forall|j: int| 0 <= j < v.len() implies v.deep_view()[j] == (done + given.skip(
                i + 1,
            ))[j] by {
                if j < i {
                    assert(v@[j] == held[j]);
                    assert(before[j] == held[j]@);
                } else {
                    assert(v@[j] == held[j + 1]);
                    assert(before[j + 1] == held[j + 1]@);
                    assert(before[j + 1] == given.skip(i as int)[j + 1 - i]);
                }
            }
        }
        let mut pos: usize = i;
        while pos > 0 && name_before(c.name.as_str(), v[pos - 1].name.as_str())
            invariant
                pos <= i,
                i < given.len(),
                v.len() + 1 == given.len(),
                done.len() == i,
                v.deep_view() == done + given.skip(i + 1),
                forall|j: int| pos <= j < i ==> name_lt(c.name@, (#[trigger] done[j]).name),
            decreases pos,
        {
            assert(v.deep_view()[pos - 1] == done[pos - 1]);
            pos -= 1;
        }
        proof {
            if pos > 0 {
                assert(v.deep_view()[pos - 1] == done[pos - 1]);
            }
            assert(is_place_of(done, c@, pos as int));
            lemma_insert_at_place(done, c@, pos as int);
            assert(given.take(i + 1).drop_last() =~= given.take(i as int));
            lemma_sorted_same_members(given.take(i + 1));
        }
        let ghost without = v.deep_view();
        v.insert(pos, c);
        assert(v.deep_view() =~= without.insert(pos as int, c@));
        assert(v.deep_view() =~= done.insert(pos as int, c@) + given.skip(i + 1));
        i += 1;
    }
    assert(given.take(i as int) =~= given);
    assert(v.deep_view() =~= sorted_by_name(given));
}

/// The member at `i` lives and none in front of it does.
pub open spec fn is_first_alive(s: Seq<Person>, i: int) -> bool {
    &&& 0 <= i < s.len()
    &&& s[i].alive
    &&& forall|j: int| 0 <= j < i ==> !(#[trigger] s[j]).alive
}

/// No member of `s` lives.
pub open spec fn none_alive(s: Seq<Person>) -> bool {
    forall|j: int| 0 <= j < s.len() ==> !(#[trigger] s[j]).alive
}

/// The first member of `s` who lives, if any does.
pub open spec fn first_alive(s: Seq<Person>) -> Option<Person> {
    if exists|i: int| is_first_alive(s, i) {
        Some(s[choose|i: int| is_first_alive(s, i)])
    } else {
        None
    }
}

/// A living member with none living in front of it is the first alive.
pub proof fn lemma_first_alive_is(s: Seq<Person>, i: int)
    requires
        is_first_alive(s, i),
    ensures
        first_alive(s) == Some(s[i]),
{
    let k = choose|k: int| is_first_alive(s, k);
    if k < i {
        assert(!s[k].alive);
    } else if i < k {
        assert(!s[i].alive);
    }
}

/// Where nobody lives, nobody is the first alive, and the other way round.
pub proof fn lemma_first_alive_none(s: Seq<Person>)
    ensures
        first_alive(s) is None <==> none_alive(s),
{
    if none_alive(s) {
        if exists|i: int| is_first_alive(s, i) {
            let k = choose|k: int| is_first_alive(s, k);
            assert(!s[k].alive);
        }
    } else {
        let j = choose|j: int| 0 <= j < s.len() && (#[trigger] s[j]).alive;
        let k = lemma_first_alive_before(s, j);
    }
}

/// In front of a living member, or at it, stands the first alive.
pub proof fn lemma_first_alive_before(s: Seq<Person>, j: int) -> (k: int)
    requires
        0 <= j < s.len(),
        s[j].alive,
    ensures
        0 <= k <= j,
        is_first_alive(s, k),
        first_alive(s) == Some(s[k]),
    decreases j,
{
    if exists|i: int| 0 <= i < j && (#[trigger] s[i]).alive {
        let i = choose|i: int| 0 <= i < j && (#[trigger] s[i]).alive;
        lemma_first_alive_before(s, i)
    } else {
        lemma_first_alive_is(s, j);
        j
    }
}

/// The first alive of two lists, one behind the other, is that of the front
/// one, and that of the back one where the front one has none.
pub proof fn lemma_first_alive_concat(a: Seq<Person>, b: Seq<Person>)
    ensures
        first_alive(a + b) == if first_alive(a) is Some {
            first_alive(a)
        } else {
            first_alive(b)
        },
{
    lemma_first_alive_none(a);
    lemma_first_alive_none(b);
    lemma_first_alive_none(a + b);
    if first_alive(a) is Some {
        let i = choose|i: int| is_first_alive(a, i);
        assert forall|j: int| 0 <= j < i implies !(#[trigger] (a + b)[j]).alive by {
            assert(!a[j].alive);
        }
        assert((a + b)[i] == a[i]);
        lemma_first_alive_is(a + b, i);
    } else if first_alive(b) is Some {
        let i = choose|i: int| is_first_alive(b, i);
        let k = a.len() + i;
        assert forall|j: int| 0 <= j < k implies !(#[trigger] (a + b)[j]).alive by {
            if j < a.len() {
                assert(!a[j].alive);
            } else {
                assert(!b[j - a.len()].alive);
            }
        }
        assert((a + b)[k] == b[i]);
        lemma_first_alive_is(a + b, k);
    } else {
        assert forall|j: int| 0 <= j < (a + b).len() implies !(#[trigger] (a + b)[j]).alive by {
            if j < a.len() {
                assert(!a[j].alive);
            } else {
                assert(!b[j - a.len()].alive);
            }
        }
    }
}

/// The first of the characters who lives, if any does.
pub fn find_first_alive(v: &Vec<Character>) -> (r: Option<Character>)
    ensures
        r.deep_view() == first_alive(v.deep_view()),
{
    let ghost s = v.deep_view();
    let mut i: usize = 0;
    while i < v.len()
        invariant
            i <= v.len(),
            s == v.deep_view(),
            forall|j: int| 0 <= j < i ==> !(#[trigger] s[j]).alive,
        decreases v.len() - i,
    {
        assert(s[i as int] == v[i as int]@);
        if v[i].alive {
            proof {
                lemma_first_alive_is(s, i as int);
            }
            return Some(v[i].clone());
        }
        i += 1;
    }
    proof {
        lemma_first_alive_none(s);
    }
    None
}

/// `h` is a living member of `s`, and no living member of `s` sorts before
/// it.
pub open spec fn is_least_alive(s: Seq<Person>, h: Person) -> bool {
    &&& s.contains(h)
    &&& h.alive
    &&& forall|i: int| 0 <= i < s.len() && (#[trigger] s[i]).alive ==> name_le(h.name, s[i].name)
}

/// Where a member of `s` lives, the first alive of `s` sorted by name is a
/// living member of `s` that no living member sorts before.
pub proof fn lemma_first_alive_of_sorted(s: Seq<Person>)
    requires
        !none_alive(s),
    ensures
        first_alive(sorted_by_name(s)) is Some,
        is_least_alive(s, first_alive(sorted_by_name(s))->0),
{
    let t = sorted_by_name(s);
    lemma_sorted_same_members(s);
    lemma_sorted_is_ordered(s);
    let j = choose|j: int| 0 <= j < s.len() && (#[trigger] s[j]).alive;
    assert(s.contains(s[j]));
    let m = choose|m: int| 0 <= m < t.len() && t[m] == s[j];
    let k = lemma_first_alive_before(t, m);
    let h = t[k];
    assert(t.contains(h));
    assert forall|i: int| 0 <= i < s.len() && (#[trigger] s[i]).alive implies name_le(
        h.name,
        s[i].name,
    ) by {
        assert(s.contains(s[i]));
        let n = choose|n: int| 0 <= n < t.len() && t[n] == s[i];
        if n < k {
            assert(!t[n].alive);
        } else if n == k {
            lemma_name_lt_irreflexive(h.name);
        }
    }
}

/// Where no member of `s` lives, `s` sorted by name has no first alive.
pub proof fn lemma_no_first_alive_of_sorted(s: Seq<Person>)
    ensures
        none_alive(s) <==> first_alive(sorted_by_name(s)) is None,
{
    let t = sorted_by_name(s);
    lemma_sorted_same_members(s);
    lemma_first_alive_none(t);
    if none_alive(s) {
        assert forall|j: int| 0 <= j < t.len() implies !(#[trigger] t[j]).alive by {
            assert(t.contains(t[j]));
            assert(s.contains(t[j]));
            let i = choose|i: int| 0 <= i < s.len() && s[i] == t[j];
            assert(!s[i].alive);
        }
    } else {
        lemma_first_alive_of_sorted(s);
    }
}

/// Picks those who bear the name `n`.
pub open spec fn bears(n: Seq<char>) -> spec_fn(Person) -> bool {
    |p: Person| p.name == n
}

/// Sorting by name leaves those of one name in the order they had.
pub proof fn lemma_sorted_keeps_ties(s: Seq<Person>, n: Seq<char>)
    ensures
        sorted_by_name(s).filter(bears(n)) == s.filter(bears(n)),
    decreases s.len(),
{
    if s.len() > 0 {
        let front = s.drop_last();
        let x = s.last();
        let t = sorted_by_name(front);
        let same = bears(n);
        lemma_sorted_keeps_ties(front, n);
        let pos = lemma_place_exists(t, x);
        lemma_insert_at_place(t, x, pos);
        let head = t.take(pos);
        let tail = t.skip(pos);
        assert(t.insert(pos, x) =~= head.push(x) + tail);
        assert(t =~= head + tail);
        Seq::filter_distributes_over_add(head.push(x), tail, same);
        Seq::filter_distributes_over_add(head, tail, same);
        head.lemma_filter_push(x, same);
        front.lemma_filter_push(x, same);
        assert(front.push(x) =~= s);
        if same(x) {
            assert forall|i: int| 0 <= i < tail.len() implies !same(#[trigger] tail[i]) by {
                assert(tail[i] == t[pos + i]);
                lemma_name_lt_irreflexive(x.name);
            }
            lemma_filter_nothing(tail, same);
            assert(head.filter(same).push(x) + tail.filter(same) =~= (head.filter(same)
                + tail.filter(same)).push(x));
        }
    } else {
        assert(sorted_by_name(s) =~= s);
    }
}

} // verus!
