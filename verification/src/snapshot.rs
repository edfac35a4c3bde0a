//! What of a snapshot the heir depends on: who is in it and which edges it
//! holds, not the order in which they are listed.

use crate::data::{Edge, Gender};
use crate::logic::{
    all_siblings_of, child_of_any, children_of, children_of_all, class_of, has_edge, has_edge_to,
    heir_of, house_survivors_of, is_child, is_known, is_parent, is_sibling, is_survivor,
    lemma_first_rank_with_living, lemma_heir_by_rank, lemma_no_heir, parents_of, siblings_of,
};
use crate::names::lemma_name_lt_total;
use crate::order::none_alive;
use crate::select::lemma_filter_members;
use crate::server::db::Person;
use vstd::prelude::*;

verus! {

/// Every member of `a` is a member of `b`.
pub open spec fn members_within(a: Seq<Person>, b: Seq<Person>) -> bool {
    forall|p: Person| a.contains(p) ==> b.contains(p)
}

/// The two lists have the same members.
pub open spec fn same_members(a: Seq<Person>, b: Seq<Person>) -> bool {
    members_within(a, b) && members_within(b, a)
}

/// Every edge of `a` is an edge of `b`.
pub open spec fn edges_within(a: Seq<Edge>, b: Seq<Edge>) -> bool {
    forall|e: Edge| a.contains(e) ==> b.contains(e)
}

/// The two lists hold the same edges.
pub open spec fn same_edges(a: Seq<Edge>, b: Seq<Edge>) -> bool {
    edges_within(a, b) && edges_within(b, a)
}

/// Two characters of the list with one name are one character. This holds
/// where no name occurs twice.
pub open spec fn one_per_name(people: Seq<Person>) -> bool {
    forall|i: int, j: int|
        0 <= i < people.len() && 0 <= j < people.len() && (#[trigger] people[i]).name == (
        #[trigger] people[j]).name ==> people[i] == people[j]
}

/// A list without a repeated name has one character per name.
pub proof fn lemma_unique_names_one_per_name(people: Seq<Person>)
    requires
        forall|i: int, j: int|
            0 <= i < j < people.len() ==> (#[trigger] people[i]).name != (
            #[trigger] people[j]).name,
    ensures
        one_per_name(people),
{
    assert forall|i: int, j: int|
        0 <= i < people.len() && 0 <= j < people.len() && (#[trigger] people[i]).name == (
        #[trigger] people[j]).name implies people[i] == people[j] by {
        if i < j {
            assert(people[i].name != people[j].name);
        } else if j < i {
            assert(people[j].name != people[i].name);
        }
    }
}

/// An edge that one list holds is found in every list that holds its edges.
pub proof fn lemma_edge_carries(
    a: Seq<Edge>,
    b: Seq<Edge>,
    parent: Seq<char>,
    child: Seq<char>,
    sex: Gender,
)
    requires
        edges_within(a, b),
    ensures
        has_edge(a, parent, child) ==> has_edge(b, parent, child),
        has_edge_to(a, parent, child, sex) ==> has_edge_to(b, parent, child, sex),
{
    if has_edge(a, parent, child) {
        let i = choose|i: int|
            0 <= i < a.len() && (#[trigger] a[i]).parent_name == parent && a[i].child_name
                == child;
        assert(a.contains(a[i]));
        let j = choose|j: int| 0 <= j < b.len() && b[j] == a[i];
        assert(b[j].parent_name == parent && b[j].child_name == child);
    }
    if has_edge_to(a, parent, child, sex) {
        let i = choose|i: int|
            0 <= i < a.len() && (#[trigger] a[i]).parent_name == parent && a[i].child_name
                == child && a[i].child_sex == sex;
        assert(a.contains(a[i]));
        let j = choose|j: int| 0 <= j < b.len() && b[j] == a[i];
        assert(b[j].parent_name == parent && b[j].child_name == child && b[j].child_sex == sex);
    }
}

/// Lists of the same edges answer alike whether an edge exists.
pub proof fn lemma_same_edges_found(a: Seq<Edge>, b: Seq<Edge>)
    requires
        same_edges(a, b),
    ensures
        forall|parent: Seq<char>, child: Seq<char>| #[trigger]
            has_edge(a, parent, child) == has_edge(b, parent, child),
        forall|parent: Seq<char>, child: Seq<char>, sex: Gender| #[trigger]
            has_edge_to(a, parent, child, sex) == has_edge_to(b, parent, child, sex),
{
    assert forall|parent: Seq<char>, child: Seq<char>| #[trigger]
        has_edge(a, parent, child) == has_edge(b, parent, child) by {
        lemma_edge_carries(a, b, parent, child, Gender::M);
        lemma_edge_carries(b, a, parent, child, Gender::M);
    }
    assert forall|parent: Seq<char>, child: Seq<char>, sex: Gender| #[trigger]
        has_edge_to(a, parent, child, sex) == has_edge_to(b, parent, child, sex) by {
        lemma_edge_carries(a, b, parent, child, sex);
        lemma_edge_carries(b, a, parent, child, sex);
    }
}

/// Filters that agree on the members keep the same members of lists that
/// have the same members.
pub proof fn lemma_filters_agree(
    a: Seq<Person>,
    keep_a: spec_fn(Person) -> bool,
    b: Seq<Person>,
    keep_b: spec_fn(Person) -> bool,
)
    requires
        same_members(a, b),
        forall|p: Person| a.contains(p) ==> keep_a(p) == keep_b(p),
    ensures
        same_members(a.filter(keep_a), b.filter(keep_b)),
{
    lemma_filter_members(a, keep_a);
    lemma_filter_members(b, keep_b);
    assert forall|p: Person| a.filter(keep_a).contains(p) implies b.filter(keep_b).contains(p) by {
        assert(a.contains(p));
    }
    assert forall|p: Person| b.filter(keep_b).contains(p) implies a.filter(keep_a).contains(p) by {
        assert(b.contains(p));
        assert(a.contains(p));
    }
}

/// Who is a child of one of the parents depends on who the parents are and
/// which edges there are.
pub proof fn lemma_child_of_any_carries(
    edges: Seq<Edge>,
    parents: Seq<Person>,
    other_edges: Seq<Edge>,
    other_parents: Seq<Person>,
    child: Seq<char>,
)
    requires
        edges_within(edges, other_edges),
        members_within(parents, other_parents),
    ensures
        child_of_any(edges, parents, child) ==> child_of_any(other_edges, other_parents, child),
{
    if child_of_any(edges, parents, child) {
        let j = choose|j: int|
            0 <= j < parents.len() && has_edge(edges, (#[trigger] parents[j]).name, child);
        assert(parents.contains(parents[j]));
        let k = choose|k: int| 0 <= k < other_parents.len() && other_parents[k] == parents[j];
        lemma_edge_carries(edges, other_edges, parents[j].name, child, Gender::M);
        assert(has_edge(other_edges, other_parents[k].name, child));
    }
}

/// A member of two lists, one behind the other, is a member of one of them.
pub proof fn lemma_members_of_both(a: Seq<Person>, b: Seq<Person>)
    ensures
        forall|p: Person| #[trigger] (a + b).contains(p) <==> a.contains(p) || b.contains(p),
{
    assert forall|p: Person| #[trigger] (a + b).contains(p) <==> a.contains(p) || b.contains(
        p,
    ) by {
        if (a + b).contains(p) {
            let i = choose|i: int| 0 <= i < (a + b).len() && (a + b)[i] == p;
            if i < a.len() {
                assert(a[i] == p);
            } else {
                assert(b[i - a.len()] == p);
            }
        }
        if a.contains(p) {
            let i = choose|i: int| 0 <= i < a.len() && a[i] == p;
            assert((a + b)[i] == p);
        }
        if b.contains(p) {
            let i = choose|i: int| 0 <= i < b.len() && b[i] == p;
            assert((a + b)[a.len() + i] == p);
        }
    }
}

/// The children of all of a list are the children of its members.
pub proof fn lemma_children_of_all_members(
    of: Seq<Person>,
    sex: Gender,
    people: Seq<Person>,
    edges: Seq<Edge>,
)
    ensures
        forall|p: Person| #[trigger]
            children_of_all(of, sex, people, edges).contains(p) <==> exists|j: int|
                0 <= j < of.len() && children_of(
                    (#[trigger] of[j]).name,
                    sex,
                    people,
                    edges,
                ).contains(p),
    decreases of.len(),
{
    if of.len() > 0 {
        let front = of.drop_last();
        lemma_children_of_all_members(front, sex, people, edges);
        lemma_members_of_both(
            children_of_all(front, sex, people, edges),
            children_of(of.last().name, sex, people, edges),
        );
        assert forall|p: Person| #[trigger]
            children_of_all(of, sex, people, edges).contains(p) <==> exists|j: int|
                0 <= j < of.len() && children_of(
                    (#[trigger] of[j]).name,
                    sex,
                    people,
                    edges,
                ).contains(p) by {
            if children_of_all(of, sex, people, edges).contains(p) {
                if children_of_all(front, sex, people, edges).contains(p) {
                    let j = choose|j: int|
                        0 <= j < front.len() && children_of(
                            (#[trigger] front[j]).name,
                            sex,
                            people,
                            edges,
                        ).contains(p);
                    assert(of[j] == front[j]);
                } else {
                    assert(of[of.len() - 1] == of.last());
                }
            }
            if exists|j: int|
                0 <= j < of.len() && children_of(
                    (#[trigger] of[j]).name,
                    sex,
                    people,
                    edges,
                ).contains(p) {
                let j = choose|j: int|
                    0 <= j < of.len() && children_of(
                        (#[trigger] of[j]).name,
                        sex,
                        people,
                        edges,
                    ).contains(p);
                if j < front.len() {
                    assert(front[j] == of[j]);
                }
            }
        }
    }
}

/// Lists with the same members know the same names.
pub proof fn lemma_known_agrees(name: Seq<char>, people: Seq<Person>, other_people: Seq<Person>)
    requires
        same_members(people, other_people),
    ensures
        is_known(name, people) == is_known(name, other_people),
{
    if is_known(name, people) {
        let i = choose|i: int| 0 <= i < people.len() && (#[trigger] people[i]).name == name;
        assert(people.contains(people[i]));
        let j = choose|j: int| 0 <= j < other_people.len() && other_people[j] == people[i];
        assert(other_people[j].name == name);
    }
    if is_known(name, other_people) {
        let i = choose|i: int|
            0 <= i < other_people.len() && (#[trigger] other_people[i]).name == name;
        assert(other_people.contains(other_people[i]));
        let j = choose|j: int| 0 <= j < people.len() && people[j] == other_people[i];
        assert(people[j].name == name);
    }
}

/// Snapshots with the same characters and the same edges give the same
/// parents.
pub proof fn lemma_parents_agree(
    name: Seq<char>,
    people: Seq<Person>,
    edges: Seq<Edge>,
    other_people: Seq<Person>,
    other_edges: Seq<Edge>,
)
    requires
        same_members(people, other_people),
        same_edges(edges, other_edges),
    ensures
        same_members(
            parents_of(name, people, edges),
            parents_of(name, other_people, other_edges),
        ),
{
    lemma_known_agrees(name, people, other_people);
    lemma_same_edges_found(edges, other_edges);
    lemma_filters_agree(
        people,
        is_parent(name, edges),
        other_people,
        is_parent(name, other_edges),
    );
}

/// Snapshots with the same characters and the same edges give the same
/// children.
pub proof fn lemma_children_agree(
    name: Seq<char>,
    sex: Gender,
    people: Seq<Person>,
    edges: Seq<Edge>,
    other_people: Seq<Person>,
    other_edges: Seq<Edge>,
)
    requires
        same_members(people, other_people),
        same_edges(edges, other_edges),
    ensures
        same_members(
            children_of(name, sex, people, edges),
            children_of(name, sex, other_people, other_edges),
        ),
{
    lemma_known_agrees(name, people, other_people);
    lemma_same_edges_found(edges, other_edges);
    lemma_filters_agree(
        people,
        is_child(name, sex, edges),
        other_people,
        is_child(name, sex, other_edges),
    );
}

/// Snapshots with the same characters and the same edges give the same
/// siblings.
pub proof fn lemma_siblings_agree(
    name: Seq<char>,
    sex: Gender,
    people: Seq<Person>,
    edges: Seq<Edge>,
    other_people: Seq<Person>,
    other_edges: Seq<Edge>,
)
    requires
        same_members(people, other_people),
        same_edges(edges, other_edges),
    ensures
        same_members(
            siblings_of(name, sex, people, edges),
            siblings_of(name, sex, other_people, other_edges),
        ),
{
    let parents = parents_of(name, people, edges);
    let other_parents = parents_of(name, other_people, other_edges);
    lemma_parents_agree(name, people, edges, other_people, other_edges);
    lemma_known_agrees(name, people, other_people);
    assert forall|p: Person| people.contains(p) implies is_sibling(name, sex, parents, edges)(p)
        == is_sibling(name, sex, other_parents, other_edges)(p) by {
        lemma_child_of_any_carries(edges, parents, other_edges, other_parents, p.name);
        lemma_child_of_any_carries(other_edges, other_parents, edges, parents, p.name);
    }
    lemma_filters_agree(
        people,
        is_sibling(name, sex, parents, edges),
        other_people,
        is_sibling(name, sex, other_parents, other_edges),
    );
}

/// Snapshots with the same characters and the same edges give the same
/// nephews and the same nieces.
pub proof fn lemma_siblings_children_agree(
    name: Seq<char>,
    sex: Gender,
    people: Seq<Person>,
    edges: Seq<Edge>,
    other_people: Seq<Person>,
    other_edges: Seq<Edge>,
)
    requires
        same_members(people, other_people),
        same_edges(edges, other_edges),
    ensures
        same_members(
            children_of_all(all_siblings_of(name, people, edges), sex, people, edges),
            children_of_all(
                all_siblings_of(name, other_people, other_edges),
                sex,
                other_people,
                other_edges,
            ),
        ),
{
    let of = all_siblings_of(name, people, edges);
    let other_of = all_siblings_of(name, other_people, other_edges);
    lemma_siblings_agree(name, Gender::F, people, edges, other_people, other_edges);
    lemma_siblings_agree(name, Gender::M, people, edges, other_people, other_edges);
    lemma_members_of_both(
        siblings_of(name, Gender::F, people, edges),
        siblings_of(name, Gender::M, people, edges),
    );
    lemma_members_of_both(
        siblings_of(name, Gender::F, other_people, other_edges),
        siblings_of(name, Gender::M, other_people, other_edges),
    );
    assert(same_members(of, other_of));
    lemma_children_of_all_carries(of, other_of, sex, people, edges, other_people, other_edges);
    lemma_children_of_all_carries(other_of, of, sex, other_people, other_edges, people, edges);
}

/// The children of all of a list are among the children of all of a list
/// that holds its members, in a snapshot with the same characters and edges.
pub proof fn lemma_children_of_all_carries(
    of: Seq<Person>,
    other_of: Seq<Person>,
    sex: Gender,
    people: Seq<Person>,
    edges: Seq<Edge>,
    other_people: Seq<Person>,
    other_edges: Seq<Edge>,
)
    requires
        members_within(of, other_of),
        same_members(people, other_people),
        same_edges(edges, other_edges),
    ensures
        members_within(
            children_of_all(of, sex, people, edges),
            children_of_all(other_of, sex, other_people, other_edges),
        ),
{
    lemma_children_of_all_members(of, sex, people, edges);
    lemma_children_of_all_members(other_of, sex, other_people, other_edges);
    assert forall|p: Person|
        children_of_all(of, sex, people, edges).contains(p) implies children_of_all(
        other_of,
        sex,
        other_people,
        other_edges,
    ).contains(p) by {
        let j = choose|j: int|
            0 <= j < of.len() && children_of((#[trigger] of[j]).name, sex, people, edges).contains(
                p,
            );
        assert(of.contains(of[j]));
        let k = choose|k: int| 0 <= k < other_of.len() && other_of[k] == of[j];
        lemma_children_agree(of[j].name, sex, people, edges, other_people, other_edges);
        assert(children_of(other_of[k].name, sex, other_people, other_edges).contains(p));
    }
}

/// Snapshots with the same characters have the same survivors of a house.
pub proof fn lemma_survivors_agree(name: Seq<char>, people: Seq<Person>, other_people: Seq<Person>)
    requires
        same_members(people, other_people),
    ensures
        same_members(house_survivors_of(name, people), house_survivors_of(name, other_people)),
{
    lemma_known_agrees(name, people, other_people);
    lemma_filters_agree(people, is_survivor(name), other_people, is_survivor(name));
}

/// Snapshots with the same characters and the same edges have the same
/// members in each class of candidates.
pub proof fn lemma_classes_agree(
    rank: int,
    name: Seq<char>,
    people: Seq<Person>,
    edges: Seq<Edge>,
    other_people: Seq<Person>,
    other_edges: Seq<Edge>,
)
    requires
        same_members(people, other_people),
        same_edges(edges, other_edges),
    ensures
        same_members(
            class_of(rank, name, people, edges),
            class_of(rank, name, other_people, other_edges),
        ),
        none_alive(class_of(rank, name, people, edges)) == none_alive(
            class_of(rank, name, other_people, other_edges),
        ),
{
    lemma_children_agree(name, Gender::M, people, edges, other_people, other_edges);
    lemma_children_agree(name, Gender::F, people, edges, other_people, other_edges);
    lemma_siblings_agree(name, Gender::M, people, edges, other_people, other_edges);
    lemma_siblings_agree(name, Gender::F, people, edges, other_people, other_edges);
    lemma_siblings_children_agree(name, Gender::M, people, edges, other_people, other_edges);
    lemma_siblings_children_agree(name, Gender::F, people, edges, other_people, other_edges);
    lemma_survivors_agree(name, people, other_people);
    lemma_living_carries(
        class_of(rank, name, people, edges),
        class_of(rank, name, other_people, other_edges),
    );
    lemma_living_carries(
        class_of(rank, name, other_people, other_edges),
        class_of(rank, name, people, edges),
    );
}

/// Where a list has a living member, so has every list that holds its
/// members.
pub proof fn lemma_living_carries(a: Seq<Person>, b: Seq<Person>)
    requires
        members_within(a, b),
    ensures
        none_alive(b) ==> none_alive(a),
{
    if none_alive(b) {
        assert forall|j: int| 0 <= j < a.len() implies !(#[trigger] a[j]).alive by {
            assert(a.contains(a[j]));
            let k = choose|k: int| 0 <= k < b.len() && b[k] == a[j];
            assert(!b[k].alive);
        }
    }
}

/// The members of every class of candidates are characters of the snapshot.
pub proof fn lemma_class_within_people(
    rank: int,
    name: Seq<char>,
    people: Seq<Person>,
    edges: Seq<Edge>,
)
    ensures
        members_within(class_of(rank, name, people, edges), people),
{
    let parents = parents_of(name, people, edges);
    lemma_filter_members(people, is_child(name, Gender::M, edges));
    lemma_filter_members(people, is_child(name, Gender::F, edges));
    lemma_filter_members(people, is_sibling(name, Gender::M, parents, edges));
    lemma_filter_members(people, is_sibling(name, Gender::F, parents, edges));
    lemma_filter_members(people, is_survivor(name));
    let of = all_siblings_of(name, people, edges);
    lemma_children_of_all_members(of, Gender::M, people, edges);
    lemma_children_of_all_members(of, Gender::F, people, edges);
    assert forall|p: Person|
        class_of(rank, name, people, edges).contains(p) implies people.contains(p) by {
        if rank == 2 || rank == 5 {
            let sex = if rank == 2 {
                Gender::M
            } else {
                Gender::F
            };
            let j = choose|j: int|
                0 <= j < of.len() && children_of(
                    (#[trigger] of[j]).name,
                    sex,
                    people,
                    edges,
                ).contains(p);
            lemma_filter_members(people, is_child(of[j].name, sex, edges));
        }
    }
}

/// The heir does not depend on the order in which a snapshot lists its
/// characters and its edges: where names identify the characters, snapshots
/// with the same characters and the same edges give the same heir.
pub proof fn lemma_heir_ignores_order(
    name: Seq<char>,
    people: Seq<Person>,
    edges: Seq<Edge>,
    other_people: Seq<Person>,
    other_edges: Seq<Edge>,
)
    requires
        one_per_name(people),
        same_members(people, other_people),
        same_edges(edges, other_edges),
    ensures
        heir_of(name, people, edges) == heir_of(name, other_people, other_edges),
{
    lemma_no_heir(name, people, edges);
    lemma_no_heir(name, other_people, other_edges);
    assert forall|j: int|
        none_alive(#[trigger] class_of(j, name, people, edges)) == none_alive(
            class_of(j, name, other_people, other_edges),
        ) by {
        lemma_classes_agree(j, name, people, edges, other_people, other_edges);
    }
    if heir_of(name, people, edges) is Some {
        let some = choose|j: int|
            0 <= j <= 6 && !none_alive(#[trigger] class_of(j, name, people, edges));
        let rank = lemma_first_rank_with_living(some, name, people, edges);
        let mine = class_of(rank, name, people, edges);
        let theirs = class_of(rank, name, other_people, other_edges);
        assert forall|j: int| 0 <= j < rank implies none_alive(
            #[trigger] class_of(j, name, other_people, other_edges),
        ) by {
            assert(none_alive(class_of(j, name, people, edges)));
        }
        lemma_heir_by_rank(rank, name, people, edges);
        lemma_heir_by_rank(rank, name, other_people, other_edges);
        lemma_classes_agree(rank, name, people, edges, other_people, other_edges);
        lemma_class_within_people(rank, name, people, edges);
        let h = heir_of(name, people, edges)->0;
        let g = heir_of(name, other_people, other_edges)->0;
        assert(theirs.contains(h));
        assert(mine.contains(g));
        let i = choose|i: int| 0 <= i < theirs.len() && theirs[i] == h;
        let k = choose|k: int| 0 <= k < mine.len() && mine[k] == g;
        assert(theirs[i].alive);
        assert(mine[k].alive);
        lemma_name_lt_total(h.name, g.name);
        assert(people.contains(h));
        assert(people.contains(g));
        let a = choose|a: int| 0 <= a < people.len() && people[a] == h;
        let b = choose|b: int| 0 <= b < people.len() && people[b] == g;
        assert(people[a].name == people[b].name);
    } else {
        assert forall|j: int| 0 <= j <= 6 implies none_alive(
            #[trigger] class_of(j, name, other_people, other_edges),
        ) by {
            assert(none_alive(class_of(j, name, people, edges)));
        }
    }
}

} // verus!
