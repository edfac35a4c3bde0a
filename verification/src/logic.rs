//! The family graph and the order of succession.

use crate::data::{Edge, Gender, Relationship};
use crate::names::{ends_in_house, house_of, last_token};
use crate::order::{
    find_first_alive, first_alive, is_least_alive, lemma_first_alive_concat,
    lemma_first_alive_none, lemma_first_alive_of_sorted, lemma_no_first_alive_of_sorted,
    none_alive, sort_by_name, sorted_by_name,
};
use crate::select::{lemma_filter_member, lemma_filter_next, lemma_filter_nothing};
use crate::server::db::{Character, Person};
use vstd::prelude::*;

verus! {

/// Some character of the snapshot bears the name.
pub open spec fn is_known(name: Seq<char>, people: Seq<Person>) -> bool {
    exists|i: int| 0 <= i < people.len() && (#[trigger] people[i]).name == name
}

/// Whether some character of the snapshot bears the name.
pub fn knows(name: &String, characters: &Vec<Character>) -> (r: bool)
    ensures
        r == is_known(name@, characters.deep_view()),
{
    let ghost people = characters.deep_view();
    let mut i: usize = 0;
    while i < characters.len()
        invariant
            i <= characters.len(),
            people == characters.deep_view(),
            forall|j: int| 0 <= j < i ==> (#[trigger] people[j]).name != name@,
        decreases characters.len() - i,
    {
        assert(people[i as int] == characters[i as int]@);
        if characters[i].name == *name {
            return true;
        }
        i += 1;
    }
    false
}

/// Some edge leads from `parent` to `child`.
pub open spec fn has_edge(edges: Seq<Edge>, parent: Seq<char>, child: Seq<char>) -> bool {
    exists|i: int|
        0 <= i < edges.len() && (#[trigger] edges[i]).parent_name == parent && edges[i].child_name
            == child
}

/// Some edge leads from `parent` to `child` and gives the child the sex `sex`.
pub open spec fn has_edge_to(
    edges: Seq<Edge>,
    parent: Seq<char>,
    child: Seq<char>,
    sex: Gender,
) -> bool {
    exists|i: int|
        0 <= i < edges.len() && (#[trigger] edges[i]).parent_name == parent && edges[i].child_name
            == child && edges[i].child_sex == sex
}

/// Some edge leads from one of `parents` to `child`.
pub open spec fn child_of_any(edges: Seq<Edge>, parents: Seq<Person>, child: Seq<char>) -> bool {
    exists|j: int| 0 <= j < parents.len() && has_edge(edges, (#[trigger] parents[j]).name, child)
}

/// Picks the parents of `name`.
pub open spec fn is_parent(name: Seq<char>, edges: Seq<Edge>) -> spec_fn(Person) -> bool {
    |p: Person| has_edge(edges, p.name, name)
}

/// Picks the children of `name` that an edge gives the sex `sex`.
pub open spec fn is_child(name: Seq<char>, sex: Gender, edges: Seq<Edge>) -> spec_fn(
    Person,
) -> bool {
    |c: Person| has_edge_to(edges, name, c.name, sex)
}

/// Picks those of the sex `sex` who are a child of one of `parents` and are
/// not `name`.
pub open spec fn is_sibling(
    name: Seq<char>,
    sex: Gender,
    parents: Seq<Person>,
    edges: Seq<Edge>,
) -> spec_fn(Person) -> bool {
    |c: Person| c.name != name && c.sex == sex && child_of_any(edges, parents, c.name)
}

/// Picks the living of the house of `name`, but for `name`.
pub open spec fn is_survivor(name: Seq<char>) -> spec_fn(Person) -> bool {
    |c: Person| c.name != name && house_of(c.name) == house_of(name) && c.alive
}

/// The parents of `name`: the characters from whom an edge leads to `name`.
/// A name that no character bears has none.
pub open spec fn parents_of(name: Seq<char>, people: Seq<Person>, edges: Seq<Edge>) -> Seq<
    Person,
> {
    if is_known(name, people) {
        people.filter(is_parent(name, edges))
    } else {
        Seq::empty()
    }
}

/// The children of `name` of one sex: the characters to whom an edge leads
/// from `name` that gives that sex. A name that no character bears has none.
pub open spec fn children_of(
    name: Seq<char>,
    sex: Gender,
    people: Seq<Person>,
    edges: Seq<Edge>,
) -> Seq<Person> {
    if is_known(name, people) {
        people.filter(is_child(name, sex, edges))
    } else {
        Seq::empty()
    }
}

/// The siblings of `name` of one sex: the other characters of that sex who
/// are a child of at least one parent of `name`. A name that no character
/// bears has none.
pub open spec fn siblings_of(
    name: Seq<char>,
    sex: Gender,
    people: Seq<Person>,
    edges: Seq<Edge>,
) -> Seq<Person> {
    if is_known(name, people) {
        people.filter(is_sibling(name, sex, parents_of(name, people, edges), edges))
    } else {
        Seq::empty()
    }
}

/// The children of one sex of each of `of`, one after the other.
pub open spec fn children_of_all(
    of: Seq<Person>,
    sex: Gender,
    people: Seq<Person>,
    edges: Seq<Edge>,
) -> Seq<Person>
    decreases of.len(),
{
    if of.len() == 0 {
        Seq::empty()
    } else {
        children_of_all(of.drop_last(), sex, people, edges) + children_of(
            of.last().name,
            sex,
            people,
            edges,
        )
    }
}

/// The sisters of `name`, then its brothers.
pub open spec fn all_siblings_of(name: Seq<char>, people: Seq<Person>, edges: Seq<Edge>) -> Seq<
    Person,
> {
    siblings_of(name, Gender::F, people, edges) + siblings_of(name, Gender::M, people, edges)
}

/// The children of one sex of the siblings of `name`, sisters and brothers
/// alike.
pub open spec fn siblings_children_of(
    name: Seq<char>,
    sex: Gender,
    people: Seq<Person>,
    edges: Seq<Edge>,
) -> Seq<Person> {
    children_of_all(all_siblings_of(name, people, edges), sex, people, edges)
}

/// The living characters of the house of `name`, but for `name`. A name that
/// no character bears has none.
pub open spec fn house_survivors_of(name: Seq<char>, people: Seq<Person>) -> Seq<Person> {
    if is_known(name, people) {
        people.filter(is_survivor(name))
    } else {
        Seq::empty()
    }
}

/// Whether an edge leads from `parent` to `child`.
pub fn edge_exists(relationships: &Vec<Relationship>, parent: &String, child: &String) -> (r:
    bool)
    ensures
        r == has_edge(relationships.deep_view(), parent@, child@),
{
    let ghost edges = relationships.deep_view();
    let mut i: usize = 0;
    while i < relationships.len()
        invariant
            i <= relationships.len(),
            edges == relationships.deep_view(),
            forall|j: int|
                0 <= j < i ==> !((#[trigger] edges[j]).parent_name == parent@
                    && edges[j].child_name == child@),
        decreases relationships.len() - i,
    {
        let e = &relationships[i];
        if e.parent_name == *parent && e.child_name == *child {
            assert(edges[i as int] == e@);
            return true;
        }
        assert(edges[i as int] == e@);
        i += 1;
    }
    false
}

/// Whether an edge leads from `parent` to `child` and gives the child the sex
/// `sex`.
pub fn edge_exists_to(
    relationships: &Vec<Relationship>,
    parent: &String,
    child: &String,
    sex: Gender,
) -> (r: bool)
    ensures
        r == has_edge_to(relationships.deep_view(), parent@, child@, sex),
{
    let ghost edges = relationships.deep_view();
    let mut i: usize = 0;
    while i < relationships.len()
        invariant
            i <= relationships.len(),
            edges == relationships.deep_view(),
            forall|j: int|
                0 <= j < i ==> !((#[trigger] edges[j]).parent_name == parent@
                    && edges[j].child_name == child@ && edges[j].child_sex == sex),
        decreases relationships.len() - i,
    {
        let e = &relationships[i];
        if e.parent_name == *parent && e.child_name == *child && e.child_sex == sex {
            assert(edges[i as int] == e@);
            return true;
        }
        assert(edges[i as int] == e@);
        i += 1;
    }
    false
}

/// The parents of `name` among `characters`, in their order there.
pub fn get_parents(
    name: &String,
    characters: &Vec<Character>,
    relationships: &Vec<Relationship>,
) -> (r: Vec<Character>)
    ensures
        r.deep_view() == parents_of(name@, characters.deep_view(), relationships.deep_view()),
        !is_known(name@, characters.deep_view()) ==> r.len() == 0,
{
    if !knows(name, characters) {
        let none: Vec<Character> = Vec::new();
        assert(none.deep_view() =~= Seq::<Person>::empty());
        return none;
    }
    let ghost people = characters.deep_view();
    let ghost keep = is_parent(name@, relationships.deep_view());
    let mut out: Vec<Character> = Vec::new();
    let mut i: usize = 0;
    assert(people.take(0).filter(keep) =~= Seq::<Person>::empty()) by {
        reveal(Seq::filter);
    }
    assert(out.deep_view() =~= Seq::<Person>::empty());
    while i < characters.len()
        invariant
            i <= characters.len(),
            people == characters.deep_view(),
            keep == is_parent(name@, relationships.deep_view()),
            out.deep_view() == people.take(i as int).filter(keep),
        decreases characters.len() - i,
    {
        let c = &characters[i];
        proof {
            lemma_filter_next(people, keep, i as int);
        }
        if edge_exists(relationships, &c.name, name) {
            let ghost before = out.deep_view();
            out.push(c.clone());
            assert(out.deep_view() =~= before.push(people[i as int]));
        }
        i += 1;
    }
    assert(people.take(i as int) =~= people);
    out
}

/// The children of `name` that an edge gives the sex `sex`, in their order
/// among `characters`.
pub fn get_children(
    name: &String,
    sex: Gender,
    characters: &Vec<Character>,
    relationships: &Vec<Relationship>,
) -> (r: Vec<Character>)
    ensures
        r.deep_view() == children_of(
            name@,
            sex,
            characters.deep_view(),
            relationships.deep_view(),
        ),
        !is_known(name@, characters.deep_view()) ==> r.len() == 0,
{
    if !knows(name, characters) {
        let none: Vec<Character> = Vec::new();
        assert(none.deep_view() =~= Seq::<Person>::empty());
        return none;
    }
    let ghost people = characters.deep_view();
    let ghost keep = is_child(name@, sex, relationships.deep_view());
    let mut out: Vec<Character> = Vec::new();
    let mut i: usize = 0;
    assert(people.take(0).filter(keep) =~= Seq::<Person>::empty()) by {
        reveal(Seq::filter);
    }
    assert(out.deep_view() =~= Seq::<Person>::empty());
    while i < characters.len()
        invariant
            i <= characters.len(),
            people == characters.deep_view(),
            keep == is_child(name@, sex, relationships.deep_view()),
            out.deep_view() == people.take(i as int).filter(keep),
        decreases characters.len() - i,
    {
        let c = &characters[i];
        proof {
            lemma_filter_next(people, keep, i as int);
        }
        if edge_exists_to(relationships, name, &c.name, sex) {
            let ghost before = out.deep_view();
            out.push(c.clone());
            assert(out.deep_view() =~= before.push(people[i as int]));
        }
        i += 1;
    }
    assert(people.take(i as int) =~= people);
    out
}

/// The sons of `name`.
pub fn get_sons(
    name: &String,
    characters: &Vec<Character>,
    relationships: &Vec<Relationship>,
) -> (r: Vec<Character>)
    ensures
        r.deep_view() == children_of(
            name@,
            Gender::M,
            characters.deep_view(),
            relationships.deep_view(),
        ),
        !is_known(name@, characters.deep_view()) ==> r.len() == 0,
{
    get_children(name, Gender::M, characters, relationships)
}

/// The daughters of `name`.
pub fn get_daughters(
    name: &String,
    characters: &Vec<Character>,
    relationships: &Vec<Relationship>,
) -> (r: Vec<Character>)
    ensures
        r.deep_view() == children_of(
            name@,
            Gender::F,
            characters.deep_view(),
            relationships.deep_view(),
        ),
        !is_known(name@, characters.deep_view()) ==> r.len() == 0,
{
    get_children(name, Gender::F, characters, relationships)
}

/// Whether an edge leads from one of `parents` to `child`.
pub fn edge_from_any(
    relationships: &Vec<Relationship>,
    parents: &Vec<Character>,
    child: &String,
) -> (r: bool)
    ensures
        r == child_of_any(relationships.deep_view(), parents.deep_view(), child@),
{
    let ghost edges = relationships.deep_view();
    let ghost elders = parents.deep_view();
    let mut j: usize = 0;
    while j < parents.len()
        invariant
            j <= parents.len(),
            edges == relationships.deep_view(),
            elders == parents.deep_view(),
            forall|k: int| 0 <= k < j ==> !has_edge(edges, (#[trigger] elders[k]).name, child@),
        decreases parents.len() - j,
    {
        let p = &parents[j];
        assert(elders[j as int] == p@);
        if edge_exists(relationships, &p.name, child) {
            return true;
        }
        j += 1;
    }
    false
}

/// The siblings of `name` of the sex `sex`, in their order among
/// `characters`. A half-sibling counts, and `name` itself never does.
pub fn get_siblings(
    name: &String,
    sex: Gender,
    characters: &Vec<Character>,
    relationships: &Vec<Relationship>,
) -> (r: Vec<Character>)
    ensures
        r.deep_view() == siblings_of(
            name@,
            sex,
            characters.deep_view(),
            relationships.deep_view(),
        ),
        forall|i: int| 0 <= i < r.len() ==> (#[trigger] r[i]).name@ != name@,
        !is_known(name@, characters.deep_view()) ==> r.len() == 0,
{
    if !knows(name, characters) {
        let none: Vec<Character> = Vec::new();
        assert(none.deep_view() =~= Seq::<Person>::empty());
        return none;
    }
    let parents = get_parents(name, characters, relationships);
    let ghost people = characters.deep_view();
    let ghost keep = is_sibling(name@, sex, parents.deep_view(), relationships.deep_view());
    let mut out: Vec<Character> = Vec::new();
    let mut i: usize = 0;
    assert(people.take(0).filter(keep) =~= Seq::<Person>::empty()) by {
        reveal(Seq::filter);
    }
    assert(out.deep_view() =~= Seq::<Person>::empty());
    while i < characters.len()
        invariant
            i <= characters.len(),
            people == characters.deep_view(),
            keep == is_sibling(name@, sex, parents.deep_view(), relationships.deep_view()),
            out.deep_view() == people.take(i as int).filter(keep),
        decreases characters.len() - i,
    {
        let c = &characters[i];
        proof {
            lemma_filter_next(people, keep, i as int);
        }
        if !(c.name == *name) && c.sex == sex && edge_from_any(relationships, &parents, &c.name) {
            let ghost before = out.deep_view();
            out.push(c.clone());
            assert(out.deep_view() =~= before.push(people[i as int]));
        }
        i += 1;
    }
    assert(people.take(i as int) =~= people);
    proof {
        lemma_siblings(name@, sex, people, relationships.deep_view());
        assert forall|i: int| 0 <= i < out.len() implies (#[trigger] out[i]).name@ != name@ by {
            assert(out.deep_view()[i] == out[i]@);
        }
    }
    out
}

/// The brothers of `name`.
pub fn get_brothers(
    name: &String,
    characters: &Vec<Character>,
    relationships: &Vec<Relationship>,
) -> (r: Vec<Character>)
    ensures
        r.deep_view() == siblings_of(
            name@,
            Gender::M,
            characters.deep_view(),
            relationships.deep_view(),
        ),
        forall|i: int| 0 <= i < r.len() ==> (#[trigger] r[i]).name@ != name@,
        !is_known(name@, characters.deep_view()) ==> r.len() == 0,
{
    get_siblings(name, Gender::M, characters, relationships)
}

/// The sisters of `name`.
pub fn get_sisters(
    name: &String,
    characters: &Vec<Character>,
    relationships: &Vec<Relationship>,
) -> (r: Vec<Character>)
    ensures
        r.deep_view() == siblings_of(
            name@,
            Gender::F,
            characters.deep_view(),
            relationships.deep_view(),
        ),
        forall|i: int| 0 <= i < r.len() ==> (#[trigger] r[i]).name@ != name@,
        !is_known(name@, characters.deep_view()) ==> r.len() == 0,
{
    get_siblings(name, Gender::F, characters, relationships)
}

/// The children of the sex `sex` of the siblings of `name`: first those of
/// its sisters, then those of its brothers, each sibling's in their order
/// among `characters`.
pub fn get_siblings_children(
    name: &String,
    sex: Gender,
    characters: &Vec<Character>,
    relationships: &Vec<Relationship>,
) -> (r: Vec<Character>)
    ensures
        r.deep_view() == siblings_children_of(
            name@,
            sex,
            characters.deep_view(),
            relationships.deep_view(),
        ),
        !is_known(name@, characters.deep_view()) ==> r.len() == 0,
{
    let mut siblings = get_sisters(name, characters, relationships);
    let brothers = get_brothers(name, characters, relationships);
    move_behind(&mut siblings, brothers);
    let ghost people = characters.deep_view();
    let ghost edges = relationships.deep_view();
    let ghost of = siblings.deep_view();
    let mut out: Vec<Character> = Vec::new();
    let mut i: usize = 0;
    assert(out.deep_view() =~= Seq::<Person>::empty());
    while i < siblings.len()
        invariant
            i <= siblings.len(),
            people == characters.deep_view(),
            edges == relationships.deep_view(),
            of == siblings.deep_view(),
            out.deep_view() == children_of_all(of.take(i as int), sex, people, edges),
        decreases siblings.len() - i,
    {
        let children = get_children(&siblings[i].name, sex, characters, relationships);
        move_behind(&mut out, children);
        assert(of.take(i + 1).drop_last() =~= of.take(i as int));
        i += 1;
    }
    assert(of.take(i as int) =~= of);
    out
}

/// The nephews of `name`: the sons of its sisters and of its brothers.
pub fn get_nephews(
    name: &String,
    characters: &Vec<Character>,
    relationships: &Vec<Relationship>,
) -> (r: Vec<Character>)
    ensures
        r.deep_view() == siblings_children_of(
            name@,
            Gender::M,
            characters.deep_view(),
            relationships.deep_view(),
        ),
        !is_known(name@, characters.deep_view()) ==> r.len() == 0,
{
    get_siblings_children(name, Gender::M, characters, relationships)
}

/// The nieces of `name`: the daughters of its sisters and of its brothers.
pub fn get_nieces(
    name: &String,
    characters: &Vec<Character>,
    relationships: &Vec<Relationship>,
) -> (r: Vec<Character>)
    ensures
        r.deep_view() == siblings_children_of(
            name@,
            Gender::F,
            characters.deep_view(),
            relationships.deep_view(),
        ),
        !is_known(name@, characters.deep_view()) ==> r.len() == 0,
{
    get_siblings_children(name, Gender::F, characters, relationships)
}

/// The living characters whose name ends in the same house as `name`, but
/// for `name` itself, in their order among `characters`.
pub fn get_survivors_within_the_house(name: &String, characters: &Vec<Character>) -> (r: Vec<
    Character,
>)
    ensures
        r.deep_view() == house_survivors_of(name@, characters.deep_view()),
        forall|i: int|
            0 <= i < r.len() ==> {
                &&& (#[trigger] r[i]).name@ != name@
                &&& house_of(r[i].name@) == house_of(name@)
                &&& r[i].alive
            },
        !is_known(name@, characters.deep_view()) ==> r.len() == 0,
{
    if !knows(name, characters) {
        let none: Vec<Character> = Vec::new();
        assert(none.deep_view() =~= Seq::<Person>::empty());
        return none;
    }
    let house = last_token(name.as_str());
    let ghost people = characters.deep_view();
    let ghost keep = is_survivor(name@);
    let mut out: Vec<Character> = Vec::new();
    let mut i: usize = 0;
    assert(people.take(0).filter(keep) =~= Seq::<Person>::empty()) by {
        reveal(Seq::filter);
    }
    assert(out.deep_view() =~= Seq::<Person>::empty());
    while i < characters.len()
        invariant
            i <= characters.len(),
            people == characters.deep_view(),
            keep == is_survivor(name@),
            house@ == house_of(name@),
            out.deep_view() == people.take(i as int).filter(keep),
        decreases characters.len() - i,
    {
        let c = &characters[i];
        proof {
            lemma_filter_next(people, keep, i as int);
        }
        if !(c.name == *name) && ends_in_house(c.name.as_str(), &house) && c.alive {
            let ghost before = out.deep_view();
            out.push(c.clone());
            assert(out.deep_view() =~= before.push(people[i as int]));
        }
        i += 1;
    }
    assert(people.take(i as int) =~= people);
    proof {
        lemma_survivors(name@, people);
        assert forall|i: int| 0 <= i < out.len() implies {
            &&& (#[trigger] out[i]).name@ != name@
            &&& house_of(out[i].name@) == house_of(name@)
            &&& out[i].alive
        } by {
            assert(out.deep_view()[i] == out[i]@);
        }
    }
    out
}

/// The classes of candidates by rank: 0 the sons, 1 the brothers, 2 the
/// nephews, 3 the daughters, 4 the sisters, 5 the nieces, and behind them the
/// living of the house.
pub open spec fn class_of(rank: int, name: Seq<char>, people: Seq<Person>, edges: Seq<Edge>) -> Seq<
    Person,
> {
    if rank == 0 {
        children_of(name, Gender::M, people, edges)
    } else if rank == 1 {
        siblings_of(name, Gender::M, people, edges)
    } else if rank == 2 {
        siblings_children_of(name, Gender::M, people, edges)
    } else if rank == 3 {
        children_of(name, Gender::F, people, edges)
    } else if rank == 4 {
        siblings_of(name, Gender::F, people, edges)
    } else if rank == 5 {
        siblings_children_of(name, Gender::F, people, edges)
    } else {
        house_survivors_of(name, people)
    }
}

/// The classes up to and with the one of rank `upto`, each sorted by name,
/// one behind the other.
pub open spec fn line_upto(
    upto: int,
    name: Seq<char>,
    people: Seq<Person>,
    edges: Seq<Edge>,
) -> Seq<Person>
    decreases upto + 1,
{
    if upto < 0 {
        Seq::empty()
    } else {
        line_upto(upto - 1, name, people, edges) + sorted_by_name(
            class_of(upto, name, people, edges),
        )
    }
}

/// Those in line behind `name`, in the order of succession: sons, brothers,
/// nephews, daughters, sisters, nieces, then the living of the house; each
/// class by name.
pub open spec fn succession_of(name: Seq<char>, people: Seq<Person>, edges: Seq<Edge>) -> Seq<
    Person,
> {
    line_upto(6, name, people, edges)
}

/// The heir of `name`: the first in line who lives, if any does.
pub open spec fn heir_of(name: Seq<char>, people: Seq<Person>, edges: Seq<Edge>) -> Option<
    Person,
> {
    first_alive(succession_of(name, people, edges))
}

/// A name that no character bears has no parents, no candidates in any
/// class, and no heir.
pub proof fn lemma_unknown_has_nothing(name: Seq<char>, people: Seq<Person>, edges: Seq<Edge>)
    requires
        !is_known(name, people),
    ensures
        parents_of(name, people, edges).len() == 0,
        forall|rank: int| (#[trigger] class_of(rank, name, people, edges)).len() == 0,
        succession_of(name, people, edges).len() == 0,
        heir_of(name, people, edges) is None,
{
    assert(all_siblings_of(name, people, edges) =~= Seq::<Person>::empty());
    reveal_with_fuel(line_upto, 8);
    assert(sorted_by_name(Seq::<Person>::empty()) =~= Seq::<Person>::empty());
    assert forall|rank: int| (#[trigger] class_of(rank, name, people, edges)).len() == 0 by {
        assert(class_of(rank, name, people, edges) =~= Seq::<Person>::empty());
    }
    assert(class_of(0, name, people, edges) =~= Seq::<Person>::empty());
    assert(class_of(1, name, people, edges) =~= Seq::<Person>::empty());
    assert(class_of(2, name, people, edges) =~= Seq::<Person>::empty());
    assert(class_of(3, name, people, edges) =~= Seq::<Person>::empty());
    assert(class_of(4, name, people, edges) =~= Seq::<Person>::empty());
    assert(class_of(5, name, people, edges) =~= Seq::<Person>::empty());
    assert(class_of(6, name, people, edges) =~= Seq::<Person>::empty());
    assert(succession_of(name, people, edges) =~= Seq::<Person>::empty());
    lemma_first_alive_none(succession_of(name, people, edges));
}

/// Moves the characters of `more` behind those of `into`.
fn move_behind(into: &mut Vec<Character>, more: Vec<Character>)
    ensures
        final(into).deep_view() == old(into).deep_view() + more.deep_view(),
{
    let ghost start = into.deep_view();
    let mut more = more;
    let ghost added = more.deep_view();
    into.append(&mut more);
    assert(into.deep_view() =~= start + added);
}

/// The next living heir of `name` in a snapshot, if there is one. Whether
/// `name` itself lives plays no part; a name that no character bears has no
/// heir.
pub fn next_heir(
    name: &String,
    characters: &Vec<Character>,
    relationships: &Vec<Relationship>,
) -> (r: Option<Character>)
    ensures
        r.deep_view() == heir_of(name@, characters.deep_view(), relationships.deep_view()),
        !is_known(name@, characters.deep_view()) ==> r is None,
{
    if !knows(name, characters) {
        proof {
            lemma_unknown_has_nothing(name@, characters.deep_view(), relationships.deep_view());
        }
        return None;
    }
    let mut sons = get_sons(name, characters, relationships);
    sort_by_name(&mut sons);

    let mut daughters = get_daughters(name, characters, relationships);
    sort_by_name(&mut daughters);

    let mut brothers = get_brothers(name, characters, relationships);
    sort_by_name(&mut brothers);

    let mut sisters = get_sisters(name, characters, relationships);
    sort_by_name(&mut sisters);

    let mut nephews = get_nephews(name, characters, relationships);
    sort_by_name(&mut nephews);

    let mut nieces = get_nieces(name, characters, relationships);
    sort_by_name(&mut nieces);

    let mut survivors = get_survivors_within_the_house(name, characters);
    sort_by_name(&mut survivors);

    proof {
        reveal_with_fuel(line_upto, 8);
        assert(sons.deep_view() =~= line_upto(
            0,
            name@,
            characters.deep_view(),
            relationships.deep_view(),
        ));
    }
    move_behind(&mut sons, brothers);
    move_behind(&mut sons, nephews);
    move_behind(&mut sons, daughters);
    move_behind(&mut sons, sisters);
    move_behind(&mut sons, nieces);
    move_behind(&mut sons, survivors);

    find_first_alive(&sons)
}

/// While no class up to a rank has a living member, nobody in the line up to
/// there lives.
pub proof fn lemma_line_without_living(
    upto: int,
    name: Seq<char>,
    people: Seq<Person>,
    edges: Seq<Edge>,
)
    requires
        forall|j: int| 0 <= j <= upto ==> none_alive(#[trigger] class_of(j, name, people, edges)),
    ensures
        first_alive(line_upto(upto, name, people, edges)) is None,
    decreases upto + 1,
{
    if upto < 0 {
        lemma_first_alive_none(line_upto(upto, name, people, edges));
    } else {
        lemma_line_without_living(upto - 1, name, people, edges);
        lemma_no_first_alive_of_sorted(class_of(upto, name, people, edges));
        lemma_first_alive_concat(
            line_upto(upto - 1, name, people, edges),
            sorted_by_name(class_of(upto, name, people, edges)),
        );
    }
}

/// Once somebody in the line up to a rank lives, the classes behind that
/// rank change nothing.
pub proof fn lemma_line_settled(
    at: int,
    upto: int,
    name: Seq<char>,
    people: Seq<Person>,
    edges: Seq<Edge>,
)
    requires
        at <= upto,
        first_alive(line_upto(at, name, people, edges)) is Some,
    ensures
        first_alive(line_upto(upto, name, people, edges)) == first_alive(
            line_upto(at, name, people, edges),
        ),
    decreases upto - at,
{
    if at < upto {
        lemma_line_settled(at, upto - 1, name, people, edges);
        lemma_first_alive_concat(
            line_upto(upto - 1, name, people, edges),
            sorted_by_name(class_of(upto, name, people, edges)),
        );
    }
}

/// The heir comes from the first class that has a living member: of its
/// living members the one that no other sorts before.
pub proof fn lemma_heir_by_rank(rank: int, name: Seq<char>, people: Seq<Person>, edges: Seq<Edge>)
    requires
        0 <= rank <= 6,
        forall|j: int| 0 <= j < rank ==> none_alive(#[trigger] class_of(j, name, people, edges)),
        !none_alive(class_of(rank, name, people, edges)),
    ensures
        heir_of(name, people, edges) is Some,
        heir_of(name, people, edges) == first_alive(
            sorted_by_name(class_of(rank, name, people, edges)),
        ),
        is_least_alive(class_of(rank, name, people, edges), heir_of(name, people, edges)->0),
{
    lemma_line_without_living(rank - 1, name, people, edges);
    lemma_first_alive_of_sorted(class_of(rank, name, people, edges));
    lemma_first_alive_concat(
        line_upto(rank - 1, name, people, edges),
        sorted_by_name(class_of(rank, name, people, edges)),
    );
    lemma_line_settled(rank, 6, name, people, edges);
}

/// Where `name` has a living son, the heir is a living son, and no living
/// son sorts before him.
pub proof fn lemma_living_son_inherits(name: Seq<char>, people: Seq<Person>, edges: Seq<Edge>)
    requires
        !none_alive(children_of(name, Gender::M, people, edges)),
    ensures
        heir_of(name, people, edges) is Some,
        is_least_alive(
            children_of(name, Gender::M, people, edges),
            heir_of(name, people, edges)->0,
        ),
{
    lemma_heir_by_rank(0, name, people, edges);
}

/// Where no son, brother, nephew, daughter, sister or niece of `name` lives
/// but somebody of its house does, the heir is a living member of the house,
/// and no other sorts before that one.
pub proof fn lemma_house_inherits_last(name: Seq<char>, people: Seq<Person>, edges: Seq<Edge>)
    requires
        none_alive(children_of(name, Gender::M, people, edges)),
        none_alive(siblings_of(name, Gender::M, people, edges)),
        none_alive(siblings_children_of(name, Gender::M, people, edges)),
        none_alive(children_of(name, Gender::F, people, edges)),
        none_alive(siblings_of(name, Gender::F, people, edges)),
        none_alive(siblings_children_of(name, Gender::F, people, edges)),
        house_survivors_of(name, people).len() > 0,
    ensures
        heir_of(name, people, edges) is Some,
        is_least_alive(house_survivors_of(name, people), heir_of(name, people, edges)->0),
{
    let house = house_survivors_of(name, people);
    lemma_survivors(name, people);
    assert(house[0].alive);
    lemma_heir_by_rank(6, name, people, edges);
}

/// There is no heir exactly where nobody in any of the seven classes lives.
pub proof fn lemma_no_heir(name: Seq<char>, people: Seq<Person>, edges: Seq<Edge>)
    ensures
        heir_of(name, people, edges) is None <==> forall|j: int|
            0 <= j <= 6 ==> none_alive(#[trigger] class_of(j, name, people, edges)),
{
    if forall|j: int| 0 <= j <= 6 ==> none_alive(#[trigger] class_of(j, name, people, edges)) {
        lemma_line_without_living(6, name, people, edges);
    } else {
        let j = choose|j: int|
            0 <= j <= 6 && !none_alive(#[trigger] class_of(j, name, people, edges));
        let first = lemma_first_rank_with_living(j, name, people, edges);
        lemma_heir_by_rank(first, name, people, edges);
    }
}

/// In front of a class with a living member, or at it, stands the first such
/// class.
pub proof fn lemma_first_rank_with_living(
    rank: int,
    name: Seq<char>,
    people: Seq<Person>,
    edges: Seq<Edge>,
) -> (first: int)
    requires
        0 <= rank <= 6,
        !none_alive(class_of(rank, name, people, edges)),
    ensures
        0 <= first <= rank,
        !none_alive(class_of(first, name, people, edges)),
        forall|j: int| 0 <= j < first ==> none_alive(#[trigger] class_of(j, name, people, edges)),
    decreases rank,
{
    if exists|j: int| 0 <= j < rank && !none_alive(#[trigger] class_of(j, name, people, edges)) {
        let j = choose|j: int|
            0 <= j < rank && !none_alive(#[trigger] class_of(j, name, people, edges));
        lemma_first_rank_with_living(j, name, people, edges)
    } else {
        rank
    }
}

/// No sibling of `name` is `name`; each is of the sex asked for and a child
/// of a parent of `name`.
pub proof fn lemma_siblings(name: Seq<char>, sex: Gender, people: Seq<Person>, edges: Seq<Edge>)
    ensures
        forall|i: int|
            0 <= i < siblings_of(name, sex, people, edges).len() ==> {
                let c = #[trigger] siblings_of(name, sex, people, edges)[i];
                &&& c.name != name
                &&& c.sex == sex
                &&& child_of_any(edges, parents_of(name, people, edges), c.name)
                &&& people.contains(c)
            },
{
    let keep = is_sibling(name, sex, parents_of(name, people, edges), edges);
    let found = siblings_of(name, sex, people, edges);
    assert forall|i: int| 0 <= i < found.len() implies {
        let c = #[trigger] found[i];
        &&& c.name != name
        &&& c.sex == sex
        &&& child_of_any(edges, parents_of(name, people, edges), c.name)
        &&& people.contains(c)
    } by {
        people.lemma_filter_pred(keep, i);
        lemma_filter_member(people, keep, i);
    }
}

/// Every survivor of the house of `name` lives, ends in the house that
/// `name` ends in, and is not `name`.
pub proof fn lemma_survivors(name: Seq<char>, people: Seq<Person>)
    ensures
        forall|i: int|
            0 <= i < house_survivors_of(name, people).len() ==> {
                let c = #[trigger] house_survivors_of(name, people)[i];
                &&& c.name != name
                &&& house_of(c.name) == house_of(name)
                &&& c.alive
                &&& people.contains(c)
            },
{
    let keep = is_survivor(name);
    let found = house_survivors_of(name, people);
    assert forall|i: int| 0 <= i < found.len() implies {
        let c = #[trigger] found[i];
        &&& c.name != name
        &&& house_of(c.name) == house_of(name)
        &&& c.alive
        &&& people.contains(c)
    } by {
        people.lemma_filter_pred(keep, i);
        lemma_filter_member(people, keep, i);
    }
}

/// The heir is settled by what the snapshot holds: the same name, the same
/// characters in the same order and the same edges in the same order give
/// the same heir.
pub proof fn lemma_heir_is_settled(
    name: Seq<char>,
    people: Seq<Person>,
    edges: Seq<Edge>,
    same_name: Seq<char>,
    same_people: Seq<Person>,
    same_edges: Seq<Edge>,
)
    requires
        name =~= same_name,
        people =~= same_people,
        edges =~= same_edges,
    ensures
        heir_of(name, people, edges) == heir_of(same_name, same_people, same_edges),
{
}

/// No edge names `name`, neither as a parent nor as a child.
pub open spec fn is_unrelated(name: Seq<char>, edges: Seq<Edge>) -> bool {
    forall|i: int|
        0 <= i < edges.len() ==> (#[trigger] edges[i]).parent_name != name && edges[i].child_name
            != name
}

/// A name that no edge names has no parents, children, siblings, nephews or
/// nieces: only the living of its house can inherit.
pub proof fn lemma_unrelated_has_no_relatives(
    name: Seq<char>,
    people: Seq<Person>,
    edges: Seq<Edge>,
)
    requires
        is_unrelated(name, edges),
    ensures
        parents_of(name, people, edges).len() == 0,
        forall|rank: int|
            0 <= rank <= 5 ==> (#[trigger] class_of(rank, name, people, edges)).len() == 0,
        heir_of(name, people, edges) == first_alive(
            sorted_by_name(house_survivors_of(name, people)),
        ),
{
    let parents = parents_of(name, people, edges);
    lemma_filter_nothing(people, is_parent(name, edges));
    lemma_filter_nothing(people, is_child(name, Gender::M, edges));
    lemma_filter_nothing(people, is_child(name, Gender::F, edges));
    lemma_filter_nothing(people, is_sibling(name, Gender::M, parents, edges));
    lemma_filter_nothing(people, is_sibling(name, Gender::F, parents, edges));
    assert(all_siblings_of(name, people, edges) =~= Seq::<Person>::empty());
    reveal_with_fuel(line_upto, 8);
    assert(sorted_by_name(Seq::<Person>::empty()) =~= Seq::<Person>::empty());
    assert(class_of(0, name, people, edges) =~= Seq::<Person>::empty());
    assert(class_of(1, name, people, edges) =~= Seq::<Person>::empty());
    assert(class_of(2, name, people, edges) =~= Seq::<Person>::empty());
    assert(class_of(3, name, people, edges) =~= Seq::<Person>::empty());
    assert(class_of(4, name, people, edges) =~= Seq::<Person>::empty());
    assert(class_of(5, name, people, edges) =~= Seq::<Person>::empty());
    assert(succession_of(name, people, edges) =~= sorted_by_name(
        house_survivors_of(name, people),
    ));
}

/// A name that no edge names and whose house has nobody living but itself
/// has no heir.
pub proof fn lemma_unrelated_without_house_has_no_heir(
    name: Seq<char>,
    people: Seq<Person>,
    edges: Seq<Edge>,
)
    requires
        is_unrelated(name, edges),
        house_survivors_of(name, people).len() == 0,
    ensures
        heir_of(name, people, edges) is None,
{
    lemma_unrelated_has_no_relatives(name, people, edges);
    lemma_no_first_alive_of_sorted(house_survivors_of(name, people));
}

} // verus!
