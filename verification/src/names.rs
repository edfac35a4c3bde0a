//! Names as sequences of characters: their ordering and their house token.

use vstd::prelude::*;
use vstd::std_specs::iter::IteratorSpec;

verus! {

/// `a` and `b` hold the same characters at every position before `k`.
pub open spec fn agree_before(a: Seq<char>, b: Seq<char>, k: int) -> bool {
    &&& 0 <= k <= a.len()
    &&& k <= b.len()
    &&& forall|i: int| 0 <= i < k ==> a[i] == b[i]
}

/// `a` comes before `b` because of position `k`: the two agree before it, and
/// there `a` has ended while `b` goes on, or `a` holds the smaller character.
pub open spec fn precedes_at(a: Seq<char>, b: Seq<char>, k: int) -> bool {
    &&& agree_before(a, b, k)
    &&& k < b.len()
    &&& (k == a.len() || a[k] < b[k])
}

/// Lexicographic order on names, character by character.
pub open spec fn name_lt(a: Seq<char>, b: Seq<char>) -> bool {
    exists|k: int| precedes_at(a, b, k)
}

/// `a` sorts before `b` or is the same name.
pub open spec fn name_le(a: Seq<char>, b: Seq<char>) -> bool {
    !name_lt(b, a)
}

/// The first position at which two names part decides their order.
pub proof fn lemma_decided_at(a: Seq<char>, b: Seq<char>, k: int)
    requires
        agree_before(a, b, k),
        k == a.len() || k == b.len() || a[k] != b[k],
    ensures
        name_lt(a, b) == precedes_at(a, b, k),
        name_lt(b, a) == precedes_at(b, a, k),
{
    assert(agree_before(b, a, k));
    if name_lt(a, b) {
        let j = choose|j: int| precedes_at(a, b, j);
        if j < k {
            assert(a[j] == b[j]);
        } else if j > k {
            assert(a[k] == b[k]);
        }
    }
    if name_lt(b, a) {
        let j = choose|j: int| precedes_at(b, a, j);
        if j < k {
            assert(a[j] == b[j]);
        } else if j > k {
            assert(a[k] == b[k]);
        }
    }
}

/// From a position up to which two names agree, the first position at which
/// they part or one of them ends.
pub proof fn lemma_parting(a: Seq<char>, b: Seq<char>, from: int) -> (k: int)
    requires
        agree_before(a, b, from),
    ensures
        from <= k,
        agree_before(a, b, k),
        k == a.len() || k == b.len() || a[k] != b[k],
    decreases a.len() - from,
{
    if from < a.len() && from < b.len() && a[from] == b[from] {
        lemma_parting(a, b, from + 1)
    } else {
        from
    }
}

/// No name sorts before itself.
pub proof fn lemma_name_lt_irreflexive(a: Seq<char>)
    ensures
        !name_lt(a, a),
{
    assert(agree_before(a, a, a.len() as int));
    lemma_decided_at(a, a, a.len() as int);
}

/// Of two names at most one sorts before the other.
pub proof fn lemma_name_lt_asymmetric(a: Seq<char>, b: Seq<char>)
    ensures
        !(name_lt(a, b) && name_lt(b, a)),
{
    let k = lemma_parting(a, b, 0);
    lemma_decided_at(a, b, k);
}

/// Two names of which neither sorts before the other are the same name.
pub proof fn lemma_name_lt_total(a: Seq<char>, b: Seq<char>)
    ensures
        name_lt(a, b) || name_lt(b, a) || a == b,
{
    let k = lemma_parting(a, b, 0);
    lemma_decided_at(a, b, k);
    if !name_lt(a, b) && !name_lt(b, a) {
        assert(a =~= b);
    }
}

/// The order on names is transitive.
pub proof fn lemma_name_lt_transitive(a: Seq<char>, b: Seq<char>, c: Seq<char>)
    requires
        name_lt(a, b),
        name_lt(b, c),
    ensures
        name_lt(a, c),
{
    let i = choose|i: int| precedes_at(a, b, i);
    let j = choose|j: int| precedes_at(b, c, j);
    let k = if i <= j { i } else { j };
    assert(agree_before(a, c, k));
    assert(precedes_at(a, c, k));
}

/// Whether `a` sorts strictly before `b`.
pub fn name_before(a: &str, b: &str) -> (r: bool)
    ensures
        r == name_lt(a@, b@),
{
    broadcast use vstd::string::group_string_axioms;

    let mut ia = a.chars();
    let mut ib = b.chars();
    let ghost mut k: int = 0;
    loop
        invariant
            ia.obeys_prophetic_iter_laws(),
            ib.obeys_prophetic_iter_laws(),
            agree_before(a@, b@, k),
            ia.remaining() == a@.skip(k),
            ib.remaining() == b@.skip(k),
        decreases a@.len() - k,
    {
        let ca = ia.next();
        let cb = ib.next();
        match (ca, cb) {
            (Some(x), Some(y)) => {
                if x != y {
                    proof {
                        lemma_decided_at(a@, b@, k);
                    }
                    return x < y;
                }
                proof {
                    k = k + 1;
                }
            },
            (None, Some(_)) => {
                proof {
                    lemma_decided_at(a@, b@, k);
                }
                return true;
            },
            (_, None) => {
                proof {
                    lemma_decided_at(a@, b@, k);
                }
                return false;
            },
        }
    }
}

/// Whether two texts hold the same characters.
pub fn same_text(a: &str, b: &str) -> (r: bool)
    ensures
        r == (a@ == b@),
{
    broadcast use vstd::string::group_string_axioms;

    let mut ia = a.chars();
    let mut ib = b.chars();
    let ghost mut k: int = 0;
    loop
        invariant
            ia.obeys_prophetic_iter_laws(),
            ib.obeys_prophetic_iter_laws(),
            agree_before(a@, b@, k),
            ia.remaining() == a@.skip(k),
            ib.remaining() == b@.skip(k),
        decreases a@.len() - k,
    {
        let ca = ia.next();
        let cb = ib.next();
        match (ca, cb) {
            (Some(x), Some(y)) => {
                if x != y {
                    assert(a@[k] != b@[k]);
                    return false;
                }
                proof {
                    k = k + 1;
                }
            },
            (None, None) => {
                assert(a@ =~= b@);
                return true;
            },
            _ => {
                assert(a@.len() != b@.len());
                return false;
            },
        }
    }
}

/// Where the last token of a name starts: just behind its last space, or at
/// the front where it holds no space.
pub open spec fn house_start(s: Seq<char>) -> int
    decreases s.len(),
{
    if s.len() == 0 {
        0
    } else if s.last() == ' ' {
        s.len() as int
    } else {
        house_start(s.drop_last())
    }
}

/// The house of a name: what follows its last space, the whole name where it
/// holds none.
pub open spec fn house_of(s: Seq<char>) -> Seq<char> {
    s.skip(house_start(s))
}

/// The house starts within the name, behind a space or at the front, and no
/// space follows.
pub proof fn lemma_house_start(s: Seq<char>)
    ensures
        0 <= house_start(s) <= s.len(),
        house_start(s) == 0 || s[house_start(s) - 1] == ' ',
        forall|i: int| house_start(s) <= i < s.len() ==> s[i] != ' ',
    decreases s.len(),
{
    if s.len() > 0 && s.last() != ' ' {
        let front = s.drop_last();
        lemma_house_start(front);
        assert forall|i: int| house_start(s) <= i < s.len() implies s[i] != ' ' by {
            if i < front.len() {
                assert(s[i] == front[i]);
            }
        }
    }
}

/// Reading one more character either starts a new house or extends the one
/// read so far.
pub proof fn lemma_house_push(s: Seq<char>, c: char)
    ensures
        house_of(s.push(c)) == if c == ' ' {
            Seq::<char>::empty()
        } else {
            house_of(s).push(c)
        },
{
    let t = s.push(c);
    assert(t.drop_last() =~= s);
    lemma_house_start(s);
    if c == ' ' {
        assert(house_of(t) =~= Seq::<char>::empty());
    } else {
        assert(house_of(t) =~= house_of(s).push(c));
    }
}

/// The characters of a name behind its last space.
pub fn last_token(s: &str) -> (t: Vec<char>)
    ensures
        t@ == house_of(s@),
{
    broadcast use vstd::string::group_string_axioms;

    let mut t: Vec<char> = Vec::new();
    let mut it = s.chars();
    let ghost mut k: int = 0;
    assert(s@.take(0) =~= Seq::<char>::empty());
    loop
        invariant
            it.obeys_prophetic_iter_laws(),
            0 <= k <= s@.len(),
            it.remaining() == s@.skip(k),
            t@ == house_of(s@.take(k)),
        decreases s@.len() - k,
    {
        match it.next() {
            Some(c) => {
                proof {
                    lemma_house_push(s@.take(k), c);
                    assert(s@.take(k + 1) =~= s@.take(k).push(c));
                    k = k + 1;
                }
                if c == ' ' {
                    t.clear();
                } else {
                    t.push(c);
                }
            },
            None => {
                assert(s@.take(k) =~= s@);
                return t;
            },
        }
    }
}

/// Whether a name ends in the house `house`.
pub fn ends_in_house(s: &str, house: &Vec<char>) -> (r: bool)
    ensures
        r == (house_of(s@) == house@),
{
    let x = last_token(s);
    if x.len() != house.len() {
        return false;
    }
    let mut i: usize = 0;
    while i < x.len()
        invariant
            x@ == house_of(s@),
            x.len() == house.len(),
            i <= x.len(),
            forall|j: int| 0 <= j < i ==> x[j] == house[j],
        decreases x.len() - i,
    {
        if x[i] != house[i] {
            assert(x@[i as int] != house@[i as int]);
            return false;
        }
        i += 1;
    }
    assert(x@ =~= house@);
    true
}

/// Whether two names end in the same house.
pub fn same_house(a: &str, b: &str) -> (r: bool)
    ensures
        r == (house_of(a@) == house_of(b@)),
{
    let house = last_token(b);
    ends_in_house(a, &house)
}

} // verus!
