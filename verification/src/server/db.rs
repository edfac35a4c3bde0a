//! Characters as the store holds them.

use crate::data::Gender;
use crate::names::same_text;
use vstd::prelude::*;

verus! {

/// A character of a snapshot. Its name identifies it.
#[derive(Debug)]
pub struct Character {
    pub name: String,
    pub sex: Gender,
    pub alive: bool,
}

/// What a character is, with the name as a sequence of characters.
pub struct Person {
    pub name: Seq<char>,
    pub sex: Gender,
    pub alive: bool,
}

impl View for Character {
    type V = Person;

    open spec fn view(&self) -> Person {
        Person { name: self.name@, sex: self.sex, alive: self.alive }
    }
}

impl DeepView for Character {
    type V = Person;

    open spec fn deep_view(&self) -> Person {
        self@
    }
}

impl Clone for Character {
    fn clone(&self) -> (c: Self)
        ensures
            c == *self,
    {
        Character { name: self.name.clone(), sex: self.sex, alive: self.alive }
    }
}

/// The sex that a stored text stands for: `M` or `F`, and none for any other
/// text.
pub open spec fn gender_of_text(s: Seq<char>) -> Option<Gender> {
    if s == seq!['M'] {
        Some(Gender::M)
    } else if s == seq!['F'] {
        Some(Gender::F)
    } else {
        None
    }
}

/// The text under which a sex is stored.
pub open spec fn text_of_gender(g: Gender) -> Seq<char> {
    match g {
        Gender::M => seq!['M'],
        Gender::F => seq!['F'],
    }
}

/// Reads a stored sex. A text other than `M` and `F` is no sex.
pub fn string_to_gender(s: String) -> (g: Option<Gender>)
    ensures
        g == gender_of_text(s@),
{
    proof {
        reveal_strlit("M");
        reveal_strlit("F");
        assert("M"@ =~= seq!['M']);
        assert("F"@ =~= seq!['F']);
    }
    if same_text(s.as_str(), "M") {
        Some(Gender::M)
    } else if same_text(s.as_str(), "F") {
        Some(Gender::F)
    } else {
        None
    }
}

/// Writes a sex as it is stored.
pub fn gender_to_string(g: Gender) -> (s: String)
    ensures
        s@ == text_of_gender(g),
{
    proof {
        reveal_strlit("M");
        reveal_strlit("F");
        assert("M"@ =~= seq!['M']);
        assert("F"@ =~= seq!['F']);
    }
    match g {
        Gender::M => "M".to_owned(),
        Gender::F => "F".to_owned(),
    }
}

/// Reading back what was written gives the same sex.
pub proof fn lemma_gender_text_round_trip(g: Gender)
    ensures
        gender_of_text(text_of_gender(g)) == Some(g),
{
    assert(seq!['F'][0] != seq!['M'][0]);
}

} // verus!
