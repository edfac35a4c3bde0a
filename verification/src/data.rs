//! Parent-to-child edges, as they are read and as the resolver takes them.

use vstd::prelude::*;

verus! {

/// The sex of a character.
#[derive(Clone, Copy, Debug, PartialEq, Eq, Structural)]
pub enum Gender {
    M,
    F,
}

/// One row of the relationship table as it is read: the sexes are still the
/// letters of the table.
#[derive(Debug)]
pub struct RelationshipRaw {
    pub parent_name: String,
    pub parent_sex: char,
    pub child_name: String,
    pub child_sex: char,
}

/// One parent-to-child edge. A child with two parents has two edges.
#[derive(Debug)]
pub struct Relationship {
    pub parent_name: String,
    pub parent_sex: Gender,
    pub child_name: String,
    pub child_sex: Gender,
}

/// What an edge says, with the names as sequences of characters.
pub struct Edge {
    pub parent_name: Seq<char>,
    pub parent_sex: Gender,
    pub child_name: Seq<char>,
    pub child_sex: Gender,
}

impl View for Relationship {
    type V = Edge;

    open spec fn view(&self) -> Edge {
        Edge {
            parent_name: self.parent_name@,
            parent_sex: self.parent_sex,
            child_name: self.child_name@,
            child_sex: self.child_sex,
        }
    }
}

impl DeepView for Relationship {
    type V = Edge;

    open spec fn deep_view(&self) -> Edge {
        self@
    }
}

/// Why a row of the table is no edge.
#[derive(Clone, Copy, Debug, PartialEq, Eq, Structural)]
pub enum ConvertError {
    /// The parent's sex is neither `M` nor `F`.
    BadParentGender,
    /// The child's sex is neither `M` nor `F`.
    BadChildGender,
    /// The parent has no name.
    EmptyParentName,
    /// The child has no name.
    EmptyChildName,
}

impl ConvertError {
    /// The text that goes with each error.
    pub open spec fn text(self) -> Seq<char> {
        match self {
            ConvertError::BadParentGender => "Bad parent gender."@,
            ConvertError::BadChildGender => "Bad child gender."@,
            ConvertError::EmptyParentName => "Empty parent name."@,
            ConvertError::EmptyChildName => "Empty child name."@,
        }
    }

    /// The error as a sentence.
    pub fn message(&self) -> (m: String)
        ensures
            m@ == self.text(),
    {
        match self {
            ConvertError::BadParentGender => "Bad parent gender.".to_owned(),
            ConvertError::BadChildGender => "Bad child gender.".to_owned(),
            ConvertError::EmptyParentName => "Empty parent name.".to_owned(),
            ConvertError::EmptyChildName => "Empty child name.".to_owned(),
        }
    }
}

/// The sex that a letter of the table stands for, if any.
pub open spec fn gender_of_letter(c: char) -> Option<Gender> {
    if c == 'M' {
        Some(Gender::M)
    } else if c == 'F' {
        Some(Gender::F)
    } else {
        None
    }
}

/// Reads the letter of a sex.
pub fn letter_to_gender(c: char) -> (g: Option<Gender>)
    ensures
        g == gender_of_letter(c),
{
    if c == 'M' {
        Some(Gender::M)
    } else if c == 'F' {
        Some(Gender::F)
    } else {
        None
    }
}

/// The edge that a row stands for: the names as they are, the letters read as
/// sexes. A row is refused for the first of these that holds: a bad letter
/// for the parent, a bad letter for the child, no name for the parent, no
/// name for the child.
pub open spec fn convert_spec(row: RelationshipRaw) -> Result<Edge, ConvertError> {
    match (gender_of_letter(row.parent_sex), gender_of_letter(row.child_sex)) {
        (None, _) => Err(ConvertError::BadParentGender),
        (Some(_), None) => Err(ConvertError::BadChildGender),
        (Some(p), Some(c)) => if row.parent_name@.len() == 0 {
            Err(ConvertError::EmptyParentName)
        } else if row.child_name@.len() == 0 {
            Err(ConvertError::EmptyChildName)
        } else {
            Ok(
                Edge {
                    parent_name: row.parent_name@,
                    parent_sex: p,
                    child_name: row.child_name@,
                    child_sex: c,
                },
            )
        },
    }
}

/// Turns a row of the table into an edge, or says what is wrong with it. An
/// edge that comes out of here has two names that are not empty.
pub fn convert(c: RelationshipRaw) -> (r: Result<Relationship, ConvertError>)
    ensures
        match convert_spec(c) {
            Ok(edge) => r is Ok && r->Ok_0@ == edge,
            Err(e) => r == Err::<Relationship, ConvertError>(e),
        },
        r is Ok ==> r->Ok_0.parent_name@.len() > 0 && r->Ok_0.child_name@.len() > 0,
{
    let parent_sex = match letter_to_gender(c.parent_sex) {
        Some(g) => g,
        None => {
            return Err(ConvertError::BadParentGender);
        },
    };
    let child_sex = match letter_to_gender(c.child_sex) {
        Some(g) => g,
        None => {
            return Err(ConvertError::BadChildGender);
        },
    };
    if c.parent_name.as_str().is_empty() {
        return Err(ConvertError::EmptyParentName);
    }
    if c.child_name.as_str().is_empty() {
        return Err(ConvertError::EmptyChildName);
    }
    Ok(Relationship { parent_name: c.parent_name, parent_sex, child_name: c.child_name, child_sex })
}

} // verus!
