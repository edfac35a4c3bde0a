use succession::data::{convert, letter_to_gender, ConvertError, Gender, RelationshipRaw};
use succession::server::db::{gender_to_string, string_to_gender};

fn row(parent: &str, parent_sex: char, child: &str, child_sex: char) -> RelationshipRaw {
    RelationshipRaw {
        parent_name: parent.to_string(),
        parent_sex,
        child_name: child.to_string(),
        child_sex,
    }
}

#[test]
fn a_good_row_becomes_an_edge() {
    let edge = convert(row("Catelyn Stark", 'F', "Robb Stark", 'M')).unwrap();
    assert_eq!(edge.parent_name, "Catelyn Stark");
    assert_eq!(edge.parent_sex, Gender::F);
    assert_eq!(edge.child_name, "Robb Stark");
    assert_eq!(edge.child_sex, Gender::M);
    let edge = convert(row(" ", 'M', "x", 'F')).unwrap();
    assert_eq!(edge.parent_name, " ");
    assert_eq!(edge.parent_sex, Gender::M);
    assert_eq!(edge.child_name, "x");
    assert_eq!(edge.child_sex, Gender::F);
}

#[test]
fn a_row_without_a_parent_name_is_refused() {
    let e = convert(row("", 'F', "Robb Stark", 'M')).unwrap_err();
    assert_eq!(e, ConvertError::EmptyParentName);
    assert_eq!(e.message(), "Empty parent name.");
    let e = convert(row("", 'M', "", 'F')).unwrap_err();
    assert_eq!(e, ConvertError::EmptyParentName);
}

#[test]
fn a_row_without_a_child_name_is_refused() {
    let e = convert(row("Catelyn Stark", 'F', "", 'M')).unwrap_err();
    assert_eq!(e, ConvertError::EmptyChildName);
    assert_eq!(e.message(), "Empty child name.");
}

#[test]
fn the_letters_are_read_before_the_names() {
    assert_eq!(convert(row("", 'x', "", 'M')).unwrap_err(), ConvertError::BadParentGender);
    assert_eq!(convert(row("", 'M', "", 'x')).unwrap_err(), ConvertError::BadChildGender);
    assert_eq!(convert(row("a", 'M', "", 'x')).unwrap_err(), ConvertError::BadChildGender);
}

#[test]
fn a_bad_parent_letter_is_refused() {
    let e = convert(row("Catelyn Stark", 'f', "Robb Stark", 'M')).unwrap_err();
    assert_eq!(e, ConvertError::BadParentGender);
    assert_eq!(e.message(), "Bad parent gender.");
}

#[test]
fn a_bad_child_letter_is_refused() {
    let e = convert(row("Catelyn Stark", 'F', "Robb Stark", 'X')).unwrap_err();
    assert_eq!(e, ConvertError::BadChildGender);
    assert_eq!(e.message(), "Bad child gender.");
}

#[test]
fn the_parent_letter_is_read_first() {
    let e = convert(row("Catelyn Stark", ' ', "Robb Stark", '?')).unwrap_err();
    assert_eq!(e, ConvertError::BadParentGender);
}

#[test]
fn letters_of_the_table() {
    assert_eq!(letter_to_gender('M'), Some(Gender::M));
    assert_eq!(letter_to_gender('F'), Some(Gender::F));
    assert_eq!(letter_to_gender('m'), None);
    assert_eq!(letter_to_gender('f'), None);
    assert_eq!(letter_to_gender(' '), None);
    assert_eq!(letter_to_gender('\u{ff2d}'), None);
}

#[test]
fn stored_text_to_gender() {
    assert_eq!(string_to_gender("M".to_string()), Some(Gender::M));
    assert_eq!(string_to_gender("F".to_string()), Some(Gender::F));
    assert_eq!(string_to_gender("m".to_string()), None);
    assert_eq!(string_to_gender("f".to_string()), None);
    assert_eq!(string_to_gender("".to_string()), None);
    assert_eq!(string_to_gender("MM".to_string()), None);
    assert_eq!(string_to_gender("Male".to_string()), None);
    assert_eq!(string_to_gender(" F".to_string()), None);
}

#[test]
fn gender_to_stored_text() {
    assert_eq!(gender_to_string(Gender::M), "M");
    assert_eq!(gender_to_string(Gender::F), "F");
}

#[test]
fn stored_text_round_trip() {
    for g in [Gender::M, Gender::F] {
        assert_eq!(string_to_gender(gender_to_string(g)), Some(g));
    }
}
