use succession::data::{Gender, Relationship};
use succession::logic::next_heir;
use succession::server::db::Character;

fn person(name: &str, sex: Gender, alive: bool) -> Character {
    Character { name: name.to_string(), sex, alive }
}

fn edge(parent: &str, parent_sex: Gender, child: &str, child_sex: Gender) -> Relationship {
    Relationship {
        parent_name: parent.to_string(),
        parent_sex,
        child_name: child.to_string(),
        child_sex,
    }
}

fn heir_name(name: &str, characters: &Vec<Character>, edges: &Vec<Relationship>) -> Option<String> {
    next_heir(&name.to_string(), characters, edges).map(|c| c.name)
}

/// A family with every class of candidates around "Ned Stark".
fn family(alive: &[&str]) -> (Vec<Character>, Vec<Relationship>) {
    let all = [
        ("Rickard Stark", Gender::M),
        ("Lyarra Stark", Gender::F),
        ("Ned Stark", Gender::M),
        ("Benjen Stark", Gender::M),
        ("Brandon Stark", Gender::M),
        ("Lyanna Stark", Gender::F),
        ("Robb Stark", Gender::M),
        ("Bran Stark", Gender::M),
        ("Sansa Stark", Gender::F),
        ("Arya Stark", Gender::F),
        ("Jon Snow", Gender::M),
        ("Aemon Steelsong", Gender::M),
        ("Dacey Snow", Gender::F),
        ("Alys Karstark", Gender::F),
        ("Cregan Stark", Gender::M),
        ("Arsa Stark", Gender::F),
    ];
    let characters =
        all.iter().map(|(name, sex)| person(name, *sex, alive.contains(name))).collect();
    let relationships = vec![
        edge("Rickard Stark", Gender::M, "Ned Stark", Gender::M),
        edge("Rickard Stark", Gender::M, "Benjen Stark", Gender::M),
        edge("Rickard Stark", Gender::M, "Brandon Stark", Gender::M),
        edge("Rickard Stark", Gender::M, "Lyanna Stark", Gender::F),
        edge("Lyarra Stark", Gender::F, "Ned Stark", Gender::M),
        edge("Lyarra Stark", Gender::F, "Lyanna Stark", Gender::F),
        edge("Ned Stark", Gender::M, "Robb Stark", Gender::M),
        edge("Ned Stark", Gender::M, "Bran Stark", Gender::M),
        edge("Ned Stark", Gender::M, "Sansa Stark", Gender::F),
        edge("Ned Stark", Gender::M, "Arya Stark", Gender::F),
        edge("Lyanna Stark", Gender::F, "Jon Snow", Gender::M),
        edge("Benjen Stark", Gender::M, "Aemon Steelsong", Gender::M),
        edge("Brandon Stark", Gender::M, "Dacey Snow", Gender::F),
        edge("Lyanna Stark", Gender::F, "Alys Karstark", Gender::F),
    ];
    (characters, relationships)
}

#[test]
fn living_son_comes_before_daughter() {
    let characters = vec![
        person("Robert Baratheon", Gender::M, false),
        person("Joffrey Baratheon", Gender::M, false),
        person("Tommen Baratheon", Gender::M, true),
        person("Myrcella Baratheon", Gender::F, true),
    ];
    let relationships = vec![
        edge("Robert Baratheon", Gender::M, "Joffrey Baratheon", Gender::M),
        edge("Robert Baratheon", Gender::M, "Tommen Baratheon", Gender::M),
        edge("Robert Baratheon", Gender::M, "Myrcella Baratheon", Gender::F),
    ];
    let heir = next_heir(&"Robert Baratheon".to_string(), &characters, &relationships);
    let heir = heir.expect("a living son inherits");
    assert_eq!(heir.name, "Tommen Baratheon");
    assert_eq!(heir.sex, Gender::M);
    assert!(heir.alive);
}

#[test]
fn nobody_in_line_gives_no_heir() {
    let characters = vec![
        person("Hodor", Gender::M, true),
        person("Jon Snow", Gender::M, true),
        person("Arya Stark", Gender::F, true),
    ];
    let relationships = vec![edge("Eddard Stark", Gender::M, "Arya Stark", Gender::F)];
    assert!(next_heir(&"Hodor".to_string(), &characters, &relationships).is_none());
}

#[test]
fn living_brother_inherits_without_children() {
    let characters = vec![
        person("Steffon Baratheon", Gender::M, false),
        person("Stannis Baratheon", Gender::M, true),
        person("Renly Baratheon", Gender::M, true),
        person("Shireen Baratheon", Gender::F, false),
    ];
    let relationships = vec![
        edge("Steffon Baratheon", Gender::M, "Stannis Baratheon", Gender::M),
        edge("Steffon Baratheon", Gender::M, "Renly Baratheon", Gender::M),
        edge("Stannis Baratheon", Gender::M, "Shireen Baratheon", Gender::F),
    ];
    let heir = next_heir(&"Stannis Baratheon".to_string(), &characters, &relationships);
    assert_eq!(heir.expect("a living brother inherits").name, "Renly Baratheon");
}

#[test]
fn same_call_gives_same_heir() {
    let (characters, relationships) = family(&["Bran Stark", "Robb Stark", "Arya Stark"]);
    let first = heir_name("Ned Stark", &characters, &relationships);
    let second = heir_name("Ned Stark", &characters, &relationships);
    assert_eq!(first, second);
    assert_eq!(first, Some("Bran Stark".to_string()));
}

#[test]
fn smallest_name_among_living_sons() {
    let (characters, relationships) =
        family(&["Robb Stark", "Bran Stark", "Benjen Stark", "Arya Stark", "Cregan Stark"]);
    assert_eq!(heir_name("Ned Stark", &characters, &relationships), Some("Bran Stark".to_string()));
    let (characters, relationships) =
        family(&["Robb Stark", "Benjen Stark", "Arya Stark", "Cregan Stark"]);
    assert_eq!(heir_name("Ned Stark", &characters, &relationships), Some("Robb Stark".to_string()));
}

#[test]
fn classes_come_in_their_order() {
    let line = [
        "Robb Stark",
        "Benjen Stark",
        "Brandon Stark",
        "Aemon Steelsong",
        "Jon Snow",
        "Arya Stark",
        "Sansa Stark",
        "Lyanna Stark",
        "Alys Karstark",
        "Dacey Snow",
        "Arsa Stark",
        "Cregan Stark",
        "Lyarra Stark",
        "Rickard Stark",
    ];
    for from in 0..line.len() {
        let (characters, relationships) = family(&line[from..]);
        assert_eq!(
            heir_name("Ned Stark", &characters, &relationships),
            Some(line[from].to_string())
        );
    }
    let (characters, relationships) = family(&[]);
    assert_eq!(heir_name("Ned Stark", &characters, &relationships), None);
}

#[test]
fn house_inherits_when_no_relative_lives() {
    let (characters, relationships) =
        family(&["Ned Stark", "Cregan Stark", "Arsa Stark", "Rickard Stark", "Hodor"]);
    assert_eq!(heir_name("Ned Stark", &characters, &relationships), Some("Arsa Stark".to_string()));
}

#[test]
fn all_dead_gives_no_heir() {
    let (characters, relationships) = family(&["Ned Stark"]);
    assert_eq!(heir_name("Ned Stark", &characters, &relationships), None);
}

#[test]
fn unknown_name_gives_no_heir() {
    let (characters, relationships) = family(&["Robb Stark", "Jon Snow", "Dacey Snow"]);
    assert_eq!(heir_name("toto", &characters, &relationships), None);
    assert_eq!(heir_name("Ygritte Snow", &characters, &relationships), None);
    assert_eq!(heir_name("Ned", &characters, &relationships), None);
}

#[test]
fn unknown_name_with_edges_and_house_gives_no_heir() {
    let characters = vec![
        person("Rickon Stark", Gender::M, true),
        person("Arya Stark", Gender::F, true),
        person("Hoster Tully", Gender::M, true),
    ];
    let relationships = vec![
        edge("Catelyn Stark", Gender::F, "Rickon Stark", Gender::M),
        edge("Catelyn Stark", Gender::F, "Arya Stark", Gender::F),
        edge("Hoster Tully", Gender::M, "Catelyn Stark", Gender::F),
    ];
    assert_eq!(heir_name("Catelyn Stark", &characters, &relationships), None);
    let mut characters = characters;
    characters.push(person("Catelyn Stark", Gender::F, false));
    assert_eq!(
        heir_name("Catelyn Stark", &characters, &relationships),
        Some("Rickon Stark".to_string())
    );
}

#[test]
fn a_known_name_without_relatives_falls_to_its_house() {
    let (mut characters, relationships) = family(&["Robb Stark", "Jon Snow", "Dacey Snow"]);
    characters.push(person("Ygritte Snow", Gender::F, true));
    assert_eq!(
        heir_name("Ygritte Snow", &characters, &relationships),
        Some("Dacey Snow".to_string())
    );
}

#[test]
fn order_of_the_lists_does_not_matter() {
    let (mut characters, mut relationships) =
        family(&["Robb Stark", "Bran Stark", "Benjen Stark", "Arya Stark"]);
    let before = heir_name("Ned Stark", &characters, &relationships);
    characters.reverse();
    relationships.reverse();
    assert_eq!(heir_name("Ned Stark", &characters, &relationships), before);
}

#[test]
fn own_life_plays_no_part() {
    let (characters, relationships) = family(&["Ned Stark", "Sansa Stark"]);
    assert_eq!(heir_name("Ned Stark", &characters, &relationships), Some("Sansa Stark".to_string()));
    let (characters, relationships) = family(&["Sansa Stark"]);
    assert_eq!(heir_name("Ned Stark", &characters, &relationships), Some("Sansa Stark".to_string()));
}

#[test]
fn first_of_two_of_one_name_comes_first() {
    let characters = vec![
        person("Walder Frey", Gender::M, false),
        person("Walder Frey II", Gender::M, false),
        person("Walder Rivers", Gender::M, true),
        person("Walder Rivers", Gender::F, true),
    ];
    let relationships = vec![edge("Walder Frey", Gender::M, "Walder Rivers", Gender::M)];
    let heir = next_heir(&"Walder Frey".to_string(), &characters, &relationships).unwrap();
    assert_eq!(heir.name, "Walder Rivers");
    assert_eq!(heir.sex, Gender::M);
}
