use succession::data::{Gender, Relationship};
use succession::logic::knows;
use succession::server::db::Character;
use succession::server::handler::{
    failure_reply, handler_kill, handler_killed, handler_next, heir_reply, killed_reply,
    no_heir_reply, unknown_reply, KillStep, QueryParam, STATUS_INTERNAL_SERVER_ERROR,
    STATUS_NO_CONTENT, STATUS_OK,
};

fn person(name: &str, sex: Gender, alive: bool) -> Character {
    Character { name: name.to_string(), sex, alive }
}

fn edge(parent: &str, parent_sex: Gender, child: &str, child_sex: Gender) -> Relationship {
    Relationship {
        parent_name: parent.to_string(),
        parent_sex,
        child_name: child.to_string(),
        child_sex,
    }
}

fn query(name: &str) -> QueryParam {
    QueryParam { name: name.to_string() }
}

fn targaryens() -> (Vec<Character>, Vec<Relationship>) {
    let characters = vec![
        person("Aerys Targaryen", Gender::M, true),
        person("Rhaegar Targaryen", Gender::M, false),
        person("Viserys Targaryen", Gender::M, false),
        person("Daenerys Targaryen", Gender::F, true),
        person("Hodor", Gender::M, true),
    ];
    let relationships = vec![
        edge("Aerys Targaryen", Gender::M, "Rhaegar Targaryen", Gender::M),
        edge("Aerys Targaryen", Gender::M, "Viserys Targaryen", Gender::M),
        edge("Aerys Targaryen", Gender::M, "Daenerys Targaryen", Gender::F),
    ];
    (characters, relationships)
}

#[test]
fn test_handler_next() {
    let (characters, relationships) = targaryens();

    let resp = handler_next(Ok((characters.clone(), relationships)), &query("toto"));
    assert_eq!(resp.status, 204);

    let resp = match handler_kill(Ok(characters.clone()), &query("toto")) {
        KillStep::Answer(resp) => resp,
        KillStep::Kill => panic!("nobody is called toto"),
    };
    assert_eq!(resp.status, 204);

    let step = handler_kill(Ok(characters), &query("Aerys Targaryen"));
    assert!(matches!(step, KillStep::Kill));
    let resp = handler_killed(Ok(()), &query("Aerys Targaryen"));
    assert_eq!(resp.status, 200);
}

#[test]
fn statuses() {
    assert_eq!(STATUS_OK, 200);
    assert_eq!(STATUS_NO_CONTENT, 204);
    assert_eq!(STATUS_INTERNAL_SERVER_ERROR, 500);
}

#[test]
fn an_unknown_name_is_said_to_be_unknown() {
    let (characters, relationships) = targaryens();
    let resp = handler_next(Ok((characters, relationships)), &query("toto"));
    assert_eq!(resp.status, STATUS_NO_CONTENT);
    assert_eq!(resp.body, "\"toto\" does not exists.");
}

#[test]
fn the_heir_is_named() {
    let (characters, relationships) = targaryens();
    let resp = handler_next(Ok((characters, relationships)), &query("Aerys Targaryen"));
    assert_eq!(resp.status, STATUS_OK);
    assert_eq!(resp.body, "\"Aerys Targaryen\" next heir is: \"Daenerys Targaryen\"");
}

#[test]
fn no_heir_is_said_so() {
    let (characters, relationships) = targaryens();
    let resp = handler_next(Ok((characters, relationships)), &query("Hodor"));
    assert_eq!(resp.status, STATUS_OK);
    assert_eq!(resp.body, "\"Hodor\" has no heir anymore.");
}

#[test]
fn a_failure_of_the_store_is_reported() {
    let resp = handler_next(Err("connection refused".to_string()), &query("Hodor"));
    assert_eq!(resp.status, STATUS_INTERNAL_SERVER_ERROR);
    assert_eq!(resp.body, "Internal Server Error: connection refused");
    match handler_kill(Err("gone away".to_string()), &query("Hodor")) {
        KillStep::Answer(resp) => {
            assert_eq!(resp.status, STATUS_INTERNAL_SERVER_ERROR);
            assert_eq!(resp.body, "Internal Server Error: gone away");
        }
        KillStep::Kill => panic!("the store failed"),
    }
    let resp = handler_killed(Err("deadlock".to_string()), &query("Hodor"));
    assert_eq!(resp.status, STATUS_INTERNAL_SERVER_ERROR);
    assert_eq!(resp.body, "Internal Server Error: deadlock");
}

#[test]
fn names_are_quoted_and_escaped() {
    let characters = vec![person("The \"Hound\"", Gender::M, true), person("a\\b\n", Gender::F, true)];
    let relationships = vec![edge("The \"Hound\"", Gender::M, "a\\b\n", Gender::F)];
    let resp = handler_next(Ok((characters, relationships)), &query("The \"Hound\""));
    assert_eq!(resp.body, format!("{:?} next heir is: {:?}", "The \"Hound\"", "a\\b\n"));
    assert_eq!(resp.body, "\"The \\\"Hound\\\"\" next heir is: \"a\\\\b\\n\"");
    let resp = handler_killed(Ok(()), &query("Arya\tStark"));
    assert_eq!(resp.body, "\"Arya\\tStark\" has been killed !");
}

#[test]
fn killing_asks_for_a_known_name() {
    let (characters, _) = targaryens();
    match handler_kill(Ok(characters.clone()), &query("toto")) {
        KillStep::Answer(resp) => {
            assert_eq!(resp.status, STATUS_NO_CONTENT);
            assert_eq!(resp.body, "\"toto\" does not exists.");
        }
        KillStep::Kill => panic!("nobody is called toto"),
    }
    assert!(matches!(handler_kill(Ok(characters.clone()), &query("Hodor")), KillStep::Kill));
    assert!(matches!(
        handler_kill(Ok(characters), &query("Viserys Targaryen")),
        KillStep::Kill
    ));
    let resp = handler_killed(Ok(()), &query("Hodor"));
    assert_eq!(resp.status, STATUS_OK);
    assert_eq!(resp.body, "\"Hodor\" has been killed !");
}

#[test]
fn replies_are_built_from_quoted_names() {
    let r = unknown_reply("<x>");
    assert_eq!((r.status, r.body.as_str()), (204, "<x> does not exists."));
    let r = heir_reply("<x>", "<y>");
    assert_eq!((r.status, r.body.as_str()), (200, "<x> next heir is: <y>"));
    let r = no_heir_reply("<x>");
    assert_eq!((r.status, r.body.as_str()), (200, "<x> has no heir anymore."));
    let r = killed_reply("<x>");
    assert_eq!((r.status, r.body.as_str()), (200, "<x> has been killed !"));
    let r = failure_reply("boom");
    assert_eq!((r.status, r.body.as_str()), (500, "Internal Server Error: boom"));
}

#[test]
fn knowing_is_by_the_whole_name() {
    let (characters, _) = targaryens();
    assert!(knows(&"Hodor".to_string(), &characters));
    assert!(knows(&"Viserys Targaryen".to_string(), &characters));
    assert!(!knows(&"hodor".to_string(), &characters));
    assert!(!knows(&"Hodor ".to_string(), &characters));
    assert!(!knows(&"".to_string(), &characters));
    assert!(!knows(&"Hodor".to_string(), &Vec::new()));
}
