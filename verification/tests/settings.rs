use succession::server::env::{
    empty_variable_error, missing_variable_error, parse_port, read_config_from_env, read_variable,
    EnvError, Environment,
};

fn some(s: &str) -> Option<String> {
    Some(s.to_string())
}

fn full() -> Environment {
    Environment {
        mysql_user: some("root"),
        mysql_password: some("SECRET-REDACTED"),
        mysql_host: some("127.0.0.1"),
        mysql_database: some("got"),
        mysql_port: some("3306"),
        reset_character: some("true"),
        server_port: some("8080"),
    }
}

#[test]
fn a_full_environment_gives_the_settings() {
    let config = read_config_from_env(full()).unwrap();
    assert_eq!(config.mysql_user, "root");
    assert_eq!(config.mysql_password, "SECRET-REDACTED");
    assert_eq!(config.mysql_host, "127.0.0.1");
    assert_eq!(config.mysql_db_name, "got");
    assert_eq!(config.mysql_port, 3306);
    assert!(config.reset_characters);
    assert_eq!(config.listen_port, "8080");
}

#[test]
fn the_server_listens_on_9898_by_default() {
    let mut env = full();
    env.server_port = None;
    assert_eq!(read_config_from_env(env).unwrap().listen_port, "9898");
    let mut env = full();
    env.server_port = some("");
    assert_eq!(read_config_from_env(env).unwrap().listen_port, "");
}

#[test]
fn only_true_resets_the_characters() {
    for (text, expected) in
        [("true", true), ("false", false), ("TRUE", false), ("1", false), ("true ", false)]
    {
        let mut env = full();
        env.reset_character = some(text);
        assert_eq!(read_config_from_env(env).unwrap().reset_characters, expected);
    }
}

#[test]
fn the_first_missing_variable_is_named() {
    let keys = [
        "MYSQL_USER",
        "MYSQL_PASSWORD",
        "MYSQL_HOST",
        "MYSQL_DATABASE",
        "MYSQL_PORT",
        "GAME_OF_THRONE_RESET_CHARACTER",
    ];
    for first in 0..keys.len() {
        let mut env = full();
        let mut slots = [
            &mut env.mysql_user,
            &mut env.mysql_password,
            &mut env.mysql_host,
            &mut env.mysql_database,
            &mut env.mysql_port,
            &mut env.reset_character,
        ];
        for slot in slots[first..].iter_mut() {
            **slot = None;
        }
        let e = read_config_from_env(env).unwrap_err();
        assert_eq!(e, EnvError::Missing(keys[first].to_string()));
        assert_eq!(e.message(), format!("[Environment] Missing variable for key {}", keys[first]));
    }
}

#[test]
fn the_first_empty_variable_is_named() {
    let mut env = full();
    env.mysql_host = some("");
    env.mysql_port = None;
    let e = read_config_from_env(env).unwrap_err();
    assert_eq!(e, EnvError::Empty("MYSQL_HOST".to_string()));
    assert_eq!(e.message(), "[Environment] Empty variable for key MYSQL_HOST");
    let mut env = full();
    env.mysql_user = None;
    env.mysql_password = some("");
    assert_eq!(read_config_from_env(env).unwrap_err(), EnvError::Missing("MYSQL_USER".to_string()));
    let mut env = full();
    env.reset_character = some("");
    assert_eq!(
        read_config_from_env(env).unwrap_err(),
        EnvError::Empty("GAME_OF_THRONE_RESET_CHARACTER".to_string())
    );
}

#[test]
fn a_fault_comes_before_the_port_is_read() {
    let mut env = full();
    env.mysql_port = some("not a number");
    env.reset_character = None;
    assert_eq!(
        read_config_from_env(env).unwrap_err(),
        EnvError::Missing("GAME_OF_THRONE_RESET_CHARACTER".to_string())
    );
}

#[test]
fn a_variable_is_read_or_reported() {
    assert_eq!(read_variable("KEY", some("value")), Ok("value".to_string()));
    assert_eq!(read_variable("KEY", some(" ")), Ok(" ".to_string()));
    assert_eq!(read_variable("KEY", None), Err(EnvError::Missing("KEY".to_string())));
    assert_eq!(read_variable("KEY", some("")), Err(EnvError::Empty("KEY".to_string())));
}

#[test]
fn errors_name_their_key() {
    assert_eq!(missing_variable_error("A_KEY"), EnvError::Missing("A_KEY".to_string()));
    assert_eq!(empty_variable_error("A_KEY"), EnvError::Empty("A_KEY".to_string()));
    assert_eq!(
        missing_variable_error("A_KEY").message(),
        "[Environment] Missing variable for key A_KEY"
    );
    assert_eq!(
        empty_variable_error("A_KEY").message(),
        "[Environment] Empty variable for key A_KEY"
    );
    assert_eq!(missing_variable_error("").message(), "[Environment] Missing variable for key ");
}

#[test]
fn ports_are_read_in_base_ten() {
    assert_eq!(parse_port("0"), Some(0));
    assert_eq!(parse_port("80"), Some(80));
    assert_eq!(parse_port("3306"), Some(3306));
    assert_eq!(parse_port("65535"), Some(65535));
    assert_eq!(parse_port("+443"), Some(443));
    assert_eq!(parse_port("0000000000000000000000080"), Some(80));
    assert_eq!(parse_port("65536"), None);
    assert_eq!(parse_port("99999999999999999999999999"), None);
    assert_eq!(parse_port(""), None);
    assert_eq!(parse_port("+"), None);
    assert_eq!(parse_port("-"), None);
    assert_eq!(parse_port("-1"), None);
    assert_eq!(parse_port("-0"), None);
    assert_eq!(parse_port("++1"), None);
    assert_eq!(parse_port("1+"), None);
    assert_eq!(parse_port(" 80"), None);
    assert_eq!(parse_port("80 "), None);
    assert_eq!(parse_port("8_0"), None);
    assert_eq!(parse_port("0x50"), None);
    assert_eq!(parse_port("٣"), None);
    assert_eq!(parse_port("65536a"), None);
}

#[test]
fn ports_are_read_as_the_standard_library_reads_them() {
    let pieces = ["", "+", "-", "0", "6", "9", "00", "55", "35", " ", "a", "655", "36", "٣"];
    for a in pieces.iter() {
        for b in pieces.iter() {
            for c in pieces.iter() {
                let text = format!("{}{}{}", a, b, c);
                assert_eq!(parse_port(&text), text.parse::<u16>().ok(), "{:?}", text);
            }
        }
    }
    for n in 0..=70000u32 {
        let text = n.to_string();
        assert_eq!(parse_port(&text), text.parse::<u16>().ok(), "{:?}", text);
    }
}
