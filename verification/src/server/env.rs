//! Settings, as they come out of the variables of the environment.

use crate::names::same_text;
use vstd::prelude::*;
use vstd::std_specs::iter::IteratorSpec;
use vstd::string::StringExecFns;

verus! {

/// The settings of the server.
#[derive(Debug)]
pub struct Config {
    pub mysql_user: String,
    pub mysql_password: String,
    pub mysql_host: String,
    pub mysql_db_name: String,
    pub mysql_port: u16,
    pub reset_characters: bool,
    pub listen_port: String,
}

/// What the settings say, with the texts as sequences of characters.
pub struct Settings {
    pub mysql_user: Seq<char>,
    pub mysql_password: Seq<char>,
    pub mysql_host: Seq<char>,
    pub mysql_db_name: Seq<char>,
    pub mysql_port: u16,
    pub reset_characters: bool,
    pub listen_port: Seq<char>,
}

impl View for Config {
    type V = Settings;

    open spec fn view(&self) -> Settings {
        Settings {
            mysql_user: self.mysql_user@,
            mysql_password: self.mysql_password@,
            mysql_host: self.mysql_host@,
            mysql_db_name: self.mysql_db_name@,
            mysql_port: self.mysql_port,
            reset_characters: self.reset_characters,
            listen_port: self.listen_port@,
        }
    }
}

/// The variables that the settings are read from, each as it was found:
/// `None` where it is not set.
#[derive(Debug)]
pub struct Environment {
    /// `MYSQL_USER`
    pub mysql_user: Option<String>,
    /// `MYSQL_PASSWORD`
    pub mysql_password: Option<String>,
    /// `MYSQL_HOST`
    pub mysql_host: Option<String>,
    /// `MYSQL_DATABASE`
    pub mysql_database: Option<String>,
    /// `MYSQL_PORT`
    pub mysql_port: Option<String>,
    /// `GAME_OF_THRONE_RESET_CHARACTER`
    pub reset_character: Option<String>,
    /// `SERVER_PORT`
    pub server_port: Option<String>,
}

/// Why the settings cannot be read.
#[derive(Debug, PartialEq, Eq)]
pub enum EnvError {
    /// The variable of this key is not set.
    Missing(String),
    /// The variable of this key is set to the empty text.
    Empty(String),
}

/// What an error says, with the key as a sequence of characters.
pub enum Fault {
    Missing(Seq<char>),
    Empty(Seq<char>),
}

impl View for EnvError {
    type V = Fault;

    open spec fn view(&self) -> Fault {
        match self {
            EnvError::Missing(key) => Fault::Missing(key@),
            EnvError::Empty(key) => Fault::Empty(key@),
        }
    }
}

impl Fault {
    /// The sentence that reports the fault.
    pub open spec fn text(self) -> Seq<char> {
        match self {
            Fault::Missing(key) => "[Environment] Missing variable for key "@ + key,
            Fault::Empty(key) => "[Environment] Empty variable for key "@ + key,
        }
    }
}

impl EnvError {
    /// The error as a sentence.
    pub fn message(&self) -> (m: String)
        ensures
            m@ == self@.text(),
    {
        match self {
            EnvError::Missing(key) => String::from_str(
                "[Environment] Missing variable for key ",
            ).concat(key.as_str()),
            EnvError::Empty(key) => String::from_str(
                "[Environment] Empty variable for key ",
            ).concat(key.as_str()),
        }
    }
}

/// The error for a variable that is not set.
pub fn missing_variable_error(name: &str) -> (e: EnvError)
    ensures
        e@ == Fault::Missing(name@),
{
    EnvError::Missing(name.to_owned())
}

/// The error for a variable that is set to the empty text.
pub fn empty_variable_error(name: &str) -> (e: EnvError)
    ensures
        e@ == Fault::Empty(name@),
{
    EnvError::Empty(name.to_owned())
}

/// What is wrong with a variable that must be set to some text, if anything.
pub open spec fn fault_of(key: Seq<char>, value: Option<String>) -> Option<Fault> {
    match value {
        None => Some(Fault::Missing(key)),
        Some(text) => if text@.len() == 0 {
            Some(Fault::Empty(key))
        } else {
            None
        },
    }
}

/// The text of a variable that must be set: an error where it is not set or
/// set to the empty text.
pub fn read_variable(name: &str, value: Option<String>) -> (r: Result<String, EnvError>)
    ensures
        match fault_of(name@, value) {
            Some(fault) => r is Err && r->Err_0@ == fault,
            None => r == Ok::<String, EnvError>(value->0),
        },
{
    match value {
        None => Err(missing_variable_error(name)),
        Some(text) => {
            if text.as_str().is_empty() {
                Err(empty_variable_error(name))
            } else {
                Ok(text)
            }
        },
    }
}

/// The number that a text of digits stands for, read in base ten.
pub open spec fn decimal_value(s: Seq<char>) -> nat
    decreases s.len(),
{
    if s.len() == 0 {
        0
    } else {
        10 * decimal_value(s.drop_last()) + (s.last() as nat - '0' as nat) as nat
    }
}

/// Every character of `s` is a digit.
pub open spec fn all_digits(s: Seq<char>) -> bool {
    forall|i: int| 0 <= i < s.len() ==> '0' <= #[trigger] s[i] <= '9'
}

/// The digits of a number's text: the text without a leading plus sign.
pub open spec fn unsigned_part(s: Seq<char>) -> Seq<char> {
    if s.len() > 0 && s[0] == '+' {
        s.skip(1)
    } else {
        s
    }
}

/// The port that a text stands for: one or more digits, a plus sign in front
/// of them or none, and a value of at most 65535.
pub open spec fn port_of(s: Seq<char>) -> Option<u16> {
    let digits = unsigned_part(s);
    if digits.len() > 0 && all_digits(digits) && decimal_value(digits) <= u16::MAX {
        Some(decimal_value(digits) as u16)
    } else {
        None
    }
}

/// Reads a port number.
pub fn parse_port(s: &str) -> (r: Option<u16>)
    ensures
        r == port_of(s@),
{
    broadcast use vstd::string::group_string_axioms;

    let mut it = s.chars();
    let ghost mut k: int = 0;
    let ghost mut from: int = 0;
    let mut first: bool = true;
    let mut seen: bool = false;
    let mut value: u32 = 0;
    assert(s@.subrange(0, 0) =~= Seq::<char>::empty());
    loop
        invariant
            it.obeys_prophetic_iter_laws(),
            0 <= from <= k <= s@.len(),
            it.remaining() == s@.skip(k),
            from == 1 ==> k >= 1 && s@[0] == '+',
            from == 0 || from == 1,
            from == 0 && k >= 1 ==> s@[0] != '+',
            first == (k == 0),
            seen == (k > from),
            all_digits(s@.subrange(from, k)),
            value <= u16::MAX + 1,
            decimal_value(s@.subrange(from, k)) <= u16::MAX ==> value == decimal_value(
                s@.subrange(from, k),
            ),
            decimal_value(s@.subrange(from, k)) > u16::MAX ==> value == u16::MAX + 1,
        decreases s@.len() - k,
    {
        match it.next() {
            None => {
                proof {
                    assert(s@.subrange(from, k) =~= unsigned_part(s@));
                }
                if seen && value <= 65535 {
                    return Some(value as u16);
                }
                return None;
            },
            Some(c) => {
                if first && c == '+' {
                    first = false;
                    proof {
                        from = 1;
                        k = 1;
                        assert(s@.subrange(1, 1) =~= Seq::<char>::empty());
                    }
                } else if '0' <= c && c <= '9' {
                    let digit: u32 = c as u32 - '0' as u32;
                    proof {
                        let sofar = s@.subrange(from, k);
                        let next = s@.subrange(from, k + 1);
                        assert(next.drop_last() =~= sofar);
                        assert(next.last() == c);
                    }
                    value = if value > 65535 {
                        65536
                    } else if value * 10 + digit > 65535 {
                        65536
                    } else {
                        value * 10 + digit
                    };
                    first = false;
                    seen = true;
                    proof {
                        k = k + 1;
                    }
                } else {
                    proof {
                        let digits = unsigned_part(s@);
                        assert(digits[k - from] == c);
                    }
                    return None;
                }
            },
        }
    }
}

/// What keeps the settings from being read: the fault of the first variable
/// that has one, in the order user, password, host, database, port, reset.
pub open spec fn config_fault(env: Environment) -> Option<Fault> {
    if fault_of("MYSQL_USER"@, env.mysql_user) is Some {
        fault_of("MYSQL_USER"@, env.mysql_user)
    } else if fault_of("MYSQL_PASSWORD"@, env.mysql_password) is Some {
        fault_of("MYSQL_PASSWORD"@, env.mysql_password)
    } else if fault_of("MYSQL_HOST"@, env.mysql_host) is Some {
        fault_of("MYSQL_HOST"@, env.mysql_host)
    } else if fault_of("MYSQL_DATABASE"@, env.mysql_database) is Some {
        fault_of("MYSQL_DATABASE"@, env.mysql_database)
    } else if fault_of("MYSQL_PORT"@, env.mysql_port) is Some {
        fault_of("MYSQL_PORT"@, env.mysql_port)
    } else {
        fault_of("GAME_OF_THRONE_RESET_CHARACTER"@, env.reset_character)
    }
}

/// Whether a variable that must be set to some text is missing or empty.
pub fn is_faulty(value: &Option<String>) -> (r: bool)
    ensures
        forall|key: Seq<char>| r == (#[trigger] fault_of(key, *value) is Some),
{
    match value {
        None => true,
        Some(text) => text.as_str().is_empty(),
    }
}

/// Whether the settings can be read without asking more of the port of the
/// database than its text holds: some variable has a fault, or the port is a
/// number.
pub fn port_can_be_read(env: &Environment) -> (r: bool)
    ensures
        r == (config_fault(*env) is None ==> port_of(env.mysql_port->0@) is Some),
{
    if is_faulty(&env.mysql_user) || is_faulty(&env.mysql_password) || is_faulty(&env.mysql_host)
        || is_faulty(&env.mysql_database) || is_faulty(&env.mysql_port) || is_faulty(
        &env.reset_character,
    ) {
        return true;
    }
    match &env.mysql_port {
        Some(text) => parse_port(text.as_str()).is_some(),
        None => true,
    }
}

/// The settings that an environment without a fault gives. The server
/// listens on port 9898 unless told otherwise; the characters are reset only
/// where the variable says exactly `true`.
pub open spec fn settings_of(env: Environment) -> Settings {
    Settings {
        mysql_user: env.mysql_user->0@,
        mysql_password: env.mysql_password->0@,
        mysql_host: env.mysql_host->0@,
        mysql_db_name: env.mysql_database->0@,
        mysql_port: port_of(env.mysql_port->0@)->0,
        reset_characters: env.reset_character->0@ == "true"@,
        listen_port: match env.server_port {
            Some(port) => port@,
            None => "9898"@,
        },
    }
}

/// Reads the settings from the variables of the environment, or names the
/// first variable that is missing or empty. The port of the database must
/// be a number wherever no variable is.
pub fn read_config_from_env(env: Environment) -> (r: Result<Config, EnvError>)
    requires
        config_fault(env) is None ==> port_of(env.mysql_port->0@) is Some,
    ensures
        match config_fault(env) {
            Some(fault) => r is Err && r->Err_0@ == fault,
            None => r is Ok && r->Ok_0@ == settings_of(env),
        },
{
    let mysql_user = match read_variable("MYSQL_USER", env.mysql_user) {
        Ok(text) => text,
        Err(e) => {
            return Err(e);
        },
    };
    let mysql_password = match read_variable("MYSQL_PASSWORD", env.mysql_password) {
        Ok(text) => text,
        Err(e) => {
            return Err(e);
        },
    };
    let mysql_host = match read_variable("MYSQL_HOST", env.mysql_host) {
        Ok(text) => text,
        Err(e) => {
            return Err(e);
        },
    };
    let mysql_db_name = match read_variable("MYSQL_DATABASE", env.mysql_database) {
        Ok(text) => text,
        Err(e) => {
            return Err(e);
        },
    };
    let mysql_port = match read_variable("MYSQL_PORT", env.mysql_port) {
        Ok(text) => text,
        Err(e) => {
            return Err(e);
        },
    };
    let reset_characters = match read_variable(
        "GAME_OF_THRONE_RESET_CHARACTER",
        env.reset_character,
    ) {
        Ok(text) => text,
        Err(e) => {
            return Err(e);
        },
    };
    let listen_port = match env.server_port {
        Some(port) => port,
        None => "9898".to_owned(),
    };
    let port = match parse_port(mysql_port.as_str()) {
        Some(port) => port,
        None => vstd::pervasive::unreached(),
    };
    Ok(
        Config {
            mysql_user,
            mysql_password,
            mysql_host,
            mysql_db_name,
            mysql_port: port,
            reset_characters: same_text(reset_characters.as_str(), "true"),
            listen_port,
        },
    )
}

} // verus!
