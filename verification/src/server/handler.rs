//! The answers given to the two requests: who is next, and kill.

use crate::data::{Edge, Relationship};
use crate::logic::{heir_of, is_known, knows, next_heir};
use crate::server::db::{Character, Person};
use vstd::prelude::*;
use vstd::string::StringExecFns;

verus! {

/// What a request asks about: the name of a character.
#[derive(Debug)]
pub struct QueryParam {
    pub name: String,
}

/// An answer: the status it is sent with, and its text.
#[derive(Debug)]
pub struct Reply {
    pub status: u16,
    pub body: String,
}

/// What an answer says, with the text as a sequence of characters.
pub struct Answer {
    pub status: u16,
    pub body: Seq<char>,
}

impl View for Reply {
    type V = Answer;

    open spec fn view(&self) -> Answer {
        Answer { status: self.status, body: self.body@ }
    }
}

/// The status of an answer that was found.
pub const STATUS_OK: u16 = 200;

/// The status of an answer about a name that nobody bears.
pub const STATUS_NO_CONTENT: u16 = 204;

/// The status of an answer that the store kept from being found.
pub const STATUS_INTERNAL_SERVER_ERROR: u16 = 500;

/// A text as `{:?}` prints it: between quotes, with what needs it escaped.
pub uninterp spec fn debug_text(s: Seq<char>) -> Seq<char>;

/// `format!` with `{:?}` on a `str`, that is `<str as Debug>::fmt`: the
/// result is the text that this formatting gives for these characters, which
/// depends on nothing else.
#[verifier::external_body]
fn quote(s: &str) -> (r: String)
    ensures
        r@ == debug_text(s@),
{
    format!("{:?}", s)
}

/// The answer about a name that nobody bears, from the name as quoted.
pub open spec fn unknown_answer(quoted: Seq<char>) -> Answer {
    Answer { status: STATUS_NO_CONTENT, body: quoted + " does not exists."@ }
}

/// The answer that names the heir, from both names as quoted.
pub open spec fn heir_answer(quoted: Seq<char>, quoted_heir: Seq<char>) -> Answer {
    Answer { status: STATUS_OK, body: quoted + " next heir is: "@ + quoted_heir }
}

/// The answer that nobody is left to inherit, from the name as quoted.
pub open spec fn no_heir_answer(quoted: Seq<char>) -> Answer {
    Answer { status: STATUS_OK, body: quoted + " has no heir anymore."@ }
}

/// The answer that the character was killed, from the name as quoted.
pub open spec fn killed_answer(quoted: Seq<char>) -> Answer {
    Answer { status: STATUS_OK, body: quoted + " has been killed !"@ }
}

/// The answer that reports what went wrong in the store.
pub open spec fn failure_answer(error: Seq<char>) -> Answer {
    Answer { status: STATUS_INTERNAL_SERVER_ERROR, body: "Internal Server Error: "@ + error }
}

/// Answers about a name that nobody bears.
pub fn unknown_reply(quoted: &str) -> (r: Reply)
    ensures
        r@ == unknown_answer(quoted@),
{
    Reply { status: STATUS_NO_CONTENT, body: String::from_str(quoted).concat(" does not exists.") }
}

/// Answers with the heir.
pub fn heir_reply(quoted: &str, quoted_heir: &str) -> (r: Reply)
    ensures
        r@ == heir_answer(quoted@, quoted_heir@),
{
    Reply {
        status: STATUS_OK,
        body: String::from_str(quoted).concat(" next heir is: ").concat(quoted_heir),
    }
}

/// Answers that nobody is left to inherit.
pub fn no_heir_reply(quoted: &str) -> (r: Reply)
    ensures
        r@ == no_heir_answer(quoted@),
{
    Reply { status: STATUS_OK, body: String::from_str(quoted).concat(" has no heir anymore.") }
}

/// Answers that the character was killed.
pub fn killed_reply(quoted: &str) -> (r: Reply)
    ensures
        r@ == killed_answer(quoted@),
{
    Reply { status: STATUS_OK, body: String::from_str(quoted).concat(" has been killed !") }
}

/// Answers with what went wrong in the store.
pub fn failure_reply(error: &str) -> (r: Reply)
    ensures
        r@ == failure_answer(error@),
{
    Reply {
        status: STATUS_INTERNAL_SERVER_ERROR,
        body: String::from_str("Internal Server Error: ").concat(error),
    }
}

/// The answer to who is next after `name` in a snapshot: that the name is
/// unknown, or the heir, or that there is none left.
pub open spec fn next_answer(name: Seq<char>, people: Seq<Person>, edges: Seq<Edge>) -> Answer {
    if !is_known(name, people) {
        unknown_answer(debug_text(name))
    } else {
        match heir_of(name, people, edges) {
            Some(heir) => heir_answer(debug_text(name), debug_text(heir.name)),
            None => no_heir_answer(debug_text(name)),
        }
    }
}

/// Answers who is next, from what the store gave: the characters and the
/// relationships, or the text of its error.
pub fn handler_next(
    read: Result<(Vec<Character>, Vec<Relationship>), String>,
    q: &QueryParam,
) -> (r: Reply)
    ensures
        r@ == match read {
            Ok(snapshot) => next_answer(q.name@, snapshot.0.deep_view(), snapshot.1.deep_view()),
            Err(error) => failure_answer(error@),
        },
{
    match read {
        Ok((characters, relationships)) => {
            let quoted = quote(q.name.as_str());
            if !knows(&q.name, &characters) {
                unknown_reply(quoted.as_str())
            } else {
                match next_heir(&q.name, &characters, &relationships) {
                    Some(character) => {
                        let quoted_heir = quote(character.name.as_str());
                        heir_reply(quoted.as_str(), quoted_heir.as_str())
                    },
                    None => no_heir_reply(quoted.as_str()),
                }
            }
        },
        Err(error) => failure_reply(error.as_str()),
    }
}

/// What to do about a request to kill.
#[derive(Debug)]
pub enum KillStep {
    /// Mark the character as dead in the store, then answer with
    /// [`handler_killed`].
    Kill,
    /// Answer at once.
    Answer(Reply),
}

/// Decides about a request to kill, from what the store gave: the
/// characters, or the text of its error. Only a character who is known is
/// killed.
pub fn handler_kill(read: Result<Vec<Character>, String>, q: &QueryParam) -> (r: KillStep)
    ensures
        match read {
            Ok(characters) => if is_known(q.name@, characters.deep_view()) {
                r is Kill
            } else {
                r is Answer && r->Answer_0@ == unknown_answer(debug_text(q.name@))
            },
            Err(error) => r is Answer && r->Answer_0@ == failure_answer(error@),
        },
{
    match read {
        Ok(characters) => {
            if !knows(&q.name, &characters) {
                let quoted = quote(q.name.as_str());
                KillStep::Answer(unknown_reply(quoted.as_str()))
            } else {
                KillStep::Kill
            }
        },
        Err(error) => KillStep::Answer(failure_reply(error.as_str())),
    }
}

/// Answers a request to kill once the store was told: that the character was
/// killed, or the text of the store's error.
pub fn handler_killed(killed: Result<(), String>, q: &QueryParam) -> (r: Reply)
    ensures
        r@ == match killed {
            Ok(_) => killed_answer(debug_text(q.name@)),
            Err(error) => failure_answer(error@),
        },
{
    match killed {
        Ok(_) => {
            let quoted = quote(q.name.as_str());
            killed_reply(quoted.as_str())
        },
        Err(error) => failure_reply(error.as_str()),
    }
}

} // verus!
