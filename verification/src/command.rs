//! The command protocol: command names, arities, replies and errors.
//!
//! A command is a tagged value with a fixed expected argument shape. It is
//! transient: parsed from a name, dispatched once, and discarded.

use vstd::prelude::*;

verus! {

/// A recognized command.
#[derive(Clone, Copy, Debug, PartialEq, Eq, Structural)]
pub enum Command {
    /// `SET key value`: scalar upsert.
    CmdSet,
    /// `GET key`: scalar read.
    CmdGet,
    /// `DEL key`: removal from both maps.
    CmdDel,
    /// `LPUSH key value`: list append.
    CmdLPush,
    /// `LRANGE key`: full list read.
    CmdLRange,
    /// `MSET key value [key value ...]`: batch scalar upsert.
    CmdMSet,
    /// `MGET key [key ...]`: batch scalar read.
    CmdMGet,
    /// `KEYS`: sorted, deduplicated key union.
    CmdKeys,
}

impl Command {
    /// The argument shape the command requires: a fixed count for most, an
    /// even count of at least two for `MSET`, at least one for `MGET`.
    pub open spec fn arity_ok(self, n: nat) -> bool {
        match self {
            Command::CmdSet => n == 2,
            Command::CmdGet => n == 1,
            Command::CmdDel => n == 1,
            Command::CmdLPush => n == 2,
            Command::CmdLRange => n == 1,
            Command::CmdMSet => n >= 2 && n % 2 == 0,
            Command::CmdMGet => n >= 1,
            Command::CmdKeys => n == 0,
        }
    }

    /// Checks the argument count against the command's required shape.
    pub fn arity_check(self, n: usize) -> (r: bool)
        ensures
            r == self.arity_ok(n as nat),
    {
        match self {
            Command::CmdSet => n == 2,
            Command::CmdGet => n == 1,
            Command::CmdDel => n == 1,
            Command::CmdLPush => n == 2,
            Command::CmdLRange => n == 1,
            Command::CmdMSet => n >= 2 && n % 2 == 0,
            Command::CmdMGet => n >= 1,
            Command::CmdKeys => n == 0,
        }
    }
}

/// The command a name denotes, or nothing for an unrecognized name.
pub open spec fn spec_parse(name: Seq<char>) -> Option<Command> {
    if name == "SET"@ {
        Some(Command::CmdSet)
    } else if name == "GET"@ {
        Some(Command::CmdGet)
    } else if name == "DEL"@ {
        Some(Command::CmdDel)
    } else if name == "LPUSH"@ {
        Some(Command::CmdLPush)
    } else if name == "LRANGE"@ {
        Some(Command::CmdLRange)
    } else if name == "MSET"@ {
        Some(Command::CmdMSet)
    } else if name == "MGET"@ {
        Some(Command::CmdMGet)
    } else if name == "KEYS"@ {
        Some(Command::CmdKeys)
    } else {
        None
    }
}

/// Parses a command name.
pub fn parse_command(name: &str) -> (r: Option<Command>)
    ensures
        r == spec_parse(name@),
{
    let n = name.to_owned();
    if n == "SET".to_owned() {
        Some(Command::CmdSet)
    } else if n == "GET".to_owned() {
        Some(Command::CmdGet)
    } else if n == "DEL".to_owned() {
        Some(Command::CmdDel)
    } else if n == "LPUSH".to_owned() {
        Some(Command::CmdLPush)
    } else if n == "LRANGE".to_owned() {
        Some(Command::CmdLRange)
    } else if n == "MSET".to_owned() {
        Some(Command::CmdMSet)
    } else if n == "MGET".to_owned() {
        Some(Command::CmdMGet)
    } else if n == "KEYS".to_owned() {
        Some(Command::CmdKeys)
    } else {
        None
    }
}

/// Why a dispatch was rejected. A rejected dispatch applies no write.
#[derive(Debug, PartialEq, Eq)]
pub enum DispatchError {
    /// The command is recognized but was given the wrong number of
    /// arguments; the required shape is [`Command::arity_ok`].
    InvalidArguments { command: Command, given: usize },
    /// The command name is not recognized; the field holds the name as
    /// given.
    UnknownCommand(String),
}

/// What a successful dispatch hands back.
#[derive(Debug, PartialEq, Eq)]
pub enum CommandReply {
    /// A write completed; there is nothing to return.
    Done,
    /// A scalar read: the value, or nothing when the key is absent.
    Value(Option<String>),
    /// A batch scalar read: one slot per requested key, in request order.
    Values(Vec<Option<String>>),
    /// A list read: the full list, or nothing when the key holds no list.
    Items(Option<Vec<String>>),
    /// The sorted, deduplicated union of the keys in use.
    KeyList(Vec<String>),
}

} // verus!
