//! Classification of a completed argument list into a typed command.  The
//! first argument, compared case-insensitively, selects the command; the
//! remaining arguments fill its fields.  A first argument that matches no
//! command, or an argument list too short for the matched command, is a
//! classification error, fatal to the connection that sent it.

use vstd::prelude::*;

use crate::text::{clone_bytes, seqs_of, to_upper, upper};

verus! {

/// A complete, fully collected command.  `Put` executes the wire command
/// `SET`: it upserts a key.  Commands are never partially constructed.
#[derive(Debug)]
pub enum Command {
    Ping,
    Echo(Vec<u8>),
    Get(Vec<u8>),
    Put(Vec<u8>, Vec<u8>),
}

/// Why a connection must be torn down: its peer sent an array header whose
/// count does not parse (`Framing`), or a completed argument list that names
/// no known command or lacks that command's arguments (`Classification`).
/// Both are local to the offending connection.
#[derive(Clone, Copy, Debug, PartialEq, Eq, Structural)]
pub enum ProtocolError {
    Framing,
    Classification,
}

/// `PING` as bytes.
pub open spec fn ping_word() -> Seq<u8> {
    seq![80u8, 73u8, 78u8, 71u8]
}

/// `ECHO` as bytes.
pub open spec fn echo_word() -> Seq<u8> {
    seq![69u8, 67u8, 72u8, 79u8]
}

/// `GET` as bytes.
pub open spec fn get_word() -> Seq<u8> {
    seq![71u8, 69u8, 84u8]
}

/// `SET` as bytes.
pub open spec fn set_word() -> Seq<u8> {
    seq![83u8, 69u8, 84u8]
}

/// `s` spells `w` up to ASCII case (`w` is one of the uppercase command
/// words).
pub open spec fn is_keyword(s: Seq<u8>, w: Seq<u8>) -> bool {
    s.len() == w.len() && (forall|i: int| 0 <= i < s.len() ==> #[trigger] upper(s[i]) == w[i])
}

/// The argument lists that classify as a command: a known first word and
/// enough arguments for it.  Arguments beyond the command's arity are
/// permitted and ignored.
pub open spec fn valid_command(msg: Seq<Seq<u8>>) -> bool {
    msg.len() >= 1 && (is_keyword(msg[0], ping_word()) || (is_keyword(msg[0], echo_word())
        && msg.len() >= 2) || (is_keyword(msg[0], get_word()) && msg.len() >= 2) || (is_keyword(
        msg[0],
        set_word(),
    ) && msg.len() >= 3))
}

/// `c` is the command that the argument list `msg` spells.
pub open spec fn command_matches(c: Command, msg: Seq<Seq<u8>>) -> bool {
    match c {
        Command::Ping => msg.len() >= 1 && is_keyword(msg[0], ping_word()),
        Command::Echo(x) => msg.len() >= 2 && is_keyword(msg[0], echo_word()) && x@ == msg[1],
        Command::Get(k) => msg.len() >= 2 && is_keyword(msg[0], get_word()) && k@ == msg[1],
        Command::Put(k, v) => msg.len() >= 3 && is_keyword(msg[0], set_word()) && k@ == msg[1]
            && v@ == msg[2],
    }
}

/// Case-insensitive comparison of `s` against the command word `w`.
fn eq_upper(s: &Vec<u8>, w: &Vec<u8>) -> (r: bool)
    ensures
        r <==> is_keyword(s@, w@),
{
    if s.len() != w.len() {
        return false;
    }
    let mut i: usize = 0;
    while i < s.len()
        invariant
            0 <= i <= s@.len(),
            s@.len() == w@.len(),
            forall|j: int| 0 <= j < i ==> #[trigger] upper(s@[j]) == w@[j],
        decreases s@.len() - i,
    {
        if to_upper(s[i]) != w[i] {
            return false;
        }
        i = i + 1;
    }
    true
}

/// Builds `PING`.
fn ping_bytes() -> (w: Vec<u8>)
    ensures
        w@ == ping_word(),
{
    let mut w: Vec<u8> = Vec::new();
    w.push(80);
    w.push(73);
    w.push(78);
    w.push(71);
    proof {
        assert(w@ =~= ping_word());
    }
    w
}

/// Builds `ECHO`.
fn echo_bytes() -> (w: Vec<u8>)
    ensures
        w@ == echo_word(),
{
    let mut w: Vec<u8> = Vec::new();
    w.push(69);
    w.push(67);
    w.push(72);
    w.push(79);
    proof {
        assert(w@ =~= echo_word());
    }
    w
}

/// Builds `GET`.
fn get_bytes() -> (w: Vec<u8>)
    ensures
        w@ == get_word(),
{
    let mut w: Vec<u8> = Vec::new();
    w.push(71);
    w.push(69);
    w.push(84);
    proof {
        assert(w@ =~= get_word());
    }
    w
}

/// Builds `SET`.
fn set_bytes() -> (w: Vec<u8>)
    ensures
        w@ == set_word(),
{
    let mut w: Vec<u8> = Vec::new();
    w.push(83);
    w.push(69);
    w.push(84);
    proof {
        assert(w@ =~= set_word());
    }
    w
}

/// Classifies a completed argument list.  Returns the spelled command
/// exactly when the list is a valid command; every invalid list — empty,
/// unknown first word, or too few arguments — is a classification error.
pub fn get_command_from_message(message: &Vec<Vec<u8>>) -> (r: Result<Command, ProtocolError>)
    ensures
        ({
            let msg = seqs_of(message@);
            match r {
                Ok(c) => valid_command(msg) && command_matches(c, msg),
                Err(e) => !valid_command(msg) && e == ProtocolError::Classification,
            }
        }),
{
    let ghost msg = seqs_of(message@);
    if message.len() == 0 {
        return Err(ProtocolError::Classification);
    }
    proof {
        assert(msg[0] == message@[0]@);
        assert(msg.len() == message@.len());
    }
    let first = &message[0];
    let pw = ping_bytes();
    if eq_upper(first, &pw) {
        return Ok(Command::Ping);
    }
    let ew = echo_bytes();
    if eq_upper(first, &ew) {
        if message.len() >= 2 {
            proof {
                assert(msg[1] == message@[1]@);
            }
            return Ok(Command::Echo(clone_bytes(&message[1])));
        }
        return Err(ProtocolError::Classification);
    }
    let gw = get_bytes();
    if eq_upper(first, &gw) {
        if message.len() >= 2 {
            proof {
                assert(msg[1] == message@[1]@);
            }
            return Ok(Command::Get(clone_bytes(&message[1])));
        }
        return Err(ProtocolError::Classification);
    }
    let sw = set_bytes();
    if eq_upper(first, &sw) {
        if message.len() >= 3 {
            proof {
                assert(msg[1] == message@[1]@);
                assert(msg[2] == message@[2]@);
            }
            return Ok(Command::Put(clone_bytes(&message[1]), clone_bytes(&message[2])));
        }
        return Err(ProtocolError::Classification);
    }
    Err(ProtocolError::Classification)
}

} // verus!
