//! Command execution and the per-line step of one connection.  The
//! connection loop around the library reads a line, trims it, and hands it
//! to [`process_line`]; the library does everything else that is not socket
//! I/O: framing, classification, store access, and reply formatting.  The
//! reply bytes are written back on the same connection before the next line
//! is processed, which keeps strict request/response order per connection.

use vstd::prelude::*;

use crate::command::{
    command_matches, echo_word, get_command_from_message, get_word, is_keyword, ping_word,
    set_word, valid_command, Command, ProtocolError,
};
use crate::frame::{reader_step, FrameReader, StepResult};
use crate::reply::{
    bulk_reply, null_bulk_reply, ok_reply, pong_reply, spec_bulk_reply, spec_crlf,
    spec_null_bulk_reply, spec_ok_reply, spec_pong_reply,
};
use crate::text::{dec_rep, digits_val, lemma_dec_rep_val, seqs_of, upper};
use crate::thread_safe_map::ThreadSafeMap;

verus! {

/// The store after one command: only `Put` (the wire command `SET`) changes
/// it, upserting its key unconditionally.
pub open spec fn apply_command(m: Map<Seq<u8>, Seq<u8>>, c: Command) -> Map<Seq<u8>, Seq<u8>> {
    match c {
        Command::Put(k, v) => m.insert(k@, v@),
        _ => m,
    }
}

/// The exact reply bytes for one command against the store `m`: `+PONG` for
/// Ping, the echoed text as a bulk reply for Echo, the bound value as a bulk
/// reply or the null bulk sentinel for Get, and `+OK` for `SET`.
pub open spec fn command_reply(m: Map<Seq<u8>, Seq<u8>>, c: Command) -> Seq<u8> {
    match c {
        Command::Ping => spec_pong_reply(),
        Command::Echo(x) => spec_bulk_reply(x@),
        Command::Get(k) => if m.contains_key(k@) {
            spec_bulk_reply(m[k@])
        } else {
            spec_null_bulk_reply()
        },
        Command::Put(_, _) => spec_ok_reply(),
    }
}

/// The reply for a valid argument list, read off the list itself.
pub open spec fn reply_for(m: Map<Seq<u8>, Seq<u8>>, msg: Seq<Seq<u8>>) -> Seq<u8>
    recommends
        valid_command(msg),
{
    if is_keyword(msg[0], ping_word()) {
        spec_pong_reply()
    } else if is_keyword(msg[0], echo_word()) {
        spec_bulk_reply(msg[1])
    } else if is_keyword(msg[0], get_word()) {
        if m.contains_key(msg[1]) {
            spec_bulk_reply(m[msg[1]])
        } else {
            spec_null_bulk_reply()
        }
    } else {
        spec_ok_reply()
    }
}

/// The store after a valid argument list, read off the list itself.
pub open spec fn map_after(m: Map<Seq<u8>, Seq<u8>>, msg: Seq<Seq<u8>>) -> Map<Seq<u8>, Seq<u8>>
    recommends
        valid_command(msg),
{
    if is_keyword(msg[0], set_word()) && msg.len() >= 3 {
        m.insert(msg[1], msg[2])
    } else {
        m
    }
}

/// No byte sequence spells two different command words.
proof fn lemma_keywords_distinct(s: Seq<u8>)
    ensures
        is_keyword(s, ping_word()) ==> !is_keyword(s, echo_word()),
        is_keyword(s, ping_word()) ==> !is_keyword(s, get_word()),
        is_keyword(s, ping_word()) ==> !is_keyword(s, set_word()),
        is_keyword(s, echo_word()) ==> !is_keyword(s, get_word()),
        is_keyword(s, echo_word()) ==> !is_keyword(s, set_word()),
        is_keyword(s, get_word()) ==> !is_keyword(s, set_word()),
{
    if is_keyword(s, ping_word()) && is_keyword(s, echo_word()) {
        assert(upper(s[0]) == ping_word()[0]);
        assert(upper(s[0]) == echo_word()[0]);
    }
    if is_keyword(s, get_word()) && is_keyword(s, set_word()) {
        assert(upper(s[0]) == get_word()[0]);
        assert(upper(s[0]) == set_word()[0]);
    }
}

/// The reply and store change read off a valid argument list agree with the
/// ones read off the command it classifies to.
proof fn lemma_command_agrees(m: Map<Seq<u8>, Seq<u8>>, c: Command, msg: Seq<Seq<u8>>)
    requires
        valid_command(msg),
        command_matches(c, msg),
    ensures
        command_reply(m, c) == reply_for(m, msg),
        apply_command(m, c) == map_after(m, msg),
{
    lemma_keywords_distinct(msg[0]);
}

/// Executes one classified command: consults or mutates the store as the
/// command demands and produces the exact reply bytes for it.
pub fn handle_command(command: Command, map: &mut ThreadSafeMap) -> (r: Vec<u8>)
    ensures
        final(map)@ == apply_command(old(map)@, command),
        r@ == command_reply(old(map)@, command),
{
    match command {
        Command::Ping => pong_reply(),
        Command::Echo(x) => bulk_reply(&x),
        Command::Get(k) => match map.get(k) {
            Some(v) => bulk_reply(&v),
            None => null_bulk_reply(),
        },
        Command::Put(k, v) => {
            map.set(k, v);
            ok_reply()
        },
    }
}

/// One whole step of a connection: feed a trimmed line to the frame reader
/// and, when it completes a frame, classify and execute the command.
/// Returns the reply bytes to write back when a frame completed, nothing
/// when the frame is still pending, and the fatal error — framing or
/// classification — on which the connection must be torn down, the store
/// untouched.
pub fn process_line(reader: &mut FrameReader, map: &mut ThreadSafeMap, line: &Vec<u8>) -> (r:
    Result<Option<Vec<u8>>, ProtocolError>)
    ensures
        match reader_step(old(reader)@, line@) {
            StepResult::Failed => final(reader)@ == old(reader)@ && final(map)@ == old(map)@ && (
            r matches Err(e) && e == ProtocolError::Framing),
            StepResult::Progress(s2) => final(reader)@ == s2 && final(map)@ == old(map)@ && (
            r matches Ok(o) && o is None),
            StepResult::Complete(s2, msg) => final(reader)@ == s2 && (if valid_command(msg) {
                final(map)@ == map_after(old(map)@, msg) && (r matches Ok(o) && o matches Some(
                    reply,
                ) && reply@ == reply_for(old(map)@, msg))
            } else {
                final(map)@ == old(map)@ && (r matches Err(e) && e
                    == ProtocolError::Classification)
            }),
        },
{
    match reader.feed_line(line) {
        Ok(Some(args)) => {
            match get_command_from_message(&args) {
                Ok(c) => {
                    proof {
                        lemma_command_agrees(map@, c, seqs_of(args@));
                    }
                    let reply = handle_command(c, map);
                    Ok(Some(reply))
                },
                Err(e) => Err(e),
            }
        },
        Ok(None) => Ok(None),
        Err(e) => Err(e),
    }
}

/// Law: Ping always replies with the fixed status bytes `+PONG`, regardless
/// of prior state — against any two stores the reply is the same.
pub proof fn lemma_ping_reply_independent(
    m1: Map<Seq<u8>, Seq<u8>>,
    m2: Map<Seq<u8>, Seq<u8>>,
    c: Command,
)
    requires
        c is Ping,
    ensures
        command_reply(m1, c) == spec_pong_reply(),
        command_reply(m1, c) == command_reply(m2, c),
{
}

/// Law: Echo's reply is a bulk frame whose declared length reads back as
/// exactly the byte length of the echoed text and whose payload is that text
/// verbatim, whatever the store holds.
pub proof fn lemma_echo_reply_roundtrip(m: Map<Seq<u8>, Seq<u8>>, x: Vec<u8>)
    ensures
        command_reply(m, Command::Echo(x)) == seq![36u8] + dec_rep(x@.len()) + spec_crlf() + x@
            + spec_crlf(),
        digits_val(dec_rep(x@.len())) == x@.len(),
{
    lemma_dec_rep_val(x@.len());
}

} // verus!
