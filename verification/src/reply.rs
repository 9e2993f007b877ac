//! The exact bytes of every reply the server sends: the fixed simple-status
//! replies `+PONG` and `+OK`, length-prefixed bulk values, and the null bulk
//! sentinel `$-1` for an absent value.  Every reply ends in CR LF.

use vstd::prelude::*;

use crate::text::{clone_bytes, dec_rep, push_decimal};

verus! {

/// The line delimiter: carriage return, line feed.
pub open spec fn spec_crlf() -> Seq<u8> {
    seq![13u8, 10u8]
}

/// `+PONG\r\n`, the reply to Ping.
pub open spec fn spec_pong_reply() -> Seq<u8> {
    seq![43u8, 80u8, 79u8, 78u8, 71u8, 13u8, 10u8]
}

/// `+OK\r\n`, the reply to Set.
pub open spec fn spec_ok_reply() -> Seq<u8> {
    seq![43u8, 79u8, 75u8, 13u8, 10u8]
}

/// `$-1\r\n`, the bulk reply for an absent value; distinct from the reply
/// carrying an empty payload, which is `$0\r\n\r\n`.
pub open spec fn spec_null_bulk_reply() -> Seq<u8> {
    seq![36u8, 45u8, 49u8, 13u8, 10u8]
}

/// A bulk reply: `$`, the payload's byte length in decimal, CR LF, the
/// payload itself, CR LF.
pub open spec fn spec_bulk_reply(payload: Seq<u8>) -> Seq<u8> {
    seq![36u8] + dec_rep(payload.len()) + spec_crlf() + payload + spec_crlf()
}

/// Builds `+PONG\r\n`.
pub fn pong_reply() -> (r: Vec<u8>)
    ensures
        r@ == spec_pong_reply(),
{
    let mut r: Vec<u8> = Vec::new();
    r.push(43);
    r.push(80);
    r.push(79);
    r.push(78);
    r.push(71);
    r.push(13);
    r.push(10);
    proof {
        assert(r@ =~= spec_pong_reply());
    }
    r
}

/// Builds `+OK\r\n`.
pub fn ok_reply() -> (r: Vec<u8>)
    ensures
        r@ == spec_ok_reply(),
{
    let mut r: Vec<u8> = Vec::new();
    r.push(43);
    r.push(79);
    r.push(75);
    r.push(13);
    r.push(10);
    proof {
        assert(r@ =~= spec_ok_reply());
    }
    r
}

/// Builds `$-1\r\n`.
pub fn null_bulk_reply() -> (r: Vec<u8>)
    ensures
        r@ == spec_null_bulk_reply(),
{
    let mut r: Vec<u8> = Vec::new();
    r.push(36);
    r.push(45);
    r.push(49);
    r.push(13);
    r.push(10);
    proof {
        assert(r@ =~= spec_null_bulk_reply());
    }
    r
}

/// Builds the bulk reply carrying `payload`, length-prefixed with its exact
/// byte length.
pub fn bulk_reply(payload: &Vec<u8>) -> (r: Vec<u8>)
    ensures
        r@ == spec_bulk_reply(payload@),
{
    let mut r: Vec<u8> = Vec::new();
    r.push(36);
    push_decimal(&mut r, payload.len());
    r.push(13);
    r.push(10);
    let mut p = clone_bytes(payload);
    r.append(&mut p);
    r.push(13);
    r.push(10);
    proof {
        assert(r@ =~= spec_bulk_reply(payload@));
    }
    r
}

} // verus!
