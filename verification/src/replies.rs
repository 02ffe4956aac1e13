//! The answers the server gives to room requests: a status and a body text.

use vstd::prelude::*;
use vstd::string::StringExecFns;

verus! {

/// The HTTP status of a reply.
#[derive(Clone, Copy, Debug, PartialEq, Eq, Structural)]
pub enum ReplyStatus {
    Success,
    Created,
    NotFound,
    Conflict,
}

/// A reply to send back: its status and its body.
#[derive(Debug)]
pub struct Reply {
    pub status: ReplyStatus,
    pub body: String,
}

/// The character of the decimal digit `d`.
pub open spec fn digit_char(d: nat) -> char {
    if d == 0 {
        '0'
    } else if d == 1 {
        '1'
    } else if d == 2 {
        '2'
    } else if d == 3 {
        '3'
    } else if d == 4 {
        '4'
    } else if d == 5 {
        '5'
    } else if d == 6 {
        '6'
    } else if d == 7 {
        '7'
    } else if d == 8 {
        '8'
    } else {
        '9'
    }
}

/// `n` written in decimal, without leading zeros.
pub open spec fn decimal(n: nat) -> Seq<char>
    decreases n,
{
    if n < 10 {
        seq![digit_char(n)]
    } else {
        decimal(n / 10).push(digit_char(n % 10))
    }
}

/// `i` written in decimal, with a leading minus sign when it is negative.
pub open spec fn signed_decimal(i: int) -> Seq<char> {
    if i < 0 {
        "-"@ + decimal((-i) as nat)
    } else {
        decimal(i as nat)
    }
}

/// The body of a successful broadcast to `sent` clients.
pub open spec fn sent_text(sent: nat) -> Seq<char> {
    "sent to "@ + decimal(sent) + " client(s)"@
}

/// The one-character text of the decimal digit `d`.
fn digit_text(d: usize) -> (text: &'static str)
    requires
        d < 10,
    ensures
        text@ == seq![digit_char(d as nat)],
{
    proof {
        reveal_strlit("0");
        reveal_strlit("1");
        reveal_strlit("2");
        reveal_strlit("3");
        reveal_strlit("4");
        reveal_strlit("5");
        reveal_strlit("6");
        reveal_strlit("7");
        reveal_strlit("8");
        reveal_strlit("9");
    }
    if d == 0 {
        "0"
    } else if d == 1 {
        "1"
    } else if d == 2 {
        "2"
    } else if d == 3 {
        "3"
    } else if d == 4 {
        "4"
    } else if d == 5 {
        "5"
    } else if d == 6 {
        "6"
    } else if d == 7 {
        "7"
    } else if d == 8 {
        "8"
    } else {
        "9"
    }
}

/// Appends `n`, written in decimal, to `text`.
fn append_decimal(text: &mut String, n: usize)
    ensures
        final(text)@ == old(text)@ + decimal(n as nat),
    decreases n,
{
    if n >= 10 {
        append_decimal(text, n / 10);
    }
    text.append(digit_text(n % 10));
    assert(old(text)@ + decimal(n as nat) =~= text@);
}

/// Appends `n`, written in decimal with its sign, to `text`.
pub(crate) fn append_signed_decimal(text: &mut String, n: i32)
    ensures
        final(text)@ == old(text)@ + signed_decimal(n as int),
{
    if n < 0 {
        proof {
            reveal_strlit("-");
        }
        text.append("-");
        let magnitude: i64 = 0 - (n as i64);
        append_decimal(text, magnitude as usize);
        assert(old(text)@ + signed_decimal(n as int) =~= text@);
    } else {
        append_decimal(text, n as usize);
    }
}

/// The reply to a request to create a room: 201 when it was created, 409
/// when it already existed.
pub fn create_room_reply(created: bool) -> (reply: Reply)
    ensures
        created ==> reply.status == ReplyStatus::Created && reply.body@ == "room created"@,
        !created ==> reply.status == ReplyStatus::Conflict && reply.body@
            == "room already exists"@,
{
    if created {
        Reply { status: ReplyStatus::Created, body: String::from_str("room created") }
    } else {
        Reply { status: ReplyStatus::Conflict, body: String::from_str("room already exists") }
    }
}

/// The reply to a broadcast that reached `sent` clients: 404 when it reached
/// none (no such room, or nobody in it), else 200 saying how many.
pub fn broadcast_reply(sent: usize) -> (reply: Reply)
    ensures
        sent == 0 ==> reply.status == ReplyStatus::NotFound && reply.body@
            == "room not found or empty"@,
        sent != 0 ==> reply.status == ReplyStatus::Success && reply.body@ == sent_text(sent as nat),
{
    if sent == 0 {
        Reply { status: ReplyStatus::NotFound, body: String::from_str("room not found or empty") }
    } else {
        let mut body = String::from_str("sent to ");
        append_decimal(&mut body, sent);
        body.append(" client(s)");
        Reply { status: ReplyStatus::Success, body }
    }
}

/// The reply to a websocket request for a room that does not exist.
pub fn room_not_found_reply() -> (reply: Reply)
    ensures
        reply.status == ReplyStatus::NotFound,
        reply.body@ == "room not found"@,
{
    Reply { status: ReplyStatus::NotFound, body: String::from_str("room not found") }
}

/// Distinct numbers are written differently, so the count in a reply can be
/// read back.
pub proof fn law_decimal_is_injective(a: nat, b: nat)
    requires
        a != b,
    ensures
        decimal(a) != decimal(b),
    decreases a + b,
{
    if a < 10 && b < 10 {
        assert(decimal(a)[0] != decimal(b)[0]);
    } else if a < 10 {
        lemma_decimal_len(b / 10);
        assert(decimal(b).len() >= 2);
    } else if b < 10 {
        lemma_decimal_len(a / 10);
        assert(decimal(a).len() >= 2);
    } else if a / 10 == b / 10 {
        assert(a % 10 != b % 10);
        assert(decimal(a).last() != decimal(b).last());
    } else {
        law_decimal_is_injective(a / 10, b / 10);
        if decimal(a) == decimal(b) {
            assert(decimal(a / 10) =~= decimal(a).drop_last());
            assert(decimal(b / 10) =~= decimal(b).drop_last());
        }
    }
}

/// A number is written with at least one digit.
proof fn lemma_decimal_len(n: nat)
    ensures
        decimal(n).len() >= 1,
    decreases n,
{
    if n >= 10 {
        lemma_decimal_len(n / 10);
    }
}

} // verus!
