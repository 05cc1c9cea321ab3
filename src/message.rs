//! The text that travels over the wire.
use vstd::prelude::*;

verus! {

/// Sent to a client as soon as its connection is accepted.
pub const NAME_PROMPT: &'static str = "Enter your display name\n";

/// The notice sent to everyone when a client has chosen its display name.
pub open spec fn announcement_text(name: Seq<char>) -> Seq<char> {
    name + " has entered the chat\n"@
}

/// A chat line as relayed: the sender's name, a colon, and the line as read
/// (with its own newline).
pub open spec fn chat_text(name: Seq<char>, line: Seq<char>) -> Seq<char> {
    name + ": "@ + line
}

/// The display name carried by a first line, with its trailing whitespace
/// (the newline among it) removed.
pub uninterp spec fn trim_end_of(line: Seq<char>) -> Seq<char>;

/// Relies on `str::trim_end`: the result depends on the characters alone, and
/// is the line with a (possibly empty) whitespace suffix cut off, so a prefix.
#[verifier::external_body]
pub(crate) fn trim_line_end(line: &str) -> (r: String)
    ensures
        r@ == trim_end_of(line@),
        r@.len() <= line@.len(),
        r@ == line@.subrange(0, r@.len() as int),
{
    line.trim_end().to_string()
}

/// Builds the notice that `name` has entered the chat.
pub fn announcement(name: &str) -> (r: String)
    ensures
        r@ == announcement_text(name@),
{
    let mut r = String::from_str(name);
    r.append(" has entered the chat\n");
    r
}

/// Builds the relayed form of `line` sent by `name`.
pub fn chat_line(name: &str, line: &str) -> (r: String)
    ensures
        r@ == chat_text(name@, line@),
{
    let mut r = String::from_str(name);
    r.append(": ");
    r.append(line);
    r
}

/// What the echo server sends back for a line.
pub open spec fn echo_text(line: Seq<char>) -> Seq<char> {
    "Server responds: "@ + line
}

/// Builds the echo server's reply to `line`.
pub fn echo_reply(line: &str) -> (r: String)
    ensures
        r@ == echo_text(line@),
{
    let mut r = String::from_str("Server responds: ");
    r.append(line);
    r
}

} // verus!
