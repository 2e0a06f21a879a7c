use vstd::prelude::*;
use vstd::string::StringSliceAdditionalSpecFns;

use crate::uptime::DIGIT_ZERO;

verus! {

/// A command of the `redis` crate: a list of words, the command's name first,
/// that a connection sends to the server as they stand.
#[verifier::external_type_specification]
#[verifier::external_body]
pub struct ExCmd(redis::Cmd);

/// The words that a command holds, in the order in which they are sent.
pub uninterp spec fn command_words(command: redis::Cmd) -> Seq<Seq<u8>>;

/// `n` written in base ten, with no sign and no zero before its first digit.
pub open spec fn decimal(n: nat) -> Seq<u8>
    decreases n,
{
    if n < 10 {
        seq![(DIGIT_ZERO + n) as u8]
    } else {
        decimal(n / 10).push((DIGIT_ZERO + n % 10) as u8)
    }
}

/// Calls `redis::cmd`, which makes a command that holds one word, the bytes
/// of `name`.
#[verifier::external_body]
fn command(name: &str) -> (made: redis::Cmd)
    ensures
        command_words(made) == seq![name.spec_bytes()],
{
    redis::cmd(name)
}

/// Calls `redis::Cmd::arg` with a string, which adds the bytes of `word` to
/// the end of the command as one word.
#[verifier::external_body]
fn add_word(command: &mut redis::Cmd, word: &str)
    ensures
        command_words(*final(command)) == command_words(*old(command)).push(word.spec_bytes()),
{
    command.arg(word);
}

/// Calls `redis::Cmd::arg` with a `u32`, which adds `n`, written in base ten,
/// to the end of the command as one word.
#[verifier::external_body]
fn add_number(command: &mut redis::Cmd, n: u32)
    ensures
        command_words(*final(command)) == command_words(*old(command)).push(decimal(n as nat)),
{
    command.arg(n);
}

/// The command that asks the server for the newest entries of its slow log,
/// `length` of them at most: `SLOWLOG GET length`.
pub fn get_slowlog(length: u32) -> (query: redis::Cmd)
    ensures
        command_words(query) == seq![
            "SLOWLOG".spec_bytes(),
            "GET".spec_bytes(),
            decimal(length as nat),
        ],
{
    let mut query = command("SLOWLOG");
    add_word(&mut query, "GET");
    add_number(&mut query, length);
    query
}

/// The command that asks the server for the block of text that names its
/// uptime: `INFO SERVER`.
pub fn info_server() -> (query: redis::Cmd)
    ensures
        command_words(query) == seq!["INFO".spec_bytes(), "SERVER".spec_bytes()],
{
    let mut query = command("INFO");
    add_word(&mut query, "SERVER");
    query
}

} // verus!
