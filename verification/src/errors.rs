//! Why a RESP value is not a command, and how that is told to a client.

use vstd::prelude::*;

use crate::decimal::{ascii_chars, digits_of};
use crate::server::{ends_with, starts_with};
use crate::text::{debug_quote, debug_quoted, push_digits_str, push_str};

verus! {

/// Why a RESP value is not a command.
#[derive(Debug)]
pub enum ProtocolError {
    EmptyCommand,
    RequiredArguments { command: String, arguments: String },
    InvalidNumberOfArguments { command: String, expected: usize, received: usize },
    UnknownSubcommand { command: String, subcommand: String },
    UnknownCommand(String),
}

/// The model of a [`ProtocolError`]: strings as character sequences.
pub enum SpecProtocolError {
    EmptyCommand,
    RequiredArguments { command: Seq<char>, arguments: Seq<char> },
    InvalidNumberOfArguments { command: Seq<char>, expected: usize, received: usize },
    UnknownSubcommand { command: Seq<char>, subcommand: Seq<char> },
    UnknownCommand(Seq<char>),
}

impl View for ProtocolError {
    type V = SpecProtocolError;

    open spec fn view(&self) -> SpecProtocolError {
        match self {
            ProtocolError::EmptyCommand => SpecProtocolError::EmptyCommand,
            ProtocolError::RequiredArguments { command, arguments } => SpecProtocolError::RequiredArguments {
                command: command@,
                arguments: arguments@,
            },
            ProtocolError::InvalidNumberOfArguments { command, expected, received } =>
                SpecProtocolError::InvalidNumberOfArguments {
                command: command@,
                expected: *expected,
                received: *received,
            },
            ProtocolError::UnknownSubcommand { command, subcommand } => SpecProtocolError::UnknownSubcommand {
                command: command@,
                subcommand: subcommand@,
            },
            ProtocolError::UnknownCommand(c) => SpecProtocolError::UnknownCommand(c@),
        }
    }
}

/// The message that tells what `e` is.
pub open spec fn spec_error_message(e: SpecProtocolError) -> Seq<char> {
    match e {
        SpecProtocolError::EmptyCommand => seq![
            'e', 'm', 'p', 't', 'y', ' ', 'c', 'o', 'm', 'm', 'a', 'n', 'd'
        ],
        SpecProtocolError::RequiredArguments { command, arguments } => debug_quoted(command) + seq![
            ' ', 'r', 'e', 'q', 'u', 'i', 'r', 'e', 's', ' '
        ] + debug_quoted(arguments),
        SpecProtocolError::InvalidNumberOfArguments { command, expected, received } =>
            debug_quoted(command) + seq![
            ' ', 'r', 'e', 'q', 'u', 'i', 'r', 'e', 's', ' ', 'e', 'x', 'a', 'c', 't', 'l', 'y', ' '
        ] + ascii_chars(digits_of(expected as nat)) + seq![
            ',', ' ', 'r', 'e', 'c', 'e', 'i', 'v', 'e', 'd', ' '
        ] + ascii_chars(digits_of(received as nat)),
        SpecProtocolError::UnknownSubcommand { command, subcommand } => seq![
            'u', 'n', 'k', 'n', 'o', 'w', 'n', ' '
        ] + debug_quoted(command) + seq![' ', 's', 'u', 'b', 'c', 'o', 'm', 'm', 'a', 'n', 'd', ' ']
            + debug_quoted(subcommand),
        SpecProtocolError::UnknownCommand(c) => seq![
            'u', 'n', 'k', 'n', 'o', 'w', 'n', ' ', 'c', 'o', 'm', 'm', 'a', 'n', 'd', ' '
        ] + c,
    }
}

impl ProtocolError {
    /// The message that tells what this error is.
    pub fn to_string(&self) -> (r: String)
        ensures
            r@ == spec_error_message(self@),
    {
        let mut res = String::new();
        match self {
            ProtocolError::EmptyCommand => {
                push_str(&mut res, "empty command");
                proof { reveal_strlit("empty command"); }
            },
            ProtocolError::RequiredArguments { command, arguments } => {
                let c = debug_quote(command.as_str());
                push_str(&mut res, c.as_str());
                push_str(&mut res, " requires ");
                proof { reveal_strlit(" requires "); }
                let a = debug_quote(arguments.as_str());
                push_str(&mut res, a.as_str());
            },
            ProtocolError::InvalidNumberOfArguments { command, expected, received } => {
                let c = debug_quote(command.as_str());
                push_str(&mut res, c.as_str());
                push_str(&mut res, " requires exactly ");
                proof { reveal_strlit(" requires exactly "); }
                push_digits_str(&mut res, *expected as u64);
                push_str(&mut res, ", received ");
                proof { reveal_strlit(", received "); }
                push_digits_str(&mut res, *received as u64);
            },
            ProtocolError::UnknownSubcommand { command, subcommand } => {
                push_str(&mut res, "unknown ");
                proof { reveal_strlit("unknown "); }
                let c = debug_quote(command.as_str());
                push_str(&mut res, c.as_str());
                push_str(&mut res, " subcommand ");
                proof { reveal_strlit(" subcommand "); }
                let sub = debug_quote(subcommand.as_str());
                push_str(&mut res, sub.as_str());
            },
            ProtocolError::UnknownCommand(c) => {
                push_str(&mut res, "unknown command ");
                proof { reveal_strlit("unknown command "); }
                push_str(&mut res, c.as_str());
            },
        }
        assert(res@ =~= spec_error_message(self@));
        res
    }
}

/// Each message names what it is about: the command and the arguments it
/// lacks; the number of arguments expected and, at its end, received; the
/// unknown subcommand, at its end; the unknown command, at its end.
pub proof fn lemma_messages_name_their_parts(
    command: Seq<char>,
    arguments: Seq<char>,
    expected: usize,
    received: usize,
    name: Seq<char>,
)
    ensures
        starts_with(
            spec_error_message(SpecProtocolError::RequiredArguments { command, arguments }),
            debug_quoted(command),
        ),
        ends_with(
            spec_error_message(SpecProtocolError::RequiredArguments { command, arguments }),
            debug_quoted(arguments),
        ),
        starts_with(
            spec_error_message(SpecProtocolError::InvalidNumberOfArguments { command, expected, received }),
            debug_quoted(command),
        ),
        ends_with(
            spec_error_message(SpecProtocolError::InvalidNumberOfArguments { command, expected, received }),
            seq![' '] + ascii_chars(digits_of(received as nat)),
        ),
        ends_with(
            spec_error_message(SpecProtocolError::UnknownSubcommand { command, subcommand: name }),
            seq![' '] + debug_quoted(name),
        ),
        ends_with(spec_error_message(SpecProtocolError::UnknownCommand(name)), seq![' '] + name),
{
    let m1 = spec_error_message(SpecProtocolError::RequiredArguments { command, arguments });
    assert(m1.subrange(0, debug_quoted(command).len() as int) =~= debug_quoted(command));
    assert(m1.subrange(m1.len() - debug_quoted(arguments).len(), m1.len() as int) =~= debug_quoted(arguments));
    let m2 = spec_error_message(SpecProtocolError::InvalidNumberOfArguments { command, expected, received });
    let t2 = seq![' '] + ascii_chars(digits_of(received as nat));
    assert(m2.subrange(0, debug_quoted(command).len() as int) =~= debug_quoted(command));
    assert(m2.subrange(m2.len() - t2.len(), m2.len() as int) =~= t2);
    let m3 = spec_error_message(SpecProtocolError::UnknownSubcommand { command, subcommand: name });
    let t3 = seq![' '] + debug_quoted(name);
    assert(m3.subrange(m3.len() - t3.len(), m3.len() as int) =~= t3);
    let m4 = spec_error_message(SpecProtocolError::UnknownCommand(name));
    let t4 = seq![' '] + name;
    assert(m4.subrange(m4.len() - t4.len(), m4.len() as int) =~= t4);
}

} // verus!
