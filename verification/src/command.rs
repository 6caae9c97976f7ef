//! The command surface: from the argument list to the command it asks for.
use vstd::prelude::*;
use crate::text::{chars_of, spells, views};

verus! {

/// The subcommands, whatever spelling named them.
#[derive(Clone, Copy, PartialEq, Eq, Structural, Debug)]
pub enum Verb {
    Version,
    Help,
    Add,
    Find,
    List,
    Purge,
    Number,
}

/// A parsed invocation.
#[derive(PartialEq, Eq, Debug)]
pub enum Command {
    /// No command word was passed.
    Missing,
    /// Print the version.
    Version,
    /// Print the usage text.
    Help,
    /// Prepend `location` to the search path.
    Add { location: String },
    /// A command that lacks the argument it needs: nothing is done.
    Ignored,
    /// List the entries, those that contain `query` where one is given, with
    /// their indices where `enumerate` is set.
    Listing { query: Option<String>, enumerate: bool },
    /// Clear the search path.
    Purge,
    /// The command word `word` names no command.
    Unknown { word: String },
}

/// A parsed invocation as contracts see it.
pub ghost enum CommandView {
    Missing,
    Version,
    Help,
    Add { location: Seq<char> },
    Ignored,
    Listing { query: Option<Seq<char>>, enumerate: bool },
    Purge,
    Unknown { word: Seq<char> },
}

impl View for Command {
    type V = CommandView;

    open spec fn view(&self) -> CommandView {
        match self {
            Command::Missing => CommandView::Missing,
            Command::Version => CommandView::Version,
            Command::Help => CommandView::Help,
            Command::Add { location } => CommandView::Add { location: location@ },
            Command::Ignored => CommandView::Ignored,
            Command::Listing { query, enumerate } => CommandView::Listing {
                query: match query {
                    Some(q) => Some(q@),
                    None => None,
                },
                enumerate: *enumerate,
            },
            Command::Purge => CommandView::Purge,
            Command::Unknown { word } => CommandView::Unknown { word: word@ },
        }
    }
}

/// The subcommand that `word` names: each has a long option, a bare word, a
/// short option and a single letter.
pub open spec fn verb_of(word: Seq<char>) -> Option<Verb> {
    if word == "--version"@ || word == "version"@ || word == "-v"@ || word == "v"@ {
        Some(Verb::Version)
    } else if word == "--help"@ || word == "help"@ || word == "-h"@ || word == "h"@ {
        Some(Verb::Help)
    } else if word == "--add"@ || word == "add"@ || word == "-a"@ || word == "a"@ {
        Some(Verb::Add)
    } else if word == "--find"@ || word == "find"@ || word == "-f"@ || word == "f"@ {
        Some(Verb::Find)
    } else if word == "--list"@ || word == "list"@ || word == "-l"@ || word == "l"@ {
        Some(Verb::List)
    } else if word == "--purge"@ || word == "purge"@ || word == "-p"@ || word == "p"@ {
        Some(Verb::Purge)
    } else if word == "--number"@ || word == "number"@ || word == "-n"@ || word == "n"@ {
        Some(Verb::Number)
    } else {
        None
    }
}

/// The argument after the command word, where there is one.
pub open spec fn extra_argument(args: Seq<Seq<char>>) -> Option<Seq<char>> {
    if args.len() >= 3 {
        Some(args[2])
    } else {
        None
    }
}

/// The command that an argument list asks for. The list starts with the
/// program's own name; the command word follows it, then at most one
/// argument that counts.
pub open spec fn command_of(args: Seq<Seq<char>>) -> CommandView {
    if args.len() <= 1 {
        CommandView::Missing
    } else {
        match verb_of(args[1]) {
            None => CommandView::Unknown { word: args[1] },
            Some(Verb::Version) => CommandView::Version,
            Some(Verb::Help) => CommandView::Help,
            Some(Verb::Add) => match extra_argument(args) {
                Some(location) => CommandView::Add { location },
                None => CommandView::Ignored,
            },
            Some(Verb::Find) => CommandView::Listing {
                query: extra_argument(args),
                enumerate: false,
            },
            Some(Verb::List) => CommandView::Listing { query: None, enumerate: false },
            Some(Verb::Purge) => CommandView::Purge,
            Some(Verb::Number) => CommandView::Listing {
                query: extra_argument(args),
                enumerate: true,
            },
        }
    }
}

/// Recognises a command word.
pub fn parse_verb(word: &str) -> (verb: Option<Verb>)
    ensures
        verb == verb_of(word@),
{
    let w = chars_of(word);
    if spells(&w, "--version") || spells(&w, "version") || spells(&w, "-v") || spells(&w, "v") {
        Some(Verb::Version)
    } else if spells(&w, "--help") || spells(&w, "help") || spells(&w, "-h") || spells(&w, "h") {
        Some(Verb::Help)
    } else if spells(&w, "--add") || spells(&w, "add") || spells(&w, "-a") || spells(&w, "a") {
        Some(Verb::Add)
    } else if spells(&w, "--find") || spells(&w, "find") || spells(&w, "-f") || spells(&w, "f") {
        Some(Verb::Find)
    } else if spells(&w, "--list") || spells(&w, "list") || spells(&w, "-l") || spells(&w, "l") {
        Some(Verb::List)
    } else if spells(&w, "--purge") || spells(&w, "purge") || spells(&w, "-p") || spells(&w, "p") {
        Some(Verb::Purge)
    } else if spells(&w, "--number") || spells(&w, "number") || spells(&w, "-n") || spells(
        &w,
        "n",
    ) {
        Some(Verb::Number)
    } else {
        None
    }
}

/// The argument after the command word, where there is one.
fn extra(args: &Vec<String>) -> (arg: Option<String>)
    ensures
        match arg {
            Some(a) => extra_argument(views(args@)) == Some(a@),
            None => extra_argument(views(args@)) is None,
        },
{
    if args.len() >= 3 {
        Some(args[2].clone())
    } else {
        None
    }
}

/// Reads the command out of an argument list.
pub fn arg_parser(args: &Vec<String>) -> (command: Command)
    ensures
        command@ == command_of(views(args@)),
{
    if args.len() <= 1 {
        return Command::Missing;
    }
    assert(views(args@)[1] == args@[1]@);
    match parse_verb(args[1].as_str()) {
        None => Command::Unknown { word: args[1].clone() },
        Some(Verb::Version) => Command::Version,
        Some(Verb::Help) => Command::Help,
        Some(Verb::Add) => match extra(args) {
            Some(location) => Command::Add { location },
            None => Command::Ignored,
        },
        Some(Verb::Find) => Command::Listing { query: extra(args), enumerate: false },
        Some(Verb::List) => Command::Listing { query: None, enumerate: false },
        Some(Verb::Purge) => Command::Purge,
        Some(Verb::Number) => Command::Listing { query: extra(args), enumerate: true },
    }
}

} // verus!
