use pathfinder::command::{arg_parser, parse_verb, Command, Verb};

fn args(items: &[&str]) -> Vec<String> {
    items.iter().map(|s| s.to_string()).collect()
}

#[test]
fn every_spelling_names_its_command() {
    let table = [
        (Verb::Help, ["--help", "help", "-h", "h"]),
        (Verb::Version, ["--version", "version", "-v", "v"]),
        (Verb::List, ["--list", "list", "-l", "l"]),
        (Verb::Find, ["--find", "find", "-f", "f"]),
        (Verb::Number, ["--number", "number", "-n", "n"]),
        (Verb::Add, ["--add", "add", "-a", "a"]),
        (Verb::Purge, ["--purge", "purge", "-p", "p"]),
    ];
    for (verb, words) in table {
        for word in words {
            assert_eq!(parse_verb(word), Some(verb));
        }
    }
}

#[test]
fn other_words_name_no_command() {
    for word in ["", "-", "--", "Help", "--Help", "helpp", "-help", "--h", "ls", "x", " list"] {
        assert_eq!(parse_verb(word), None);
    }
}

#[test]
fn without_a_command_word_the_command_is_missing() {
    assert_eq!(arg_parser(&args(&["pathfinder"])), Command::Missing);
    assert_eq!(arg_parser(&args(&[])), Command::Missing);
}

#[test]
fn an_unknown_word_is_reported_with_the_word() {
    assert_eq!(
        arg_parser(&args(&["pathfinder", "frobnicate", "x"])),
        Command::Unknown { word: "frobnicate".to_owned() }
    );
}

#[test]
fn help_and_version_take_no_argument() {
    assert_eq!(arg_parser(&args(&["pathfinder", "--help"])), Command::Help);
    assert_eq!(arg_parser(&args(&["pathfinder", "h", "x"])), Command::Help);
    assert_eq!(arg_parser(&args(&["pathfinder", "-v"])), Command::Version);
}

#[test]
fn list_shows_everything_without_numbers() {
    let plain = Command::Listing { query: None, enumerate: false };
    assert_eq!(arg_parser(&args(&["pathfinder", "list"])), plain);
    assert_eq!(arg_parser(&args(&["pathfinder", "-l", "ignored"])), plain);
}

#[test]
fn find_and_number_take_an_optional_query() {
    assert_eq!(
        arg_parser(&args(&["pathfinder", "find", "bin"])),
        Command::Listing { query: Some("bin".to_owned()), enumerate: false }
    );
    assert_eq!(
        arg_parser(&args(&["pathfinder", "-f"])),
        Command::Listing { query: None, enumerate: false }
    );
    assert_eq!(
        arg_parser(&args(&["pathfinder", "n", "bin", "more"])),
        Command::Listing { query: Some("bin".to_owned()), enumerate: true }
    );
    assert_eq!(
        arg_parser(&args(&["pathfinder", "--number"])),
        Command::Listing { query: None, enumerate: true }
    );
    assert_eq!(
        arg_parser(&args(&["pathfinder", "find", ""])),
        Command::Listing { query: Some(String::new()), enumerate: false }
    );
}

#[test]
fn add_needs_a_location() {
    assert_eq!(
        arg_parser(&args(&["pathfinder", "add", "/opt/bin"])),
        Command::Add { location: "/opt/bin".to_owned() }
    );
    assert_eq!(arg_parser(&args(&["pathfinder", "--add"])), Command::Ignored);
}

#[test]
fn purge_takes_no_argument() {
    assert_eq!(arg_parser(&args(&["pathfinder", "purge"])), Command::Purge);
    assert_eq!(arg_parser(&args(&["pathfinder", "-p", "x"])), Command::Purge);
}
