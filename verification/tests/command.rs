use rustar::command::{argument_holds, holds_flags};
use rustar::{parse_command, Command, TarError};

fn arguments(words: &[&str]) -> Vec<String> {
    words.iter().map(|word| word.to_string()).collect()
}

#[test]
fn list_from_a_file() {
    match parse_command(&arguments(&["-tf", "files.tar"])) {
        Ok(Command::List { archive }) => assert_eq!(archive.as_deref(), Some("files.tar")),
        other => panic!("{:?}", other),
    }
    match parse_command(&arguments(&["-t", "-f", "files.tar"])) {
        Ok(Command::List { archive }) => assert_eq!(archive.as_deref(), Some("files.tar")),
        other => panic!("{:?}", other),
    }
    match parse_command(&arguments(&["files.tar", "-ft"])) {
        Ok(Command::List { archive }) => assert_eq!(archive.as_deref(), Some("files.tar")),
        other => panic!("{:?}", other),
    }
}

#[test]
fn list_from_standard_input() {
    match parse_command(&arguments(&["-t"])) {
        Ok(Command::List { archive }) => assert_eq!(archive, None),
        other => panic!("{:?}", other),
    }
    match parse_command(&arguments(&["-t", "ignored.tar"])) {
        Ok(Command::List { archive }) => assert_eq!(archive, None),
        other => panic!("{:?}", other),
    }
}

#[test]
fn extract() {
    match parse_command(&arguments(&["-xf", "a.tar", "b.tar"])) {
        Ok(Command::Extract { archive }) => assert_eq!(archive.as_deref(), Some("a.tar")),
        other => panic!("{:?}", other),
    }
    match parse_command(&arguments(&["-x"])) {
        Ok(Command::Extract { archive }) => assert_eq!(archive, None),
        other => panic!("{:?}", other),
    }
}

#[test]
fn list_goes_before_extract() {
    assert!(matches!(parse_command(&arguments(&["-xt"])), Ok(Command::List { archive: None })));
}

#[test]
fn create() {
    match parse_command(&arguments(&["-cf", "out.tar", "a.txt", "b.txt"])) {
        Ok(Command::Create { destination, sources }) => {
            assert_eq!(destination, "out.tar");
            assert_eq!(sources, vec!["a.txt", "b.txt"]);
        },
        other => panic!("{:?}", other),
    }
    match parse_command(&arguments(&["out.tar", "-c"])) {
        Ok(Command::Create { destination, sources }) => {
            assert_eq!(destination, "out.tar");
            assert!(sources.is_empty());
        },
        other => panic!("{:?}", other),
    }
}

#[test]
fn create_goes_before_everything_else() {
    assert!(matches!(
        parse_command(&arguments(&["-tx", "out.tar", "-c"])),
        Ok(Command::Create { .. })
    ));
}

#[test]
fn missing_arguments() {
    assert!(matches!(parse_command(&arguments(&[])), Err(TarError::MissingArgument)));
    assert!(matches!(parse_command(&arguments(&["-f", "a.tar"])), Err(TarError::MissingArgument)));
    assert!(matches!(parse_command(&arguments(&["a.tar"])), Err(TarError::MissingArgument)));
    assert!(matches!(parse_command(&arguments(&["-tf"])), Err(TarError::MissingArgument)));
    assert!(matches!(parse_command(&arguments(&["-xf"])), Err(TarError::MissingArgument)));
    assert!(matches!(parse_command(&arguments(&["-c"])), Err(TarError::MissingArgument)));
    assert!(matches!(parse_command(&arguments(&["-v"])), Err(TarError::MissingArgument)));
    assert!(matches!(parse_command(&arguments(&["t"])), Err(TarError::MissingArgument)));
    assert_eq!(
        TarError::MissingArgument.message(),
        "missing argument: no operation or no archive is named"
    );
}

#[test]
fn flags_of_an_argument() {
    assert!(holds_flags("-"));
    assert!(holds_flags("-t"));
    assert!(!holds_flags(""));
    assert!(!holds_flags("t-"));
    assert!(argument_holds("-tvf", 'f'));
    assert!(argument_holds("-\u{e9}t", 't'));
    assert!(!argument_holds("-tvf", 'x'));
    assert!(!argument_holds("-", '-'));
    assert!(argument_holds("--", '-'));
    assert!(!argument_holds("tf", 't'));
    assert!(!argument_holds("", 't'));
}
