use brewfile::error::{remainder, ErrorKind};
use brewfile::tap_command::TapCommand;

#[test]
fn tap_command_parse_line() {
    let input = "\"package\" \n";
    let (tap, next) = TapCommand::parse(input, 0).unwrap();
    assert_eq!(tap.pkg, "package");
    assert_eq!(remainder(input, next), "");

    // Remainder must be after the line break
    let input = "\"package\" \nextra";
    let (tap, next) = TapCommand::parse(input, 0).unwrap();
    assert_eq!(tap.pkg, "package");
    assert_eq!(remainder(input, next), "extra");

    // Returns an error when following invalid input
    let input = "\"pkg\", \nextra";
    let res = TapCommand::parse(input, 0);
    match res {
        Err(err) => {
            assert_eq!(err.kind, ErrorKind::ExpectedString);
            assert_eq!(remainder(input, err.pos), "\nextra"); // Checking the remaining input
        }
        _ => panic!("Expected an error but got: {:?}", res),
    }
}

#[test]
fn parse_url() {
    let input = "\"package\", \"url\"\n";
    let (tap, next) = TapCommand::parse(input, 0).unwrap();
    assert_eq!(tap.url, Some("url".to_string()));
    assert_eq!(remainder(input, next), "\n");

    // Returns an error when following invalid input
    let input = "\"package\", invalid\nextra";
    let res = TapCommand::parse(input, 0);
    match res {
        Err(err) => {
            assert_eq!(err.kind, ErrorKind::ExpectedString);
            assert_eq!(remainder(input, err.pos), "invalid\nextra"); // Checking the remaining input
        }
        _ => panic!("Expected an error but got: {:?}", res),
    }
}

#[test]
fn tap_without_url_has_none() {
    let (tap, _) = TapCommand::parse("\"user/repo\"", 0).unwrap();
    assert_eq!(tap.pkg, "user/repo");
    assert_eq!(tap.url, None);
}

#[test]
fn empty_tap_identifier_is_rejected() {
    let res = TapCommand::parse("\"\" \n", 0);
    match res {
        Err(err) => assert_eq!(err.kind, ErrorKind::ExpectedString),
        _ => panic!("Expected an error but got: {:?}", res),
    }
}
