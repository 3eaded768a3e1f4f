use brewfile::brew_command::{BrewCommand, LinkOptions, ParameterValue};
use brewfile::error::{remainder, ErrorKind};

#[test]
fn brew_command_parse_line() {
    let input = "\"package\" \n";
    let (brew, next) = BrewCommand::parse(input, 0).unwrap();
    assert_eq!(brew.pkg(), "package");
    assert_eq!(remainder(input, next), "");

    // Remainder must be after the line break
    let input = "\"package\" \nextra";
    let (brew, next) = BrewCommand::parse(input, 0).unwrap();
    assert_eq!(brew.pkg(), "package");
    assert_eq!(remainder(input, next), "extra");

    // Returns an error when following invalid input
    let input = "\"package\", invalid: true\nextra";
    let res = BrewCommand::parse(input, 0);
    match res {
        Err(err) => {
            assert_eq!(err.kind, ErrorKind::UnknownParameter);
            assert_eq!(remainder(input, err.pos), "invalid: true\nextra"); // Checking the remaining input
        }
        _ => panic!("Expected an error but got: {:?}", res),
    }
}

#[test]
fn parse_args() {
    let input = "\"pkg\", args: [\"hello\", \"world\"]\n";
    let (brew, next) = BrewCommand::parse(input, 0).unwrap();
    assert_eq!(
        brew.args,
        Some(ParameterValue::List(vec![
            "hello".to_string(),
            "world".to_string()
        ]))
    );
    assert_eq!(remainder(input, next), "");

    let input = "\"pkg\", args: {\"hello\": \"world\"}\n";
    let (brew, next) = BrewCommand::parse(input, 0).unwrap();
    assert_eq!(
        brew.args,
        Some(ParameterValue::Pairs(vec![(
            "hello".to_string(),
            "world".to_string()
        )]))
    );
    assert_eq!(remainder(input, next), "");

    // Should only accept maps or lists
    let input = "\"pkg\", args: hello\n";
    let res = BrewCommand::parse(input, 0);
    match res {
        Err(err) => {
            assert_eq!(err.kind, ErrorKind::InvalidParameterValue);
            assert_eq!(remainder(input, err.pos), "hello\n"); // Checking the remaining input
        }
        _ => panic!("Expected an error but got: {:?}", res),
    }

    // Should fail on dangling args
    let input = "\"pkg\", args: \n";
    let res = BrewCommand::parse(input, 0);
    match res {
        Err(err) => {
            assert_eq!(err.kind, ErrorKind::InvalidParameterValue);
            assert_eq!(remainder(input, err.pos), "\n"); // Checking the remaining input
        }
        _ => panic!("Expected an error but got: {:?}", res),
    }
}

#[test]
fn parse_link() {
    let input = "\"package\", link: true \n";
    let (brew, next) = BrewCommand::parse(input, 0).unwrap();
    assert_eq!(brew.link, LinkOptions::Enabled);
    assert_eq!(brew.pkg(), "package");
    assert_eq!(remainder(input, next), "");

    let input = "\"package\", link: :override";
    let (brew, next) = BrewCommand::parse(input, 0).unwrap();
    assert_eq!(brew.link, LinkOptions::Override);
    assert_eq!(brew.pkg(), "package");
    assert_eq!(remainder(input, next), "");
}

#[test]
fn parse_link_rejects_other_tokens() {
    let input = "\"pkg\", link: maybe\n";
    let res = BrewCommand::parse(input, 0);
    match res {
        Err(err) => {
            assert_eq!(err.kind, ErrorKind::InvalidParameterValue);
            assert_eq!(remainder(input, err.pos), "maybe\n");
        }
        _ => panic!("Expected an error but got: {:?}", res),
    }
}

#[test]
fn duplicate_keys_last_occurrence_wins() {
    let input = "\"pkg\", link: true, link: :override\n";
    let (brew, _) = BrewCommand::parse(input, 0).unwrap();
    assert_eq!(brew.link, LinkOptions::Override);

    let input = "\"pkg\", args: [\"a\"], args: {\"k\": \"v\"}\n";
    let (brew, _) = BrewCommand::parse(input, 0).unwrap();
    assert_eq!(
        brew.args,
        Some(ParameterValue::Pairs(vec![(
            "k".to_string(),
            "v".to_string()
        )]))
    );
}

#[test]
fn several_parameters_accumulate() {
    let input = "\"pkg\", args: [\"a\", \"b\"], link: true\n";
    let (brew, _) = BrewCommand::parse(input, 0).unwrap();
    assert_eq!(
        brew.args,
        Some(ParameterValue::List(vec!["a".to_string(), "b".to_string()]))
    );
    assert_eq!(brew.link, LinkOptions::Enabled);
    assert_eq!(brew.pkg(), "pkg");
}

#[test]
fn empty_package_name_is_rejected() {
    let res = BrewCommand::parse("\"\"\n", 0);
    match res {
        Err(err) => assert_eq!(err.kind, ErrorKind::ExpectedString),
        _ => panic!("Expected an error but got: {:?}", res),
    }
}

#[test]
fn missing_colon_after_key_is_rejected() {
    let input = "\"pkg\", args [\"a\"]\n";
    let res = BrewCommand::parse(input, 0);
    match res {
        Err(err) => assert_eq!(err.kind, ErrorKind::InvalidParameterValue),
        _ => panic!("Expected an error but got: {:?}", res),
    }
}
