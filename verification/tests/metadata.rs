use brewfile::brew_command::{LinkOptions, ParameterValue};
use brewfile::error::{remainder, ErrorKind};
use brewfile::metadata::{parse_command, Command, MetaCommand};
use brewfile::metafield::Metafield;

fn brew_package_name(entry: &MetaCommand) -> String {
    match &entry.command {
        Command::Brew(b) => b.clone().pkg(),
        _ => panic!("wrong command"),
    }
}

#[test]
fn parse_no_metadata() {
    let doc = parse_command("brew \"package\" \n").unwrap();
    assert_eq!(doc.len(), 1);
    assert_eq!(doc[0].description, "");
    assert!(!doc[0].optional);
    assert_eq!(brew_package_name(&doc[0]), "package");
}

#[test]
fn parse_metadata() {
    let text = "\
            ## @description This is a description
            ## @optional
            brew \"package\" \n
        ";

    let doc = parse_command(text).unwrap();
    assert_eq!(doc.len(), 1);
    assert_eq!(doc[0].description, "This is a description");
    assert!(doc[0].optional);
    assert_eq!(brew_package_name(&doc[0]), "package");
}

#[test]
fn parse_multi_metadata() {
    let text = "\
            ## @description This is a description
            ## @optional
            brew \"package\" \n

            ## @description Other description
            brew \"package2\" \n
        ";

    let doc = parse_command(text).unwrap();
    assert_eq!(doc.len(), 2);
    assert_eq!(doc[0].description, "This is a description");
    assert!(doc[0].optional);
    assert_eq!(brew_package_name(&doc[0]), "package");

    assert_eq!(doc[1].description, "Other description");
    assert!(!doc[1].optional);
    assert_eq!(brew_package_name(&doc[1]), "package2");
}

#[test]
fn tap_without_url() {
    let doc = parse_command("tap \"user/repo\"").unwrap();
    assert_eq!(doc.len(), 1);
    match &doc[0].command {
        Command::Tap(t) => {
            assert_eq!(t.pkg, "user/repo");
            assert_eq!(t.url, None);
        }
        _ => panic!("wrong command"),
    }
}

#[test]
fn tap_with_url() {
    let doc = parse_command("tap \"user/repo\", \"https://example.com\"").unwrap();
    assert_eq!(doc.len(), 1);
    match &doc[0].command {
        Command::Tap(t) => {
            assert_eq!(t.pkg, "user/repo");
            assert_eq!(t.url, Some("https://example.com".to_string()));
        }
        _ => panic!("wrong command"),
    }
}

#[test]
fn brew_with_args_list() {
    let doc = parse_command("brew \"pkg\", args: [\"a\", \"b\"]").unwrap();
    assert_eq!(doc.len(), 1);
    match &doc[0].command {
        Command::Brew(b) => {
            assert_eq!(
                b.args,
                Some(ParameterValue::List(vec!["a".to_string(), "b".to_string()]))
            );
        }
        _ => panic!("wrong command"),
    }
}

#[test]
fn brew_with_link_enabled() {
    let doc = parse_command("brew \"pkg\", link: true").unwrap();
    assert_eq!(doc.len(), 1);
    match &doc[0].command {
        Command::Brew(b) => assert_eq!(b.link, LinkOptions::Enabled),
        _ => panic!("wrong command"),
    }
}

#[test]
fn annotated_directive_block() {
    let text = "## @description Installs editor\n## @optional\nbrew \"neovim\"\n";
    let doc = parse_command(text).unwrap();
    assert_eq!(doc.len(), 1);
    assert_eq!(doc[0].description, "Installs editor");
    assert!(doc[0].optional);
    assert_eq!(brew_package_name(&doc[0]), "neovim");
}

#[test]
fn orphan_metadata_is_discarded() {
    let doc = parse_command("## @description orphan").unwrap();
    assert_eq!(doc.len(), 0);

    // Metadata attaches only forward, never to an earlier directive.
    let doc = parse_command("brew \"pkg\"\n## @description late\n").unwrap();
    assert_eq!(doc.len(), 1);
    assert_eq!(doc[0].description, "");
}

#[test]
fn dangling_parameter_key_fails() {
    let res = parse_command("brew \"pkg\", args:");
    match res {
        Err(err) => assert_eq!(err.kind, ErrorKind::InvalidParameterValue),
        _ => panic!("Expected an error but got: {:?}", res),
    }
}

#[test]
fn unknown_directive_fails() {
    let input = "install \"pkg\"\n";
    let res = parse_command(input);
    match res {
        Err(err) => {
            assert_eq!(err.kind, ErrorKind::UnknownDirective);
            assert_eq!(remainder(input, err.pos), input);
        }
        _ => panic!("Expected an error but got: {:?}", res),
    }
}

#[test]
fn unknown_metadata_key_fails() {
    let res = parse_command("## @required\nbrew \"pkg\"\n");
    match res {
        Err(err) => assert_eq!(err.kind, ErrorKind::UnknownMetadataKey),
        _ => panic!("Expected an error but got: {:?}", res),
    }
}

#[test]
fn commentary_line_carries_no_field() {
    let doc = parse_command("## just a note\nbrew \"pkg\"\n").unwrap();
    assert_eq!(doc.len(), 1);
    assert_eq!(doc[0].description, "");
    assert!(!doc[0].optional);
}

#[test]
fn optional_flag_is_idempotent() {
    let doc = parse_command("## @optional\n## @optional\nbrew \"pkg\"\n").unwrap();
    assert_eq!(doc.len(), 1);
    assert!(doc[0].optional);
}

#[test]
fn later_description_replaces_earlier() {
    let doc =
        parse_command("## @description first\n## @description second\nbrew \"pkg\"\n").unwrap();
    assert_eq!(doc.len(), 1);
    assert_eq!(doc[0].description, "second");
}

#[test]
fn metadata_resets_after_attachment() {
    let text = "## @optional\nbrew \"a\"\nbrew \"b\"\n";
    let doc = parse_command(text).unwrap();
    assert_eq!(doc.len(), 2);
    assert!(doc[0].optional);
    assert!(!doc[1].optional);
}

#[test]
fn document_keeps_source_order() {
    let text = "tap \"one/1\"\nbrew \"two\"\ntap \"three/3\"\n";
    let doc = parse_command(text).unwrap();
    assert_eq!(doc.len(), 3);
    match &doc[0].command {
        Command::Tap(t) => assert_eq!(t.pkg, "one/1"),
        _ => panic!("wrong command"),
    }
    assert_eq!(brew_package_name(&doc[1]), "two");
    match &doc[2].command {
        Command::Tap(t) => assert_eq!(t.pkg, "three/3"),
        _ => panic!("wrong command"),
    }
}

#[test]
fn empty_input_yields_empty_document() {
    assert_eq!(parse_command("").unwrap().len(), 0);
    assert_eq!(parse_command("  \n\t \n").unwrap().len(), 0);
}

#[test]
fn metafield_parses_description_and_optional() {
    let (field, next) = Metafield::parse("@description  spaced out \nrest", 0).unwrap();
    assert_eq!(field, Some(Metafield::Description("spaced out".to_string())));
    assert_eq!(next, 25);

    let (field, _) = Metafield::parse("@optional ignored tail\n", 0).unwrap();
    assert_eq!(field, Some(Metafield::Optional));

    let (field, _) = Metafield::parse("plain commentary\n", 0).unwrap();
    assert_eq!(field, None);
}
