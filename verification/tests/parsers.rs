use brewfile::error::{remainder, ErrorKind, ParseError};
use brewfile::parsers::{is_last, key_value, parse_line, parse_list, parse_object, parse_spacer};
use brewfile::string_parser::{parse_str, string};

#[test]
fn terminator_comma_forms_continue() {
    // A comma, with blanks on either side or none, means more follows.
    let (last, next) = is_last(", x", 0);
    assert!(!last);
    assert_eq!(next, 2);

    let (last, next) = is_last(",x", 0);
    assert!(!last);
    assert_eq!(next, 1);

    let (last, next) = is_last(" ,x", 0);
    assert!(!last);
    assert_eq!(next, 2);

    let (last, next) = is_last(" , x", 0);
    assert!(!last);
    assert_eq!(next, 3);
}

#[test]
fn terminator_end_forms_are_last() {
    // End-of-input, or a blank-only remainder with no comma, ends the clause.
    let (last, next) = is_last("", 0);
    assert!(last);
    assert_eq!(next, 0);

    let (last, next) = is_last("  \n\t\r", 0);
    assert!(last);
    assert_eq!(next, 5);

    // A line break before the comma ends the clause as well.
    let (last, next) = is_last(" \n, x", 0);
    assert!(last);
    assert_eq!(next, 2);
}

#[test]
fn spacer_finds_comma_or_nothing() {
    assert_eq!(parse_spacer("  , x", 0), Some(4));
    assert_eq!(parse_spacer("x", 0), None);
    assert_eq!(parse_spacer("  \n,", 0), None);
}

#[test]
fn string_decodes_escapes() {
    let input = "\"a\\nb\\t\\\"c\\\\d\"rest";
    let (text, next) = string(input, 0).unwrap();
    assert_eq!(text, "a\nb\t\"c\\d");
    assert_eq!(remainder(input, next), "rest");
}

#[test]
fn string_errors() {
    // No closing quote before end-of-input.
    let res = string("\"abc", 0);
    match res {
        Err(err) => {
            assert_eq!(err.kind, ErrorKind::UnterminatedString);
            assert_eq!(err.pos, 4);
        }
        _ => panic!("Expected an error but got: {:?}", res),
    }

    // An unsupported escape character.
    let res = string("\"a\\x\"", 0);
    match res {
        Err(err) => {
            assert_eq!(err.kind, ErrorKind::InvalidEscape);
            assert_eq!(err.pos, 3);
        }
        _ => panic!("Expected an error but got: {:?}", res),
    }

    // No string where one is required.
    let res = string("abc", 0);
    match res {
        Err(err) => {
            assert_eq!(err.kind, ErrorKind::ExpectedString);
            assert_eq!(err.pos, 0);
        }
        _ => panic!("Expected an error but got: {:?}", res),
    }
}

#[test]
fn parse_str_stops_before_quote() {
    let input = "abc\"rest";
    let (text, next) = parse_str(input, 0).unwrap();
    assert_eq!(text, "abc");
    assert_eq!(next, 3);
}

#[test]
fn list_keeps_source_order() {
    let input = "[\"a\", \"b\", \"c\"]";
    let (items, next) = parse_list(input, 0).unwrap();
    assert_eq!(
        items,
        vec!["a".to_string(), "b".to_string(), "c".to_string()]
    );
    assert_eq!(next, input.chars().count());
}

#[test]
fn empty_list_and_map() {
    let (items, next) = parse_list("[]", 0).unwrap();
    assert!(items.is_empty());
    assert_eq!(next, 2);

    let (items, next) = parse_list("[ ]", 0).unwrap();
    assert!(items.is_empty());
    assert_eq!(next, 3);

    let (pairs, next) = parse_object("{}", 0).unwrap();
    assert!(pairs.is_empty());
    assert_eq!(next, 2);
}

#[test]
fn list_rejects_trailing_comma() {
    let res = parse_list("[\"a\", ]", 0);
    match res {
        Err(err) => {
            assert_eq!(err.kind, ErrorKind::MalformedListOrMap);
            assert_eq!(err.pos, 6);
        }
        _ => panic!("Expected an error but got: {:?}", res),
    }
}

#[test]
fn list_rejects_missing_bracket() {
    let res = parse_list("[\"a\" ", 0);
    match res {
        Err(err) => assert_eq!(err.kind, ErrorKind::MalformedListOrMap),
        _ => panic!("Expected an error but got: {:?}", res),
    }
}

#[test]
fn list_allows_line_break_before_bracket() {
    let (items, _) = parse_list("[\"a\" \n ]", 0).unwrap();
    assert_eq!(items, vec!["a".to_string()]);
}

#[test]
fn key_value_pair() {
    let input = "\"a\": \"b\"";
    let ((key, val), next) = key_value(input, 0).unwrap();
    assert_eq!(key, "a");
    assert_eq!(val, "b");
    assert_eq!(next, 8);
}

#[test]
fn map_keeps_source_order_and_duplicates() {
    let input = "{\"k\": \"v\", \"k\": \"w\", \"a\": \"b\"}";
    let (pairs, _) = parse_object(input, 0).unwrap();
    assert_eq!(
        pairs,
        vec![
            ("k".to_string(), "v".to_string()),
            ("k".to_string(), "w".to_string()),
            ("a".to_string(), "b".to_string()),
        ]
    );
}

fn alpha1(s: &str, i: usize) -> Result<(String, usize), ParseError> {
    let chars: Vec<char> = s.chars().collect();
    let mut j = i;
    while j < chars.len() && chars[j].is_ascii_alphabetic() {
        j += 1;
    }
    if j == i {
        Err(ParseError {
            kind: ErrorKind::ExpectedString,
            pos: i,
        })
    } else {
        Ok((chars[i..j].iter().collect(), j))
    }
}

fn digit1(s: &str, i: usize) -> Result<(String, usize), ParseError> {
    let chars: Vec<char> = s.chars().collect();
    let mut j = i;
    while j < chars.len() && chars[j].is_ascii_digit() {
        j += 1;
    }
    if j == i {
        Err(ParseError {
            kind: ErrorKind::ExpectedString,
            pos: i,
        })
    } else {
        Ok((chars[i..j].iter().collect(), j))
    }
}

#[test]
fn parse_line_single() {
    let input = "package";
    let (value, next) = parse_line(alpha1, input, 0).unwrap();
    assert_eq!(value, "package");
    assert_eq!(remainder(input, next), "");

    // Leading white spaces
    let input = "\npackage";
    let (value, next) = parse_line(alpha1, input, 0).unwrap();
    assert_eq!(value, "package");
    assert_eq!(remainder(input, next), "");

    // Trailing white spaces
    let input = "package\n";
    let (value, next) = parse_line(alpha1, input, 0).unwrap();
    assert_eq!(value, "package");
    assert_eq!(remainder(input, next), "");

    // Multiple lines
    let input = "\n\n\n12\n\nother\n\n\n";
    let (value, next) = parse_line(digit1, input, 0).unwrap();
    assert_eq!(value, "12");
    assert_eq!(remainder(input, next), "other\n\n\n");
}
