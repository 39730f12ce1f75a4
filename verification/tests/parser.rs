use ndb::parser::{ndb_stmt, parse_value, Ndb, NdbStmt, NdbValue, ParseError};

fn stmt(key: &str, value: NdbValue) -> NdbStmt {
    NdbStmt { key: key.to_string(), value }
}

fn text(s: &str) -> NdbValue {
    NdbValue::String(s.to_string())
}

#[test]
fn parse_ndb() {
    assert_eq!(
        ndb_stmt("name=hello"),
        Ok((
            "",
            NdbStmt {
                key: "name".to_string(),
                value: NdbValue::String("hello".to_string()),
            }
        ))
    );

    assert_eq!(
        ndb_stmt("name=9glenda"),
        Ok((
            "",
            NdbStmt {
                key: "name".to_string(),
                value: NdbValue::String("9glenda".to_string()),
            }
        ))
    );

    assert_eq!(
        ndb_stmt("age=9"),
        Ok((
            "",
            NdbStmt {
                key: "age".to_string(),
                value: NdbValue::Int(9),
            }
        ))
    );

    assert_eq!(
        ndb_stmt("age=01"),
        Ok((
            "",
            NdbStmt {
                key: "age".to_string(),
                value: NdbValue::Int(1),
            }
        ))
    );
}

#[test]
fn statement_with_string_value() {
    assert_eq!(ndb_stmt("name=glenda"), Ok(("", stmt("name", text("glenda")))));
}

#[test]
fn statement_with_boolean_value() {
    assert_eq!(ndb_stmt("switch=true"), Ok(("", stmt("switch", NdbValue::Bool(true)))));
    assert_eq!(ndb_stmt("switch=false"), Ok(("", stmt("switch", NdbValue::Bool(false)))));
}

#[test]
fn keyword_as_key_is_only_a_key() {
    assert_eq!(ndb_stmt("true=false"), Ok(("", stmt("true", NdbValue::Bool(false)))));
}

#[test]
fn keyword_inside_a_longer_token_is_text() {
    assert_eq!(ndb_stmt("name=trueabc"), Ok(("", stmt("name", text("trueabc")))));
    assert_eq!(ndb_stmt("name=falsehood"), Ok(("", stmt("name", text("falsehood")))));
    assert_eq!(ndb_stmt("name=untrue"), Ok(("", stmt("name", text("untrue")))));
}

#[test]
fn keywords_are_case_sensitive() {
    assert_eq!(ndb_stmt("switch=True"), Ok(("", stmt("switch", text("True")))));
    assert_eq!(ndb_stmt("switch=FALSE"), Ok(("", stmt("switch", text("FALSE")))));
}

#[test]
fn key_may_mix_cases() {
    assert_eq!(ndb_stmt("UserName=x"), Ok(("", stmt("UserName", text("x")))));
}

#[test]
fn empty_input_fails() {
    assert_eq!(ndb_stmt(""), Err(ParseError::Syntax { offset: 0 }));
}

#[test]
fn empty_value_fails() {
    assert_eq!(ndb_stmt("name="), Err(ParseError::Syntax { offset: 5 }));
}

#[test]
fn empty_key_fails() {
    assert_eq!(ndb_stmt("=value"), Err(ParseError::Syntax { offset: 0 }));
}

#[test]
fn key_with_leading_digit_fails() {
    assert_eq!(ndb_stmt("9key=value"), Err(ParseError::Syntax { offset: 0 }));
}

#[test]
fn key_with_digit_inside_fails() {
    assert_eq!(ndb_stmt("key9=value"), Err(ParseError::Syntax { offset: 3 }));
}

#[test]
fn missing_separator_fails() {
    assert_eq!(ndb_stmt("name"), Err(ParseError::Syntax { offset: 4 }));
    assert_eq!(ndb_stmt("name value"), Err(ParseError::Syntax { offset: 4 }));
}

#[test]
fn space_around_separator_fails() {
    assert_eq!(ndb_stmt("name =value"), Err(ParseError::Syntax { offset: 4 }));
    assert_eq!(ndb_stmt("name= value"), Err(ParseError::Syntax { offset: 5 }));
    assert_eq!(ndb_stmt(" name=value"), Err(ParseError::Syntax { offset: 0 }));
}

#[test]
fn sign_in_value_position_fails() {
    assert_eq!(ndb_stmt("age=-5"), Err(ParseError::Syntax { offset: 4 }));
    assert_eq!(ndb_stmt("age=+5"), Err(ParseError::Syntax { offset: 4 }));
}

#[test]
fn underscore_in_key_fails() {
    assert_eq!(ndb_stmt("user_name=x"), Err(ParseError::Syntax { offset: 4 }));
}

#[test]
fn non_ascii_letter_in_key_fails() {
    assert_eq!(ndb_stmt("n\u{e9}=x"), Err(ParseError::Syntax { offset: 1 }));
}

#[test]
fn error_offset_getter() {
    assert_eq!(ParseError::Syntax { offset: 7 }.offset(), 7);
    assert_eq!(ndb_stmt("name=").unwrap_err().offset(), 5);
}

#[test]
fn rest_is_returned() {
    assert_eq!(ndb_stmt("name=hello world"), Ok((" world", stmt("name", text("hello")))));
    assert_eq!(ndb_stmt("a=b=c"), Ok(("=c", stmt("a", text("b")))));
    assert_eq!(ndb_stmt("age=42\n"), Ok(("\n", stmt("age", NdbValue::Int(42)))));
    assert_eq!(
        ndb_stmt("on=true other=1"),
        Ok((" other=1", stmt("on", NdbValue::Bool(true))))
    );
}

#[test]
fn rest_may_start_with_a_wide_character() {
    assert_eq!(
        ndb_stmt("name=h\u{e9}llo"),
        Ok(("\u{e9}llo", stmt("name", text("h"))))
    );
    assert_eq!(
        ndb_stmt("age=7\u{1F600}!"),
        Ok(("\u{1F600}!", stmt("age", NdbValue::Int(7))))
    );
}

#[test]
fn rest_parses_as_the_next_statement() {
    let (rest, first) = ndb_stmt("a=1b=2").unwrap();
    assert_eq!(first, stmt("a", text("1b")));
    assert_eq!(rest, "=2");
    assert_eq!(ndb_stmt(rest), Err(ParseError::Syntax { offset: 0 }));
}

#[test]
fn value_at_start_of_input() {
    assert_eq!(parse_value("hello"), Ok(("", text("hello"))));
    assert_eq!(parse_value("hello=1"), Ok(("=1", text("hello"))));
    assert_eq!(parse_value("42 "), Ok((" ", NdbValue::Int(42))));
    assert_eq!(parse_value("true,"), Ok((",", NdbValue::Bool(true))));
    assert_eq!(parse_value("false"), Ok(("", NdbValue::Bool(false))));
    assert_eq!(parse_value("trueabc"), Ok(("", text("trueabc"))));
}

#[test]
fn value_needs_a_token() {
    assert_eq!(parse_value(""), Err(ParseError::Syntax { offset: 0 }));
    assert_eq!(parse_value("=x"), Err(ParseError::Syntax { offset: 0 }));
    assert_eq!(parse_value(" x"), Err(ParseError::Syntax { offset: 0 }));
    assert_eq!(parse_value("-1"), Err(ParseError::Syntax { offset: 0 }));
}

#[test]
fn every_key_and_token_make_a_statement() {
    let keys = ["a", "Z", "name", "NAME", "true", "CamelCase"];
    let tokens = ["x", "0", "007", "9glenda", "true", "false", "abc123", "18446744073709551616"];
    for key in keys {
        for token in tokens {
            let line = format!("{}={}", key, token);
            let expected = ndb::value::classify(token);
            assert_eq!(ndb_stmt(&line), Ok(("", stmt(key, expected))));
        }
    }
}

#[test]
fn database_keeps_the_order() {
    let lines = ["name=glenda", "age=9", "switch=true"];
    let mut statements = Vec::new();
    for line in lines {
        statements.push(ndb_stmt(line).unwrap().1);
    }
    let db = Ndb { statements };
    assert_eq!(
        db,
        Ndb {
            statements: vec![
                stmt("name", text("glenda")),
                stmt("age", NdbValue::Int(9)),
                stmt("switch", NdbValue::Bool(true)),
            ]
        }
    );
    assert_eq!(db.clone(), db);
}
