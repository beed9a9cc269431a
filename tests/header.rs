use input_event_codes::grammar::{push_decimal, push_hex};
use input_event_codes::parse::{
    format_define, format_define_hex, parse_define, parse_file, Define, Expression, ParseError, ParseErrorKind,
};

fn constant(name: &str, value: u32, comment: Option<&str>) -> Define {
    Define {
        name: name.to_string(),
        expression: Expression::Constant(value),
        comment: comment.map(|c| c.to_string()),
    }
}

const HEADER: &str = "/* SPDX-License-Identifier: GPL-2.0 */\n\
/*\n * Input event codes\n */\n\
#ifndef _UAPI_INPUT_EVENT_CODES_H\n\
#define _UAPI_INPUT_EVENT_CODES_H\n\
\n\
/*\n * Event types\n */\n\
\n\
#define EV_SYN\t\t\t0x00\n\
#define EV_KEY\t\t\t0x01\t/* keys */\n\
#define SW_RFKILL_ALL\t\t0x03  /* rfkill master switch, type \"any\"\n\
\t\t\t\t\t set = radio enabled */\n\
#define KEY_CNT\t\t\t(KEY_MAX+1)\n\
\n\
#endif\n";

#[test]
fn parses_whole_header() {
    let defines = parse_file(HEADER).unwrap();
    assert_eq!(
        defines,
        vec![
            constant("EV_SYN", 0, None),
            constant("EV_KEY", 1, Some("keys")),
            constant(
                "SW_RFKILL_ALL",
                3,
                Some("rfkill master switch, type \"any\" set = radio enabled")
            ),
            Define {
                name: "KEY_CNT".to_string(),
                expression: Expression::Expression {
                    other: "KEY_MAX".to_string(),
                    add: Some(1)
                },
                comment: None
            },
        ]
    );
}

#[test]
fn empty_body_parses() {
    assert_eq!(parse_file("#ifndef G\n#define G\n#endif"), Ok(vec![]));
}

#[test]
fn missing_guard_is_malformed_preamble() {
    assert_eq!(
        parse_file("#define EV_SYN 0\n#endif\n"),
        Err(ParseError {
            kind: ParseErrorKind::MalformedPreamble,
            offset: 0,
            line: 0
        })
    );
    assert_eq!(
        parse_file("/* c */\n#ifndef G\n#endif\n"),
        Err(ParseError {
            kind: ParseErrorKind::MalformedPreamble,
            offset: 8,
            line: 1
        })
    );
    assert_eq!(
        parse_file(""),
        Err(ParseError {
            kind: ParseErrorKind::MalformedPreamble,
            offset: 0,
            line: 0
        })
    );
}

#[test]
fn unclosed_comment_is_unterminated() {
    assert_eq!(
        parse_file("\n/* never closed\n#ifndef G\n#define G\n#endif\n"),
        Err(ParseError {
            kind: ParseErrorKind::UnterminatedComment,
            offset: 1,
            line: 1
        })
    );
    assert_eq!(
        parse_file("#ifndef G\n#define G\n#define A_B 1 /* open\n#endif\n"),
        Err(ParseError {
            kind: ParseErrorKind::UnterminatedComment,
            offset: 34,
            line: 2
        })
    );
}

#[test]
fn bad_value_is_unrecognized() {
    assert_eq!(
        parse_file("#ifndef G\n#define G\n#define A_B ?\n#endif\n"),
        Err(ParseError {
            kind: ParseErrorKind::UnrecognizedValueGrammar,
            offset: 32,
            line: 2
        })
    );
    assert_eq!(
        parse_file("#ifndef G\n#define G\n#define A_B 1x\n#endif\n"),
        Err(ParseError {
            kind: ParseErrorKind::UnrecognizedValueGrammar,
            offset: 33,
            line: 2
        })
    );
}

#[test]
fn define_without_name_is_malformed() {
    assert_eq!(
        parse_file("#ifndef G\n#define G\n#define\n#endif\n"),
        Err(ParseError {
            kind: ParseErrorKind::MalformedDefine,
            offset: 20,
            line: 2
        })
    );
}

#[test]
fn missing_endif() {
    assert_eq!(
        parse_file("#ifndef G\n#define G\n#define A_B 1\n"),
        Err(ParseError {
            kind: ParseErrorKind::MissingEndif,
            offset: 34,
            line: 3
        })
    );
    assert_eq!(
        parse_file("#ifndef G\n#define G\n#define A_B 1\n#if X\n#endif\n"),
        Err(ParseError {
            kind: ParseErrorKind::MissingEndif,
            offset: 34,
            line: 3
        })
    );
}

#[test]
fn format_then_parse_round_trips() {
    for (name, value) in [("KEY_A", 30u32), ("SYN_REPORT", 0), ("A_B", u32::MAX), ("_X9", 1234567)] {
        let line = format_define(name, value);
        assert_eq!(parse_define(&line), Some((String::new(), constant(name, value, None))));
    }
    assert_eq!(format_define("KEY_A", 30), "#define KEY_A 30");
}

#[test]
fn decimal_digits() {
    let mut s = String::from("n=");
    push_decimal(&mut s, 4096);
    assert_eq!(s, "n=4096");
    let mut z = String::new();
    push_decimal(&mut z, 0);
    assert_eq!(z, "0");
}

#[test]
fn error_reasons() {
    assert_eq!(
        ParseErrorKind::UnterminatedComment.reason(),
        "comment never closed"
    );
    assert_eq!(
        ParseErrorKind::MalformedPreamble.reason(),
        "missing or malformed include guard"
    );
    assert_eq!(ParseErrorKind::MissingEndif.reason(), "expected #define or #endif");
}

#[test]
fn guard_names_must_match() {
    assert_eq!(
        parse_file("#ifndef _G\n#define _H\n#endif"),
        Err(ParseError {
            kind: ParseErrorKind::MalformedPreamble,
            offset: 0,
            line: 0
        })
    );
    assert_eq!(parse_file("#ifndef G  \n#define G \n#endif"), Ok(vec![]));
    assert_eq!(
        parse_file("#ifndef G\n#define G 1\n#endif"),
        Err(ParseError {
            kind: ParseErrorKind::MalformedPreamble,
            offset: 0,
            line: 0
        })
    );
}

#[test]
fn comment_running_into_a_define_is_unterminated() {
    assert_eq!(
        parse_file("#ifndef _G\n#define _G\n#define A_B 1 /* open\n#define C_D 2 /* x */\n#endif"),
        Err(ParseError {
            kind: ParseErrorKind::UnterminatedComment,
            offset: 36,
            line: 2
        })
    );
}

#[test]
fn hex_format_then_parse_round_trips() {
    for (name, value) in [("EV_MAX", 0x1fu32), ("SYN_REPORT", 0), ("A_B", u32::MAX), ("_X9", 0x1234_5678)] {
        let line = format_define_hex(name, value);
        assert_eq!(parse_define(&line), Some((String::new(), constant(name, value, None))));
    }
    assert_eq!(format_define_hex("EV_MAX", 0x1f), "#define EV_MAX 0x1f");
    assert_eq!(format_define_hex("A_B", 0), "#define A_B 0x0");
}

#[test]
fn hex_digits() {
    let mut s = String::new();
    push_hex(&mut s, 0xdead_beef);
    assert_eq!(s, "deadbeef");
    let mut z = String::from("x");
    push_hex(&mut z, 10);
    assert_eq!(z, "xa");
}
