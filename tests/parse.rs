use input_event_codes::parse::{
    consume_define_no_value, consume_ifndef, consume_ws_and_comments, parse_define, parse_defines,
    Define, Expression,
};

fn constant(name: &str, value: u32, comment: Option<&str>) -> Define {
    Define {
        name: name.to_string(),
        expression: Expression::Constant(value),
        comment: comment.map(|c| c.to_string()),
    }
}

fn deferred(name: &str, other: &str, add: Option<u32>) -> Define {
    Define {
        name: name.to_string(),
        expression: Expression::Expression {
            other: other.to_string(),
            add,
        },
        comment: None,
    }
}

#[test]
fn consume_header() {
    const HEADER: &str = r#"/* SPDX-License-Identifier: GPL-2.0-only WITH Linux-syscall-note */
        /*
         * Input event codes
         *
         *    *** IMPORTANT ***
         * This file is not only included from C-code but also from devicetree source
         * files. As such this file MUST only contain comments and defines.
         *
         * Copyright (c) 1999-2002 Vojtech Pavlik
         * Copyright (c) 2015 Hans de Goede <hdegoede@redhat.com>
         *
         * This program is free software; you can redistribute it and/or modify it
         * under the terms of the GNU General Public License version 2 as published by
         * the Free Software Foundation.
         */
"#;

    assert_eq!(consume_ws_and_comments(HEADER), "");
}

#[test]
fn test_define_no_comment() {
    assert_eq!(
        consume_define_no_value("#define _UAPI_INPUT_EVENT_CODES_H\n"),
        Some(String::new())
    );
}

#[test]
fn test_ifndef() {
    assert_eq!(consume_ifndef("#ifndef _TEST"), Some(String::new()));
}

#[test]
fn parse_lit_number() {
    assert_eq!(
        parse_define("#define SYN_REPORT\t\t0"),
        Some((String::new(), constant("SYN_REPORT", 0, None)))
    );
}

#[test]
fn parse_lit_hex() {
    assert_eq!(
        parse_define("#define EV_MAX\t\t\t0x1f"),
        Some((String::new(), constant("EV_MAX", 0x1F, None)))
    );
}

#[test]
fn parse_lit_hex_with_comment() {
    assert_eq!(
        parse_define("#define ABS_MT_SLOT\t\t0x2f\t/* MT slot being modified */"),
        Some((
            String::new(),
            constant("ABS_MT_SLOT", 0x2F, Some("MT slot being modified"))
        ))
    );
}

#[test]
fn parse_define_deferred() {
    assert_eq!(
        parse_define("#define KEY_MIN_INTERESTING\tKEY_MUTE"),
        Some((
            String::new(),
            deferred("KEY_MIN_INTERESTING", "KEY_MUTE", None)
        ))
    );
}

#[test]
fn parse_define_expression() {
    assert_eq!(
        parse_define("#define KEY_CNT\t\t\t(KEY_MAX+1)"),
        Some((String::new(), deferred("KEY_CNT", "KEY_MAX", Some(1))))
    );
}

#[test]
fn parse_define_expression_ws() {
    assert_eq!(
        parse_define("#define INPUT_PROP_CNT\t\t\t(INPUT_PROP_MAX + 1)"),
        Some((
            String::new(),
            deferred("INPUT_PROP_CNT", "INPUT_PROP_MAX", Some(1))
        ))
    );
}

#[test]
fn parse_multiline_comment_define() {
    assert_eq!(
        parse_define("#define SW_RFKILL_ALL\t\t0x03  /* rfkill master switch, type \"any\"\n        set = radio enabled */"),
        Some((
            String::new(),
            constant(
                "SW_RFKILL_ALL",
                0x03,
                Some("rfkill master switch, type \"any\" set = radio enabled")
            )
        ))
    );
}

#[test]
fn parse_define_no_comment_attached() {
    assert_eq!(
        parse_define("#define SW_MICROPHONE_INSERT\t0x04\n/* set = inserted */"),
        Some((
            "\n/* set = inserted */".to_string(),
            constant("SW_MICROPHONE_INSERT", 0x04, None)
        ))
    );
}

#[test]
fn parse_multiple() {
    assert_eq!(
        parse_defines("#define EV_MAX\t\t\t0x1f\n#define EV_MAX\t\t\t0x1f"),
        (
            String::new(),
            vec![constant("EV_MAX", 0x1F, None), constant("EV_MAX", 0x1F, None)]
        )
    );
}

#[test]
fn parse_multiple_ws() {
    assert_eq!(
        parse_defines("#define EV_MAX\t\t\t0x1f\n\n#define EV_MAX\t\t\t0x1f"),
        (
            String::new(),
            vec![constant("EV_MAX", 0x1F, None), constant("EV_MAX", 0x1F, None)]
        )
    );
}

#[test]
fn parse_multiple_ws_with_comment() {
    assert_eq!(
        parse_defines("#define EV_MAX\t\t\t0x1f\n/* a comment */\n#define EV_MAX\t\t\t0x1f"),
        (
            String::new(),
            vec![constant("EV_MAX", 0x1F, None), constant("EV_MAX", 0x1F, None)]
        )
    );
}

#[test]
fn single_space_define_scenarios() {
    assert_eq!(
        parse_define("#define SYN_REPORT 0"),
        Some((String::new(), constant("SYN_REPORT", 0, None)))
    );
    assert_eq!(
        parse_define("#define EV_MAX 0x1f"),
        Some((String::new(), constant("EV_MAX", 31, None)))
    );
    assert_eq!(
        parse_define("#define ABS_MT_SLOT 0x2f /* MT slot being modified */"),
        Some((
            String::new(),
            constant("ABS_MT_SLOT", 47, Some("MT slot being modified"))
        ))
    );
    assert_eq!(
        parse_define("#define KEY_CNT (KEY_MAX+1)"),
        Some((String::new(), deferred("KEY_CNT", "KEY_MAX", Some(1))))
    );
}

#[test]
fn hex_reads_eight_digits_at_most() {
    assert_eq!(
        parse_define("#define A_B 0x123456789"),
        Some(("9".to_string(), constant("A_B", 0x1234_5678, None)))
    );
    assert_eq!(
        parse_define("#define A_B 0xffffffff"),
        Some((String::new(), constant("A_B", u32::MAX, None)))
    );
}

#[test]
fn decimal_must_fit_in_u32() {
    assert_eq!(
        parse_define("#define A_B 4294967295"),
        Some((String::new(), constant("A_B", u32::MAX, None)))
    );
    assert_eq!(parse_define("#define A_B 4294967296"), None);
}

#[test]
fn hex_prefix_without_digits_reads_zero() {
    assert_eq!(
        parse_define("#define A_B 0xg"),
        Some(("xg".to_string(), constant("A_B", 0, None)))
    );
}

#[test]
fn define_needs_name_and_value() {
    assert_eq!(parse_define("#define 1A 2"), None);
    assert_eq!(parse_define("#define A_B"), None);
    assert_eq!(parse_define("#define A_B ?"), None);
    assert_eq!(parse_define("#defineA_B 1"), None);
}

#[test]
fn unclosed_trailing_comment_is_not_attached() {
    assert_eq!(
        parse_define("#define A_B 1 /* open"),
        Some((" /* open".to_string(), constant("A_B", 1, None)))
    );
}

#[test]
fn parse_defines_stops_at_other_text() {
    assert_eq!(
        parse_defines("#define A_B 1\n#endif\n"),
        ("\n#endif\n".to_string(), vec![constant("A_B", 1, None)])
    );
    assert_eq!(parse_defines("#endif"), ("#endif".to_string(), vec![]));
}

#[test]
fn consume_stops_at_text() {
    assert_eq!(consume_ws_and_comments("  /* a */ \n\t x"), "x");
    assert_eq!(consume_ws_and_comments("/* open"), "/* open");
    assert_eq!(consume_ifndef("#ifndef\n"), None);
    assert_eq!(consume_ifndef("#ifndef G\nrest"), Some("\nrest".to_string()));
    assert_eq!(consume_define_no_value("#define G"), None);
}

#[test]
fn multiline_comment_joined_at_parse() {
    assert_eq!(
        parse_define("#define SW_A 1 /* line one\n   continues */"),
        Some((String::new(), constant("SW_A", 1, Some("line one continues"))))
    );
}

#[test]
fn comment_reaching_a_define_is_not_attached() {
    assert_eq!(
        parse_define("#define A_B 1 /* x\n  #define C_D 2 */"),
        Some((
            " /* x\n  #define C_D 2 */".to_string(),
            constant("A_B", 1, None)
        ))
    );
}

#[test]
fn guard_lines() {
    assert_eq!(consume_ifndef("#ifndef G extra"), None);
    assert_eq!(consume_ifndef("#ifndef G  "), Some(String::new()));
    assert_eq!(consume_define_no_value("#define G 1\n"), None);
    assert_eq!(consume_define_no_value("#define G \nx"), Some("x".to_string()));
}

#[test]
fn single_line_comment_is_trimmed_and_collapsed() {
    assert_eq!(
        parse_define("#define A_B 1 /*  two   spaces\there  */"),
        Some((String::new(), constant("A_B", 1, Some("two spaces here"))))
    );
    assert_eq!(
        parse_define("#define A_B 1 /**/"),
        Some((String::new(), constant("A_B", 1, Some(""))))
    );
}
