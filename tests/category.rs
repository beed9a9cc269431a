use input_event_codes::category::{create_categories, Category, CategoryError, Constant};
use input_event_codes::grammar::normalize_comment;
use input_event_codes::parse::{parse_file, Define, Expression};
use input_event_codes::renames::{lookup_rename, renames};

fn define(name: &str, value: u32, comment: Option<&str>) -> Define {
    Define {
        name: name.to_string(),
        expression: Expression::Constant(value),
        comment: comment.map(|c| c.to_string()),
    }
}

fn names(category: &Category) -> Vec<&str> {
    category.constants.iter().map(|c| c.name.as_str()).collect()
}

#[test]
fn groups_by_prefix_in_order() {
    let cats = create_categories(vec![
        define("KEY_A", 30, None),
        define("KEY_B", 48, None),
        define("BTN_X", 0x133, None),
    ])
    .unwrap();
    assert_eq!(cats.len(), 2);
    assert_eq!(cats[0].0, "KEY");
    assert_eq!(names(&cats[0].1), vec!["A", "B"]);
    assert_eq!(cats[0].1.constants[1].value, 48);
    assert_eq!(cats[1].0, "BTN");
    assert_eq!(names(&cats[1].1), vec!["X"]);
    assert_eq!(cats[1].1.constants[0].alias_name, "BTN_X");
}

#[test]
fn interleaved_prefixes_keep_first_seen_order() {
    let cats = create_categories(vec![
        define("EV_SYN", 0, None),
        define("KEY_A", 30, None),
        define("EV_KEY", 1, None),
    ])
    .unwrap();
    assert_eq!(cats.len(), 2);
    assert_eq!(cats[0].0, "EV");
    assert_eq!(names(&cats[0].1), vec!["SYN", "KEY"]);
    assert_eq!(cats[1].0, "KEY");
}

#[test]
fn only_first_separator_splits() {
    let cats = create_categories(vec![define("ABS_MT_SLOT", 0x2f, None)]).unwrap();
    assert_eq!(cats[0].0, "ABS");
    assert_eq!(cats[0].1.constants[0].name, "MT_SLOT");
}

#[test]
fn leading_digit_gets_underscore() {
    let cats = create_categories(vec![define("ABS_3D", 1, None), define("KEY_0", 11, None)]).unwrap();
    assert_eq!(
        cats[0].1.constants[0],
        Constant {
            name: "_3D".to_string(),
            alias_name: "ABS_3D".to_string(),
            value: 1,
            comment: None
        }
    );
    assert_eq!(cats[1].1.constants[0].name, "_0");
}

#[test]
fn comment_is_carried_unchanged() {
    let cats = create_categories(vec![define(
        "ABS_MT_SLOT",
        47,
        Some(" MT slot being modified "),
    )])
    .unwrap();
    assert_eq!(
        cats[0].1.constants[0],
        Constant {
            name: "MT_SLOT".to_string(),
            alias_name: "ABS_MT_SLOT".to_string(),
            value: 47,
            comment: Some(" MT slot being modified ".to_string())
        }
    );
}

#[test]
fn multiline_comment_is_joined() {
    let text = "#ifndef G\n#define G\n#define SW_A 1 /* line one\n   continues */\n#endif\n";
    let cats = create_categories(parse_file(text).unwrap()).unwrap();
    assert_eq!(
        cats[0].1.constants[0].comment.as_deref(),
        Some("line one continues")
    );
}

#[test]
fn normalize_collapses_whitespace() {
    assert_eq!(normalize_comment(" MT slot being modified "), "MT slot being modified");
    assert_eq!(normalize_comment("a\t\tb\r\n  c"), "a b c");
    assert_eq!(normalize_comment("   "), "");
    assert_eq!(normalize_comment(""), "");
}

#[test]
fn name_without_separator_fails() {
    assert_eq!(
        create_categories(vec![define("KEY_A", 1, None), define("NOSEP", 2, None)]).unwrap_err(),
        CategoryError::InvalidDefineName
    );
}

#[test]
fn deferred_value_fails() {
    let d = Define {
        name: "KEY_CNT".to_string(),
        expression: Expression::Expression {
            other: "KEY_MAX".to_string(),
            add: Some(1),
        },
        comment: None,
    };
    assert_eq!(
        create_categories(vec![d]).unwrap_err(),
        CategoryError::UnexpectedDeferredExpression
    );
}

#[test]
fn empty_input_gives_no_categories() {
    assert!(create_categories(vec![]).unwrap().is_empty());
}

#[test]
fn parse_then_categorize() {
    let text = "#ifndef G\n#define G\n#define REP_DELAY\t0x00\n#define REP_PERIOD\t0x01 /* the\n  period */\n#endif\n";
    let cats = create_categories(parse_file(text).unwrap()).unwrap();
    assert_eq!(cats.len(), 1);
    assert_eq!(cats[0].0, "REP");
    assert_eq!(names(&cats[0].1), vec!["DELAY", "PERIOD"]);
    assert_eq!(cats[0].1.constants[1].comment.as_deref(), Some("the period"));
}

#[test]
fn rename_lookup() {
    assert_eq!(
        lookup_rename("Ev"),
        ("EventType".to_string(), Some("Event types.".to_string()))
    );
    assert_eq!(lookup_rename("Key"), ("Key".to_string(), None));
    assert_eq!(lookup_rename("Btn"), ("Button".to_string(), None));
    assert_eq!(lookup_rename("EV"), ("EV".to_string(), None));
    assert_eq!(lookup_rename("Foo"), ("Foo".to_string(), None));
    assert_eq!(renames().len(), 11);
}
