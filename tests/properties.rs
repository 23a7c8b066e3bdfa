use mcpanel::properties::{parse, ConfigValue};

#[test]
fn server_config_scenario() {
    let t = parse("server-port=25565\nmotd=Hello\nonline-mode=false\n#comment\nwhite-list=true");
    assert_eq!(t.get("server-port"), Some(&ConfigValue::Integer(25565)));
    assert_eq!(t.get("motd"), Some(&ConfigValue::String("Hello".to_string())));
    assert_eq!(t.get("online-mode"), Some(&ConfigValue::Boolean(false)));
    assert_eq!(t.get("white-list"), Some(&ConfigValue::Boolean(true)));
    assert_eq!(t.get("#comment"), None);
    assert_eq!(t.len(), 4);
}

#[test]
fn integer_value() {
    assert_eq!(parse("k=5").get("k"), Some(&ConfigValue::Integer(5)));
}

#[test]
fn boolean_value() {
    assert_eq!(parse("k=true").get("k"), Some(&ConfigValue::Boolean(true)));
}

#[test]
fn empty_value_is_absent() {
    assert_eq!(parse("k=").get("k"), Some(&ConfigValue::Absent));
}

#[test]
fn white_value_is_absent() {
    assert_eq!(parse("k=  \t").get("k"), Some(&ConfigValue::Absent));
}

#[test]
fn bare_key_is_absent() {
    assert_eq!(parse("k").get("k"), Some(&ConfigValue::Absent));
}

#[test]
fn text_value() {
    assert_eq!(parse("k=abc").get("k"), Some(&ConfigValue::String("abc".to_string())));
}

#[test]
fn one_is_an_integer_not_a_boolean() {
    assert_eq!(parse("k=1").get("k"), Some(&ConfigValue::Integer(1)));
}

#[test]
fn plus_sign_integer() {
    assert_eq!(parse("k=+7").get("k"), Some(&ConfigValue::Integer(7)));
}

#[test]
fn largest_u32_and_beyond() {
    let t = parse("a=4294967295\nb=4294967296\nc=-1");
    assert_eq!(t.get("a"), Some(&ConfigValue::Integer(4294967295)));
    assert_eq!(t.get("b"), Some(&ConfigValue::String("4294967296".to_string())));
    assert_eq!(t.get("c"), Some(&ConfigValue::String("-1".to_string())));
}

#[test]
fn values_are_not_trimmed() {
    assert_eq!(parse("k= 5").get("k"), Some(&ConfigValue::String(" 5".to_string())));
    assert_eq!(parse("k =5").get("k "), Some(&ConfigValue::Integer(5)));
}

#[test]
fn value_keeps_later_equals_signs() {
    assert_eq!(parse("k=a=b").get("k"), Some(&ConfigValue::String("a=b".to_string())));
}

#[test]
fn comment_lines_add_nothing() {
    let t = parse("#k=5\n# x\n#");
    assert_eq!(t.len(), 0);
    assert_eq!(t.get("#k"), None);
}

#[test]
fn last_line_wins() {
    let t = parse("k=1\nk=two");
    assert_eq!(t.get("k"), Some(&ConfigValue::String("two".to_string())));
    assert_eq!(t.len(), 1);
}

#[test]
fn empty_text_has_the_empty_key() {
    let t = parse("");
    assert_eq!(t.get(""), Some(&ConfigValue::Absent));
}

#[test]
fn value_accessors() {
    assert_eq!(ConfigValue::Integer(3).as_u32(), Some(3));
    assert_eq!(ConfigValue::Boolean(true).as_u32(), None);
    assert_eq!(ConfigValue::Boolean(true).as_bool(), Some(true));
    assert_eq!(ConfigValue::String("x".to_string()).as_string(), Some("x".to_string()));
    assert_eq!(ConfigValue::Absent.as_string(), None);
}
