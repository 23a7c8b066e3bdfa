use mcpanel::manifest::parse;

#[test]
fn reads_name_value_lines() {
    let t = parse("Manifest-Version: 1.0\r\nImplementation-Version: 3.2.1\n\n");
    assert_eq!(t.get("Manifest-Version"), Some(&"1.0".to_string()));
    assert_eq!(t.get("Implementation-Version"), Some(&"3.2.1".to_string()));
    assert_eq!(t.len(), 2);
}

#[test]
fn greatest_piece_is_the_key() {
    let t = parse("a: Zed");
    assert_eq!(t.get("a"), Some(&"Zed".to_string()));
    assert!(!t.contains_key("Zed"));
}

#[test]
fn more_than_two_pieces() {
    let t = parse("Main-Class: b : z");
    assert_eq!(t.get("z"), Some(&"Main-Class".to_string()));
}

#[test]
fn first_line_for_a_key_wins() {
    let t = parse("Name: Alpha\nName: Beta");
    assert_eq!(t.get("Name"), Some(&"Alpha".to_string()));
    assert_eq!(t.len(), 1);
}

#[test]
fn line_without_colon_is_skipped() {
    let t = parse("no colon here\nKey: value");
    assert_eq!(t.len(), 1);
    assert!(!t.contains_key("no colon here"));
}

#[test]
fn blank_text_is_empty() {
    assert_eq!(parse("  \n\t\n").len(), 0);
}

#[test]
fn render_then_parse_gives_the_table() {
    let t = parse("Manifest-Version: 1.0\nImplementation-Version: 3.2.1\nName: Alpha\nName: Beta");
    let text = t.to_text();
    assert_eq!(text, "Manifest-Version: 1.0\nImplementation-Version: 3.2.1\nName: Alpha\n");
    let again = parse(&text);
    assert_eq!(again.to_text(), text);
    assert_eq!(again.len(), 3);
    assert_eq!(again.get("Name"), Some(&"Alpha".to_string()));
}

#[test]
fn lower_case_value_sorts_after_the_name() {
    let t = parse("Name: one");
    assert_eq!(t.get("one"), Some(&"Name".to_string()));
}

#[test]
fn parse_render_parse_is_stable() {
    let first = parse("  Created-By: 17 (Oracle)\n\nName: Alpha\nb: Zed\nEmpty:\nName: Beta\n");
    let again = parse(&first.to_text());
    assert_eq!(again.to_text(), first.to_text());
    assert_eq!(again.len(), first.len());
    assert_eq!(again.get("b"), Some(&"Zed".to_string()));
    assert_eq!(again.get("Empty"), Some(&"".to_string()));
    assert_eq!(again.get("Created-By"), Some(&"17 (Oracle)".to_string()));
}
