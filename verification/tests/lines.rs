use discord_urls_extractor::text::{format_lines, parse_ignores, push_decimal, split_newlines};

fn strings(items: &[&str]) -> Vec<String> {
    items.iter().map(|s| s.to_string()).collect()
}

#[test]
fn split_keeps_empty_pieces() {
    assert_eq!(split_newlines("a\n\nb\n"), strings(&["a", "", "b", ""]));
    assert_eq!(split_newlines(""), strings(&[""]));
    assert_eq!(split_newlines("é\nü"), strings(&["é", "ü"]));
}

#[test]
fn ignores_are_the_non_empty_lines() {
    assert_eq!(parse_ignores("a\n\nb\n"), strings(&["a", "b"]));
    assert_eq!(parse_ignores(""), Vec::<String>::new());
    assert_eq!(parse_ignores("\n\n"), Vec::<String>::new());
    assert_eq!(parse_ignores("x\r\ny"), strings(&["x\r", "y"]));
}

#[test]
fn stored_list_reads_back() {
    let items = strings(&["https://a.example", "https://b.example/x?y=1"]);
    let text = format_lines(&items);
    assert_eq!(text, "https://a.example\nhttps://b.example/x?y=1\n");
    assert_eq!(parse_ignores(&text), items);
    assert_eq!(format_lines(&Vec::new()), "");
}

#[test]
fn decimal_digits() {
    let mut s = "id=".to_string();
    push_decimal(&mut s, 0);
    assert_eq!(s, "id=0");
    let mut s = String::new();
    push_decimal(&mut s, u64::MAX);
    assert_eq!(s, u64::MAX.to_string());
    let mut s = String::new();
    push_decimal(&mut s, 1090);
    assert_eq!(s, "1090");
}
