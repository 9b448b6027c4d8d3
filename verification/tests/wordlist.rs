use dirprobe::wordlist::parse_wordlist;

fn texts(input: &str) -> Vec<String> {
    parse_wordlist(input).iter().map(|c| c.as_str().to_string()).collect()
}

#[test]
fn parse_splits_trims_and_filters() {
    let got = texts("admin\n login \n\n   \nsecret\r\n");
    assert_eq!(got, vec!["admin".to_string(), "login".to_string(), "secret".to_string()]);
}

#[test]
fn parse_empty_input_gives_no_candidates() {
    assert_eq!(texts(""), Vec::<String>::new());
    assert_eq!(texts("\n\n\n"), Vec::<String>::new());
    assert_eq!(texts("   \t  "), Vec::<String>::new());
}

#[test]
fn parse_single_line_without_newline() {
    assert_eq!(texts("one"), vec!["one".to_string()]);
    assert_eq!(texts("  one  "), vec!["one".to_string()]);
}

#[test]
fn parse_keeps_inner_spaces_and_order() {
    let got = texts("a b\n/login\nz");
    assert_eq!(got, vec!["a b".to_string(), "/login".to_string(), "z".to_string()]);
}
