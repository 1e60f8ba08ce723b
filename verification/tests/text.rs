use conn_manager::text::replace_or_insert_before;

fn run(replace: &str, with: &str, before: &str, content: &str) -> String {
    let mut page = content.to_string();
    replace_or_insert_before(replace, with, before, &mut page);
    page
}

#[test]
fn the_marker_is_replaced_where_it_stands() {
    assert_eq!(
        run("{style_include}", "<link>", "</head", "<head>{style_include}</head>"),
        "<head><link></head>"
    );
}

#[test]
fn every_marker_is_replaced() {
    assert_eq!(run("{t}", "X", "</title", "{t}-{t}</title>"), "X-X</title>");
}

#[test]
fn without_the_marker_the_text_goes_before_the_anchor() {
    assert_eq!(
        run("{script_include}", "<script></script>\n", "</body", "<body><p>hi</p></body>"),
        "<body><p>hi</p><script></script>\n</body>"
    );
}

#[test]
fn without_marker_and_anchor_nothing_changes() {
    assert_eq!(run("{a}", "X", "</b", "plain text"), "plain text");
    assert_eq!(run("{a}", "X", "</b", ""), "");
}

#[test]
fn the_text_goes_before_every_anchor() {
    assert_eq!(run("{a}", "X", "|", "1|2|3"), "1X|2X|3");
}

#[test]
fn matches_are_taken_from_the_left_without_overlap() {
    assert_eq!(run("aa", "b", "z", "aaa"), "ba");
    assert_eq!(run("aba", "-", "z", "ababa"), "-ba");
    assert_eq!(run("q", "", "aa", "aaaa"), "aaaa");
    assert_eq!(run("q", "+", "aa", "aaaaa"), "+aa+aaa");
}

#[test]
fn an_empty_marker_stands_before_every_character() {
    assert_eq!(run("", "-", "x", "abc"), "-a-b-c-");
    assert_eq!(run("", "-", "x", ""), "-");
    assert_eq!(run("", "-", "x", "\u{e9}\u{1F600}"), "-\u{e9}-\u{1F600}-");
}

#[test]
fn an_empty_anchor_takes_the_text_at_every_place() {
    assert_eq!(run("{a}", "+", "", "ab"), "+a+b+");
}

#[test]
fn the_replacement_is_not_read_again() {
    assert_eq!(run("a", "aa", "z", "aba"), "aabaa");
    assert_eq!(run("{x}", "</head", "</head", "{x}</head>"), "</head</head>");
}
