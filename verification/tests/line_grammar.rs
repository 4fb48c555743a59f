use ges_mapreleaser::directory_index::{DirectoryCache, DirectoryListing};
use ges_mapreleaser::line_grammar::{parse_line, tokenize, TokenKind};
use ges_mapreleaser::reslist_builder::{generate_directory_tree, reconcile_reslist};
use ges_mapreleaser::text::{parse_whole_number, to_chars};

fn parts(line: &str) -> (bool, bool, bool, Option<String>, Option<String>) {
    let parsed = parse_line(line).unwrap();
    (parsed.comment, parsed.opens, parsed.closes, parsed.identifier, parsed.value)
}

fn text(word: &str) -> Option<String> {
    Some(String::from(word))
}

#[test]
fn line_is_taken_apart() {
    assert_eq!(parts("BaseWeight\t700\r"), (false, false, false, text("BaseWeight"), text("700")));
    assert_eq!(parts("  name  "), (false, false, false, text("name"), None));
    assert_eq!(parts(""), (false, false, false, None, None));
    assert_eq!(parts(" \t "), (false, false, false, None, None));
    assert_eq!(parts("{"), (false, true, false, None, None));
    assert_eq!(parts("}"), (false, false, true, None, None));
    assert_eq!(parts("name { a b }"), (false, true, true, text("name"), text("a")));
    assert_eq!(parts("slappers 0}"), (false, false, true, text("slappers"), text("0")));
    assert_eq!(
        parts("\"file\" \"music/my track.mp3\""),
        (false, false, false, text("file"), text("music/my track.mp3"))
    );
    assert_eq!(parts("\"\" x"), (false, false, false, text(""), text("x")));
    assert_eq!(parts("a b c d"), (false, false, false, text("a"), text("b")));
    assert_eq!(parts("a\u{2003}b"), (false, false, false, text("a"), text("b")));
}

#[test]
fn comment_line_holds_nothing_else() {
    assert_eq!(parts("// BaseWeight 700 { }"), (true, false, false, None, None));
    assert_eq!(parts("//"), (true, false, false, None, None));
    assert_eq!(parts("//\"never closed"), (true, false, false, None, None));
    assert_eq!(parts(" // not in the first column"), (false, false, false, text("//"), text("not")));
    assert_eq!(parts("/ /"), (false, false, false, text("/"), text("/")));
}

#[test]
fn unterminated_quote_is_a_fault() {
    assert!(parse_line("file \"music/spy.mp3").is_none());
    assert!(parse_line("\"").is_none());
    assert!(parse_line("a \"b\" \"").is_none());
    assert!(parse_line("\"a { b\"").is_none());
    assert!(parse_line("\"a\" \"b\"").is_some());
}

#[test]
fn text_is_cut_into_tokens() {
    let text = to_chars("music{ \"a b\"\tfile}x");
    let tokens = tokenize(&text).unwrap();
    let seen: Vec<(TokenKind, String, bool)> = tokens
        .iter()
        .map(|token| (token.kind, text[token.start..token.end].iter().collect(), token.spaced))
        .collect();
    assert_eq!(
        seen,
        vec![
            (TokenKind::Bare, String::from("music"), false),
            (TokenKind::Open, String::from("{"), false),
            (TokenKind::Quoted, String::from("a b"), true),
            (TokenKind::Bare, String::from("file"), true),
            (TokenKind::Close, String::from("}"), false),
            (TokenKind::Bare, String::from("x"), false),
        ]
    );
    assert!(tokenize(&to_chars("")).unwrap().is_empty());
    assert!(tokenize(&to_chars(" \r\n\t")).unwrap().is_empty());
    assert!(tokenize(&to_chars("\"open")).is_none());
}

#[test]
fn whole_numbers_are_read_as_the_standard_library_reads_them() {
    for sample in [
        "0", "-0", "+0", "1", "-1", "+1", "12", "0012", "2147483647", "2147483648", "-2147483648",
        "-2147483649", "99999999999999999999", "", "-", "+", "--1", "1-", "1 ", " 1", "1e3", "0x10",
        "１２", "1,000",
    ] {
        assert_eq!(parse_whole_number(&to_chars(sample)), sample.parse::<i32>().ok(), "{:?}", sample);
    }
    let mut number: i64 = -70000;
    while number <= 70000 {
        let written = number.to_string();
        assert_eq!(parse_whole_number(&to_chars(&written)), Some(number as i32));
        number += 7;
    }
}

#[test]
fn reslist_is_held_against_the_release_in_both_directions() {
    let listing = DirectoryListing {
        root: String::from("release"),
        files: vec![
            String::from("release/a.txt"),
            String::from("release/b.txt"),
            String::from("release/c.txt"),
        ],
    };
    let mut cache = DirectoryCache::new();
    let snapshot = generate_directory_tree(&listing, &mut cache);

    let ready = reconcile_reslist("resources { a.txt file B.TXT file c.txt file }", snapshot).unwrap();
    assert!(ready.absent.is_empty() && ready.undeclared.is_empty() && ready.repeated.is_empty());

    let flawed = reconcile_reslist(
        "resources { x.txt file a.txt file A.txt file y.txt file x.txt file a.txt file }",
        snapshot,
    )
    .unwrap();
    assert_eq!(flawed.absent, vec!["x.txt", "y.txt"]);
    assert_eq!(flawed.undeclared, vec!["b.txt", "c.txt"]);
    assert_eq!(flawed.repeated, vec!["a.txt", "x.txt"]);

    assert!(reconcile_reslist("resources { }", snapshot).is_none());
    assert!(reconcile_reslist("resources { \"a.txt file }", snapshot).is_none());
}
