use martini::lexer::{lex, Lexer, Token};
use martini::text::{chars_of, is_ascii_alphanumeric, is_whitespace};
use martini::{Config, Delimiter};

fn lines(text: &[&str]) -> Vec<String> {
    text.iter().map(|line| line.to_string()).collect()
}

fn name(text: &str) -> Token {
    Token::Name(text.to_string())
}

fn with_delimiter(delimiter: Delimiter) -> Lexer {
    Lexer::new(Config { delimiter, ..Config::default() })
}

#[test]
fn test_comment_token_semicolon() {
    let comment_character = vec!["; test comment".to_string()];
    let lexed_token = lex(&comment_character);

    assert_eq!(lexed_token.get(0), Some(&Token::Comment("test comment".to_string())));
}

#[test]
fn test_mapsto_equals_token() {
    let maps_to_character = vec!["=".to_string()];
    let lexed_token = lex(&maps_to_character);

    assert!(lexed_token.is_empty());
}

#[test]
fn test_section_token() {
    let section_string = vec!["[test_section]".to_string()];
    let lexed_token = lex(&section_string);

    assert_eq!(lexed_token.get(0), Some(&Token::Section("test_section".to_string())));
}

#[test]
fn test_name_tokens_for_property() {
    let property_string = vec!["key=value".to_string()];
    let lexed_token = lex(&property_string);

    assert_eq!(lexed_token.get(0), Some(&Token::Name("key".to_string())));
    assert_eq!(lexed_token.get(2), Some(&Token::Name("value".to_string())));
}

#[test]
fn test_that_newline_returns_no_token() {
    let property_string = vec!["\n".to_string()];
    let lexed_token = lex(&property_string);

    assert!(lexed_token.is_empty());
}

#[test]
fn test_invalid_token() {
    let property_string = vec!["`[section]`".to_string()];
    let lexed_token = lex(&property_string);

    assert!(lexed_token.is_empty());
}

#[test]
fn property_line_gives_key_delimiter_value() {
    assert_eq!(lex(&lines(&["key=value"])), vec![name("key"), Token::MapsTo, name("value")]);
}

#[test]
fn empty_line_gives_no_token() {
    assert!(lex(&lines(&[""])).is_empty());
    assert!(lex(&lines(&[])).is_empty());
}

#[test]
fn stray_delimiter_is_passed_over() {
    assert!(lex(&lines(&["="])).is_empty());
    assert!(lex(&lines(&["=value"])).is_empty());
    assert!(with_delimiter(Delimiter::Colon).lex_lines(&lines(&[":"])).is_empty());
    assert!(with_delimiter(Delimiter::Space).lex_lines(&lines(&[" "])).is_empty());
}

#[test]
fn stray_close_marker_is_passed_over() {
    assert!(lex(&lines(&["]"])).is_empty());
    assert!(lex(&lines(&["]name["])).is_empty());
}

#[test]
fn line_without_delimiter_is_passed_over() {
    assert!(lex(&lines(&["justakey"])).is_empty());
    assert!(lex(&lines(&["key:value"])).is_empty());
}

#[test]
fn line_must_begin_with_letter_or_digit() {
    assert!(lex(&lines(&[" key=value"])).is_empty());
    assert!(lex(&lines(&["_key=value"])).is_empty());
    assert!(lex(&lines(&["\u{e9}t\u{e9}=1"])).is_empty());
    assert_eq!(lex(&lines(&["9=x"])), vec![name("9"), Token::MapsTo, name("x")]);
    assert_eq!(lex(&lines(&["Z=x"])), vec![name("Z"), Token::MapsTo, name("x")]);
}

#[test]
fn property_is_split_at_first_delimiter() {
    assert_eq!(lex(&lines(&["a=b=c"])), vec![name("a"), Token::MapsTo, name("b=c")]);
    assert_eq!(lex(&lines(&["a=="])), vec![name("a"), Token::MapsTo, name("=")]);
}

#[test]
fn key_and_value_are_trimmed() {
    assert_eq!(
        lex(&lines(&["key \t =  some value  "])),
        vec![name("key"), Token::MapsTo, name("some value")]
    );
}

#[test]
fn blank_value_gives_empty_name() {
    assert_eq!(lex(&lines(&["key="])), vec![name("key"), Token::MapsTo, name("")]);
    assert_eq!(lex(&lines(&["key=   "])), vec![name("key"), Token::MapsTo, name("")]);
}

#[test]
fn quotes_are_stripped_from_value() {
    assert_eq!(
        lex(&lines(&["path=\"/tmp/x\""])),
        vec![name("path"), Token::MapsTo, name("/tmp/x")]
    );
    assert_eq!(lex(&lines(&["a=x\"y\"z"])), vec![name("a"), Token::MapsTo, name("xyz")]);
}

#[test]
fn value_is_trimmed_before_quotes_are_stripped() {
    assert_eq!(lex(&lines(&["a= \" x \" "])), vec![name("a"), Token::MapsTo, name(" x ")]);
}

#[test]
fn key_keeps_its_quotes() {
    assert_eq!(lex(&lines(&["a\"b\"=1"])), vec![name("a\"b\""), Token::MapsTo, name("1")]);
}

#[test]
fn quotes_are_stripped_from_section_name() {
    assert_eq!(lex(&lines(&["[ \"server\" ]"])), vec![Token::Section("server".to_string())]);
    assert_eq!(lex(&lines(&["[\"a b\"]"])), vec![Token::Section("a b".to_string())]);
}

#[test]
fn section_name_is_stripped_of_quotes_then_trimmed() {
    assert_eq!(lex(&lines(&["[\" x \"]"])), vec![Token::Section("x".to_string())]);
}

#[test]
fn section_name_ends_at_first_close_marker() {
    assert_eq!(lex(&lines(&["[a]b]"])), vec![Token::Section("a".to_string())]);
    assert_eq!(lex(&lines(&["[a] ; not a comment"])), vec![Token::Section("a".to_string())]);
}

#[test]
fn section_without_close_marker_runs_to_line_end() {
    assert_eq!(lex(&lines(&["[abc"])), vec![Token::Section("abc".to_string())]);
}

#[test]
fn section_without_name_gives_empty_name() {
    assert_eq!(lex(&lines(&["[]"])), vec![Token::Section(String::new())]);
    assert_eq!(lex(&lines(&["["])), vec![Token::Section(String::new())]);
    assert_eq!(lex(&lines(&["[ \"\" ]"])), vec![Token::Section(String::new())]);
}

#[test]
fn dotted_section_name_is_kept_whole() {
    assert_eq!(lex(&lines(&["[db.pool]"])), vec![Token::Section("db.pool".to_string())]);
}

#[test]
fn comment_is_trimmed() {
    assert_eq!(lex(&lines(&[";   spaced out \t"])), vec![Token::Comment("spaced out".to_string())]);
    assert_eq!(lex(&lines(&[";"])), vec![Token::Comment(String::new())]);
    assert_eq!(lex(&lines(&[";;x"])), vec![Token::Comment(";x".to_string())]);
}

#[test]
fn hash_opens_comment_only_where_enabled() {
    assert!(lex(&lines(&["# note"])).is_empty());
    let lexer = Lexer::new(Config { hash_comments: true, ..Config::default() });
    assert_eq!(lexer.lex_lines(&lines(&["# note"])), vec![Token::Comment("note".to_string())]);
    assert_eq!(lexer.lex_lines(&lines(&["; note"])), vec![Token::Comment("note".to_string())]);
}

#[test]
fn space_delimiter() {
    let lexer = with_delimiter(Delimiter::Space);
    assert_eq!(
        lexer.lex_lines(&lines(&["key value more"])),
        vec![name("key"), Token::MapsTo, name("value more")]
    );
    assert!(lexer.lex_lines(&lines(&["key=value"])).is_empty());
}

#[test]
fn colon_delimiter() {
    let lexer = with_delimiter(Delimiter::Colon);
    assert_eq!(
        lexer.lex_lines(&lines(&["key: value=1"])),
        vec![name("key"), Token::MapsTo, name("value=1")]
    );
    assert!(lexer.lex_lines(&lines(&["key=value"])).is_empty());
}

#[test]
fn delimiter_characters() {
    assert_eq!(Delimiter::Equals.character(), '=');
    assert_eq!(Delimiter::Space.character(), ' ');
    assert_eq!(Delimiter::Colon.character(), ':');
}

#[test]
fn tokens_come_in_the_order_of_the_lines() {
    let text = lines(&["; first", "[s]", "", "a=1", "???", "b=2", "; last"]);
    assert_eq!(
        lex(&text),
        vec![
            Token::Comment("first".to_string()),
            Token::Section("s".to_string()),
            name("a"),
            Token::MapsTo,
            name("1"),
            name("b"),
            Token::MapsTo,
            name("2"),
            Token::Comment("last".to_string()),
        ]
    );
}

#[test]
fn lines_are_tokenized_independently() {
    let first = lines(&["[a]", "x=1"]);
    let second = lines(&["; c", "y=\"2\""]);
    let mut both = first.clone();
    both.extend(second.clone());
    let mut expected = lex(&first);
    expected.extend(lex(&second));
    assert_eq!(lex(&both), expected);
}

#[test]
fn lex_line_appends() {
    let lexer = Lexer::new(Config::default());
    let mut tokens = vec![Token::MapsTo];
    lexer.lex_line("[s]", &mut tokens);
    lexer.lex_line("nothing here", &mut tokens);
    lexer.lex_line("k=v", &mut tokens);
    assert_eq!(
        tokens,
        vec![Token::MapsTo, Token::Section("s".to_string()), name("k"), Token::MapsTo, name("v")]
    );
}

#[test]
fn lex_is_lexer_with_default_config() {
    let text = lines(&["; c", "[s]", "a = 1", "# x", "b:2"]);
    assert_eq!(lex(&text), Lexer::new(Config::default()).lex_lines(&text));
}

#[test]
fn whitespace_is_unicode_white_space() {
    let mut c = 0u32;
    while c <= 0x10ffff {
        if let Some(ch) = char::from_u32(c) {
            assert_eq!(is_whitespace(ch), ch.is_whitespace(), "U+{:04X}", c);
        }
        c += 1;
    }
}

#[test]
fn alphanumeric_is_ascii_letter_or_digit() {
    let mut c = 0u32;
    while c <= 0x10ffff {
        if let Some(ch) = char::from_u32(c) {
            assert_eq!(is_ascii_alphanumeric(ch), ch.is_ascii_alphanumeric(), "U+{:04X}", c);
        }
        c += 1;
    }
}

#[test]
fn chars_of_spreads_a_text() {
    assert_eq!(chars_of("a\u{e9}\u{1f600}b"), vec!['a', '\u{e9}', '\u{1f600}', 'b']);
    assert!(chars_of("").is_empty());
}

#[test]
fn comment_body_is_trimmed_as_std_trims() {
    let samples = [
        "",
        " ",
        "x",
        " x",
        "x ",
        "\t x y \r\n",
        "\u{a0}x\u{3000}",
        "\u{2003}\u{2028}wide\u{205f}",
        "   ",
        "\u{200b}zero width\u{200b}",
        " a  b ",
        "\u{85}next line\u{1680}",
        "\u{feff}bom ",
    ];
    for sample in samples {
        let line = format!(";{}", sample);
        assert_eq!(lex(&vec![line]), vec![Token::Comment(sample.trim().to_string())]);
    }
}

#[test]
fn value_is_trimmed_and_unquoted_as_std_does() {
    let samples = ["v", " v ", "\"v\"", " \" v\" ", "\"\"", "a\"b\"c", "\t\"x y\"\u{a0}", "\" \""];
    for sample in samples {
        let line = format!("k={}", sample);
        let expected = sample.trim().replace('"', "");
        assert_eq!(lex(&vec![line]), vec![name("k"), Token::MapsTo, name(&expected)]);
    }
}

#[test]
fn section_name_is_unquoted_and_trimmed_as_std_does() {
    let samples = ["s", " s ", "\"s\"", " \" s\" ", "a.b", "\"a\" \"b\"", ""];
    for sample in samples {
        let line = format!("[{}]", sample);
        let expected = sample.replace('"', "").trim().to_string();
        assert_eq!(lex(&vec![line]), vec![Token::Section(expected)]);
    }
}

#[test]
fn non_ascii_text_is_kept() {
    assert_eq!(
        lex(&lines(&["k=\u{e9}t\u{e9} \u{1f600}", "[\u{4e2d}\u{6587}]", "; \u{3b1}\u{3b2}"])),
        vec![
            name("k"),
            Token::MapsTo,
            name("\u{e9}t\u{e9} \u{1f600}"),
            Token::Section("\u{4e2d}\u{6587}".to_string()),
            Token::Comment("\u{3b1}\u{3b2}".to_string()),
        ]
    );
}
