use martini::{
    get_all_comments, get_all_sections, get_property, lex, parse, Config, Delimiter, INIContext,
    INIValueType, Lexer, ParseError, ParseStrategy, Property, Section, Token, INI,
};

fn lines(text: &[&str]) -> Vec<String> {
    text.iter().map(|line| line.to_string()).collect()
}

fn read(config: Config, text: &[&str]) -> Result<INI, ParseError> {
    INI::parse_ini_with(config, lines(text))
}

fn with_policy(duplicate_policy: ParseStrategy) -> Config {
    Config { duplicate_policy, ..Config::default() }
}

fn nesting() -> Config {
    Config { enable_subsections: true, ..Config::default() }
}

fn integer(n: i64) -> INIValueType {
    INIValueType::INIInteger(n)
}

fn string(text: &str) -> INIValueType {
    INIValueType::INIString(text.to_string())
}

fn float(text: &str) -> INIValueType {
    INIValueType::INIFloat(text.to_string())
}

/// The keys and values of a section, in order.
fn pairs(section: &Section) -> Vec<(String, INIValueType)> {
    let mut all = Vec::new();
    for property in section.properties() {
        let value = match property.value().unwrap() {
            INIValueType::INIString(text) => INIValueType::INIString(text.clone()),
            INIValueType::INIInteger(n) => INIValueType::INIInteger(*n),
            INIValueType::INIFloat(text) => INIValueType::INIFloat(text.clone()),
        };
        all.push((property.key().clone(), value));
    }
    all
}

fn names(sections: &Vec<Section>) -> Vec<String> {
    sections.iter().map(|section| section.name().clone()).collect()
}

fn pair(key: &str, value: INIValueType) -> (String, INIValueType) {
    (key.to_string(), value)
}

#[test]
fn only_comments_give_no_section() {
    let ini = read(Config::default(), &["; one", ";two  ", ";   three"]).unwrap();
    assert!(ini.sections().is_empty());
    assert_eq!(ini.comments(), &lines(&["one", "two", "three"]));
}

#[test]
fn empty_comment_is_not_kept() {
    let ini = read(Config::default(), &["; one", ";", ";   ", "; two"]).unwrap();
    assert!(ini.sections().is_empty());
    assert_eq!(ini.comments(), &lines(&["one", "two"]));
}

#[test]
fn no_lines_give_the_empty_document() {
    let ini = read(Config::default(), &[]).unwrap();
    assert!(ini.sections().is_empty());
    assert!(ini.comments().is_empty());
    assert!(ini.content().is_empty());
}

#[test]
fn global_section_is_not_made_without_a_global_property() {
    let config = Config { allow_global_properties: true, ..Config::default() };
    let ini = read(config, &["; only a comment"]).unwrap();
    assert!(ini.sections().is_empty());
    let ini = read(config, &["[s]", "a=1"]).unwrap();
    assert_eq!(names(ini.sections()), vec!["s"]);
}

#[test]
fn plain_section_holds_what_its_lines_declare() {
    let text = ["[ main ]", "a = 1", "b=2.50", "c = \"three\" ", "9d=-4"];
    for policy in [
        ParseStrategy::IgnoreDuplicates,
        ParseStrategy::OverwriteDuplicates,
        ParseStrategy::AllowDuplicates,
    ] {
        let ini = read(with_policy(policy), &text).unwrap();
        assert_eq!(names(ini.sections()), vec!["main"]);
        assert!(ini.comments().is_empty());
        assert!(ini.sections()[0].children().is_empty());
        assert_eq!(
            pairs(&ini.sections()[0]),
            vec![
                pair("a", integer(1)),
                pair("b", float("2.50")),
                pair("c", string("three")),
                pair("9d", integer(-4)),
            ]
        );
    }
}

#[test]
fn integer_values() {
    let ini = read(Config::default(), &["[s]", "count=42", "count2=007"]).unwrap();
    assert_eq!(
        pairs(&ini.sections()[0]),
        vec![pair("count", integer(42)), pair("count2", integer(7))]
    );
}

#[test]
fn float_and_string_values() {
    let ini = read(Config::default(), &["[s]", "ratio=0.5", "name=bob"]).unwrap();
    assert_eq!(
        pairs(&ini.sections()[0]),
        vec![pair("ratio", float("0.5")), pair("name", string("bob"))]
    );
    match ini.sections()[0].properties()[0].value().unwrap() {
        INIValueType::INIFloat(literal) => assert_eq!(literal.parse::<f64>().unwrap(), 0.5),
        other => panic!("not a float: {:?}", other),
    }
}

#[test]
fn quoted_number_is_a_number() {
    let ini = read(Config::default(), &["[s]", "n=\"007\"", "x=\"1.5\""]).unwrap();
    assert_eq!(pairs(&ini.sections()[0]), vec![pair("n", integer(7)), pair("x", float("1.5"))]);
}

#[test]
fn quotes_are_stripped() {
    let ini = read(Config::default(), &["[ \"server\" ]", "path=\"/tmp/x\""]).unwrap();
    assert_eq!(names(ini.sections()), vec!["server"]);
    assert_eq!(pairs(&ini.sections()[0]), vec![pair("path", string("/tmp/x"))]);
}

#[test]
fn duplicate_key_is_overwritten() {
    let config = with_policy(ParseStrategy::OverwriteDuplicates);
    let ini = read(config, &["[s]", "a=1", "a=2"]).unwrap();
    assert_eq!(names(ini.sections()), vec!["s"]);
    assert_eq!(pairs(&ini.sections()[0]), vec![pair("a", integer(2))]);
}

#[test]
fn duplicate_key_is_allowed() {
    let ini = read(with_policy(ParseStrategy::AllowDuplicates), &["[s]", "a=1", "a=2"]).unwrap();
    assert_eq!(names(ini.sections()), vec!["s"]);
    assert_eq!(pairs(&ini.sections()[0]), vec![pair("a", integer(1)), pair("a", integer(2))]);
}

#[test]
fn duplicate_key_is_ignored() {
    let ini = read(with_policy(ParseStrategy::IgnoreDuplicates), &["[s]", "a=1", "a=2"]).unwrap();
    assert_eq!(names(ini.sections()), vec!["s"]);
    assert_eq!(pairs(&ini.sections()[0]), vec![pair("a", integer(1))]);
}

#[test]
fn ignored_duplicate_takes_its_value_with_it() {
    let ini = read(
        with_policy(ParseStrategy::IgnoreDuplicates),
        &["[s]", "a=1", "a=b", "b=3", "a=", "c=4"],
    )
    .unwrap();
    assert_eq!(
        pairs(&ini.sections()[0]),
        vec![pair("a", integer(1)), pair("b", integer(3)), pair("c", integer(4))]
    );
}

#[test]
fn overwritten_property_moves_to_the_end() {
    let ini = read(
        with_policy(ParseStrategy::OverwriteDuplicates),
        &["[s]", "a=1", "b=2", "c=3", "b=x", "a=9"],
    )
    .unwrap();
    assert_eq!(
        pairs(&ini.sections()[0]),
        vec![pair("c", integer(3)), pair("b", string("x")), pair("a", integer(9))]
    );
}

#[test]
fn seen_keys_start_anew_with_each_section() {
    for policy in [
        ParseStrategy::IgnoreDuplicates,
        ParseStrategy::OverwriteDuplicates,
        ParseStrategy::AllowDuplicates,
    ] {
        let ini = read(with_policy(policy), &["[s]", "a=1", "[t]", "a=2"]).unwrap();
        assert_eq!(names(ini.sections()), vec!["s", "t"]);
        assert_eq!(pairs(&ini.sections()[0]), vec![pair("a", integer(1))]);
        assert_eq!(pairs(&ini.sections()[1]), vec![pair("a", integer(2))]);
    }
}

#[test]
fn default_policy_allows_duplicates() {
    let ini = INI::parse_ini(lines(&["[s]", "a=1", "a=2"])).unwrap();
    assert_eq!(ini.config().duplicate_policy, ParseStrategy::AllowDuplicates);
    assert_eq!(pairs(&ini.sections()[0]), vec![pair("a", integer(1)), pair("a", integer(2))]);
}

#[test]
fn sections_follow_the_headers() {
    let text = ["[b]", "k=1", "; c", "[a]", "[b]", "not a line", "[a.b]", "k=2", "[ \"c\" ]"];
    let ini = read(Config::default(), &text).unwrap();
    assert_eq!(names(ini.sections()), vec!["b", "a", "b", "a.b", "c"]);
    for section in ini.sections() {
        assert!(section.children().is_empty());
    }
}

#[test]
fn sections_with_one_name_stay_apart() {
    let ini = read(Config::default(), &["[s]", "a=1", "[s]", "b=2"]).unwrap();
    assert_eq!(names(ini.sections()), vec!["s", "s"]);
    assert_eq!(pairs(&ini.sections()[0]), vec![pair("a", integer(1))]);
    assert_eq!(pairs(&ini.sections()[1]), vec![pair("b", integer(2))]);
}

#[test]
fn dotted_section_is_nested_where_enabled() {
    let ini = read(nesting(), &["[db]", "host=x", "[db.pool]", "size=5"]).unwrap();
    assert_eq!(names(ini.sections()), vec!["db"]);
    let db = &ini.sections()[0];
    assert_eq!(pairs(db), vec![pair("host", string("x"))]);
    assert_eq!(names(db.children()), vec!["pool"]);
    let pool = &db.children()[0];
    assert_eq!(pairs(pool), vec![pair("size", integer(5))]);
    assert!(pool.children().is_empty());
}

#[test]
fn dotted_section_is_independent_where_disabled() {
    let ini = read(Config::default(), &["[db]", "host=x", "[db.pool]", "size=5"]).unwrap();
    assert_eq!(names(ini.sections()), vec!["db", "db.pool"]);
    assert_eq!(pairs(&ini.sections()[0]), vec![pair("host", string("x"))]);
    assert!(ini.sections()[0].children().is_empty());
    assert_eq!(pairs(&ini.sections()[1]), vec![pair("size", integer(5))]);
    assert!(ini.sections()[1].children().is_empty());
}

#[test]
fn children_gather_under_the_last_top_level_section() {
    let ini = read(
        nesting(),
        &["[a]", "[a.x]", "k=1", "[a.y]", "[b]", "k=2", "[b.z.w]", "k=3", "[c]"],
    )
    .unwrap();
    assert_eq!(names(ini.sections()), vec!["a", "b", "c"]);
    assert_eq!(names(ini.sections()[0].children()), vec!["x", "y"]);
    assert_eq!(pairs(&ini.sections()[0].children()[0]), vec![pair("k", integer(1))]);
    assert!(ini.sections()[0].children()[1].properties().is_empty());
    assert_eq!(names(ini.sections()[1].children()), vec!["z.w"]);
    assert_eq!(pairs(&ini.sections()[1]), vec![pair("k", integer(2))]);
    assert_eq!(pairs(&ini.sections()[1].children()[0]), vec![pair("k", integer(3))]);
    assert!(ini.sections()[2].children().is_empty());
}

#[test]
fn dotted_section_without_a_parent_stands_at_top_level() {
    let ini = read(nesting(), &["[a.b]", "k=1", "[a.c]"]).unwrap();
    assert_eq!(names(ini.sections()), vec!["a.b"]);
    assert_eq!(names(ini.sections()[0].children()), vec!["c"]);
    assert_eq!(pairs(&ini.sections()[0]), vec![pair("k", integer(1))]);
}

#[test]
fn dotted_header_with_nothing_after_the_separator_keeps_its_whole_name() {
    let ini = read(nesting(), &["[a]", "[a.]", "k=1", "[.]", "[b.c]"]).unwrap();
    assert_eq!(names(ini.sections()), vec!["a"]);
    assert_eq!(names(ini.sections()[0].children()), vec!["a.", ".", "c"]);
    assert_eq!(pairs(&ini.sections()[0].children()[0]), vec![pair("k", integer(1))]);
    let flat = read(Config::default(), &["[a]", "[a.]", "[.]"]).unwrap();
    assert_eq!(names(flat.sections()), vec!["a", "a.", "."]);
}

#[test]
fn only_a_header_without_a_name_is_malformed() {
    let mut ini = INI::new(Vec::new(), nesting());
    let tokens = vec![Token::Section("a".to_string()), Token::Section("a.".to_string())];
    assert_eq!(parse(&mut ini, tokens), Ok(()));
    let tokens = vec![Token::Section("a".to_string()), Token::Section(String::new())];
    assert_eq!(parse(&mut ini, tokens), Err(ParseError::MalformedSection));
    assert_eq!(read(nesting(), &["[a]", "[]"]).err(), Some(ParseError::MalformedSection));
    let lone = read(nesting(), &["[.]"]).unwrap();
    assert_eq!(names(lone.sections()), vec!["."]);
}

#[test]
fn section_without_a_name_is_malformed() {
    assert_eq!(read(Config::default(), &["[]"]).err(), Some(ParseError::MalformedSection));
    assert_eq!(
        read(Config::default(), &["[s]", "a=1", "[ ]"]).err(),
        Some(ParseError::MalformedSection)
    );
    assert_eq!(read(Config::default(), &["[\"\"]"]).err(), Some(ParseError::MalformedSection));
}

#[test]
fn global_property_is_refused_where_disabled() {
    assert_eq!(
        read(Config::default(), &["a=1", "[s]"]).err(),
        Some(ParseError::DisallowedGlobalProperty)
    );
    assert_eq!(
        read(Config::default(), &["; note", "", "a=1"]).err(),
        Some(ParseError::DisallowedGlobalProperty)
    );
}

#[test]
fn global_property_is_absorbed_where_enabled() {
    let config = Config { allow_global_properties: true, ..Config::default() };
    let ini = read(config, &["; note", "a=1", "b=two", "[s]", "c=3"]).unwrap();
    assert_eq!(names(ini.sections()), vec!["martini_global", "s"]);
    assert_eq!(pairs(&ini.sections()[0]), vec![pair("a", integer(1)), pair("b", string("two"))]);
    assert_eq!(pairs(&ini.sections()[1]), vec![pair("c", integer(3))]);
    assert_eq!(ini.comments(), &lines(&["note"]));
}

#[test]
fn blank_value_is_refused_where_disabled() {
    assert_eq!(
        read(Config::default(), &["[s]", "key="]).err(),
        Some(ParseError::DisallowedBlankValue)
    );
    assert_eq!(
        read(Config::default(), &["[s]", "key= \"\" "]).err(),
        Some(ParseError::DisallowedBlankValue)
    );
}

#[test]
fn blank_value_is_the_empty_string_where_enabled() {
    let config = Config { allow_blank_values: true, ..Config::default() };
    let ini = read(config, &["[s]", "key=", "other=1"]).unwrap();
    assert_eq!(pairs(&ini.sections()[0]), vec![pair("key", string("")), pair("other", integer(1))]);
}

#[test]
fn key_without_value_is_dangling() {
    let mut ini = INI::new(Vec::new(), Config::default());
    let tokens = vec![Token::Section("s".to_string()), Token::Name("a".to_string())];
    assert_eq!(parse(&mut ini, tokens), Err(ParseError::DanglingProperty));
    let tokens =
        vec![Token::Section("s".to_string()), Token::Name("a".to_string()), Token::MapsTo];
    assert_eq!(parse(&mut ini, tokens), Err(ParseError::DanglingProperty));
}

#[test]
fn ignored_key_without_value_is_dangling() {
    let mut ini = INI::new(Vec::new(), with_policy(ParseStrategy::IgnoreDuplicates));
    let tokens = vec![
        Token::Section("s".to_string()),
        Token::Name("a".to_string()),
        Token::MapsTo,
        Token::Name("1".to_string()),
        Token::Name("a".to_string()),
    ];
    assert_eq!(parse(&mut ini, tokens), Err(ParseError::DanglingProperty));
}

#[test]
fn first_error_wins() {
    assert_eq!(
        read(Config::default(), &["[s]", "a=", "[]"]).err(),
        Some(ParseError::DisallowedBlankValue)
    );
    assert_eq!(
        read(Config::default(), &["[]", "[s]", "a="]).err(),
        Some(ParseError::MalformedSection)
    );
    assert_eq!(
        read(Config::default(), &["a=", "[]"]).err(),
        Some(ParseError::DisallowedGlobalProperty)
    );
}

#[test]
fn maps_to_changes_nothing() {
    let mut with = INI::new(Vec::new(), Config::default());
    let mut without = INI::new(Vec::new(), Config::default());
    let tokens = vec![
        Token::MapsTo,
        Token::Section("s".to_string()),
        Token::MapsTo,
        Token::Name("a".to_string()),
        Token::MapsTo,
        Token::MapsTo,
        Token::Name("1".to_string()),
        Token::MapsTo,
    ];
    let bare = vec![
        Token::Section("s".to_string()),
        Token::Name("a".to_string()),
        Token::Name("1".to_string()),
    ];
    assert_eq!(parse(&mut with, tokens), Ok(()));
    assert_eq!(parse(&mut without, bare), Ok(()));
    assert_eq!(with, without);
    assert_eq!(pairs(&with.sections()[0]), vec![pair("a", integer(1))]);
}

#[test]
fn comment_between_key_and_value_is_kept_apart() {
    let mut ini = INI::new(Vec::new(), Config::default());
    let tokens = vec![
        Token::Section("s".to_string()),
        Token::Name("a".to_string()),
        Token::Comment("aside".to_string()),
        Token::Name("1".to_string()),
    ];
    assert_eq!(parse(&mut ini, tokens), Ok(()));
    assert_eq!(pairs(&ini.sections()[0]), vec![pair("a", integer(1))]);
    assert_eq!(ini.comments(), &lines(&["aside"]));
}

#[test]
fn awaited_value_joins_the_section_that_is_open_when_it_comes() {
    let mut ini = INI::new(Vec::new(), Config::default());
    let tokens = vec![
        Token::Section("s".to_string()),
        Token::Name("a".to_string()),
        Token::Section("t".to_string()),
        Token::Name("1".to_string()),
    ];
    assert_eq!(parse(&mut ini, tokens), Ok(()));
    assert_eq!(names(ini.sections()), vec!["s", "t"]);
    assert!(ini.sections()[0].properties().is_empty());
    assert_eq!(pairs(&ini.sections()[1]), vec![pair("a", integer(1))]);
}

#[test]
fn parse_appends_to_the_document() {
    let mut ini = INI::new(Vec::new(), nesting());
    assert_eq!(parse(&mut ini, lex(&lines(&["; one", "[a]", "k=1"]))), Ok(()));
    assert_eq!(parse(&mut ini, lex(&lines(&["[a.b]", "[c]", "; two", "[c.d]"]))), Ok(()));
    assert_eq!(names(ini.sections()), vec!["a", "a.b", "c"]);
    assert!(ini.sections()[0].children().is_empty());
    assert_eq!(names(ini.sections()[2].children()), vec!["d"]);
    assert_eq!(ini.comments(), &lines(&["one", "two"]));
}

#[test]
fn failed_parse_leaves_the_document_as_it_was() {
    let mut ini = INI::new(lines(&["kept"]), Config::default());
    assert_eq!(parse(&mut ini, lex(&lines(&["; one", "[a]", "k=1"]))), Ok(()));
    let before = INI::parse_ini(lines(&["; one", "[a]", "k=1"])).unwrap();
    assert_eq!(
        parse(&mut ini, lex(&lines(&["; two", "[b]", "k=2", "j="]))),
        Err(ParseError::DisallowedBlankValue)
    );
    assert_eq!(ini.sections(), before.sections());
    assert_eq!(ini.comments(), before.comments());
    assert_eq!(ini.content(), &lines(&["kept"]));
}

#[test]
fn reading_twice_gives_equal_documents() {
    let text = ["; c", "[a]", "x=1", "y=2.5", "[a.b]", "z=\"q\"", "x=1", "x=2"];
    for policy in [
        ParseStrategy::IgnoreDuplicates,
        ParseStrategy::OverwriteDuplicates,
        ParseStrategy::AllowDuplicates,
    ] {
        let config =
            Config { enable_subsections: true, duplicate_policy: policy, ..Config::default() };
        let first = read(config, &text);
        let second = read(config, &text);
        assert!(first.is_ok());
        assert_eq!(first, second);
    }
    assert_eq!(read(Config::default(), &["x=1"]), read(Config::default(), &["x=1"]));
    assert_eq!(read(Config::default(), &["x=1"]).err(), Some(ParseError::DisallowedGlobalProperty));
}

#[test]
fn parse_ini_is_lex_then_parse() {
    let text = lines(&["; c", "[a]", "x=1", "[b]", "y=two"]);
    let whole = INI::parse_ini(text.clone()).unwrap();
    let mut stepwise = INI::new(text.clone(), Config::default());
    assert_eq!(parse(&mut stepwise, lex(&text)), Ok(()));
    assert_eq!(whole, stepwise);
    assert_eq!(whole.content(), &text);
}

#[test]
fn options_are_kept_with_the_document() {
    let config = Config {
        hash_comments: true,
        delimiter: Delimiter::Colon,
        allow_global_properties: true,
        allow_blank_values: true,
        enable_subsections: true,
        duplicate_policy: ParseStrategy::OverwriteDuplicates,
    };
    let ini = read(config, &["# c", "a: 1", "a:", "[s]", "[s.t]", "b: x:y"]).unwrap();
    assert_eq!(ini.config(), config);
    assert_eq!(ini.comments(), &lines(&["c"]));
    assert_eq!(names(ini.sections()), vec!["martini_global", "s"]);
    assert_eq!(pairs(&ini.sections()[0]), vec![pair("a", string(""))]);
    assert_eq!(names(ini.sections()[1].children()), vec!["t"]);
    assert_eq!(pairs(&ini.sections()[1].children()[0]), vec![pair("b", string("x:y"))]);
}

#[test]
fn space_delimited_document() {
    let config = Config { delimiter: Delimiter::Space, ..Config::default() };
    let ini = read(config, &["[s]", "port 8080", "motd hello world"]).unwrap();
    assert_eq!(
        pairs(&ini.sections()[0]),
        vec![pair("port", integer(8080)), pair("motd", string("hello world"))]
    );
}

#[test]
fn default_config_is_the_standard_one() {
    let config = Config::default();
    assert!(!config.hash_comments);
    assert_eq!(config.delimiter, Delimiter::Equals);
    assert!(!config.allow_global_properties);
    assert!(!config.allow_blank_values);
    assert!(!config.enable_subsections);
    assert_eq!(config.duplicate_policy, ParseStrategy::AllowDuplicates);
    assert!(config.is_comment_marker(';'));
    assert!(!config.is_comment_marker('#'));
    assert!(Config { hash_comments: true, ..config }.is_comment_marker('#'));
    assert!(!Config { hash_comments: true, ..config }.is_comment_marker('['));
}

#[test]
fn all_sections_and_comments_can_be_taken_out() {
    let ini = INI::parse_ini(lines(&["; c", "[a]", "[b]", "; d"])).unwrap();
    assert_eq!(names(&get_all_sections(ini)), vec!["a", "b"]);
    let ini = INI::parse_ini(lines(&["; c", "[a]", "[b]", "; d"])).unwrap();
    assert_eq!(get_all_comments(ini), lines(&["c", "d"]));
}

#[test]
fn get_property_finds_the_first_with_the_key() {
    let ini = INI::parse_ini(lines(&["[s]", "a=1", "b=2", "a=3"])).unwrap();
    let section = &ini.sections()[0];
    let found = get_property(section, "a".to_string()).unwrap();
    assert_eq!(found.key(), "a");
    assert_eq!(found.value(), Some(&integer(1)));
    assert_eq!(get_property(section, "b".to_string()).unwrap().value(), Some(&integer(2)));
    assert!(get_property(section, "c".to_string()).is_none());
    assert_eq!(section.position_of(&"a".to_string()), Some(0));
    assert_eq!(section.position_of(&"b".to_string()), Some(1));
    assert_eq!(section.position_of(&"c".to_string()), None);
}

#[test]
fn sections_and_properties_are_built_piece_by_piece() {
    let mut property = Property::new_with_key("k".to_string());
    assert_eq!(property.key(), "k");
    assert_eq!(property.value(), None);
    property.set_value(integer(5));
    assert_eq!(property.value(), Some(&integer(5)));

    let mut section = Section::create_section("s".to_string());
    assert_eq!(section.name(), "s");
    assert!(section.properties().is_empty());
    assert!(section.children().is_empty());
    section.insert_property(property);
    let mut second = Property::new_with_key("j".to_string());
    second.set_value(string("x"));
    section.insert_property(second);
    assert_eq!(pairs(&section), vec![pair("k", integer(5)), pair("j", string("x"))]);
    section.insert_child(Section::create_section("t".to_string()));
    assert_eq!(names(section.children()), vec!["t"]);
    let removed = section.remove_property(0);
    assert_eq!(removed.key(), "k");
    assert_eq!(pairs(&section), vec![pair("j", string("x"))]);
}

#[test]
fn context_moves_token_by_token() {
    let config = with_policy(ParseStrategy::OverwriteDuplicates);
    let mut context = INIContext::new();
    for token in Lexer::new(config).lex_lines(&lines(&["; c", "[s]", "a=1", "a=2"])) {
        assert_eq!(context.step(&config, &token), Ok(()));
    }
    let (sections, comments) = context.finish().unwrap();
    assert_eq!(names(&sections), vec!["s"]);
    assert_eq!(pairs(&sections[0]), vec![pair("a", integer(2))]);
    assert_eq!(comments, lines(&["c"]));

    let mut context = INIContext::new();
    assert_eq!(
        context.step(&config, &Token::Name("a".to_string())),
        Err(ParseError::DisallowedGlobalProperty)
    );
    let mut context = INIContext::new();
    assert_eq!(context.step(&config, &Token::Section("s".to_string())), Ok(()));
    assert_eq!(context.step(&config, &Token::Name("a".to_string())), Ok(()));
    assert_eq!(context.finish().err(), Some(ParseError::DanglingProperty));
    assert_eq!(INIContext::new().finish(), Ok((Vec::new(), Vec::new())));
}

#[test]
fn parsed_documents_are_well_formed() {
    let texts: [&[&str]; 4] = [
        &["a=1", "a=2", "[s]", "b=1", "b=2", "b=3", "[s.t]", "c=1", "c=1", "[u]"],
        &["[x]", "[x.y]", "[x.z]", "k=", "k=v", "k=w"],
        &["; c", "[a]", "p=1", "q=2", "p=3", "q=4", "r=5", "p=6"],
        &["[a.b]", "[c.d]", "[e]", "[f.g]", "k=1", "k=1"],
    ];
    for policy in [
        ParseStrategy::IgnoreDuplicates,
        ParseStrategy::OverwriteDuplicates,
        ParseStrategy::AllowDuplicates,
    ] {
        for text in texts {
            let config = Config {
                allow_global_properties: true,
                allow_blank_values: true,
                enable_subsections: true,
                duplicate_policy: policy,
                ..Config::default()
            };
            let ini = read(config, text).unwrap();
            for section in ini.sections() {
                let mut all = vec![section];
                all.extend(section.children().iter());
                for child in section.children() {
                    assert!(child.children().is_empty());
                }
                for each in all {
                    assert!(!each.name().is_empty());
                    let mut keys: Vec<&String> = Vec::new();
                    for property in each.properties() {
                        assert!(property.value().is_some());
                        if policy != ParseStrategy::AllowDuplicates {
                            assert!(!keys.contains(&property.key()));
                        }
                        keys.push(property.key());
                    }
                }
            }
        }
    }
}
