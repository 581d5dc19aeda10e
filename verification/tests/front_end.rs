use clargs::{ConfigError, Name, Parser, ParsingError, ParsingResults};

fn argv(args: &[&str]) -> Vec<String> {
    args.iter().map(|x| x.to_string()).collect()
}

#[test]
fn valid_option_names() {
    assert!(Parser::is_valid_option_name("a"));
    assert!(Parser::is_valid_option_name("some-str"));
    assert!(Parser::is_valid_option_name("-"));
    assert!(Parser::is_valid_option_name("größe"));
    assert!(!Parser::is_valid_option_name(""));
    assert!(!Parser::is_valid_option_name("a1"));
    assert!(!Parser::is_valid_option_name("a_b"));
    assert!(!Parser::is_valid_option_name("a b"));
    assert!(!Parser::is_valid_option_name("a=b"));
}

#[test]
fn parser_options() {
    let mut parser = Parser::new();
    assert!(!parser.has_option("flag"));
    parser.add_flag(String::from("flag")).add_named_param(String::from("param"));
    parser.add_alias(String::from("f"), String::from("flag"));
    parser.add_alias(String::from("fl"), String::from("flag"));
    assert!(parser.has_option("flag"));
    assert!(parser.has_option("param"));
    assert!(parser.has_option("f"));
    assert!(!parser.has_option("p"));

    assert_eq!(parser.resolve(String::from("f")), "flag");
    assert_eq!(parser.resolve(String::from("flag")), "flag");
    assert_eq!(parser.resolve(String::from("nothing")), "nothing");

    parser.remove_option("f");
    assert!(!parser.has_option("f"));
    assert!(parser.has_option("fl"));
    assert!(parser.has_option("flag"));
    parser.remove_option("flag");
    assert!(!parser.has_option("flag"));
    assert!(!parser.has_option("fl"));
    assert!(parser.has_option("param"));
}

#[test]
fn parser_matches_flags_and_parameters_only() {
    let mut parser = Parser::new();
    parser.add_flag(String::from("abd"));
    parser.add_named_param(String::from("abc"));
    parser.add_flag(String::from("ab-"));
    parser.add_alias(String::from("abe"), String::from("abc"));
    parser.add_alias(String::from("ab"), String::from("abd"));
    parser.add_flag(String::from("x"));

    assert_eq!(parser.match_options("ab"), argv(&["ab-", "abc", "abd"]));
    assert_eq!(parser.match_options("abc"), argv(&["abc"]));
    assert_eq!(parser.match_options("abe"), Vec::<String>::new());
    assert_eq!(parser.match_options(""), argv(&["ab-", "abc", "abd", "x"]));
    assert_eq!(parser.match_options("y"), Vec::<String>::new());
}

#[test]
fn parser_marker() {
    let mut parser = Parser::new();
    parser.add_flag(String::from("A"));
    assert!(parser.double_hyphen_marker());
    let results = parser.parse(argv(&["p", "--", "-A"])).unwrap();
    assert!(!results.flag("A"));
    assert_eq!(results.num_unnamed_params(), 1);
    assert_eq!(results.unnamed_params(), &argv(&["-A"]));

    parser.disable_double_hyphen_marker();
    assert!(!parser.double_hyphen_marker());
    // without the marker, `--` is a long option with the empty name, which
    // completion takes for a prefix of every name
    let results = parser.parse(argv(&["p", "--"])).unwrap();
    assert!(results.flag("A"));
    assert_eq!(results.num_unnamed_params(), 0);
    parser.add_flag(String::from("B"));
    let error = parser.parse(argv(&["p", "--", "-A"])).err().unwrap();
    assert_eq!(error, ParsingError::AmbiguousOption(String::new(), argv(&["A", "B"])));

    parser.enable_double_hyphen_marker();
    assert!(parser.double_hyphen_marker());
    let results = parser.parse(argv(&["p", "-A", "--", "-A"])).unwrap();
    assert!(results.flag("A"));
    assert_eq!(results.unnamed_param(0), "-A");
}

#[test]
fn parser_takes_one_parameter_for_each_bundle() {
    let mut parser = Parser::new();
    parser.add_named_param(String::from("p"));
    parser.add_named_param(String::from("q"));
    let error = parser.parse(argv(&["x", "-pq", "1", "2"])).err().unwrap();
    assert_eq!(error, ParsingError::MissingArgument(String::from("p")));
    let results = parser.parse(argv(&["x", "p=1", "-q", "2"])).unwrap();
    assert_eq!(results.unnamed_params(), &argv(&["p=1"]));
    assert_eq!(results.named_param::<u8>("q"), Some(Ok(2)));
    assert_eq!(results.named_param::<u8>("p"), None);
}

#[test]
fn results_can_be_read_and_changed() {
    let mut results = ParsingResults::new();
    assert_eq!(results.path(), "");
    assert_eq!(results.num_unnamed_params(), 0);
    assert!(!results.flag("f"));
    assert_eq!(results.named_param::<i32>("n"), None);
    assert!(results.named_param_mut("n").is_none());

    *results.path_mut() = String::from("bin");
    results.flags_mut().push(Name::new(String::from("f")));
    results.named_params_mut().push((Name::new(String::from("n")), String::from("1")));
    results.named_params_mut().push((Name::new(String::from("m")), String::from("x")));
    results.named_params_mut().push((Name::new(String::from("n")), String::from("2")));
    results.unnamed_params_mut().push(String::from("first"));
    results.unnamed_params_mut().push(String::from("second"));

    assert_eq!(results.path(), "bin");
    assert!(results.flag("f"));
    assert!(!results.flag("g"));
    assert_eq!(results.flags().len(), 1);
    assert_eq!(results.flags()[0].text(), "f");
    assert_eq!(results.named_params().len(), 3);
    assert_eq!(results.named_param::<i32>("n"), Some(Ok(2)));
    assert_eq!(
        results.named_param::<i32>("m"),
        Some(Err(ParsingError::ArgumentParsingError(String::from("m"), String::from("x"))))
    );
    assert_eq!(results.num_unnamed_params(), 2);
    assert_eq!(results.unnamed_param(1), "second");

    *results.named_param_mut("n").unwrap() = String::from("30");
    assert_eq!(results.named_param::<i32>("n"), Some(Ok(30)));
    assert_eq!(results.named_params()[0].1, "1");

    results.unnamed_param_mut(0).push_str("!");
    assert_eq!(results.unnamed_params(), &argv(&["first!", "second"]));
}

#[test]
fn parser_refuses_what_it_cannot_register() {
    let mut parser = Parser::new();
    assert_eq!(parser.try_add_flag(String::from("flag")), Ok(()));
    assert_eq!(parser.try_add_named_param(String::from("some-param")), Ok(()));
    assert_eq!(parser.try_add_alias(String::from("f"), String::from("flag")), Ok(()));

    assert_eq!(parser.try_add_flag(String::from("flag")), Err(ConfigError::NameTaken));
    assert_eq!(parser.try_add_flag(String::from("f")), Err(ConfigError::NameTaken));
    assert_eq!(parser.try_add_flag(String::new()), Err(ConfigError::InvalidName));
    assert_eq!(parser.try_add_flag(String::from("a1")), Err(ConfigError::InvalidName));
    assert_eq!(parser.try_add_named_param(String::from("some-param")), Err(ConfigError::NameTaken));
    assert_eq!(parser.try_add_named_param(String::from("x y")), Err(ConfigError::InvalidName));
    assert_eq!(
        parser.try_add_alias(String::from("f"), String::from("some-param")),
        Err(ConfigError::NameTaken)
    );
    assert_eq!(
        parser.try_add_alias(String::from("g"), String::from("absent")),
        Err(ConfigError::UnknownTarget)
    );
    assert_eq!(
        parser.try_add_alias(String::from("g"), String::from("f")),
        Err(ConfigError::UnknownTarget)
    );
    assert_eq!(
        parser.try_add_alias(String::from("g2"), String::from("flag")),
        Err(ConfigError::InvalidName)
    );
    assert!(!parser.has_option("g"));
    assert!(!parser.has_option("g2"));
    assert_eq!(parser.match_options(""), argv(&["flag", "some-param"]));
}
