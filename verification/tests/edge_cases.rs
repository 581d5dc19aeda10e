use clargs::{parse, ParsingConfig, ParsingError};

fn items(args: &[&str]) -> Vec<String> {
    args.iter().map(|x| x.to_string()).collect()
}

#[test]
fn empty_argument_list() {
    let config = ParsingConfig::new();
    let result = parse(Vec::new(), &config).unwrap();
    assert_eq!(result.name(), "");
    assert_eq!(result.unnamed_params().len(), 0);
    assert_eq!(result.get_subcommand(), None);

    let mut config = ParsingConfig::new();
    config.add_param(String::from("p"), true);
    let error = parse(Vec::new(), &config).err().unwrap();
    assert_eq!(error, ParsingError::MissingRequiredParameters(vec![String::from("p")]));
}

#[test]
fn first_argument_is_never_interpreted() {
    let mut config = ParsingConfig::new();
    config.add_flag(String::from("flag"));
    config.add_subcommand(String::from("build"));
    let result = parse(items(&["--flag"]), &config).unwrap();
    assert_eq!(result.name(), "--flag");
    assert!(!result.has_flag("flag"));
    let result = parse(items(&["build", "x"]), &config).unwrap();
    assert_eq!(result.name(), "build");
    assert_eq!(result.get_subcommand(), None);
    assert_eq!(result.unnamed_params(), &items(&["x"]));
}

#[test]
fn lone_hyphen_without_a_nameless_option() {
    let config = ParsingConfig::new();
    let result = parse(items(&["prog", "-", "x"]), &config).unwrap();
    assert_eq!(result.unnamed_params(), &items(&["-", "x"]));

    let error = parse(items(&["prog", "-495"]), &config).err().unwrap();
    assert_eq!(error, ParsingError::UnrecognizedOption(String::from("495")));
}

#[test]
fn lone_hyphen_is_not_a_subcommand_candidate() {
    let mut config = ParsingConfig::new();
    config.set_subcommand_index(true);
    config.set_subcommand_required(true);
    config.add_subcommand(String::from("run"));
    // the hyphen is read by the single hyphen syntax, so it is never refused
    // as a subcommand; behind it the index has been passed
    let result = parse(items(&["prog", "-", "run", "x"]), &config).err().unwrap();
    assert_eq!(result, ParsingError::MissingRequiredSubcommand);
    let result = parse(items(&["prog", "+", "run", "x"]), &config).err().unwrap();
    assert_eq!(result, ParsingError::UnrecognizedSubcommand(String::from("+")));

    config.set_subcommand_index_value(1);
    let result = parse(items(&["prog", "-", "run", "x"]), &config).unwrap();
    assert_eq!(result.unnamed_params(), &items(&["-"]));
    assert_eq!(result.subcommand_args(), &items(&["run", "x"]));
}

#[test]
fn nameless_flag() {
    let mut config = ParsingConfig::new();
    config.add_flag(String::new());
    let result = parse(items(&["prog", "-"]), &config).unwrap();
    assert!(result.has_flag(""));
    assert_eq!(result.unnamed_params().len(), 0);

    let error = parse(items(&["prog", "-5"]), &config).err().unwrap();
    assert_eq!(error, ParsingError::AssignmentToFlag(String::new()));
}

#[test]
fn nameless_parameter() {
    let mut config = ParsingConfig::new();
    config.add_param(String::new(), false);
    let result = parse(items(&["prog", "-495"]), &config).unwrap();
    assert_eq!(result.get_param(""), Some("495"));

    let result = parse(items(&["prog", "-", "next", "more"]), &config).unwrap();
    assert_eq!(result.get_param(""), Some("next"));
    assert_eq!(result.unnamed_params(), &items(&["more"]));

    let error = parse(items(&["prog", "-"]), &config).err().unwrap();
    assert_eq!(error, ParsingError::MissingArgument(String::new()));

    let error = parse(items(&["prog", "-1", "-2"]), &config).err().unwrap();
    assert_eq!(error, ParsingError::ParameterDuplication(String::new()));
}

#[test]
fn nameless_alias() {
    let mut config = ParsingConfig::new();
    config.add_flag(String::from("stdin"));
    config.add_param(String::from("level"), false);
    config.add_alias(String::new(), String::from("stdin"));
    let result = parse(items(&["prog", "-"]), &config).unwrap();
    assert!(result.has_flag("stdin"));
    let error = parse(items(&["prog", "-7"]), &config).err().unwrap();
    assert_eq!(error, ParsingError::AssignmentToFlagAlias(String::from("stdin"), String::new()));

    let mut config = ParsingConfig::new();
    config.add_param(String::from("level"), false);
    config.add_alias(String::new(), String::from("level"));
    let result = parse(items(&["prog", "-7"]), &config).unwrap();
    assert_eq!(result.get_param("level"), Some("7"));
    let error = parse(items(&["prog", "-"]), &config).err().unwrap();
    assert_eq!(error, ParsingError::MissingArgumentAlias(String::from("level"), String::new()));
    let error = parse(items(&["prog", "-7", "-8"]), &config).err().unwrap();
    assert_eq!(error, ParsingError::ParameterDuplicationAlias(String::from("level"), String::new()));
}

#[test]
fn single_hyphen_reads_double_hyphens_when_alone() {
    let mut config = ParsingConfig::new_all_disabled();
    config.set_single_hyphen_syntax(true);
    config.add_flag(String::from("x"));
    let error = parse(items(&["prog", "--x"]), &config).err().unwrap();
    assert_eq!(error, ParsingError::UnrecognizedOption(String::from("-x")));
}

#[test]
fn single_hyphen_uses_full_names_only() {
    let mut config = ParsingConfig::new();
    config.add_flag(String::from("verbose"));
    let error = parse(items(&["prog", "-v"]), &config).err().unwrap();
    assert_eq!(error, ParsingError::UnrecognizedOption(String::from("v")));
    let result = parse(items(&["prog", "--v"]), &config).unwrap();
    assert!(result.has_flag("verbose"));
}

#[test]
fn bundle_reports_the_first_unknown_letter() {
    let mut config = ParsingConfig::new();
    config.add_flag(String::from("a"));
    config.add_param(String::from("p"), false);
    let error = parse(items(&["prog", "-axpy"]), &config).err().unwrap();
    assert_eq!(error, ParsingError::UnrecognizedOption(String::from("x")));
    let error = parse(items(&["prog", "-pz9", "-a"]), &config).err().unwrap();
    assert_eq!(error, ParsingError::UnrecognizedOption(String::from("z")));
}

#[test]
fn bundle_without_stacking() {
    let mut config = ParsingConfig::new();
    config.set_parameter_stacking(false);
    config.add_flag(String::from("f"));
    config.add_param(String::from("p"), false);
    config.add_param(String::from("q"), false);
    config.add_alias(String::from("a"), String::from("p"));

    let error = parse(items(&["prog", "-pq", "1", "2"]), &config).err().unwrap();
    assert_eq!(error, ParsingError::MissingArgument(String::from("p")));
    let error = parse(items(&["prog", "-fqa", "1", "2"]), &config).err().unwrap();
    assert_eq!(error, ParsingError::MissingArgument(String::from("q")));
    let error = parse(items(&["prog", "-af3"]), &config).err().unwrap();
    assert_eq!(error, ParsingError::MissingArgumentAlias(String::from("p"), String::from("a")));
    let result = parse(items(&["prog", "-fp", "1", "2"]), &config).unwrap();
    assert_eq!(result.get_param("p"), Some("1"));
    assert_eq!(result.unnamed_params(), &items(&["2"]));
    let result = parse(items(&["prog", "-fa=1", "2"]), &config).unwrap();
    assert_eq!(result.get_param("p"), Some("=1"));
    assert!(result.has_flag("f"));
}

#[test]
fn bundle_with_stacking_and_a_parameter_before_a_flag() {
    let mut config = ParsingConfig::new();
    config.add_flag(String::from("f"));
    config.add_param(String::from("p"), false);
    let result = parse(items(&["prog", "-pf", "value", "rest"]), &config).unwrap();
    assert_eq!(result.get_param("p"), Some("value"));
    assert!(result.has_flag("f"));
    assert_eq!(result.unnamed_params(), &items(&["rest"]));
    let error = parse(items(&["prog", "-pf"]), &config).err().unwrap();
    assert_eq!(error, ParsingError::MissingArgument(String::from("p")));
}

#[test]
fn double_hyphen_takes_the_next_argument_whatever_it_is() {
    let mut config = ParsingConfig::new();
    config.add_flag(String::from("flag"));
    config.add_param(String::from("out"), false);
    let result = parse(items(&["prog", "--out", "--flag", "--", "x"]), &config).unwrap();
    assert_eq!(result.get_param("out"), Some("--flag"));
    assert!(!result.has_flag("flag"));
    assert_eq!(result.unnamed_params(), &items(&["x"]));
    let result = parse(items(&["prog", "--out", "--"]), &config).unwrap();
    assert_eq!(result.get_param("out"), Some("--"));
}

#[test]
fn assignment_splits_at_the_first_equals_sign() {
    let mut config = ParsingConfig::new();
    config.set_assignment_syntax(true);
    config.add_param(String::from("key"), false);
    config.add_flag(String::from("flag"));
    config.add_alias(String::from("fl"), String::from("flag"));

    let result = parse(items(&["prog", "--key=a=b=c"]), &config).unwrap();
    assert_eq!(result.get_param("key"), Some("a=b=c"));
    let result = parse(items(&["prog", "key=a=b", "plain"]), &config).unwrap();
    assert_eq!(result.get_param("key"), Some("a=b"));
    assert_eq!(result.unnamed_params(), &items(&["plain"]));
    let result = parse(items(&["prog", "k="]), &config).unwrap();
    assert_eq!(result.get_param("key"), Some(""));

    let error = parse(items(&["prog", "flag=1"]), &config).err().unwrap();
    assert_eq!(error, ParsingError::AssignmentToFlag(String::from("flag")));
    let error = parse(items(&["prog", "fl=1"]), &config).err().unwrap();
    assert_eq!(error, ParsingError::AssignmentToFlagAlias(String::from("flag"), String::from("fl")));
    let error = parse(items(&["prog", "other=1"]), &config).err().unwrap();
    assert_eq!(error, ParsingError::UnrecognizedOption(String::from("other")));
    let error = parse(items(&["prog", "=1"]), &config).err().unwrap();
    assert_eq!(
        error,
        ParsingError::AmbiguousOption(String::new(), items(&["fl", "flag", "key"]))
    );
}

#[test]
fn assignment_disabled_leaves_an_unnamed_argument() {
    let mut config = ParsingConfig::new();
    config.add_param(String::from("key"), false);
    let result = parse(items(&["prog", "key=value"]), &config).unwrap();
    assert_eq!(result.get_param("key"), None);
    assert_eq!(result.unnamed_params(), &items(&["key=value"]));
}

#[test]
fn double_hyphen_assignment_disabled_reads_the_whole_name() {
    let mut config = ParsingConfig::new();
    config.set_double_hyphen_assignment_syntax(false);
    config.add_param(String::from("key"), false);
    let error = parse(items(&["prog", "--key=value"]), &config).err().unwrap();
    assert_eq!(error, ParsingError::UnrecognizedOption(String::from("key=value")));
}

#[test]
fn completion_disabled_needs_the_full_name() {
    let mut config = ParsingConfig::new();
    config.set_option_completion(false);
    config.add_param(String::from("param"), false);
    let error = parse(items(&["prog", "--par", "x"]), &config).err().unwrap();
    assert_eq!(error, ParsingError::UnrecognizedOption(String::from("par")));
    let result = parse(items(&["prog", "--param", "x"]), &config).unwrap();
    assert_eq!(result.get_param("param"), Some("x"));
}

#[test]
fn completion_reaches_aliases() {
    let mut config = ParsingConfig::new();
    config.add_flag(String::from("flag"));
    config.add_alias(String::from("other"), String::from("flag"));
    config.add_alias(String::from("also"), String::from("other"));
    let result = parse(items(&["prog", "--oth"]), &config).unwrap();
    assert!(result.has_flag("flag"));
    assert!(!result.has_flag("other"));
    let error = parse(items(&["prog", "--als=1"]), &config).err().unwrap();
    assert_eq!(error, ParsingError::AssignmentToFlagAlias(String::from("flag"), String::from("also")));
}

#[test]
fn missing_argument_through_an_alias() {
    let mut config = ParsingConfig::new();
    config.add_param(String::from("param"), false);
    config.add_alias(String::from("alias"), String::from("param"));
    let error = parse(items(&["prog", "--alias"]), &config).err().unwrap();
    assert_eq!(error, ParsingError::MissingArgumentAlias(String::from("param"), String::from("alias")));
    let error = parse(items(&["prog", "--al"]), &config).err().unwrap();
    assert_eq!(error, ParsingError::MissingArgumentAlias(String::from("param"), String::from("alias")));
}

#[test]
fn names_and_values_beyond_ascii() {
    let mut config = ParsingConfig::new();
    config.set_assignment_syntax(true);
    config.add_param(String::from("größe"), false);
    config.add_flag(String::from("é"));
    config.add_param(String::from("ñ"), false);

    let result = parse(items(&["π", "--größe=日本語", "-éñ√2", "κ"]), &config).unwrap();
    assert_eq!(result.name(), "π");
    assert_eq!(result.get_param("größe"), Some("日本語"));
    assert!(result.has_flag("é"));
    assert_eq!(result.get_param("ñ"), Some("√2"));
    assert_eq!(result.unnamed_params(), &items(&["κ"]));

    let result = parse(items(&["π", "grö=ß=ü"]), &config).unwrap();
    assert_eq!(result.get_param("größe"), Some("ß=ü"));

    let error = parse(items(&["π", "-éü"]), &config).err().unwrap();
    assert_eq!(error, ParsingError::UnrecognizedOption(String::from("ü")));
    let error = parse(items(&["π", "--größ", "1", "--grö", "2"]), &config).err().unwrap();
    assert_eq!(error, ParsingError::ParameterDuplication(String::from("größe")));
}

#[test]
fn typed_values() {
    let mut config = ParsingConfig::new();
    config.add_param(String::from("n"), false);
    config.add_param(String::from("m"), false);
    let result = parse(items(&["prog", "-n", "-12", "--m=x1"]), &config).unwrap();
    assert_eq!(result.get_param_as::<i32>("n"), Some(Ok(-12)));
    assert_eq!(result.get_param_as::<String>("n"), Some(Ok(String::from("-12"))));
    assert_eq!(
        result.get_param_as::<u8>("n"),
        Some(Err(ParsingError::ArgumentParsingError(String::from("n"), String::from("-12"))))
    );
    assert_eq!(
        result.get_param_as::<i32>("m"),
        Some(Err(ParsingError::ArgumentParsingError(String::from("m"), String::from("x1"))))
    );
    assert_eq!(result.get_param_as::<i32>("absent"), None);
}
