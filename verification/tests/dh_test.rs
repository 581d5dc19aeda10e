use clargs::{Parser, ParsingError};

fn list(args: &[&str]) -> Vec<String> {
    args.iter().map(|x| x.to_string()).collect()
}

#[test]
fn dh_test() {
    let mut parser = Parser::new();

    parser.add_flag(String::from("abc"));
    parser.add_flag(String::from("abcd"));
    parser.add_flag(String::from("flag"));

    parser.add_named_param(String::from("int"));
    parser.add_named_param(String::from("some-str"));


    let args = ["", "--none"];
    let error = parser.parse(list(&args)).err().unwrap();
    assert_eq!(error, ParsingError::UnrecognizedOption(String::from("none")));

    let args = ["", "--ab"];
    let error = parser.parse(list(&args)).err().unwrap();
    assert_eq!(error, ParsingError::AmbiguousOption(String::from("ab"), parser.match_options("ab")));

    // the second `--int` has no argument behind it, and that is found before
    // the parameter is looked at again
    let args = ["", "--int", "21", "--int"];
    let error = parser.parse(list(&args)).err().unwrap();
    assert_eq!(error, ParsingError::MissingArgument(String::from("int")));

    let args = ["", "--int", "21", "--int", "22"];
    let error = parser.parse(list(&args)).err().unwrap();
    assert_eq!(error, ParsingError::ParameterDuplication(String::from("int")));

    let args = ["", "--int"];
    let error = parser.parse(list(&args)).err().unwrap();
    assert_eq!(error, ParsingError::MissingArgument(String::from("int")));

    let args = ["", "--int", "str"];
    let results = parser.parse(list(&args)).ok().unwrap();
    let error = results.named_param::<i32>("int").unwrap().err().unwrap();
    assert_eq!(error, ParsingError::ArgumentParsingError(String::from("int"), String::from("str")));

    let args = ["", "--int="];
    let results = parser.parse(list(&args)).ok().unwrap();
    let error = results.named_param::<i32>("int").unwrap().err().unwrap();
    assert_eq!(error, ParsingError::ArgumentParsingError(String::from("int"), String::from("")));


    let args = ["", "--f", "--abc"];
    let results = parser.parse(list(&args)).ok().unwrap();
    assert!(results.flag("flag"));
    assert!(results.flag("abc"));

    let args = ["", "--int", "21"];
    let results = parser.parse(list(&args)).ok().unwrap();
    assert_eq!(results.named_param::<i32>("int").unwrap().ok().unwrap(), 21);

    let args = ["", "--int=21"];
    let results = parser.parse(list(&args)).ok().unwrap();
    assert_eq!(results.named_param::<i32>("int").unwrap().ok().unwrap(), 21);

    let args = ["", "--some-str", "str"];
    let results = parser.parse(list(&args)).ok().unwrap();
    assert_eq!(results.named_param::<String>("some-str").unwrap().ok().unwrap(), "str");

    let args = ["", "--some-str=str"];
    let results = parser.parse(list(&args)).ok().unwrap();
    assert_eq!(results.named_param::<String>("some-str").unwrap().ok().unwrap(), "str");
}
