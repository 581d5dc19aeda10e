use clargs::ParsingError;

fn s(text: &str) -> String {
    String::from(text)
}

#[test]
fn message_of_unrecognized_option() {
    assert_eq!(ParsingError::UnrecognizedOption(s("opt")).message(), "unrecognized option 'opt'");
    assert_eq!(ParsingError::UnrecognizedOption(s("")).message(), "unrecognized option ''");
}

#[test]
fn message_of_ambiguous_option() {
    assert_eq!(
        ParsingError::AmbiguousOption(s("ab"), vec![s("abc"), s("abd")]).message(),
        "option 'ab' is ambiguous; possibilities: 'abc' 'abd'"
    );
    assert_eq!(
        ParsingError::AmbiguousOption(s("ab"), vec![]).message(),
        "option 'ab' is ambiguous; possibilities:"
    );
}

#[test]
fn message_of_assignment_to_flag() {
    assert_eq!(
        ParsingError::AssignmentToFlag(s("flag")).message(),
        "option 'flag' doesn't allow an argument"
    );
    assert_eq!(
        ParsingError::AssignmentToFlagAlias(s("flag"), s("f")).message(),
        "option 'flag' doesn't allow an argument; note that 'f' is an alias to 'flag'"
    );
}

#[test]
fn message_of_parameter_duplication() {
    assert_eq!(
        ParsingError::ParameterDuplication(s("p")).message(),
        "parameter 'p' was set more than once"
    );
    assert_eq!(
        ParsingError::ParameterDuplicationAlias(s("p"), s("a")).message(),
        "parameter 'p' was set more than once; note that 'a' is an alias to 'p'"
    );
}

#[test]
fn message_of_missing_argument() {
    assert_eq!(
        ParsingError::MissingArgument(s("p")).message(),
        "parameter 'p' is missing an argument"
    );
    assert_eq!(
        ParsingError::MissingArgumentAlias(s("größe"), s("g")).message(),
        "parameter 'größe' is missing an argument; note that 'g' is an alias to 'größe'"
    );
}

#[test]
fn message_of_subcommand_errors() {
    assert_eq!(
        ParsingError::UnrecognizedSubcommand(s("run")).message(),
        "unrecognized subcommand 'run'"
    );
    assert_eq!(
        ParsingError::AmbiguousSubcommand(s("c"), vec![s("c1"), s("c2"), s("c3")]).message(),
        "subcommand 'c' is ambiguous; possibilities: 'c1' 'c2' 'c3'"
    );
    assert_eq!(
        ParsingError::MissingRequiredSubcommand.message(),
        "argument list is missing a required subcommand"
    );
}

#[test]
fn message_of_missing_required_parameters() {
    assert_eq!(
        ParsingError::MissingRequiredParameters(vec![]).message(),
        "argument list is missing a required parameter"
    );
    assert_eq!(
        ParsingError::MissingRequiredParameters(vec![s("out")]).message(),
        "argument list is missing required parameter 'out'"
    );
    assert_eq!(
        ParsingError::MissingRequiredParameters(vec![s("in"), s("out")]).message(),
        "argument list is missing required parameters: 'in' 'out'"
    );
}

#[test]
fn message_of_argument_parsing_error() {
    assert_eq!(
        ParsingError::ArgumentParsingError(s("n"), s("x1")).message(),
        "parameter 'n' cannot take the value 'x1'"
    );
}
