//! The failures of parsing, as data, and the messages they are shown as.

use vstd::prelude::*;
use vstd::string::*;
use crate::text::{Text, texts};

verus! {

/// Returned when an error occurs during the parsing of an argument list.
#[derive(Debug, Clone, PartialEq, Eq)]
pub enum ParsingError {
    /// An option was specified which the program does not recognize.
    ///
    /// The associated string is the name of that option.
    UnrecognizedOption(String),
    /// A specified option could mean several valid options.
    ///
    /// The associated string is the name as it was written; the vector holds every
    /// option it could stand for, in ascending order.
    AmbiguousOption(String, Vec<String>),
    /// A value was assigned to an option which does not take a value.
    AssignmentToFlag(String),
    /// A value was assigned to an option which does not take a value.
    ///
    /// The first string is the option's name, the second the alias through which it was reached.
    AssignmentToFlagAlias(String, String),
    /// A value was assigned to the same parameter more than once.
    ParameterDuplication(String),
    /// A value was assigned to the same parameter more than once.
    ///
    /// The first string is the parameter's name, the second the alias through which it was reached.
    ParameterDuplicationAlias(String, String),
    /// A parameter was specified but got no value.
    MissingArgument(String),
    /// A parameter was specified but got no value.
    ///
    /// The first string is the parameter's name, the second the alias through which it was reached.
    MissingArgumentAlias(String, String),
    /// A subcommand was specified which the program does not recognize.
    UnrecognizedSubcommand(String),
    /// A specified subcommand could mean several valid subcommands.
    ///
    /// The associated string is the name as it was written; the vector holds every
    /// subcommand it could stand for, in ascending order.
    AmbiguousSubcommand(String, Vec<String>),
    /// A required subcommand is missing from the argument list.
    MissingRequiredSubcommand,
    /// One or more required parameters are missing from the argument list.
    ///
    /// The vector holds all of them.
    MissingRequiredParameters(Vec<String>),
    /// A parameter's value could not be converted to the type that was asked for.
    ///
    /// The first string is the parameter's name, the second the value as it was written.
    ArgumentParsingError(String, String),
}

/// A `ParsingError` as plain data.
pub enum Failure {
    UnrecognizedOption(Text),
    AmbiguousOption(Text, Seq<Text>),
    AssignmentToFlag(Text),
    AssignmentToFlagAlias(Text, Text),
    ParameterDuplication(Text),
    ParameterDuplicationAlias(Text, Text),
    MissingArgument(Text),
    MissingArgumentAlias(Text, Text),
    UnrecognizedSubcommand(Text),
    AmbiguousSubcommand(Text, Seq<Text>),
    MissingRequiredSubcommand,
    MissingRequiredParameters(Seq<Text>),
    ArgumentParsingError(Text, Text),
}

impl View for ParsingError {
    type V = Failure;

    open spec fn view(&self) -> Failure {
        match self {
            ParsingError::UnrecognizedOption(n) => Failure::UnrecognizedOption(n@),
            ParsingError::AmbiguousOption(n, m) => Failure::AmbiguousOption(n@, texts(m@)),
            ParsingError::AssignmentToFlag(n) => Failure::AssignmentToFlag(n@),
            ParsingError::AssignmentToFlagAlias(n, a) => Failure::AssignmentToFlagAlias(n@, a@),
            ParsingError::ParameterDuplication(n) => Failure::ParameterDuplication(n@),
            ParsingError::ParameterDuplicationAlias(n, a) => Failure::ParameterDuplicationAlias(
                n@,
                a@,
            ),
            ParsingError::MissingArgument(n) => Failure::MissingArgument(n@),
            ParsingError::MissingArgumentAlias(n, a) => Failure::MissingArgumentAlias(n@, a@),
            ParsingError::UnrecognizedSubcommand(n) => Failure::UnrecognizedSubcommand(n@),
            ParsingError::AmbiguousSubcommand(n, m) => Failure::AmbiguousSubcommand(n@, texts(m@)),
            ParsingError::MissingRequiredSubcommand => Failure::MissingRequiredSubcommand,
            ParsingError::MissingRequiredParameters(m) => Failure::MissingRequiredParameters(
                texts(m@),
            ),
            ParsingError::ArgumentParsingError(n, v) => Failure::ArgumentParsingError(n@, v@),
        }
    }
}

/// `name` between apostrophes.
pub open spec fn quoted(name: Text) -> Text {
    "'"@ + name + "'"@
}

/// Each name between apostrophes, each preceded by a space.
pub open spec fn listing(names: Seq<Text>) -> Text
    decreases names.len(),
{
    if names.len() == 0 {
        Seq::empty()
    } else {
        listing(names.drop_last()) + " "@ + quoted(names.last())
    }
}

/// What is added to a message when the option was reached through an alias.
pub open spec fn alias_note(name: Text, alias: Text) -> Text {
    "; note that "@ + quoted(alias) + " is an alias to "@ + quoted(name)
}

/// The message that a failure is shown as.
pub open spec fn rendering(f: Failure) -> Text {
    match f {
        Failure::UnrecognizedOption(n) => "unrecognized option "@ + quoted(n),
        Failure::AmbiguousOption(n, m) => "option "@ + quoted(n) + " is ambiguous; possibilities:"@
            + listing(m),
        Failure::AssignmentToFlag(n) => "option "@ + quoted(n) + " doesn't allow an argument"@,
        Failure::AssignmentToFlagAlias(n, a) => "option "@ + quoted(n)
            + " doesn't allow an argument"@ + alias_note(n, a),
        Failure::ParameterDuplication(n) => "parameter "@ + quoted(n)
            + " was set more than once"@,
        Failure::ParameterDuplicationAlias(n, a) => "parameter "@ + quoted(n)
            + " was set more than once"@ + alias_note(n, a),
        Failure::MissingArgument(n) => "parameter "@ + quoted(n) + " is missing an argument"@,
        Failure::MissingArgumentAlias(n, a) => "parameter "@ + quoted(n)
            + " is missing an argument"@ + alias_note(n, a),
        Failure::UnrecognizedSubcommand(n) => "unrecognized subcommand "@ + quoted(n),
        Failure::AmbiguousSubcommand(n, m) => "subcommand "@ + quoted(n)
            + " is ambiguous; possibilities:"@ + listing(m),
        Failure::MissingRequiredSubcommand => "argument list is missing a required subcommand"@,
        Failure::MissingRequiredParameters(m) => if m.len() == 0 {
            "argument list is missing a required parameter"@
        } else if m.len() == 1 {
            "argument list is missing required parameter "@ + quoted(m[0])
        } else {
            "argument list is missing required parameters:"@ + listing(m)
        },
        Failure::ArgumentParsingError(n, v) => "parameter "@ + quoted(n)
            + " cannot take the value "@ + quoted(v),
    }
}

fn push_quoted(out: &mut String, name: &String)
    ensures
        final(out)@ == old(out)@ + quoted(name@),
{
    out.append("'");
    out.append(name.as_str());
    out.append("'");
    assert(out@ =~= old(out)@ + quoted(name@));
}

fn push_listing(out: &mut String, names: &Vec<String>)
    ensures
        final(out)@ == old(out)@ + listing(texts(names@)),
{
    let mut i: usize = 0;
    assert(texts(names@).take(0) =~= Seq::<Text>::empty());
    assert(out@ =~= old(out)@ + listing(texts(names@).take(0)));
    while i < names.len()
        invariant
            i <= names.len(),
            out@ == old(out)@ + listing(texts(names@).take(i as int)),
        decreases names.len() - i,
    {
        let ghost prev = out@;
        out.append(" ");
        push_quoted(out, &names[i]);
        proof {
            let t = texts(names@);
            assert(t.take(i + 1).drop_last() =~= t.take(i as int));
            assert(t.take(i + 1).last() == names@[i as int]@);
            assert(out@ =~= old(out)@ + listing(t.take(i + 1)));
        }
        i += 1;
    }
    assert(texts(names@).take(names@.len() as int) =~= texts(names@));
}

fn push_alias_note(out: &mut String, name: &String, alias: &String)
    ensures
        final(out)@ == old(out)@ + alias_note(name@, alias@),
{
    out.append("; note that ");
    push_quoted(out, alias);
    out.append(" is an alias to ");
    push_quoted(out, name);
    assert(out@ =~= old(out)@ + alias_note(name@, alias@));
}

impl ParsingError {
    /// The message for the user.
    pub fn message(&self) -> (s: String)
        ensures
            s@ == rendering(self@),
    {
        let mut s = String::new();
        match self {
            ParsingError::UnrecognizedOption(n) => {
                s.append("unrecognized option ");
                push_quoted(&mut s, n);
            },
            ParsingError::AmbiguousOption(n, m) => {
                s.append("option ");
                push_quoted(&mut s, n);
                s.append(" is ambiguous; possibilities:");
                push_listing(&mut s, m);
            },
            ParsingError::AssignmentToFlag(n) => {
                s.append("option ");
                push_quoted(&mut s, n);
                s.append(" doesn't allow an argument");
            },
            ParsingError::AssignmentToFlagAlias(n, a) => {
                s.append("option ");
                push_quoted(&mut s, n);
                s.append(" doesn't allow an argument");
                push_alias_note(&mut s, n, a);
            },
            ParsingError::ParameterDuplication(n) => {
                s.append("parameter ");
                push_quoted(&mut s, n);
                s.append(" was set more than once");
            },
            ParsingError::ParameterDuplicationAlias(n, a) => {
                s.append("parameter ");
                push_quoted(&mut s, n);
                s.append(" was set more than once");
                push_alias_note(&mut s, n, a);
            },
            ParsingError::MissingArgument(n) => {
                s.append("parameter ");
                push_quoted(&mut s, n);
                s.append(" is missing an argument");
            },
            ParsingError::MissingArgumentAlias(n, a) => {
                s.append("parameter ");
                push_quoted(&mut s, n);
                s.append(" is missing an argument");
                push_alias_note(&mut s, n, a);
            },
            ParsingError::UnrecognizedSubcommand(n) => {
                s.append("unrecognized subcommand ");
                push_quoted(&mut s, n);
            },
            ParsingError::AmbiguousSubcommand(n, m) => {
                s.append("subcommand ");
                push_quoted(&mut s, n);
                s.append(" is ambiguous; possibilities:");
                push_listing(&mut s, m);
            },
            ParsingError::MissingRequiredSubcommand => {
                s.append("argument list is missing a required subcommand");
            },
            ParsingError::MissingRequiredParameters(m) => {
                if m.len() == 0 {
                    s.append("argument list is missing a required parameter");
                } else if m.len() == 1 {
                    s.append("argument list is missing required parameter ");
                    push_quoted(&mut s, &m[0]);
                } else {
                    s.append("argument list is missing required parameters:");
                    push_listing(&mut s, m);
                }
            },
            ParsingError::ArgumentParsingError(n, v) => {
                s.append("parameter ");
                push_quoted(&mut s, n);
                s.append(" cannot take the value ");
                push_quoted(&mut s, v);
            },
        }
        assert(s@ =~= rendering(self@));
        s
    }
}

} // verus!
