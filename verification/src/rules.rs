//! What parsing means: a function from a catalog and a list of arguments to
//! an outcome or a failure, syntax by syntax.

use vstd::prelude::*;
use crate::parsing_config::{Desc, Entry, Registry};
use crate::parsing_error::Failure;
use crate::resolve::Resolved;
use crate::text::{first_index, letter_run, Text};

verus! {

/// What has been gathered from the arguments read so far.
pub struct Progress {
    /// The flags that were set.
    pub flags: Set<Text>,
    /// The parameters that were given, each with its value.
    pub params: Map<Text, Text>,
    /// The arguments that are neither options nor values of options, in order.
    pub unnamed: Seq<Text>,
    /// The subcommand and every argument behind it; empty if none was found.
    pub subcommand: Seq<Text>,
}

/// What reading one argument leads to.
pub enum Step {
    /// Go on behind this argument and behind as many further ones as it has taken as values.
    Continue(Progress, nat),
    /// Everything behind this argument is taken too: reading ends.
    Stop(Progress),
    /// The argument list is refused.
    Fail(Failure),
}

/// A complete reading of an argument list.
pub struct Outcome {
    /// The first argument, as it was written.
    pub name: Text,
    /// The flags that were set.
    pub flags: Set<Text>,
    /// The parameters that were given, each with its value.
    pub params: Map<Text, Text>,
    /// The arguments that are neither options nor values of options, in order.
    pub unnamed: Seq<Text>,
    /// The subcommand and every argument behind it; empty if none was found.
    pub subcommand: Seq<Text>,
}

impl Progress {
    /// Nothing gathered yet.
    pub open spec fn empty() -> Progress {
        Progress {
            flags: Set::empty(),
            params: Map::empty(),
            unnamed: Seq::empty(),
            subcommand: Seq::empty(),
        }
    }

    /// With the flag `name` set.
    pub open spec fn with_flag(self, name: Text) -> Progress {
        Progress { flags: self.flags.insert(name), ..self }
    }

    /// With `token` as one more unnamed argument.
    pub open spec fn with_unnamed(self, token: Text) -> Progress {
        Progress { unnamed: self.unnamed.push(token), ..self }
    }

    /// With the subcommand `name` and everything behind it.
    pub open spec fn delegate(self, name: Text, rest: Seq<Text>) -> Progress {
        Progress { subcommand: seq![name] + rest, ..self }
    }
}

/// The two hyphens that begin a long option and, alone, end the options.
pub open spec fn hyphens() -> Text {
    seq!['-', '-']
}

/// The failure for a value given to a flag.
pub open spec fn assignment_to_flag(r: Resolved) -> Failure {
    match r.alias {
        Some(alias) => Failure::AssignmentToFlagAlias(r.target, alias),
        None => Failure::AssignmentToFlag(r.target),
    }
}

/// The failure for a parameter that got no value.
pub open spec fn missing_argument(r: Resolved) -> Failure {
    match r.alias {
        Some(alias) => Failure::MissingArgumentAlias(r.target, alias),
        None => Failure::MissingArgument(r.target),
    }
}

/// The failure for a parameter that is given once more.
pub open spec fn duplication(r: Resolved) -> Failure {
    match r.alias {
        Some(alias) => Failure::ParameterDuplicationAlias(r.target, alias),
        None => Failure::ParameterDuplication(r.target),
    }
}

/// Gives the parameter `r` the value `value`. A parameter that has a value
/// already takes the new one if duplication is allowed, and is refused otherwise.
pub open spec fn store(reg: Registry, st: Progress, r: Resolved, value: Text) -> Result<
    Progress,
    Failure,
> {
    if st.params.contains_key(r.target) && !reg.features.param_duplication {
        Err(duplication(r))
    } else {
        Ok(Progress { params: st.params.insert(r.target, value), ..st })
    }
}

/// Gives each parameter of `ps` the value at its place in `values`, in order,
/// up to the first one that is refused.
pub open spec fn store_all(
    reg: Registry,
    st: Progress,
    ps: Seq<Resolved>,
    values: Seq<Text>,
) -> Result<Progress, Failure>
    decreases ps.len(),
{
    if ps.len() == 0 || values.len() == 0 {
        Ok(st)
    } else {
        match store(reg, st, ps[0], values[0]) {
            Ok(next) => store_all(reg, next, ps.skip(1), values.skip(1)),
            Err(e) => Err(e),
        }
    }
}

/// `NAME=VALUE`, with or without two hyphens in front: `cand` is the written
/// name, `value` what stands behind the first equals sign.
pub open spec fn rule_assignment(reg: Registry, st: Progress, cand: Text, value: Text) -> Step {
    match reg.resolve_option(cand) {
        Err(e) => Step::Fail(e),
        Ok(r) => if r.is_flag {
            Step::Fail(assignment_to_flag(r))
        } else {
            match store(reg, st, r, value) {
                Ok(next) => Step::Continue(next, 0),
                Err(e) => Step::Fail(e),
            }
        },
    }
}

/// `--NAME`: a flag is set; a parameter takes the next argument, whatever it is.
pub open spec fn rule_double(reg: Registry, st: Progress, cand: Text, rest: Seq<Text>) -> Step {
    match reg.resolve_option(cand) {
        Err(e) => Step::Fail(e),
        Ok(r) => if r.is_flag {
            Step::Continue(st.with_flag(r.target), 0)
        } else if rest.len() == 0 {
            Step::Fail(missing_argument(r))
        } else {
            match store(reg, st, r, rest[0]) {
                Ok(next) => Step::Continue(next, 1),
                Err(e) => Step::Fail(e),
            }
        },
    }
}

/// A hyphen with no letter behind it: `inline` is what follows the hyphen.
/// Without an option of the empty name, a lone hyphen is an unnamed argument
/// and anything longer is unknown. With one, a flag is set by the lone hyphen,
/// and a parameter takes `inline` or, if that is empty, the next argument.
pub open spec fn rule_naked(reg: Registry, st: Progress, inline: Text, rest: Seq<Text>) -> Step {
    let nameless = Seq::<char>::empty();
    if !reg.has_option(nameless) {
        if inline.len() == 0 {
            Step::Continue(st.with_unnamed(seq!['-']), 0)
        } else {
            Step::Fail(Failure::UnrecognizedOption(inline))
        }
    } else {
        let r = reg.resolved(nameless);
        if r.is_flag {
            if inline.len() == 0 {
                Step::Continue(st.with_flag(r.target), 0)
            } else {
                Step::Fail(assignment_to_flag(r))
            }
        } else if inline.len() > 0 {
            match store(reg, st, r, inline) {
                Ok(next) => Step::Continue(next, 0),
                Err(e) => Step::Fail(e),
            }
        } else if rest.len() > 0 {
            match store(reg, st, r, rest[0]) {
                Ok(next) => Step::Continue(next, 1),
                Err(e) => Step::Fail(e),
            }
        } else {
            Step::Fail(missing_argument(r))
        }
    }
}

/// How many letters at the start of `letters` are names of declared options.
pub open spec fn known_run(reg: Registry, letters: Text) -> nat
    decreases letters.len(),
{
    if letters.len() > 0 && reg.has_option(seq![letters[0]]) {
        1 + known_run(reg, letters.skip(1))
    } else {
        0
    }
}

/// What each letter of a bundle leads to; every letter must be a declared name.
pub open spec fn bundle(reg: Registry, letters: Text) -> Seq<Resolved> {
    Seq::new(letters.len(), |i: int| reg.resolved(seq![letters[i]]))
}

/// The flags among `rs`.
pub open spec fn flags_of(rs: Seq<Resolved>) -> Set<Text> {
    Set::new(|t: Text| exists|i: int| 0 <= i < rs.len() && (#[trigger] rs[i]).is_flag && rs[i].target == t)
}

/// The parameters among `rs`, in order.
pub open spec fn params_of(rs: Seq<Resolved>) -> Seq<Resolved>
    decreases rs.len(),
{
    if rs.len() == 0 {
        Seq::empty()
    } else if rs.last().is_flag {
        params_of(rs.drop_last())
    } else {
        params_of(rs.drop_last()).push(rs.last())
    }
}

/// Hands out values to the parameters of a bundle: each but the last takes one
/// of the next arguments, the last takes `inline` or, if that is empty, one
/// more argument. The first parameter left without a value is reported.
pub open spec fn distribute(
    reg: Registry,
    st: Progress,
    ps: Seq<Resolved>,
    inline: Text,
    rest: Seq<Text>,
) -> Step {
    let needed = if inline.len() > 0 && ps.len() > 0 {
        ps.len() - 1
    } else {
        ps.len() as int
    };
    if rest.len() < needed {
        Step::Fail(missing_argument(ps[rest.len() as int]))
    } else {
        let values = if inline.len() > 0 {
            rest.take(needed).push(inline)
        } else {
            rest.take(needed)
        };
        match store_all(reg, st, ps, values) {
            Ok(next) => Step::Continue(next, needed as nat),
            Err(e) => Step::Fail(e),
        }
    }
}

/// A hyphen with `letters` behind it, each the name of an option, and `inline`
/// behind the letters. An unknown letter is reported, the first one first. The
/// flags are set. Without stacking, a parameter that is not the one last letter
/// is left without a value. A value behind a flag is refused. Otherwise the
/// parameters get their values.
pub open spec fn rule_bundle(
    reg: Registry,
    st: Progress,
    letters: Text,
    inline: Text,
    rest: Seq<Text>,
) -> Step {
    let known = known_run(reg, letters);
    if known < letters.len() {
        Step::Fail(Failure::UnrecognizedOption(seq![letters[known as int]]))
    } else {
        let rs = bundle(reg, letters);
        let ps = params_of(rs);
        let flagged = Progress { flags: st.flags.union(flags_of(rs)), ..st };
        if ps.len() > 0 && !reg.features.param_stacking && (rs.last().is_flag || ps.len() > 1) {
            Step::Fail(missing_argument(ps[0]))
        } else if rs.last().is_flag && inline.len() > 0 {
            Step::Fail(assignment_to_flag(rs.last()))
        } else {
            distribute(reg, flagged, ps, inline, rest)
        }
    }
}

/// An argument that begins with a hyphen: the alphabetic characters behind the
/// hyphen are one-letter option names, and what follows them is a value.
pub open spec fn rule_single(reg: Registry, st: Progress, token: Text, rest: Seq<Text>) -> Step {
    let n = letter_run(token.skip(1)) as int;
    let letters = token.subrange(1, 1 + n);
    let inline = token.skip(1 + n);
    if n == 0 {
        rule_naked(reg, st, inline, rest)
    } else {
        rule_bundle(reg, st, letters, inline, rest)
    }
}

/// An argument that no option syntax claims: a subcommand, which takes
/// everything behind it, or an unnamed argument. Without a subcommand index a
/// declared subcommand is recognized anywhere, by its full name. With one, a
/// subcommand is looked for only where as many unnamed arguments have been
/// read as the index says; what stands there and is none is refused if a
/// subcommand is required, and is an unnamed argument otherwise.
pub open spec fn rule_plain(reg: Registry, st: Progress, token: Text, rest: Seq<Text>) -> Step {
    let f = reg.features;
    if !f.subcmd_index {
        if reg.has_subcommand(token) {
            Step::Stop(st.delegate(token, rest))
        } else {
            Step::Continue(st.with_unnamed(token), 0)
        }
    } else if st.unnamed.len() != f.subcmd_index_value {
        Step::Continue(st.with_unnamed(token), 0)
    } else {
        let m = reg.subcommand_matches(token);
        if m.len() == 1 {
            Step::Stop(st.delegate(m[0], rest))
        } else if m.len() > 1 {
            Step::Fail(Failure::AmbiguousSubcommand(token, m))
        } else if f.subcmd_required {
            Step::Fail(Failure::UnrecognizedSubcommand(token))
        } else {
            Step::Continue(st.with_unnamed(token), 0)
        }
    }
}

/// The lone double hyphen: it and everything behind it is unnamed. The marker
/// itself is kept only if the configuration says so.
pub open spec fn rule_marker(reg: Registry, st: Progress, rest: Seq<Text>) -> Step {
    let kept = if reg.features.store_dh_marker {
        st.unnamed.push(hyphens())
    } else {
        st.unnamed
    };
    Step::Stop(Progress { unnamed: kept + rest, ..st })
}

/// Whether one of the option syntaxes claims `token`, so that it is never
/// looked at as a subcommand or an unnamed argument.
pub open spec fn claimed(reg: Registry, token: Text) -> bool {
    let f = reg.features;
    ||| f.dh_marker && token == hyphens()
    ||| (f.dha_syntax || f.dh_syntax) && hyphens().is_prefix_of(token) && (f.dh_syntax
        || first_index(token, '=') is Some)
    ||| f.sh_syntax && token.len() > 0 && token[0] == '-'
    ||| f.a_syntax && first_index(token, '=') is Some
}

/// Reads one argument, `token`, with the arguments `rest` behind it. The
/// syntaxes are tried in a fixed order and the first that applies decides.
pub open spec fn step(reg: Registry, st: Progress, token: Text, rest: Seq<Text>) -> Step {
    let f = reg.features;
    let eq = first_index(token, '=');
    if f.dh_marker && token == hyphens() {
        rule_marker(reg, st, rest)
    } else if f.dha_syntax && hyphens().is_prefix_of(token) && eq is Some {
        rule_assignment(reg, st, token.subrange(2, eq->0), token.skip(eq->0 + 1))
    } else if f.dh_syntax && hyphens().is_prefix_of(token) {
        rule_double(reg, st, token.skip(2), rest)
    } else if f.sh_syntax && token.len() > 0 && token[0] == '-' {
        rule_single(reg, st, token, rest)
    } else if f.a_syntax && eq is Some {
        rule_assignment(reg, st, token.take(eq->0), token.skip(eq->0 + 1))
    } else {
        rule_plain(reg, st, token, rest)
    }
}

/// Reads the arguments `tokens` from left to right.
pub open spec fn run(reg: Registry, st: Progress, tokens: Seq<Text>) -> Result<Progress, Failure>
    decreases tokens.len(),
{
    if tokens.len() == 0 {
        Ok(st)
    } else {
        match step(reg, st, tokens[0], tokens.skip(1)) {
            Step::Fail(e) => Err(e),
            Step::Stop(last) => Ok(last),
            Step::Continue(next, used) => if used < tokens.len() {
                run(reg, next, tokens.skip(1 + used as int))
            } else {
                Ok(next)
            },
        }
    }
}

/// The required parameters among `options` that `params` holds no value for,
/// in the catalog's order.
pub open spec fn missing_required(options: Seq<Entry>, params: Map<Text, Text>) -> Seq<Text>
    decreases options.len(),
{
    if options.len() == 0 {
        Seq::empty()
    } else if options.last().desc == Desc::Param(true) && !params.contains_key(
        options.last().name,
    ) {
        missing_required(options.drop_last(), params).push(options.last().name)
    } else {
        missing_required(options.drop_last(), params)
    }
}

/// What is checked once every argument is read: a required subcommand must
/// have been found, and every required parameter must have a value. All the
/// parameters that lack one are reported together.
pub open spec fn finish(reg: Registry, name: Text, st: Progress) -> Result<Outcome, Failure> {
    let missing = missing_required(reg.options, st.params);
    if reg.features.subcmd_required && st.subcommand.len() == 0 {
        Err(Failure::MissingRequiredSubcommand)
    } else if missing.len() > 0 {
        Err(Failure::MissingRequiredParameters(missing))
    } else {
        Ok(
            Outcome {
                name,
                flags: st.flags,
                params: st.params,
                unnamed: st.unnamed,
                subcommand: st.subcommand,
            },
        )
    }
}

/// What parsing `tokens` under the catalog `reg` gives. The first argument is
/// the name under which the program was called and is never interpreted; an
/// empty argument list has the empty name.
pub open spec fn parse_spec(reg: Registry, tokens: Seq<Text>) -> Result<Outcome, Failure> {
    let name = if tokens.len() == 0 {
        Seq::empty()
    } else {
        tokens[0]
    };
    let arguments = if tokens.len() == 0 {
        tokens
    } else {
        tokens.skip(1)
    };
    match run(reg, Progress::empty(), arguments) {
        Ok(st) => finish(reg, name, st),
        Err(e) => Err(e),
    }
}

} // verus!
