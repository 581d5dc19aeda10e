//! From a written name to the option or subcommand that it stands for: the
//! name itself if it is declared, or else the one declared name it begins.

use vstd::prelude::*;
use vstd::string::*;
use crate::parsing_config::{lemma_index_of, ArgDesc, Desc, ParsingConfig, Registry};
use crate::parsing_error::{Failure, ParsingError};
use crate::text::{ascending, before, chars_of, starts_with, texts, Text};

verus! {

/// What a written name leads to: the flag or parameter it stands for, the alias
/// through which it was reached (if it was), and whether the option is a flag.
pub struct Resolved {
    pub target: Text,
    pub alias: Option<Text>,
    pub is_flag: bool,
}

/// The names of `names` that begin with `cand`, in the order of `names`.
pub open spec fn prefixed(names: Seq<Text>, cand: Text) -> Seq<Text>
    decreases names.len(),
{
    if names.len() == 0 {
        Seq::empty()
    } else if cand.is_prefix_of(names.last()) {
        prefixed(names.drop_last(), cand).push(names.last())
    } else {
        prefixed(names.drop_last(), cand)
    }
}

/// The names that `cand` can stand for among `names`: `cand` alone if it is one
/// of them, otherwise every name that begins with it.
pub open spec fn candidates(names: Seq<Text>, cand: Text) -> Seq<Text> {
    if names.contains(cand) {
        seq![cand]
    } else {
        prefixed(names, cand)
    }
}

impl Registry {
    /// What the declared name `name` leads to.
    pub open spec fn resolved(self, name: Text) -> Resolved {
        match self.desc_of(name) {
            Desc::Flag => Resolved { target: name, alias: None, is_flag: true },
            Desc::Param(_) => Resolved { target: name, alias: None, is_flag: false },
            Desc::Alias(target) => Resolved {
                target,
                alias: Some(name),
                is_flag: self.desc_of(target) is Flag,
            },
        }
    }

    /// The declared names that the written name `cand` can stand for: itself if
    /// it is declared; otherwise, with completion, every name it is a prefix of.
    pub open spec fn option_matches(self, cand: Text) -> Seq<Text> {
        if self.features.option_completion {
            candidates(self.names(), cand)
        } else if self.has_option(cand) {
            seq![cand]
        } else {
            Seq::empty()
        }
    }

    /// The option that the written name `cand` stands for, or why it stands for none.
    pub open spec fn resolve_option(self, cand: Text) -> Result<Resolved, Failure> {
        let m = self.option_matches(cand);
        if m.len() == 0 {
            Err(Failure::UnrecognizedOption(cand))
        } else if m.len() == 1 {
            Ok(self.resolved(m[0]))
        } else {
            Err(Failure::AmbiguousOption(cand, m))
        }
    }

    /// The subcommands that the written name `cand` can stand for: itself if it
    /// is declared; otherwise, with completion, every subcommand it is a prefix of.
    pub open spec fn subcommand_matches(self, cand: Text) -> Seq<Text> {
        if self.features.subcmd_completion {
            candidates(self.subcmds, cand)
        } else if self.has_subcommand(cand) {
            seq![cand]
        } else {
            Seq::empty()
        }
    }

    /// The subcommand that the written name `cand` stands for, or why it stands for none.
    pub open spec fn resolve_subcommand(self, cand: Text) -> Result<Text, Failure> {
        let m = self.subcommand_matches(cand);
        if m.len() == 0 {
            Err(Failure::UnrecognizedSubcommand(cand))
        } else if m.len() == 1 {
            Ok(m[0])
        } else {
            Err(Failure::AmbiguousSubcommand(cand, m))
        }
    }
}

/// The names at the places `at`.
pub open spec fn picked(names: Seq<Text>, at: Seq<usize>) -> Seq<Text> {
    Seq::new(at.len(), |k: int| names[at[k] as int])
}

/// `prefixed` keeps exactly the names that begin with `cand`.
pub proof fn lemma_prefixed_members(names: Seq<Text>, cand: Text)
    ensures
        forall|t: Text|
            #[trigger] prefixed(names, cand).contains(t) <==> names.contains(t)
                && cand.is_prefix_of(t),
    decreases names.len(),
{
    if names.len() == 0 {
        assert forall|t: Text| !(#[trigger] prefixed(names, cand).contains(t)) by {}
    } else {
        let front = names.drop_last();
        lemma_prefixed_members(front, cand);
        let out = prefixed(names, cand);
        assert forall|t: Text| #[trigger] out.contains(t) <==> names.contains(t)
            && cand.is_prefix_of(t) by {
            if out.contains(t) {
                let k = choose|k: int| 0 <= k < out.len() && out[k] == t;
                if cand.is_prefix_of(names.last()) && k == out.len() - 1 {
                    assert(names[names.len() - 1] == t);
                } else {
                    assert(prefixed(front, cand)[k] == t);
                    assert(prefixed(front, cand).contains(t));
                    assert(front.contains(t));
                    let j = choose|j: int| 0 <= j < front.len() && front[j] == t;
                    assert(names[j] == t);
                }
            }
            if names.contains(t) && cand.is_prefix_of(t) {
                let j = choose|j: int| 0 <= j < names.len() && names[j] == t;
                if j == names.len() - 1 {
                    assert(out[out.len() - 1] == t);
                } else {
                    assert(front[j] == t);
                    assert(prefixed(front, cand).contains(t));
                    let k = choose|k: int|
                        0 <= k < prefixed(front, cand).len() && prefixed(front, cand)[k] == t;
                    assert(out[k] == t);
                }
            }
        }
    }
}

/// `prefixed` keeps the order of the names: what it takes from an ascending
/// sequence is ascending.
pub proof fn lemma_prefixed_ascending(names: Seq<Text>, cand: Text)
    requires
        ascending(names),
    ensures
        ascending(prefixed(names, cand)),
    decreases names.len(),
{
    if names.len() > 0 {
        let front = names.drop_last();
        assert forall|i: int, j: int| 0 <= i < j < front.len() implies before(
            #[trigger] front[i],
            #[trigger] front[j],
        ) by {
            assert(front[i] == names[i] && front[j] == names[j]);
        }
        lemma_prefixed_ascending(front, cand);
        lemma_prefixed_members(front, cand);
        let inner = prefixed(front, cand);
        let out = prefixed(names, cand);
        assert forall|i: int, j: int| 0 <= i < j < out.len() implies before(
            #[trigger] out[i],
            #[trigger] out[j],
        ) by {
            if j < inner.len() {
                assert(out[i] == inner[i] && out[j] == inner[j]);
            } else {
                assert(out[i] == inner[i]);
                assert(inner.contains(inner[i]));
                assert(front.contains(out[i]));
                let k = choose|k: int| 0 <= k < front.len() && front[k] == out[i];
                assert(names[k] == out[i]);
                assert(out[j] == names[names.len() - 1]);
            }
        }
    }
}

/// An option as the parser has resolved it.
pub struct Target {
    /// The flag or parameter that was meant.
    pub name: String,
    /// The alias through which it was reached, if it was.
    pub alias: Option<String>,
    /// Whether it is a flag.
    pub is_flag: bool,
}

impl View for Target {
    type V = Resolved;

    open spec fn view(&self) -> Resolved {
        Resolved {
            target: self.name@,
            alias: match self.alias {
                Some(a) => Some(a@),
                None => None,
            },
            is_flag: self.is_flag,
        }
    }
}

/// The places of the options that `name` can stand for: the one that bears the
/// name, or else all whose names begin with it, in ascending order.
pub fn match_option(config: &ParsingConfig, name: &[char]) -> (r: Vec<usize>)
    requires
        config@.wf(),
    ensures
        forall|k: int| 0 <= k < r@.len() ==> r@[k] < config@.options.len(),
        picked(config@.names(), r@) == candidates(config@.names(), name@),
{
    let ghost names = config@.names();
    if let Some(i) = config.find_option(name) {
        let r = vec![i];
        proof {
            assert(names[i as int] == name@);
            assert(picked(names, r@) =~= seq![name@]);
        }
        return r;
    }
    proof {
        if names.contains(name@) {
            let k = choose|k: int| 0 <= k < names.len() && names[k] == name@;
            assert(config@.options[k].name == name@);
        }
    }
    let mut r: Vec<usize> = Vec::new();
    let mut i: usize = 0;
    assert(names.take(0) =~= Seq::<Text>::empty());
    assert(picked(names, r@) =~= prefixed(names.take(0), name@));
    while i < config.options.len()
        invariant
            i <= config.options.len(),
            names == config@.names(),
            forall|k: int| 0 <= k < r@.len() ==> r@[k] < config@.options.len(),
            picked(names, r@) == prefixed(names.take(i as int), name@),
        decreases config.options.len() - i,
    {
        proof {
            assert(names.take(i + 1).drop_last() =~= names.take(i as int));
            assert(names.take(i + 1).last() == config@.options[i as int].name);
        }
        if starts_with(config.options[i].name.chars(), name) {
            let ghost before_push = r@;
            r.push(i);
            assert(picked(names, r@) =~= picked(names, before_push).push(names[i as int]));
        }
        i += 1;
    }
    assert(names.take(names.len() as int) =~= names);
    r
}

/// The places of the subcommands that `name` can stand for: the one that bears
/// the name, or else all whose names begin with it, in ascending order.
pub fn match_subcmd(config: &ParsingConfig, name: &[char]) -> (r: Vec<usize>)
    ensures
        forall|k: int| 0 <= k < r@.len() ==> r@[k] < config@.subcmds.len(),
        picked(config@.subcmds, r@) == candidates(config@.subcmds, name@),
{
    let ghost names = config@.subcmds;
    if let Some(i) = config.find_subcommand(name) {
        let r = vec![i];
        proof {
            assert(picked(names, r@) =~= seq![name@]);
        }
        return r;
    }
    let mut r: Vec<usize> = Vec::new();
    let mut i: usize = 0;
    assert(names.take(0) =~= Seq::<Text>::empty());
    assert(picked(names, r@) =~= prefixed(names.take(0), name@));
    while i < config.subcmds.len()
        invariant
            i <= config.subcmds.len(),
            names == config@.subcmds,
            forall|k: int| 0 <= k < r@.len() ==> r@[k] < config@.subcmds.len(),
            picked(names, r@) == prefixed(names.take(i as int), name@),
        decreases config.subcmds.len() - i,
    {
        proof {
            assert(names.take(i + 1).drop_last() =~= names.take(i as int));
            assert(names.take(i + 1).last() == config@.subcmds[i as int]);
        }
        if starts_with(config.subcmds[i].chars(), name) {
            let ghost before_push = r@;
            r.push(i);
            assert(picked(names, r@) =~= picked(names, before_push).push(names[i as int]));
        }
        i += 1;
    }
    assert(names.take(names.len() as int) =~= names);
    r
}

/// What the option at place `i` leads to: itself, or the option it is an alias of.
pub fn resolve_target(config: &ParsingConfig, i: usize) -> (r: Target)
    requires
        config@.wf(),
        i < config@.options.len(),
    ensures
        r@ == config@.resolved(config@.options[i as int].name),
{
    proof {
        lemma_index_of(config@, i as int);
    }
    let entry = &config.options[i];
    match &entry.desc {
        ArgDesc::Flag => Target { name: entry.name.text().clone(), alias: None, is_flag: true },
        ArgDesc::Param(_) => Target {
            name: entry.name.text().clone(),
            alias: None,
            is_flag: false,
        },
        ArgDesc::Alias(target) => {
            assert(config@.options[i as int].desc == Desc::Alias(target@));
            let chars = chars_of(target.as_str());
            let is_flag = match config.find_option(chars.as_slice()) {
                Some(j) => match &config.options[j].desc {
                    ArgDesc::Flag => true,
                    _ => false,
                },
                None => false,
            };
            Target { name: target.clone(), alias: Some(entry.name.text().clone()), is_flag }
        },
    }
}

/// The names of the options at the places `at`.
fn option_names(config: &ParsingConfig, at: &Vec<usize>) -> (r: Vec<String>)
    requires
        forall|k: int| 0 <= k < at@.len() ==> at@[k] < config@.options.len(),
    ensures
        texts(r@) == picked(config@.names(), at@),
{
    let mut r: Vec<String> = Vec::new();
    let mut k: usize = 0;
    while k < at.len()
        invariant
            k <= at.len(),
            forall|k: int| 0 <= k < at@.len() ==> at@[k] < config@.options.len(),
            r@.len() == k,
            forall|j: int| 0 <= j < k ==> r@[j]@ == config@.names()[at@[j] as int],
        decreases at.len() - k,
    {
        r.push(config.options[at[k]].name.text().clone());
        k += 1;
    }
    assert(texts(r@) =~= picked(config@.names(), at@));
    r
}

/// The names of the subcommands at the places `at`.
fn subcommand_names(config: &ParsingConfig, at: &Vec<usize>) -> (r: Vec<String>)
    requires
        forall|k: int| 0 <= k < at@.len() ==> at@[k] < config@.subcmds.len(),
    ensures
        texts(r@) == picked(config@.subcmds, at@),
{
    let mut r: Vec<String> = Vec::new();
    let mut k: usize = 0;
    while k < at.len()
        invariant
            k <= at.len(),
            forall|k: int| 0 <= k < at@.len() ==> at@[k] < config@.subcmds.len(),
            r@.len() == k,
            forall|j: int| 0 <= j < k ==> r@[j]@ == config@.subcmds[at@[j] as int],
        decreases at.len() - k,
    {
        r.push(config.subcmds[at[k]].text().clone());
        k += 1;
    }
    assert(texts(r@) =~= picked(config@.subcmds, at@));
    r
}

/// Resolves a written option name: the option that bears it wins; with option
/// completion, an unambiguous prefix of a name stands for that name.
pub fn parse_option_name(config: &ParsingConfig, name: &str) -> (r: Result<Target, ParsingError>)
    requires
        config@.wf(),
    ensures
        match r {
            Ok(t) => config@.resolve_option(name@) == Ok::<Resolved, Failure>(t@),
            Err(e) => config@.resolve_option(name@) == Err::<Resolved, Failure>(e@),
        },
{
    let chars = chars_of(name);
    let ghost names = config@.names();
    if config.features.option_completion {
        let matches = match_option(config, chars.as_slice());
        if matches.len() == 0 {
            Err(ParsingError::UnrecognizedOption(name.to_owned()))
        } else if matches.len() == 1 {
            assert(picked(names, matches@)[0] == config@.options[matches@[0] as int].name);
            Ok(resolve_target(config, matches[0]))
        } else {
            Err(ParsingError::AmbiguousOption(name.to_owned(), option_names(config, &matches)))
        }
    } else {
        match config.find_option(chars.as_slice()) {
            Some(i) => Ok(resolve_target(config, i)),
            None => Err(ParsingError::UnrecognizedOption(name.to_owned())),
        }
    }
}

/// Resolves a written subcommand name: the subcommand that bears it wins; with
/// subcommand completion, an unambiguous prefix of a name stands for that name.
pub fn parse_subcommand_name(config: &ParsingConfig, name: &str) -> (r: Result<
    String,
    ParsingError,
>)
    ensures
        match r {
            Ok(t) => config@.resolve_subcommand(name@) == Ok::<Text, Failure>(t@),
            Err(e) => config@.resolve_subcommand(name@) == Err::<Text, Failure>(e@),
        },
{
    let chars = chars_of(name);
    let ghost names = config@.subcmds;
    if config.features.subcmd_completion {
        let matches = match_subcmd(config, chars.as_slice());
        if matches.len() == 0 {
            Err(ParsingError::UnrecognizedSubcommand(name.to_owned()))
        } else if matches.len() == 1 {
            assert(picked(names, matches@)[0] == config@.subcmds[matches@[0] as int]);
            Ok(config.subcmds[matches[0]].text().clone())
        } else {
            Err(
                ParsingError::AmbiguousSubcommand(
                    name.to_owned(),
                    subcommand_names(config, &matches),
                ),
            )
        }
    } else {
        match config.find_subcommand(chars.as_slice()) {
            Some(i) => Ok(config.subcmds[i].text().clone()),
            None => Err(ParsingError::UnrecognizedSubcommand(name.to_owned())),
        }
    }
}

} // verus!
