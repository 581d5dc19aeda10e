//! A smaller front end to the parser: flags, named parameters and aliases
//! in the three hyphen syntaxes.

use vstd::prelude::*;
use vstd::string::*;
use crate::parsing_config::{
    lemma_index_of, lemma_surviving_members, lemma_with_option_wf, lemma_without_option_wf,
    ArgDesc, ConfigError, Desc, Entry, Features, ParsingConfig, Registry,
};
use crate::parsing_error::{Failure, ParsingError};
use crate::parsing_results::{ParsingResults, Results};
use crate::resolve::{candidates, prefixed};
use crate::rules::parse_spec;
use crate::text::{alphabetic, chars_of, same_text, starts_with, texts, Text};

verus! {

/// A `Parser`'s option names are made of letters and hyphens, and are not empty.
pub open spec fn option_name(name: Text) -> bool {
    &&& name.len() > 0
    &&& forall|i: int| 0 <= i < name.len() ==> alphabetic(#[trigger] name[i]) || name[i] == '-'
}

/// The names of the flags and parameters among `options`, without the
/// aliases, in order.
pub open spec fn direct_names(options: Seq<Entry>) -> Seq<Text>
    decreases options.len(),
{
    if options.len() == 0 {
        Seq::empty()
    } else if options.last().desc is Alias {
        direct_names(options.drop_last())
    } else {
        direct_names(options.drop_last()).push(options.last().name)
    }
}

impl Features {
    /// The switches of a `Parser`: the three hyphen syntaxes and option
    /// completion, and the double hyphen marker as `marker` says.
    pub open spec fn front_end(marker: bool) -> Features {
        Features {
            dh_marker: marker,
            store_dh_marker: false,
            sh_syntax: true,
            dh_syntax: true,
            dha_syntax: true,
            a_syntax: false,
            param_stacking: false,
            param_duplication: false,
            option_completion: true,
            subcmd_completion: false,
            subcmd_index: false,
            subcmd_required: false,
            subcmd_index_value: 0,
        }
    }
}

impl Registry {
    /// Whether the catalog is one that a `Parser` holds: well-formed, with a
    /// `Parser`'s switches, without subcommands and required parameters, and
    /// with names of letters and hyphens.
    pub open spec fn is_front_end(self) -> bool {
        &&& self.wf()
        &&& self.subcmds.len() == 0
        &&& self.features == Features::front_end(self.features.dh_marker)
        &&& forall|i: int|
            0 <= i < self.options.len() ==> option_name((#[trigger] self.options[i]).name)
                && self.options[i].desc != Desc::Param(true)
    }

    /// The option that `name` stands for: what it is an alias of, or itself.
    pub open spec fn stands_for(self, name: Text) -> Text {
        match self.lookup(name) {
            Some(Desc::Alias(target)) => target,
            _ => name,
        }
    }

    /// Why a `Parser` cannot declare a flag or a named parameter under `name`,
    /// if it cannot.
    pub open spec fn front_refusal(self, name: Text) -> Option<ConfigError> {
        if self.has_option(name) {
            Some(ConfigError::NameTaken)
        } else if !option_name(name) {
            Some(ConfigError::InvalidName)
        } else {
            None
        }
    }

    /// Why a `Parser` cannot declare `name` as an alias of `target`, if it cannot.
    pub open spec fn front_alias_refusal(self, name: Text, target: Text) -> Option<ConfigError> {
        if self.has_option(name) {
            Some(ConfigError::NameTaken)
        } else if !self.is_target(target) {
            Some(ConfigError::UnknownTarget)
        } else if !option_name(name) {
            Some(ConfigError::InvalidName)
        } else {
            None
        }
    }
}

/// What a `Parser` with the catalog `reg` makes of `tokens`: what `parse_spec`
/// does, without a subcommand.
pub open spec fn front_parse(reg: Registry, tokens: Seq<Text>) -> Result<Results, Failure> {
    match parse_spec(reg, tokens) {
        Ok(outcome) => Ok(
            Results {
                path: outcome.name,
                flags: outcome.flags,
                named_params: outcome.params,
                unnamed_params: outcome.unnamed,
            },
        ),
        Err(e) => Err(e),
    }
}

/// A `Parser`'s result as plain data.
pub open spec fn results_of(r: Result<ParsingResults, ParsingError>) -> Result<Results, Failure> {
    match r {
        Ok(results) => Ok(results@),
        Err(e) => Err(e@),
    }
}

/// `direct_names` holds exactly the names of the flags and parameters.
pub proof fn lemma_direct_names(options: Seq<Entry>, name: Text)
    ensures
        direct_names(options).contains(name) <==> exists|i: int|
            0 <= i < options.len() && (#[trigger] options[i]).name == name && !(options[i].desc
                is Alias),
    decreases options.len(),
{
    if options.len() > 0 {
        let front = options.drop_last();
        lemma_direct_names(front, name);
        let inner = direct_names(front);
        let out = direct_names(options);
        if out.contains(name) {
            let k = choose|k: int| 0 <= k < out.len() && out[k] == name;
            if !(options.last().desc is Alias) && k == out.len() - 1 {
                assert(options[options.len() - 1].name == name);
            } else {
                assert(inner[k] == name);
                assert(inner.contains(name));
                let i = choose|i: int|
                    0 <= i < front.len() && (#[trigger] front[i]).name == name && !(front[i].desc
                        is Alias);
                assert(options[i].name == name);
            }
        }
        if exists|i: int|
            0 <= i < options.len() && (#[trigger] options[i]).name == name && !(options[i].desc
                is Alias) {
            let i = choose|i: int|
                0 <= i < options.len() && (#[trigger] options[i]).name == name && !(options[i].desc
                    is Alias);
            if i == options.len() - 1 {
                assert(out[out.len() - 1] == name);
            } else {
                assert(front[i].name == name);
                assert(inner.contains(name));
                let k = choose|k: int| 0 <= k < inner.len() && inner[k] == name;
                assert(out[k] == name);
            }
        }
    } else {
        assert(!direct_names(options).contains(name));
    }
}

/// Declaring an option under a name of letters and hyphens keeps a `Parser`'s
/// catalog one.
pub proof fn lemma_front_end_with_option(reg: Registry, name: Text, desc: Desc)
    requires
        reg.is_front_end(),
        !reg.has_option(name),
        option_name(name),
        desc != Desc::Param(true),
        desc matches Desc::Alias(t) ==> reg.is_target(t),
    ensures
        reg.with_option(name, desc).is_front_end(),
{
    assert(!reg.has_subcommand(name));
    lemma_with_option_wf(reg, name, desc);
    let out = reg.with_option(name, desc);
    let p = crate::parsing_config::rank(reg.names(), name);
    crate::parsing_config::lemma_rank_splits(reg.names(), name);
    assert forall|i: int| 0 <= i < out.options.len() implies option_name(
        (#[trigger] out.options[i]).name,
    ) && out.options[i].desc != Desc::Param(true) by {
        if i != p {
            let o = if i < p {
                i
            } else {
                i - 1
            };
            assert(out.options[i] == reg.options[o]);
        }
    }
}

/// Removing an option keeps a `Parser`'s catalog one.
pub proof fn lemma_front_end_without_option(reg: Registry, name: Text)
    requires
        reg.is_front_end(),
    ensures
        reg.without_option(name).is_front_end(),
{
    lemma_without_option_wf(reg, name);
    lemma_surviving_members(reg.options, name);
    let out = reg.without_option(name);
    assert forall|i: int| 0 <= i < out.options.len() implies option_name(
        (#[trigger] out.options[i]).name,
    ) && out.options[i].desc != Desc::Param(true) by {
        let e = out.options[i];
        assert(out.options.contains(e));
        assert(reg.options.contains(e));
        let k = choose|k: int| 0 <= k < reg.options.len() && reg.options[k] == e;
        assert(option_name(reg.options[k].name));
    }
}

/// Object used to parse command-line arguments in the three hyphen syntaxes.
///
/// Holds the flags, the named parameters and the aliases of a program, and
/// reads argument lists as a `ParsingConfig` with these syntaxes does.
pub struct Parser {
    pub(crate) config: ParsingConfig,
}

impl View for Parser {
    type V = Registry;

    open(crate) spec fn view(&self) -> Registry {
        self.config@
    }
}

impl Parser {
    /// Whether what the `Parser` holds is a catalog such as its functions build.
    pub open spec fn wf(&self) -> bool {
        self@.is_front_end()
    }

    /// Constructs and returns a new `Parser` object, with the double hyphen
    /// marker enabled and nothing declared.
    pub fn new() -> (r: Parser)
        ensures
            r.wf(),
            r@ == (Registry {
                features: Features::front_end(true),
                options: Seq::empty(),
                subcmds: Seq::empty(),
            }),
    {
        let mut config = ParsingConfig::new_all_disabled();
        config.set_double_hyphen_marker(true);
        config.set_single_hyphen_syntax(true);
        config.set_double_hyphen_syntax(true);
        config.set_double_hyphen_assignment_syntax(true);
        config.set_option_completion(true);
        Parser { config }
    }

    /// Returns `true` if the specified `name` is a valid option name.
    /// An option's name is not empty and holds only letters and hyphens.
    pub fn is_valid_option_name(name: &str) -> (r: bool)
        ensures
            r == option_name(name@),
    {
        let chars = chars_of(name);
        if chars.len() == 0 {
            return false;
        }
        let mut i: usize = 0;
        while i < chars.len()
            invariant
                i <= chars.len(),
                chars@ == name@,
                forall|j: int| 0 <= j < i ==> alphabetic(#[trigger] name@[j]) || name@[j] == '-',
            decreases chars.len() - i,
        {
            if !chars[i].is_alphabetic() && chars[i] != '-' {
                return false;
            }
            i += 1;
        }
        true
    }

    /// Returns `true` if the `Parser` currently has an option or an alias with
    /// the specified `name`.
    pub fn has_option(&self, name: &str) -> (r: bool)
        requires
            self.wf(),
        ensures
            r == self@.has_option(name@),
    {
        self.config.has_option(name)
    }

    /// Removes any option with the specified `name` from the `Parser`.
    /// Does nothing if there is no such option.
    ///
    /// If an option is removed, all aliases of that option are removed as well.
    /// If an alias is removed, only that alias is removed and nothing else.
    pub fn remove_option(&mut self, name: &str)
        requires
            old(self).wf(),
        ensures
            final(self).wf(),
            final(self)@ == old(self)@.without_option(name@),
    {
        proof {
            lemma_front_end_without_option(self@, name@);
        }
        self.config.remove_option(name);
    }

    /// Registers a new flag with the `Parser` under the specified `name`,
    /// which must be a valid option name that no option or alias bears yet.
    pub fn add_flag(&mut self, name: String) -> (r: &mut Parser)
        requires
            old(self).wf(),
            !old(self)@.has_option(name@),
            option_name(name@),
        ensures
            r.wf(),
            r@ == old(self)@.with_option(name@, Desc::Flag),
            *final(self) == *final(r),
    {
        proof {
            lemma_front_end_with_option(self@, name@, Desc::Flag);
        }
        self.config.place_option(name, ArgDesc::Flag);
        self
    }

    /// Registers a new named parameter with the `Parser` under the specified
    /// `name`, which must be a valid option name that no option or alias
    /// bears yet. Its value is kept as it is written; the type is chosen
    /// where the value is asked for.
    pub fn add_named_param(&mut self, name: String) -> (r: &mut Parser)
        requires
            old(self).wf(),
            !old(self)@.has_option(name@),
            option_name(name@),
        ensures
            r.wf(),
            r@ == old(self)@.with_option(name@, Desc::Param(false)),
            *final(self) == *final(r),
    {
        proof {
            lemma_front_end_with_option(self@, name@, Desc::Param(false));
        }
        self.config.place_option(name, ArgDesc::Param(false));
        self
    }

    /// Registers a new alias with the `Parser` with the specified `name` to
    /// the specified `target`. The name must be a valid option name that no
    /// option or alias bears yet, and the target a flag or a named parameter.
    pub fn add_alias(&mut self, name: String, target: String) -> (r: &mut Parser)
        requires
            old(self).wf(),
            !old(self)@.has_option(name@),
            old(self)@.is_target(target@),
            option_name(name@),
        ensures
            r.wf(),
            r@ == old(self)@.with_option(name@, Desc::Alias(target@)),
            *final(self) == *final(r),
    {
        proof {
            lemma_front_end_with_option(self@, name@, Desc::Alias(target@));
        }
        self.config.place_option(name, ArgDesc::Alias(target));
        self
    }

    /// Why a flag or a named parameter cannot be registered under `name`, if it cannot.
    fn refuse(&self, name: &String) -> (r: Option<ConfigError>)
        requires
            self.wf(),
        ensures
            r == self@.front_refusal(name@),
    {
        if self.config.has_option(name.as_str()) {
            Some(ConfigError::NameTaken)
        } else if !Self::is_valid_option_name(name.as_str()) {
            Some(ConfigError::InvalidName)
        } else {
            None
        }
    }

    /// Registers a new flag under the specified `name`, or says why it cannot
    /// be registered and leaves the `Parser` as it is.
    pub fn try_add_flag(&mut self, name: String) -> (r: Result<(), ConfigError>)
        requires
            old(self).wf(),
        ensures
            final(self).wf(),
            match old(self)@.front_refusal(name@) {
                Some(e) => r == Err::<(), ConfigError>(e) && final(self)@ == old(self)@,
                None => r == Ok::<(), ConfigError>(()) && final(self)@ == old(self)@.with_option(
                    name@,
                    Desc::Flag,
                ),
            },
    {
        match self.refuse(&name) {
            Some(e) => Err(e),
            None => {
                self.add_flag(name);
                Ok(())
            },
        }
    }

    /// Registers a new named parameter under the specified `name`, or says why
    /// it cannot be registered and leaves the `Parser` as it is.
    pub fn try_add_named_param(&mut self, name: String) -> (r: Result<(), ConfigError>)
        requires
            old(self).wf(),
        ensures
            final(self).wf(),
            match old(self)@.front_refusal(name@) {
                Some(e) => r == Err::<(), ConfigError>(e) && final(self)@ == old(self)@,
                None => r == Ok::<(), ConfigError>(()) && final(self)@ == old(self)@.with_option(
                    name@,
                    Desc::Param(false),
                ),
            },
    {
        match self.refuse(&name) {
            Some(e) => Err(e),
            None => {
                self.add_named_param(name);
                Ok(())
            },
        }
    }

    /// Registers a new alias with the specified `name` to the specified
    /// `target`, or says why it cannot be registered and leaves the `Parser`
    /// as it is.
    pub fn try_add_alias(&mut self, name: String, target: String) -> (r: Result<(), ConfigError>)
        requires
            old(self).wf(),
        ensures
            final(self).wf(),
            match old(self)@.front_alias_refusal(name@, target@) {
                Some(e) => r == Err::<(), ConfigError>(e) && final(self)@ == old(self)@,
                None => r == Ok::<(), ConfigError>(()) && final(self)@ == old(self)@.with_option(
                    name@,
                    Desc::Alias(target@),
                ),
            },
    {
        if self.config.has_option(name.as_str()) {
            return Err(ConfigError::NameTaken);
        }
        let chars = chars_of(target.as_str());
        let is_target = match self.config.find_option(chars.as_slice()) {
            Some(i) => {
                proof {
                    lemma_index_of(self@, i as int);
                }
                match &self.config.options[i].desc {
                    ArgDesc::Alias(_) => false,
                    _ => true,
                }
            },
            None => false,
        };
        if !is_target {
            Err(ConfigError::UnknownTarget)
        } else if !Self::is_valid_option_name(name.as_str()) {
            Err(ConfigError::InvalidName)
        } else {
            self.add_alias(name, target);
            Ok(())
        }
    }

    /// Returns `true` if the double-hyphen marker is enabled.
    pub fn double_hyphen_marker(&self) -> (r: bool)
        ensures
            r == self@.features.dh_marker,
    {
        self.config.features.dh_marker
    }

    /// Enables the double-hyphen marker.
    pub fn enable_double_hyphen_marker(&mut self)
        requires
            old(self).wf(),
        ensures
            final(self).wf(),
            final(self)@ == (Registry { features: Features::front_end(true), ..old(self)@ }),
    {
        self.config.set_double_hyphen_marker(true);
    }

    /// Disables the double-hyphen marker.
    pub fn disable_double_hyphen_marker(&mut self)
        requires
            old(self).wf(),
        ensures
            final(self).wf(),
            final(self)@ == (Registry { features: Features::front_end(false), ..old(self)@ }),
    {
        self.config.set_double_hyphen_marker(false);
    }

    /// Matches the specified `partial` option name to the flags and named
    /// parameters registered with the `Parser`. A `partial` matches an option
    /// if that option's name starts with `partial`. Matches are returned as a
    /// sorted vector of the options' names.
    ///
    /// If an option bears the name `partial`, only that option is returned.
    pub fn match_options(&self, partial: &str) -> (r: Vec<String>)
        ensures
            texts(r@) == candidates(direct_names(self@.options), partial@),
    {
        let chars = chars_of(partial);
        let ghost options = self@.options;
        let mut matches: Vec<String> = Vec::new();
        let mut i: usize = 0;
        proof {
            assert(options.take(0) =~= Seq::<Entry>::empty());
            assert(texts(matches@) =~= prefixed(direct_names(options.take(0)), partial@));
        }
        while i < self.config.options.len()
            invariant
                i <= self.config.options.len(),
                chars@ == partial@,
                options == self@.options,
                texts(matches@) == prefixed(direct_names(options.take(i as int)), partial@),
                forall|j: int|
                    0 <= j < i ==> (#[trigger] options[j]).name != partial@ || options[j].desc
                        is Alias,
            decreases self.config.options.len() - i,
        {
            let entry = &self.config.options[i];
            proof {
                assert(options.take(i + 1).drop_last() =~= options.take(i as int));
                assert(options.take(i + 1).last() == entry@);
                let names = direct_names(options.take(i as int));
                assert(names.push(entry@.name).drop_last() =~= names);
            }
            let is_alias = match &entry.desc {
                ArgDesc::Alias(_) => true,
                _ => false,
            };
            if !is_alias {
                if same_text(entry.name.chars(), chars.as_slice()) {
                    let only = vec![entry.name.text().clone()];
                    proof {
                        lemma_direct_names(options, partial@);
                        assert(texts(only@) =~= seq![partial@]);
                    }
                    return only;
                } else if starts_with(entry.name.chars(), chars.as_slice()) {
                    let ghost prev = matches@;
                    matches.push(entry.name.text().clone());
                    assert(texts(matches@) =~= texts(prev).push(entry@.name));
                }
            }
            i += 1;
        }
        proof {
            assert(options.take(options.len() as int) =~= options);
            lemma_direct_names(options, partial@);
        }
        matches
    }

    /// Returns the definite name of an option. If the specified `name` is an
    /// alias, returns the name of the option it stands for. Otherwise,
    /// returns the same string.
    pub fn resolve(&self, name: String) -> (r: String)
        requires
            self.wf(),
        ensures
            r@ == self@.stands_for(name@),
    {
        let chars = chars_of(name.as_str());
        match self.config.find_option(chars.as_slice()) {
            Some(i) => match &self.config.options[i].desc {
                ArgDesc::Alias(target) => {
                    proof {
                        lemma_index_of(self@, i as int);
                        assert(self@.options[i as int].desc == Desc::Alias(target@));
                    }
                    target.clone()
                },
                _ => {
                    proof {
                        lemma_index_of(self@, i as int);
                    }
                    name
                },
            },
            None => name,
        }
    }

    /// Parses the specified command-line arguments. Returns what the
    /// arguments hold, or the first reason for which they are refused.
    pub fn parse(&self, args: Vec<String>) -> (r: Result<ParsingResults, ParsingError>)
        requires
            self.wf(),
        ensures
            results_of(r) == front_parse(self@, texts(args@)),
    {
        match crate::parse::parse(args, &self.config) {
            Ok(parsed) => Ok(
                ParsingResults {
                    path: parsed.name,
                    flags: parsed.flags,
                    named_params: parsed.params,
                    unnamed_params: parsed.unnameds,
                },
            ),
            Err(e) => Err(e),
        }
    }
}

} // verus!
