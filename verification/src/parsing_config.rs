//! The configuration: the switches and the catalog of flags, parameters,
//! aliases and subcommands, with the invariant that parsing rests on.

use vstd::prelude::*;
use vstd::string::*;
use crate::text::{
    alphabetic, ascending, before, chars_of, lemma_before_irreflexive, lemma_before_total,
    lemma_before_transitive, precedes, same_text, whitespace, Name, Text,
};

verus! {

/// What a declared option is.
#[derive(Debug, Clone, PartialEq, Eq)]
pub enum ArgDesc {
    /// An option that takes no value.
    Flag,
    /// An option that takes a value; the field says whether it must be given.
    Param(bool),
    /// Another name for the flag or parameter that the field names.
    Alias(String),
}

/// An `ArgDesc` as plain data.
pub enum Desc {
    Flag,
    Param(bool),
    Alias(Text),
}

impl View for ArgDesc {
    type V = Desc;

    open spec fn view(&self) -> Desc {
        match self {
            ArgDesc::Flag => Desc::Flag,
            ArgDesc::Param(required) => Desc::Param(*required),
            ArgDesc::Alias(target) => Desc::Alias(target@),
        }
    }
}

/// The switches that say which syntaxes are read and how edge cases are settled.
#[derive(Clone, Copy, Debug, PartialEq, Eq)]
pub struct Features {
    /// A lone `--` ends the options: everything behind it is unnamed.
    pub dh_marker: bool,
    /// The lone `--` is itself kept as an unnamed argument.
    pub store_dh_marker: bool,
    /// `-FLAGSP VALUE` and `-FLAGSP495`: one-letter options behind one hyphen.
    pub sh_syntax: bool,
    /// `--NAME` and `--NAME VALUE`.
    pub dh_syntax: bool,
    /// `--NAME=VALUE`.
    pub dha_syntax: bool,
    /// `NAME=VALUE`.
    pub a_syntax: bool,
    /// Several parameters may stand behind one hyphen; they take the next
    /// arguments in order.
    pub param_stacking: bool,
    /// A parameter may be given more than once; the last value stays.
    pub param_duplication: bool,
    /// A prefix of an option's name stands for the option if it is the prefix
    /// of no other.
    pub option_completion: bool,
    /// The same of subcommands, where a subcommand index is set.
    pub subcmd_completion: bool,
    /// The subcommand is looked for only behind `subcmd_index_value` unnamed
    /// arguments.
    pub subcmd_index: bool,
    /// An argument list without a subcommand is refused.
    pub subcmd_required: bool,
    /// The number of unnamed arguments that stand before the subcommand.
    pub subcmd_index_value: usize,
}

/// One declared option: its name and what it is.
pub struct Entry {
    pub name: Text,
    pub desc: Desc,
}

/// The catalog that the parser reads: the switches, the declared options in
/// ascending order of their names, and the subcommand names in ascending order.
pub struct Registry {
    pub features: Features,
    pub options: Seq<Entry>,
    pub subcmds: Seq<Text>,
}

/// A name may hold no whitespace, equals sign, apostrophe or quotation mark, and
/// it is empty or starts with an alphabetic character.
pub open spec fn valid_name(name: Text) -> bool {
    &&& forall|i: int|
        0 <= i < name.len() ==> !whitespace(#[trigger] name[i]) && name[i] != '=' && name[i] != '\''
            && name[i] != '"'
    &&& name.len() == 0 || alphabetic(name[0])
}

/// How many names at the start of `names` come before `name`: the place at which
/// `name` is put into an ascending sequence.
pub open spec fn rank(names: Seq<Text>, name: Text) -> int
    decreases names.len(),
{
    if names.len() > 0 && before(names[0], name) {
        1 + rank(names.skip(1), name)
    } else {
        0
    }
}

/// Whether removing the option `name` leaves the entry `e` in place: it is
/// neither that option nor an alias of it.
pub open spec fn survives(e: Entry, name: Text) -> bool {
    e.name != name && e.desc != Desc::Alias(name)
}

impl Registry {
    /// The names of the declared options, in the catalog's order.
    pub open spec fn names(self) -> Seq<Text> {
        Seq::new(self.options.len(), |i: int| self.options[i].name)
    }

    /// Whether an option, parameter or alias is declared under `name`.
    pub open spec fn has_option(self, name: Text) -> bool {
        exists|i: int| 0 <= i < self.options.len() && (#[trigger] self.options[i]).name == name
    }

    /// The place of the option called `name`.
    pub open spec fn index_of(self, name: Text) -> int {
        choose|i: int| 0 <= i < self.options.len() && (#[trigger] self.options[i]).name == name
    }

    /// What the option called `name` is.
    pub open spec fn desc_of(self, name: Text) -> Desc {
        self.options[self.index_of(name)].desc
    }

    /// What is declared under `name`, if anything.
    pub open spec fn lookup(self, name: Text) -> Option<Desc> {
        if self.has_option(name) {
            Some(self.desc_of(name))
        } else {
            None
        }
    }

    /// Whether `name` is a declared flag or parameter, not an alias.
    pub open spec fn is_target(self, name: Text) -> bool {
        self.has_option(name) && !(self.desc_of(name) is Alias)
    }

    /// The flag or parameter that `name` stands for: itself, or what it is an alias of.
    pub open spec fn final_target(self, name: Text) -> Text {
        match self.desc_of(name) {
            Desc::Alias(target) => target,
            _ => name,
        }
    }

    /// Whether `name` is a declared subcommand.
    pub open spec fn has_subcommand(self, name: Text) -> bool {
        self.subcmds.contains(name)
    }

    /// Whether nothing bears the name `name` yet.
    pub open spec fn is_free(self, name: Text) -> bool {
        !self.has_option(name) && !self.has_subcommand(name)
    }

    /// Whether `name` can still be declared: it is valid and nothing bears it yet.
    pub open spec fn admits(self, name: Text) -> bool {
        valid_name(name) && self.is_free(name)
    }

    /// Whether every name in the catalog is valid and no subcommand is empty.
    pub open spec fn well_named(self) -> bool {
        &&& forall|i: int| 0 <= i < self.options.len() ==> valid_name((#[trigger] self.options[i]).name)
        &&& forall|i: int|
            0 <= i < self.subcmds.len() ==> valid_name(#[trigger] self.subcmds[i])
                && self.subcmds[i].len() > 0
    }

    /// The catalog's invariant, on which parsing rests: names are ascending (so
    /// none occurs twice), options and subcommands share no name, and every
    /// alias names a declared flag or parameter.
    pub open spec fn wf(self) -> bool {
        &&& ascending(self.names())
        &&& ascending(self.subcmds)
        &&& forall|i: int, j: int|
            0 <= i < self.options.len() && 0 <= j < self.subcmds.len() ==> (
            #[trigger] self.options[i]).name != #[trigger] self.subcmds[j]
        &&& forall|i: int|
            0 <= i < self.options.len() ==> ((#[trigger] self.options[i]).desc matches Desc::Alias(
                t,
            ) ==> self.is_target(t))
    }

    /// The catalog with one more option.
    pub open spec fn with_option(self, name: Text, desc: Desc) -> Registry {
        Registry {
            options: self.options.insert(rank(self.names(), name), Entry { name, desc }),
            ..self
        }
    }

    /// The catalog with one more subcommand.
    pub open spec fn with_subcommand(self, name: Text) -> Registry {
        Registry { subcmds: self.subcmds.insert(rank(self.subcmds, name), name), ..self }
    }

    /// The catalog without the option `name` and without the aliases of it.
    pub open spec fn without_option(self, name: Text) -> Registry {
        Registry { options: surviving(self.options, name), ..self }
    }

    /// Why a flag or a parameter cannot be declared under `name`, if it cannot.
    pub open spec fn option_refusal(self, name: Text) -> Option<ConfigError> {
        if !valid_name(name) {
            Some(ConfigError::InvalidName)
        } else if !self.is_free(name) {
            Some(ConfigError::NameTaken)
        } else {
            None
        }
    }

    /// Why `name` cannot be declared as an alias of `target`, if it cannot.
    pub open spec fn alias_refusal(self, name: Text, target: Text) -> Option<ConfigError> {
        if self.option_refusal(name) is Some {
            self.option_refusal(name)
        } else if name == target {
            Some(ConfigError::SelfAlias)
        } else if !self.has_option(target) {
            Some(ConfigError::UnknownTarget)
        } else {
            None
        }
    }

    /// Why a subcommand cannot be declared under `name`, if it cannot.
    pub open spec fn subcommand_refusal(self, name: Text) -> Option<ConfigError> {
        if name.len() == 0 {
            Some(ConfigError::EmptySubcommand)
        } else {
            self.option_refusal(name)
        }
    }
}

/// Why a declaration is refused.
#[derive(Clone, Copy, Debug, PartialEq, Eq)]
pub enum ConfigError {
    /// The name holds whitespace, an equals sign, an apostrophe or a quotation
    /// mark, or it does not start with an alphabetic character.
    InvalidName,
    /// An option, an alias or a subcommand bears the name already.
    NameTaken,
    /// An alias was to stand for itself.
    SelfAlias,
    /// No option bears the name that an alias was to stand for.
    UnknownTarget,
    /// A subcommand was to have the empty name.
    EmptySubcommand,
}

/// The entries of `options` that are left when the option `name` is removed,
/// in their order.
pub open spec fn surviving(options: Seq<Entry>, name: Text) -> Seq<Entry>
    decreases options.len(),
{
    if options.len() == 0 {
        Seq::empty()
    } else if survives(options.last(), name) {
        surviving(options.drop_last(), name).push(options.last())
    } else {
        surviving(options.drop_last(), name)
    }
}

/// `surviving` keeps exactly the entries that survive.
pub proof fn lemma_surviving_members(options: Seq<Entry>, name: Text)
    ensures
        forall|e: Entry|
            #[trigger] surviving(options, name).contains(e) <==> options.contains(e) && survives(
                e,
                name,
            ),
    decreases options.len(),
{
    if options.len() == 0 {
        assert forall|e: Entry| !(#[trigger] surviving(options, name).contains(e)) by {}
    } else {
        let front = options.drop_last();
        lemma_surviving_members(front, name);
        let inner = surviving(front, name);
        let out = surviving(options, name);
        assert forall|e: Entry| #[trigger] out.contains(e) <==> options.contains(e) && survives(
            e,
            name,
        ) by {
            if out.contains(e) {
                let k = choose|k: int| 0 <= k < out.len() && out[k] == e;
                if survives(options.last(), name) && k == out.len() - 1 {
                    assert(options[options.len() - 1] == e);
                } else {
                    assert(inner[k] == e);
                    assert(inner.contains(e));
                    let j = choose|j: int| 0 <= j < front.len() && front[j] == e;
                    assert(options[j] == e);
                }
            }
            if options.contains(e) && survives(e, name) {
                let j = choose|j: int| 0 <= j < options.len() && options[j] == e;
                if j == options.len() - 1 {
                    assert(out[out.len() - 1] == e);
                } else {
                    assert(front[j] == e);
                    assert(inner.contains(e));
                    let k = choose|k: int| 0 <= k < inner.len() && inner[k] == e;
                    assert(out[k] == e);
                }
            }
        }
    }
}

/// `surviving` keeps the order: the names of what it takes from a catalog in
/// ascending order are ascending.
pub proof fn lemma_surviving_ascending(reg: Registry, name: Text)
    requires
        ascending(reg.names()),
    ensures
        ascending(reg.without_option(name).names()),
    decreases reg.options.len(),
{
    let options = reg.options;
    if options.len() > 0 {
        let front = Registry { options: options.drop_last(), ..reg };
        assert forall|i: int, j: int| 0 <= i < j < front.names().len() implies before(
            #[trigger] front.names()[i],
            #[trigger] front.names()[j],
        ) by {
            assert(front.names()[i] == reg.names()[i] && front.names()[j] == reg.names()[j]);
        }
        lemma_surviving_ascending(front, name);
        lemma_surviving_members(front.options, name);
        let inner = surviving(front.options, name);
        let out = reg.without_option(name).names();
        assert forall|i: int, j: int| 0 <= i < j < out.len() implies before(
            #[trigger] out[i],
            #[trigger] out[j],
        ) by {
            if j < inner.len() {
                assert(out[i] == front.without_option(name).names()[i]);
                assert(out[j] == front.without_option(name).names()[j]);
            } else {
                assert(surviving(options, name)[i] == inner[i]);
                assert(inner.contains(inner[i]));
                let k = choose|k: int| 0 <= k < front.options.len() && front.options[k] == inner[i];
                assert(reg.names()[k] == out[i]);
                assert(out[j] == reg.names()[options.len() - 1]);
            }
        }
    }
}

/// Removing an option keeps the catalog well-formed. What survives is found
/// as before, and nothing else is found.
pub proof fn lemma_without_option_wf(reg: Registry, name: Text)
    requires
        reg.wf(),
    ensures
        reg.without_option(name).wf(),
        reg.well_named() ==> reg.without_option(name).well_named(),
        forall|n: Text| #[trigger]
            reg.without_option(name).lookup(n) == if reg.has_option(n) && n != name
                && reg.desc_of(n) != Desc::Alias(name) {
                reg.lookup(n)
            } else {
                None
            },
{
    let out = reg.without_option(name);
    lemma_surviving_ascending(reg, name);
    lemma_surviving_members(reg.options, name);
    // every entry that is left was there before
    assert forall|k: int| 0 <= k < out.options.len() implies reg.options.contains(
        #[trigger] out.options[k],
    ) && survives(out.options[k], name) by {
        assert(out.options.contains(out.options[k]));
    }
    assert forall|n: Text| #[trigger]
        out.lookup(n) == if reg.has_option(n) && n != name && reg.desc_of(n) != Desc::Alias(
            name,
        ) {
            reg.lookup(n)
        } else {
            None
        } by {
        if out.has_option(n) {
            let k = out.index_of(n);
            lemma_index_of(out, k);
            let e = out.options[k];
            assert(reg.options.contains(e));
            let i = choose|i: int| 0 <= i < reg.options.len() && reg.options[i] == e;
            lemma_index_of(reg, i);
        }
        if reg.has_option(n) {
            let i = reg.index_of(n);
            lemma_index_of(reg, i);
            let e = reg.options[i];
            assert(reg.options.contains(e));
            if survives(e, name) {
                assert(out.options.contains(e));
                let k = choose|k: int| 0 <= k < out.options.len() && out.options[k] == e;
                lemma_index_of(out, k);
            }
        }
    }
    assert forall|i: int, j: int|
        0 <= i < out.options.len() && 0 <= j < out.subcmds.len() implies (
    #[trigger] out.options[i]).name != #[trigger] out.subcmds[j] by {
        let e = out.options[i];
        assert(reg.options.contains(e));
        let k = choose|k: int| 0 <= k < reg.options.len() && reg.options[k] == e;
        assert(reg.options[k].name != reg.subcmds[j]);
    }
    assert forall|i: int| 0 <= i < out.options.len() implies ((
    #[trigger] out.options[i]).desc matches Desc::Alias(t) ==> out.is_target(t)) by {
        let e = out.options[i];
        if let Desc::Alias(t) = e.desc {
            assert(reg.options.contains(e));
            let k = choose|k: int| 0 <= k < reg.options.len() && reg.options[k] == e;
            assert(reg.is_target(t));
            assert(t != name);
            assert(out.lookup(t) == reg.lookup(t));
        }
    }
    if reg.well_named() {
        assert forall|i: int| 0 <= i < out.options.len() implies valid_name(
            (#[trigger] out.options[i]).name,
        ) by {
            let e = out.options[i];
            assert(reg.options.contains(e));
            let k = choose|k: int| 0 <= k < reg.options.len() && reg.options[k] == e;
            assert(valid_name(reg.options[k].name));
        }
    }
}

/// In a well-formed catalog a name leads to the one entry that bears it.
pub proof fn lemma_index_of(reg: Registry, i: int)
    requires
        ascending(reg.names()),
        0 <= i < reg.options.len(),
    ensures
        reg.has_option(reg.options[i].name),
        reg.index_of(reg.options[i].name) == i,
        reg.desc_of(reg.options[i].name) == reg.options[i].desc,
{
    let name = reg.options[i].name;
    let j = reg.index_of(name);
    assert(reg.names()[i] == name && reg.names()[j] == name);
    lemma_before_irreflexive(name);
}

/// `rank` is the place up to which the names come before `name`.
pub proof fn lemma_rank(names: Seq<Text>, name: Text, p: int)
    requires
        0 <= p <= names.len(),
        forall|j: int| 0 <= j < p ==> before(#[trigger] names[j], name),
        p < names.len() ==> !before(names[p], name),
    ensures
        rank(names, name) == p,
    decreases p,
{
    if p > 0 {
        assert forall|j: int| 0 <= j < p - 1 implies before(#[trigger] names.skip(1)[j], name) by {
            assert(names.skip(1)[j] == names[j + 1]);
        }
        if p < names.len() {
            assert(names.skip(1)[p - 1] == names[p]);
        }
        lemma_rank(names.skip(1), name, p - 1);
    }
}

/// `rank` splits an ascending sequence into the names before `name` and the rest.
pub proof fn lemma_rank_splits(names: Seq<Text>, name: Text)
    ensures
        0 <= rank(names, name) <= names.len(),
        forall|j: int| 0 <= j < rank(names, name) ==> before(#[trigger] names[j], name),
        rank(names, name) < names.len() ==> !before(names[rank(names, name)], name),
    decreases names.len(),
{
    if names.len() > 0 && before(names[0], name) {
        lemma_rank_splits(names.skip(1), name);
        let r = rank(names.skip(1), name);
        assert forall|j: int| 0 <= j < r + 1 implies before(#[trigger] names[j], name) by {
            if j > 0 {
                assert(names.skip(1)[j - 1] == names[j]);
            }
        }
        if r + 1 < names.len() {
            assert(names.skip(1)[r] == names[r + 1]);
        }
    }
}

/// Putting a new name at its rank keeps an ascending sequence ascending.
pub proof fn lemma_insert_ascending(names: Seq<Text>, name: Text)
    requires
        ascending(names),
        !names.contains(name),
    ensures
        ascending(names.insert(rank(names, name), name)),
{
    let p = rank(names, name);
    lemma_rank_splits(names, name);
    let out = names.insert(p, name);
    assert forall|i: int, j: int| 0 <= i < j < out.len() implies before(
        #[trigger] out[i],
        #[trigger] out[j],
    ) by {
        if j == p {
            assert(out[i] == names[i]);
        } else if i == p {
            assert(out[j] == names[j - 1]);
            assert(names[p] != name);
            lemma_before_total(names[p], name);
            if j - 1 > p {
                assert(before(names[p], names[j - 1]));
                lemma_before_transitive(name, names[p], names[j - 1]);
            }
        } else {
            let oi = if i < p {
                i
            } else {
                i - 1
            };
            let oj = if j < p {
                j
            } else {
                j - 1
            };
            assert(out[i] == names[oi] && out[j] == names[oj]);
        }
    }
}

/// Declaring a new option keeps the catalog well-formed, provided its name is
/// free and, if it is an alias, its target is a declared flag or parameter.
/// The new name then leads to the new option, and every other name to what
/// it led to before.
pub proof fn lemma_with_option_wf(reg: Registry, name: Text, desc: Desc)
    requires
        reg.wf(),
        reg.is_free(name),
        desc matches Desc::Alias(t) ==> reg.is_target(t),
    ensures
        reg.with_option(name, desc).wf(),
        reg.with_option(name, desc).has_option(name),
        reg.with_option(name, desc).desc_of(name) == desc,
        forall|n: Text|
            n != name ==> reg.with_option(name, desc).lookup(n) == #[trigger] reg.lookup(n),
        reg.well_named() && valid_name(name) ==> reg.with_option(name, desc).well_named(),
{
    let out = reg.with_option(name, desc);
    let p = rank(reg.names(), name);
    lemma_rank_splits(reg.names(), name);
    if reg.names().contains(name) {
        let k = choose|k: int| 0 <= k < reg.names().len() && reg.names()[k] == name;
        assert(reg.options[k].name == name);
    }
    lemma_insert_ascending(reg.names(), name);
    assert(out.names() =~= reg.names().insert(p, name));
    assert(out.options[p] == Entry { name, desc });
    lemma_index_of(out, p);
    // where each old entry went
    assert forall|i: int| 0 <= i < reg.options.len() implies {
        let k = if i < p {
            i
        } else {
            i + 1
        };
        out.options[k] == #[trigger] reg.options[i] && out.has_option(reg.options[i].name)
            && out.desc_of(reg.options[i].name) == reg.options[i].desc
    } by {
        let k = if i < p {
            i
        } else {
            i + 1
        };
        assert(out.options[k] == reg.options[i]);
        lemma_index_of(out, k);
    }
    assert forall|n: Text| n != name implies out.lookup(n) == #[trigger] reg.lookup(n) by {
        if reg.has_option(n) {
            let i = reg.index_of(n);
            assert(reg.options[i].name == n);
            lemma_index_of(reg, i);
        } else if out.has_option(n) {
            let k = out.index_of(n);
            assert(out.options[k].name == n);
            let i = if k < p {
                k
            } else {
                k - 1
            };
            assert(reg.options[i] == out.options[k]);
        }
    }
    if reg.well_named() && valid_name(name) {
        assert forall|i: int| 0 <= i < out.options.len() implies valid_name(
            (#[trigger] out.options[i]).name,
        ) by {
            if i != p {
                let o = if i < p {
                    i
                } else {
                    i - 1
                };
                assert(out.options[i] == reg.options[o]);
            }
        }
    }
    assert forall|i: int, j: int|
        0 <= i < out.options.len() && 0 <= j < out.subcmds.len() implies (
    #[trigger] out.options[i]).name != #[trigger] out.subcmds[j] by {
        if i != p {
            let o = if i < p {
                i
            } else {
                i - 1
            };
            assert(out.options[i] == reg.options[o]);
        } else {
            assert(reg.subcmds.contains(reg.subcmds[j]));
        }
    }
    assert forall|i: int| 0 <= i < out.options.len() implies ((
    #[trigger] out.options[i]).desc matches Desc::Alias(t) ==> out.is_target(t)) by {
        if let Desc::Alias(t) = out.options[i].desc {
            if i != p {
                let o = if i < p {
                    i
                } else {
                    i - 1
                };
                assert(out.options[i] == reg.options[o]);
            }
            assert(reg.is_target(t));
            let j = reg.index_of(t);
            assert(reg.options[j].name == t);
            lemma_index_of(reg, j);
        }
    }
}

/// Declaring a new subcommand keeps the catalog well-formed, provided its
/// name is free. The subcommands are then the old ones and the new one.
pub proof fn lemma_with_subcommand_wf(reg: Registry, name: Text)
    requires
        reg.wf(),
        reg.is_free(name),
    ensures
        reg.with_subcommand(name).wf(),
        forall|n: Text|
            reg.with_subcommand(name).has_subcommand(n) <==> n == name || reg.has_subcommand(n),
        reg.well_named() && valid_name(name) && name.len() > 0 ==> reg.with_subcommand(
            name,
        ).well_named(),
{
    let out = reg.with_subcommand(name);
    let p = rank(reg.subcmds, name);
    lemma_rank_splits(reg.subcmds, name);
    lemma_insert_ascending(reg.subcmds, name);
    assert(out.names() =~= reg.names());
    assert forall|j: int| 0 <= j < out.subcmds.len() implies (j == p && out.subcmds[j] == name)
        || (j != p && reg.subcmds.contains(#[trigger] out.subcmds[j])) by {
        if j != p {
            let o = if j < p {
                j
            } else {
                j - 1
            };
            assert(out.subcmds[j] == reg.subcmds[o]);
        }
    }
    assert forall|i: int, j: int|
        0 <= i < out.options.len() && 0 <= j < out.subcmds.len() implies (
    #[trigger] out.options[i]).name != #[trigger] out.subcmds[j] by {
        if j != p {
            let o = if j < p {
                j
            } else {
                j - 1
            };
            assert(out.subcmds[j] == reg.subcmds[o]);
        }
    }
    if reg.well_named() && valid_name(name) && name.len() > 0 {
        assert forall|i: int| 0 <= i < out.subcmds.len() implies valid_name(
            #[trigger] out.subcmds[i],
        ) && out.subcmds[i].len() > 0 by {
            if i != p {
                let o = if i < p {
                    i
                } else {
                    i - 1
                };
                assert(out.subcmds[i] == reg.subcmds[o]);
            }
        }
    }
    assert forall|n: Text| out.has_subcommand(n) <==> n == name || reg.has_subcommand(n) by {
        assert(out.subcmds[p] == name);
        if reg.has_subcommand(n) {
            let o = choose|o: int| 0 <= o < reg.subcmds.len() && reg.subcmds[o] == n;
            let k = if o < p {
                o
            } else {
                o + 1
            };
            assert(out.subcmds[k] == n);
        }
        if out.has_subcommand(n) && n != name {
            let k = choose|k: int| 0 <= k < out.subcmds.len() && out.subcmds[k] == n;
            assert(reg.subcmds.contains(out.subcmds[k]));
        }
    }
}

/// One declared option as the parser holds it.
pub struct OptionEntry {
    pub name: Name,
    pub desc: ArgDesc,
}

impl View for OptionEntry {
    type V = Entry;

    open spec fn view(&self) -> Entry {
        Entry { name: self.name@, desc: self.desc@ }
    }
}

/// Controls how the argument list is interpreted.
///
/// A `ParsingConfig` is set up before an argument list is parsed: it says which
/// syntaxes are read, how edge cases are settled, and which flags, parameters,
/// aliases and subcommands exist. Parsing never changes it.
///
/// # Syntaxes
///
/// Each argument is read by the first of these that is enabled and applies.
///
/// - **Double hyphen marker**, `--`: every argument behind it is unnamed.
/// - **Double hyphen assignment**, `--NAME=VALUE`: gives a parameter a value.
///   The argument is split at its first equals sign.
/// - **Double hyphen**, `--NAME` or `--NAME VALUE`: sets a flag, or gives a
///   parameter the next argument, whatever that argument is.
/// - **Single hyphen**, `-FLAGSP VALUE` or `-FLAGSP495`: every alphabetic
///   character behind the hyphen is the name of an option, and from the first
///   other character on the argument is a value. Without parameter stacking
///   at most one of the letters may be a parameter, and it must be the last;
///   it takes the value, or the next argument if there is none. With
///   stacking, `-PQR VALUE_P VALUE_Q VALUE_R`, each parameter but the last
///   takes one of the next arguments, and the last takes the value or one
///   more argument.
/// - **Naked hyphen**, `-` or `-495`: a hyphen with no letter behind it stands
///   for the option with the empty name, if there is one. If there is none,
///   `-` alone is an unnamed argument.
/// - **Assignment**, `NAME=VALUE`: gives a parameter a value.
/// - **Subcommands**: an argument that none of the above reads and that names
///   a subcommand takes every argument behind it, untouched. With a
///   subcommand index the subcommand is looked for at one place among the
///   unnamed arguments only.
///
/// An argument that nothing else reads is unnamed.
///
/// With option completion `NAME` may be a prefix of an option's name in the
/// double hyphen and assignment syntaxes, provided that it is the prefix of
/// one name only or a name itself.
pub struct ParsingConfig {
    pub(crate) features: Features,
    pub(crate) options: Vec<OptionEntry>,
    pub(crate) subcmds: Vec<Name>,
}

impl View for ParsingConfig {
    type V = Registry;

    open(crate) spec fn view(&self) -> Registry {
        Registry {
            features: self.features,
            options: Seq::new(self.options@.len(), |i: int| self.options@[i]@),
            subcmds: Seq::new(self.subcmds@.len(), |i: int| self.subcmds@[i]@),
        }
    }
}

impl Features {
    /// The switches as a new configuration has them.
    pub open spec fn standard() -> Features {
        Features {
            dh_marker: true,
            store_dh_marker: false,
            sh_syntax: true,
            dh_syntax: true,
            dha_syntax: true,
            a_syntax: false,
            param_stacking: true,
            param_duplication: false,
            option_completion: true,
            subcmd_completion: false,
            subcmd_index: false,
            subcmd_required: false,
            subcmd_index_value: 0,
        }
    }

    /// Every switch off.
    pub open spec fn none() -> Features {
        Features {
            dh_marker: false,
            store_dh_marker: false,
            sh_syntax: false,
            dh_syntax: false,
            dha_syntax: false,
            a_syntax: false,
            param_stacking: false,
            param_duplication: false,
            option_completion: false,
            subcmd_completion: false,
            subcmd_index: false,
            subcmd_required: false,
            subcmd_index_value: 0,
        }
    }
}

impl ParsingConfig {
    /// Whether the configuration's catalog is well-formed and holds valid names
    /// only. Every configuration that is built through the functions below is.
    pub open spec fn wf(&self) -> bool {
        self@.wf() && self@.well_named()
    }

    /// A configuration with the usual syntaxes enabled and nothing declared.
    pub fn new() -> (r: Self)
        ensures
            r.wf(),
            r@ == (Registry {
                features: Features::standard(),
                options: Seq::empty(),
                subcmds: Seq::empty(),
            }),
    {
        let r = Self {
            features: Features {
                dh_marker: true,
                store_dh_marker: false,
                sh_syntax: true,
                dh_syntax: true,
                dha_syntax: true,
                a_syntax: false,
                param_stacking: true,
                param_duplication: false,
                option_completion: true,
                subcmd_completion: false,
                subcmd_index: false,
                subcmd_required: false,
                subcmd_index_value: 0,
            },
            options: Vec::new(),
            subcmds: Vec::new(),
        };
        assert(r@.options =~= Seq::empty());
        assert(r@.subcmds =~= Seq::empty());
        r
    }

    /// A configuration with all features disabled and nothing declared.
    pub fn new_all_disabled() -> (r: Self)
        ensures
            r.wf(),
            r@ == (Registry {
                features: Features::none(),
                options: Seq::empty(),
                subcmds: Seq::empty(),
            }),
    {
        let r = Self {
            features: Features {
                dh_marker: false,
                store_dh_marker: false,
                sh_syntax: false,
                dh_syntax: false,
                dha_syntax: false,
                a_syntax: false,
                param_stacking: false,
                param_duplication: false,
                option_completion: false,
                subcmd_completion: false,
                subcmd_index: false,
                subcmd_required: false,
                subcmd_index_value: 0,
            },
            options: Vec::new(),
            subcmds: Vec::new(),
        };
        assert(r@.options =~= Seq::empty());
        assert(r@.subcmds =~= Seq::empty());
        r
    }

    /// Returns `true` if `name` is a valid name for a flag, parameter, alias or subcommand.
    ///
    /// A name is valid if it holds no whitespace, equals sign, apostrophe or
    /// quotation mark, and if it starts with an alphabetic character or is empty.
    pub fn is_valid_name(name: &str) -> (r: bool)
        ensures
            r == valid_name(name@),
    {
        let chars = chars_of(name);
        let mut i: usize = 0;
        while i < chars.len()
            invariant
                i <= chars.len(),
                chars@ == name@,
                forall|j: int|
                    0 <= j < i ==> !whitespace(#[trigger] name@[j]) && name@[j] != '=' && name@[j]
                        != '\'' && name@[j] != '"',
            decreases chars.len() - i,
        {
            let c = chars[i];
            if c.is_whitespace() || c == '=' || c == '\'' || c == '"' {
                return false;
            }
            i += 1;
        }
        chars.len() == 0 || chars[0].is_alphabetic()
    }
}

impl ParsingConfig {
    /// Enables or disables the double hyphen marker.
    ///
    /// Enabled by default.
    pub fn set_double_hyphen_marker(&mut self, value: bool)
        ensures
            final(self)@ == (Registry {
                features: (Features { dh_marker: value, ..old(self)@.features }),
                ..old(self)@
            }),
    {
        self.features.dh_marker = value;
    }

    /// Enables or disables the storing of the double hyphen marker.
    ///
    /// Disabled by default.
    pub fn set_store_double_hyphen_marker(&mut self, value: bool)
        ensures
            final(self)@ == (Registry {
                features: (Features { store_dh_marker: value, ..old(self)@.features }),
                ..old(self)@
            }),
    {
        self.features.store_dh_marker = value;
    }

    /// Enables or disables single hyphen syntax.
    ///
    /// Enabled by default.
    pub fn set_single_hyphen_syntax(&mut self, value: bool)
        ensures
            final(self)@ == (Registry {
                features: (Features { sh_syntax: value, ..old(self)@.features }),
                ..old(self)@
            }),
    {
        self.features.sh_syntax = value;
    }

    /// Enables or disables double hyphen syntax.
    ///
    /// Enabled by default.
    pub fn set_double_hyphen_syntax(&mut self, value: bool)
        ensures
            final(self)@ == (Registry {
                features: (Features { dh_syntax: value, ..old(self)@.features }),
                ..old(self)@
            }),
    {
        self.features.dh_syntax = value;
    }

    /// Enables or disables double hyphen assignment syntax.
    ///
    /// Enabled by default.
    pub fn set_double_hyphen_assignment_syntax(&mut self, value: bool)
        ensures
            final(self)@ == (Registry {
                features: (Features { dha_syntax: value, ..old(self)@.features }),
                ..old(self)@
            }),
    {
        self.features.dha_syntax = value;
    }

    /// Enables or disables assignment syntax.
    ///
    /// Disabled by default.
    pub fn set_assignment_syntax(&mut self, value: bool)
        ensures
            final(self)@ == (Registry {
                features: (Features { a_syntax: value, ..old(self)@.features }),
                ..old(self)@
            }),
    {
        self.features.a_syntax = value;
    }

    /// Enables or disables single hyphen parameter stacking.
    ///
    /// Enabled by default.
    pub fn set_parameter_stacking(&mut self, value: bool)
        ensures
            final(self)@ == (Registry {
                features: (Features { param_stacking: value, ..old(self)@.features }),
                ..old(self)@
            }),
    {
        self.features.param_stacking = value;
    }

    /// Enables or disables parameter duplication: if enabled, setting a parameter
    /// more than once is no error and the last value stays.
    ///
    /// Disabled by default.
    pub fn set_parameter_duplication(&mut self, value: bool)
        ensures
            final(self)@ == (Registry {
                features: (Features { param_duplication: value, ..old(self)@.features }),
                ..old(self)@
            }),
    {
        self.features.param_duplication = value;
    }

    /// Enables or disables option completion.
    ///
    /// Enabled by default.
    pub fn set_option_completion(&mut self, value: bool)
        ensures
            final(self)@ == (Registry {
                features: (Features { option_completion: value, ..old(self)@.features }),
                ..old(self)@
            }),
    {
        self.features.option_completion = value;
    }

    /// Enables or disables subcommand completion, which takes effect only together
    /// with the subcommand index.
    ///
    /// Disabled by default.
    pub fn set_subcommand_completion(&mut self, value: bool)
        ensures
            final(self)@ == (Registry {
                features: (Features { subcmd_completion: value, ..old(self)@.features }),
                ..old(self)@
            }),
    {
        self.features.subcmd_completion = value;
    }

    /// Enables or disables the index at which the subcommand is expected among the
    /// unnamed parameters.
    ///
    /// Disabled by default.
    pub fn set_subcommand_index(&mut self, value: bool)
        ensures
            final(self)@ == (Registry {
                features: (Features { subcmd_index: value, ..old(self)@.features }),
                ..old(self)@
            }),
    {
        self.features.subcmd_index = value;
    }

    /// Enables or disables the requirement of a subcommand.
    ///
    /// Disabled by default.
    pub fn set_subcommand_required(&mut self, value: bool)
        ensures
            final(self)@ == (Registry {
                features: (Features { subcmd_required: value, ..old(self)@.features }),
                ..old(self)@
            }),
    {
        self.features.subcmd_required = value;
    }

    /// Sets the index at which the subcommand is expected among the unnamed parameters.
    ///
    /// The default value is zero.
    pub fn set_subcommand_index_value(&mut self, value: usize)
        ensures
            final(self)@ == (Registry {
                features: (Features { subcmd_index_value: value, ..old(self)@.features }),
                ..old(self)@
            }),
    {
        self.features.subcmd_index_value = value;
    }

    /// The place of the option called `name`, if it is declared.
    pub(crate) fn find_option(&self, name: &[char]) -> (r: Option<usize>)
        requires
            self@.wf(),
        ensures
            match r {
                Some(i) => i < self@.options.len() && self@.options[i as int].name == name@
                    && self@.has_option(name@) && self@.index_of(name@) == i,
                None => !self@.has_option(name@),
            },
    {
        let mut i: usize = 0;
        while i < self.options.len()
            invariant
                self@.wf(),
                i <= self.options.len(),
                forall|j: int| 0 <= j < i ==> (#[trigger] self@.options[j]).name != name@,
            decreases self.options.len() - i,
        {
            if same_text(self.options[i].name.chars(), name) {
                proof {
                    lemma_index_of(self@, i as int);
                }
                return Some(i);
            }
            i += 1;
        }
        None
    }

    /// The place of the subcommand called `name`, if it is declared.
    pub(crate) fn find_subcommand(&self, name: &[char]) -> (r: Option<usize>)
        ensures
            match r {
                Some(i) => i < self@.subcmds.len() && self@.subcmds[i as int] == name@,
                None => !self@.has_subcommand(name@),
            },
    {
        let mut i: usize = 0;
        while i < self.subcmds.len()
            invariant
                i <= self.subcmds.len(),
                forall|j: int| 0 <= j < i ==> #[trigger] self@.subcmds[j] != name@,
            decreases self.subcmds.len() - i,
        {
            if same_text(self.subcmds[i].chars(), name) {
                return Some(i);
            }
            i += 1;
        }
        None
    }

    /// Returns `true` if a flag, parameter or alias is declared under `name`.
    pub fn has_option(&self, name: &str) -> (r: bool)
        requires
            self@.wf(),
        ensures
            r == self@.has_option(name@),
    {
        let chars = chars_of(name);
        self.find_option(chars.as_slice()).is_some()
    }

    /// Returns `true` if a subcommand is declared under `name`.
    pub fn has_subcommand(&self, name: &str) -> (r: bool)
        ensures
            r == self@.has_subcommand(name@),
    {
        let chars = chars_of(name);
        self.find_subcommand(chars.as_slice()).is_some()
    }

    /// Puts a new entry at its place among the options.
    pub(crate) fn place_option(&mut self, name: String, desc: ArgDesc)
        requires
            old(self)@.wf(),
            old(self)@.is_free(name@),
            desc@ matches Desc::Alias(t) ==> old(self)@.is_target(t),
        ensures
            final(self)@.wf(),
            final(self)@ == old(self)@.with_option(name@, desc@),
            old(self)@.well_named() && valid_name(name@) ==> final(self)@.well_named(),
    {
        let name = Name::new(name);
        let mut p: usize = 0;
        while p < self.options.len() && precedes(self.options[p].name.chars(), name.chars())
            invariant
                p <= self.options.len(),
                forall|j: int| 0 <= j < p ==> before(#[trigger] self@.names()[j], name@),
            decreases self.options.len() - p,
        {
            p += 1;
        }
        proof {
            if p < self.options.len() {
                assert(self@.names()[p as int] == self@.options[p as int].name);
            }
            lemma_rank(self@.names(), name@, p as int);
            lemma_with_option_wf(self@, name@, desc@);
        }
        self.options.insert(p, OptionEntry { name, desc });
        assert(self@.options =~= old(self)@.with_option(name@, desc@).options);
        assert(self@.subcmds =~= old(self)@.subcmds);
    }

    /// Adds a flag to the configuration.
    ///
    /// The name must be valid and not yet taken by an option or a subcommand.
    pub fn add_flag(&mut self, name: String)
        requires
            old(self).wf(),
            old(self)@.admits(name@),
        ensures
            final(self).wf(),
            final(self)@ == old(self)@.with_option(name@, Desc::Flag),
    {
        self.place_option(name, ArgDesc::Flag);
    }

    /// Adds a parameter to the configuration.
    ///
    /// The name must be valid and not yet taken by an option or a subcommand.
    pub fn add_param(&mut self, name: String, required: bool)
        requires
            old(self).wf(),
            old(self)@.admits(name@),
        ensures
            final(self).wf(),
            final(self)@ == old(self)@.with_option(name@, Desc::Param(required)),
    {
        self.place_option(name, ArgDesc::Param(required));
    }

    /// Adds an alias of a flag or parameter to the configuration. If `target` is
    /// itself an alias, the new alias stands for what `target` stands for.
    ///
    /// The name must be valid, not yet taken and other than `target`, and
    /// `target` must be a declared option.
    pub fn add_alias(&mut self, name: String, target: String)
        requires
            old(self).wf(),
            old(self)@.admits(name@),
            name@ != target@,
            old(self)@.has_option(target@),
        ensures
            final(self).wf(),
            final(self)@ == old(self)@.with_option(
                name@,
                Desc::Alias(old(self)@.final_target(target@)),
            ),
    {
        let chars = chars_of(target.as_str());
        let target = match self.find_option(chars.as_slice()) {
            Some(i) => match &self.options[i].desc {
                ArgDesc::Alias(t) => {
                    assert(self@.options[i as int].desc == Desc::Alias(t@));
                    t.clone()
                },
                _ => target,
            },
            None => target,
        };
        self.place_option(name, ArgDesc::Alias(target));
    }

    /// Adds a subcommand to the configuration.
    ///
    /// The name must be valid, not empty, and not yet taken by an option or a
    /// subcommand.
    pub fn add_subcommand(&mut self, name: String)
        requires
            old(self).wf(),
            old(self)@.admits(name@),
            name@.len() > 0,
        ensures
            final(self).wf(),
            final(self)@ == old(self)@.with_subcommand(name@),
    {
        let name = Name::new(name);
        let mut p: usize = 0;
        while p < self.subcmds.len() && precedes(self.subcmds[p].chars(), name.chars())
            invariant
                p <= self.subcmds.len(),
                forall|j: int| 0 <= j < p ==> before(#[trigger] self@.subcmds[j], name@),
            decreases self.subcmds.len() - p,
        {
            p += 1;
        }
        proof {
            lemma_rank(self@.subcmds, name@, p as int);
            lemma_with_subcommand_wf(self@, name@);
        }
        self.subcmds.insert(p, name);
        assert(self@.subcmds =~= old(self)@.with_subcommand(name@).subcmds);
        assert(self@.options =~= old(self)@.options);
    }

    /// Why a flag or a parameter cannot be declared under `name`, if it cannot.
    fn refuse_option(&self, name: &String) -> (r: Option<ConfigError>)
        requires
            self@.wf(),
        ensures
            r == self@.option_refusal(name@),
    {
        if !Self::is_valid_name(name.as_str()) {
            Some(ConfigError::InvalidName)
        } else if self.has_option(name.as_str()) || self.has_subcommand(name.as_str()) {
            Some(ConfigError::NameTaken)
        } else {
            None
        }
    }

    /// Adds a flag to the configuration, or says why it cannot be added and
    /// leaves the configuration as it is.
    pub fn try_add_flag(&mut self, name: String) -> (r: Result<(), ConfigError>)
        requires
            old(self).wf(),
        ensures
            final(self).wf(),
            match old(self)@.option_refusal(name@) {
                Some(e) => r == Err::<(), ConfigError>(e) && final(self)@ == old(self)@,
                None => r == Ok::<(), ConfigError>(()) && final(self)@ == old(self)@.with_option(
                    name@,
                    Desc::Flag,
                ),
            },
    {
        match self.refuse_option(&name) {
            Some(e) => Err(e),
            None => {
                self.add_flag(name);
                Ok(())
            },
        }
    }

    /// Adds a parameter to the configuration, or says why it cannot be added
    /// and leaves the configuration as it is.
    pub fn try_add_param(&mut self, name: String, required: bool) -> (r: Result<(), ConfigError>)
        requires
            old(self).wf(),
        ensures
            final(self).wf(),
            match old(self)@.option_refusal(name@) {
                Some(e) => r == Err::<(), ConfigError>(e) && final(self)@ == old(self)@,
                None => r == Ok::<(), ConfigError>(()) && final(self)@ == old(self)@.with_option(
                    name@,
                    Desc::Param(required),
                ),
            },
    {
        match self.refuse_option(&name) {
            Some(e) => Err(e),
            None => {
                self.add_param(name, required);
                Ok(())
            },
        }
    }

    /// Adds an alias to the configuration, or says why it cannot be added and
    /// leaves the configuration as it is.
    pub fn try_add_alias(&mut self, name: String, target: String) -> (r: Result<(), ConfigError>)
        requires
            old(self).wf(),
        ensures
            final(self).wf(),
            match old(self)@.alias_refusal(name@, target@) {
                Some(e) => r == Err::<(), ConfigError>(e) && final(self)@ == old(self)@,
                None => r == Ok::<(), ConfigError>(()) && final(self)@ == old(self)@.with_option(
                    name@,
                    Desc::Alias(old(self)@.final_target(target@)),
                ),
            },
    {
        match self.refuse_option(&name) {
            Some(e) => Err(e),
            None => {
                if name == target {
                    Err(ConfigError::SelfAlias)
                } else if !self.has_option(target.as_str()) {
                    Err(ConfigError::UnknownTarget)
                } else {
                    self.add_alias(name, target);
                    Ok(())
                }
            },
        }
    }

    /// Adds a subcommand to the configuration, or says why it cannot be added
    /// and leaves the configuration as it is.
    pub fn try_add_subcommand(&mut self, name: String) -> (r: Result<(), ConfigError>)
        requires
            old(self).wf(),
        ensures
            final(self).wf(),
            match old(self)@.subcommand_refusal(name@) {
                Some(e) => r == Err::<(), ConfigError>(e) && final(self)@ == old(self)@,
                None => r == Ok::<(), ConfigError>(()) && final(self)@ == old(
                    self,
                )@.with_subcommand(name@),
            },
    {
        if name.as_str().unicode_len() == 0 {
            return Err(ConfigError::EmptySubcommand);
        }
        match self.refuse_option(&name) {
            Some(e) => Err(e),
            None => {
                self.add_subcommand(name);
                Ok(())
            },
        }
    }

    /// Removes the option `name` from the configuration, and with it every
    /// alias of it. Removing an alias removes that alias only. Nothing changes
    /// if no option bears the name.
    pub fn remove_option(&mut self, name: &str)
        requires
            old(self)@.wf(),
        ensures
            final(self)@.wf(),
            final(self)@ == old(self)@.without_option(name@),
            old(self)@.well_named() ==> final(self)@.well_named(),
    {
        let chars = chars_of(name);
        let ghost before_removal = self@.options;
        let ghost mut seen: int = 0;
        let mut i: usize = 0;
        proof {
            assert(before_removal.take(0) =~= Seq::<Entry>::empty());
            assert(before_removal.skip(0) =~= before_removal);
            assert(self@.options =~= surviving(before_removal.take(0), name@) + before_removal.skip(
                0,
            ));
        }
        while i < self.options.len()
            invariant
                chars@ == name@,
                before_removal == old(self)@.options,
                self@.features == old(self)@.features,
                self@.subcmds == old(self)@.subcmds,
                0 <= seen <= before_removal.len(),
                i == surviving(before_removal.take(seen), name@).len(),
                self@.options == surviving(before_removal.take(seen), name@) + before_removal.skip(
                    seen,
                ),
            decreases self.options.len() - i,
        {
            proof {
                assert(self@.options[i as int] == before_removal.skip(seen)[0]);
                assert(seen < before_removal.len());
                assert(before_removal.take(seen + 1).drop_last() =~= before_removal.take(seen));
                assert(before_removal.take(seen + 1).last() == before_removal[seen]);
            }
            let entry = &self.options[i];
            let is_alias_of_it = match &entry.desc {
                ArgDesc::Alias(target) => {
                    let target_chars = chars_of(target.as_str());
                    same_text(target_chars.as_slice(), chars.as_slice())
                },
                _ => false,
            };
            if is_alias_of_it || same_text(entry.name.chars(), chars.as_slice()) {
                let ghost prev = self@.options;
                self.options.remove(i);
                proof {
                    assert(!survives(before_removal[seen], name@));
                    assert(self@.options =~= prev.remove(i as int));
                    assert(self@.options =~= surviving(before_removal.take(seen + 1), name@)
                        + before_removal.skip(seen + 1));
                    assert(self@.subcmds =~= old(self)@.subcmds);
                    seen = seen + 1;
                }
            } else {
                proof {
                    assert(survives(before_removal[seen], name@));
                    assert(self@.options =~= surviving(before_removal.take(seen + 1), name@)
                        + before_removal.skip(seen + 1));
                    seen = seen + 1;
                }
                i += 1;
            }
        }
        proof {
            assert(seen == before_removal.len());
            assert(before_removal.take(seen) =~= before_removal);
            assert(self@.options =~= surviving(before_removal, name@));
            lemma_without_option_wf(old(self)@, name@);
        }
    }
}

} // verus!
