//! What holds of every parse: no hidden state, the exact name first, sorted
//! candidates, the opaque marker and subcommand, and the required parameters
//! reported together.

use vstd::prelude::*;
use crate::parse::outcome_of;
use crate::parsed_args::ParsedArgs;
use crate::parsing_config::{lemma_index_of, Desc, Entry, Registry};
use crate::parsing_error::{Failure, ParsingError};
use crate::resolve::{
    candidates, lemma_prefixed_ascending, lemma_prefixed_members, prefixed, Resolved,
};
use crate::rules::{
    bundle, claimed, finish, flags_of, hyphens, known_run, missing_required, params_of,
    parse_spec, rule_bundle, rule_marker, rule_plain, run, step, store, store_all, Progress, Step,
};
use crate::text::{ascending, before, lemma_before_irreflexive, Text};

verus! {

/// Parsing has no hidden state: two results of parsing the same arguments
/// under the same catalog are the same.
pub proof fn law_parse_is_a_function(
    reg: Registry,
    tokens: Seq<Text>,
    first: Result<ParsedArgs, ParsingError>,
    second: Result<ParsedArgs, ParsingError>,
)
    requires
        outcome_of(first) == parse_spec(reg, tokens),
        outcome_of(second) == parse_spec(reg, tokens),
    ensures
        outcome_of(first) == outcome_of(second),
{
}

/// A name is a declared option exactly if it is among the catalog's names.
pub proof fn lemma_names_contain(reg: Registry, name: Text)
    ensures
        reg.names().contains(name) <==> reg.has_option(name),
{
    if reg.names().contains(name) {
        let k = choose|k: int| 0 <= k < reg.names().len() && reg.names()[k] == name;
        assert(reg.options[k].name == name);
    }
    if reg.has_option(name) {
        let k = reg.index_of(name);
        assert(reg.names()[k] == name);
    }
}

/// Exact beats prefix: a written name that is the name of a declared option
/// stands for that option, whatever other names begin with it, with
/// completion or without.
pub proof fn law_exact_beats_prefix(reg: Registry, name: Text)
    requires
        reg.has_option(name),
    ensures
        reg.resolve_option(name) == Ok::<Resolved, Failure>(reg.resolved(name)),
{
    lemma_names_contain(reg, name);
}

/// Exact beats prefix among the subcommands too.
pub proof fn law_exact_subcommand_beats_prefix(reg: Registry, name: Text)
    requires
        reg.has_subcommand(name),
    ensures
        reg.resolve_subcommand(name) == Ok::<Text, Failure>(name),
{
}

/// A written name is refused as ambiguous only with completion, only if no
/// option bears it, and then together with every declared name that begins
/// with it, those and no others, in ascending order.
pub proof fn law_ambiguity_is_sorted(reg: Registry, cand: Text)
    requires
        reg.wf(),
    ensures
        reg.resolve_option(cand) matches Err(Failure::AmbiguousOption(written, names)) ==> {
            &&& written == cand
            &&& reg.features.option_completion
            &&& !reg.has_option(cand)
            &&& names.len() >= 2
            &&& ascending(names)
            &&& forall|t: Text| #[trigger]
                names.contains(t) <==> reg.has_option(t) && cand.is_prefix_of(t)
        },
{
    lemma_names_contain(reg, cand);
    lemma_prefixed_ascending(reg.names(), cand);
    lemma_prefixed_members(reg.names(), cand);
    if let Err(Failure::AmbiguousOption(written, names)) = reg.resolve_option(cand) {
        assert(names == prefixed(reg.names(), cand));
        assert forall|t: Text| #[trigger]
            names.contains(t) <==> reg.has_option(t) && cand.is_prefix_of(t) by {
            lemma_names_contain(reg, t);
        }
    }
}

/// The same of subcommands: the candidates of an ambiguous name are the
/// declared subcommands that begin with it, in ascending order.
pub proof fn law_subcommand_ambiguity_is_sorted(reg: Registry, cand: Text)
    requires
        reg.wf(),
    ensures
        reg.resolve_subcommand(cand) matches Err(Failure::AmbiguousSubcommand(written, names))
            ==> {
            &&& written == cand
            &&& reg.features.subcmd_completion
            &&& !reg.has_subcommand(cand)
            &&& names.len() >= 2
            &&& ascending(names)
            &&& forall|t: Text| #[trigger]
                names.contains(t) <==> reg.has_subcommand(t) && cand.is_prefix_of(t)
        },
{
    lemma_prefixed_ascending(reg.subcmds, cand);
    lemma_prefixed_members(reg.subcmds, cand);
}

/// A written name is unknown exactly if no option bears it and, with
/// completion, no declared name begins with it.
pub proof fn law_unrecognized_option(reg: Registry, cand: Text)
    ensures
        reg.resolve_option(cand) is Err && reg.resolve_option(cand)->Err_0
            is UnrecognizedOption <==> !reg.has_option(cand) && (reg.features.option_completion
            ==> forall|t: Text| reg.has_option(t) ==> !cand.is_prefix_of(t)),
{
    lemma_names_contain(reg, cand);
    lemma_prefixed_members(reg.names(), cand);
    let m = prefixed(reg.names(), cand);
    if !reg.has_option(cand) && reg.features.option_completion {
        if m.len() > 0 {
            assert(m.contains(m[0]));
            lemma_names_contain(reg, m[0]);
        } else {
            assert forall|t: Text| reg.has_option(t) implies !cand.is_prefix_of(t) by {
                lemma_names_contain(reg, t);
                if cand.is_prefix_of(t) {
                    assert(m.contains(t));
                }
            }
        }
    }
}

/// Marker opacity: where the double hyphen marker is enabled, whatever has
/// been read before it, every argument behind it becomes an unnamed argument
/// as it is written, and nothing else changes. The marker itself is kept
/// only if the catalog says so.
pub proof fn law_marker_is_opaque(reg: Registry, st: Progress, rest: Seq<Text>)
    requires
        reg.features.dh_marker,
    ensures
        run(reg, st, seq![hyphens()] + rest) == Ok::<Progress, Failure>(
            Progress {
                unnamed: if reg.features.store_dh_marker {
                    st.unnamed.push(hyphens()) + rest
                } else {
                    st.unnamed + rest
                },
                ..st
            },
        ),
{
    let tokens = seq![hyphens()] + rest;
    assert(tokens[0] == hyphens());
    assert(tokens.skip(1) =~= rest);
    assert(step(reg, st, tokens[0], tokens.skip(1)) == rule_marker(reg, st, rest));
}

/// What has been gathered once exactly the first `n` of `tokens` are read, if
/// the reading gets there: if none of them is refused or ends the reading,
/// and none takes a value from behind them.
pub open spec fn read_through(reg: Registry, st: Progress, tokens: Seq<Text>, n: nat) -> Option<
    Progress,
>
    decreases n,
{
    if n == 0 {
        Some(st)
    } else if tokens.len() == 0 {
        None
    } else {
        match step(reg, st, tokens[0], tokens.skip(1)) {
            Step::Continue(next, used) => if 1 + used <= n {
                read_through(reg, next, tokens.skip(1 + used as int), (n - 1 - used) as nat)
            } else {
                None
            },
            _ => None,
        }
    }
}

/// Reading goes from left to right and never back: once the first `n`
/// arguments are read, what follows depends on what they have left gathered
/// and on the arguments behind them only.
pub proof fn law_reading_goes_forward(reg: Registry, st: Progress, tokens: Seq<Text>, n: nat)
    requires
        n <= tokens.len(),
        read_through(reg, st, tokens, n) is Some,
    ensures
        run(reg, st, tokens) == run(
            reg,
            read_through(reg, st, tokens, n)->0,
            tokens.skip(n as int),
        ),
    decreases n,
{
    if n == 0 {
        assert(tokens.skip(0) =~= tokens);
    } else {
        match step(reg, st, tokens[0], tokens.skip(1)) {
            Step::Continue(next, used) => {
                let behind = tokens.skip(1 + used as int);
                law_reading_goes_forward(reg, next, behind, (n - 1 - used) as nat);
                assert(behind.skip(n - 1 - used) =~= tokens.skip(n as int));
            },
            _ => {},
        }
    }
}

/// Marker opacity, in a list: where the double hyphen marker is enabled and
/// the reading gets to a lone double hyphen at the place `n`, every argument
/// behind that place becomes an unnamed argument as it is written, whether or
/// not it looks like an option, and the flags and parameters stay as the
/// arguments before the marker have left them.
pub proof fn law_marker_ends_the_options(reg: Registry, st: Progress, tokens: Seq<Text>, n: nat)
    requires
        reg.features.dh_marker,
        n < tokens.len(),
        tokens[n as int] == hyphens(),
        read_through(reg, st, tokens, n) is Some,
    ensures
        ({
            let before_it = read_through(reg, st, tokens, n)->0;
            let behind_it = tokens.skip(n as int + 1);
            run(reg, st, tokens) == Ok::<Progress, Failure>(
                Progress {
                    unnamed: if reg.features.store_dh_marker {
                        before_it.unnamed.push(hyphens()) + behind_it
                    } else {
                        before_it.unnamed + behind_it
                    },
                    ..before_it
                },
            )
        }),
{
    let before_it = read_through(reg, st, tokens, n)->0;
    law_reading_goes_forward(reg, st, tokens, n);
    assert(tokens.skip(n as int) =~= seq![hyphens()] + tokens.skip(n as int + 1));
    law_marker_is_opaque(reg, before_it, tokens.skip(n as int + 1));
}

/// Subcommand delegation, in a list: without a subcommand index, where the
/// reading gets to a subcommand's name at the place `n` and no option syntax
/// claims that argument, the subcommand takes its name and every argument
/// behind it as it is written, and everything else stays as the arguments
/// before it have left it.
pub proof fn law_subcommand_ends_the_reading(
    reg: Registry,
    st: Progress,
    tokens: Seq<Text>,
    n: nat,
)
    requires
        !reg.features.subcmd_index,
        n < tokens.len(),
        reg.has_subcommand(tokens[n as int]),
        !claimed(reg, tokens[n as int]),
        read_through(reg, st, tokens, n) is Some,
    ensures
        run(reg, st, tokens) == Ok::<Progress, Failure>(
            Progress { subcommand: tokens.skip(n as int), ..read_through(reg, st, tokens, n)->0 },
        ),
{
    let before_it = read_through(reg, st, tokens, n)->0;
    law_reading_goes_forward(reg, st, tokens, n);
    assert(tokens.skip(n as int) =~= seq![tokens[n as int]] + tokens.skip(n as int + 1));
    law_delegation_is_opaque(reg, before_it, tokens[n as int], tokens[n as int], tokens.skip(n as int + 1));
}

/// An argument that no option syntax claims is read as a subcommand or as an
/// unnamed argument.
pub proof fn lemma_unclaimed_is_plain(reg: Registry, st: Progress, token: Text, rest: Seq<Text>)
    requires
        !claimed(reg, token),
    ensures
        step(reg, st, token, rest) == rule_plain(reg, st, token, rest),
{
}

/// Subcommand delegation is opaque: an argument that no option syntax claims
/// and that is recognized as the subcommand `name` ends the reading. The
/// subcommand's name and every argument behind it, as it is written, become
/// the subcommand's arguments, and nothing else changes. Without a subcommand
/// index the argument is recognized if it is a subcommand's name; with one,
/// if it stands at the index and `name` is the one subcommand it can stand for.
pub proof fn law_delegation_is_opaque(
    reg: Registry,
    st: Progress,
    token: Text,
    name: Text,
    rest: Seq<Text>,
)
    requires
        !claimed(reg, token),
        if reg.features.subcmd_index {
            st.unnamed.len() == reg.features.subcmd_index_value && reg.subcommand_matches(token)
                == seq![name]
        } else {
            reg.has_subcommand(token) && name == token
        },
    ensures
        run(reg, st, seq![token] + rest) == Ok::<Progress, Failure>(
            Progress { subcommand: seq![name] + rest, ..st },
        ),
{
    let tokens = seq![token] + rest;
    assert(tokens[0] == token);
    assert(tokens.skip(1) =~= rest);
    lemma_unclaimed_is_plain(reg, st, token, rest);
    assert(seq![name][0] == name);
}

/// Whether an option at the place `from` or behind it bears the name `name`.
pub open spec fn named_from(options: Seq<Entry>, name: Text, from: int) -> bool {
    exists|i: int| from <= i < options.len() && (#[trigger] options[i]).name == name
}

/// `missing_required` holds exactly the required parameters without a value,
/// in the catalog's order.
pub proof fn lemma_missing_required(options: Seq<Entry>, params: Map<Text, Text>)
    ensures
        forall|t: Text| #[trigger]
            missing_required(options, params).contains(t) <==> !params.contains_key(t)
                && exists|i: int|
                0 <= i < options.len() && (#[trigger] options[i]).name == t && options[i].desc
                    == Desc::Param(true),
        forall|k: int|
            0 <= k < missing_required(options, params).len() ==> named_from(
                options,
                #[trigger] missing_required(options, params)[k],
                k,
            ),
    decreases options.len(),
{
    let out = missing_required(options, params);
    if options.len() == 0 {
        assert forall|t: Text| !(#[trigger] out.contains(t)) by {}
    } else {
        let front = options.drop_last();
        let inner = missing_required(front, params);
        let last = options.last();
        let taken = last.desc == Desc::Param(true) && !params.contains_key(last.name);
        lemma_missing_required(front, params);
        assert forall|t: Text| #[trigger]
            out.contains(t) <==> !params.contains_key(t) && exists|i: int|
                0 <= i < options.len() && (#[trigger] options[i]).name == t && options[i].desc
                    == Desc::Param(true) by {
            if out.contains(t) {
                let k = choose|k: int| 0 <= k < out.len() && out[k] == t;
                if taken && k == out.len() - 1 {
                    assert(options[options.len() - 1].name == t);
                } else {
                    assert(inner[k] == t);
                    assert(inner.contains(t));
                    let i = choose|i: int|
                        0 <= i < front.len() && (#[trigger] front[i]).name == t && front[i].desc
                            == Desc::Param(true);
                    assert(options[i].name == t);
                }
            }
            if !params.contains_key(t) && exists|i: int|
                0 <= i < options.len() && (#[trigger] options[i]).name == t && options[i].desc
                    == Desc::Param(true) {
                let i = choose|i: int|
                    0 <= i < options.len() && (#[trigger] options[i]).name == t && options[i].desc
                        == Desc::Param(true);
                if i == options.len() - 1 {
                    assert(out[out.len() - 1] == t);
                } else {
                    assert(front[i].name == t);
                    assert(inner.contains(t));
                    let k = choose|k: int| 0 <= k < inner.len() && inner[k] == t;
                    assert(out[k] == t);
                }
            }
        }
        assert forall|k: int| 0 <= k < out.len() implies named_from(
            options,
            #[trigger] out[k],
            k,
        ) by {
            if taken && k == out.len() - 1 {
                if inner.len() > 0 {
                    assert(named_from(front, inner[inner.len() - 1], inner.len() - 1));
                }
                assert(options[options.len() - 1].name == out[k]);
            } else {
                assert(inner[k] == out[k]);
                assert(named_from(front, inner[k], k));
                let i = choose|i: int|
                    k <= i < front.len() && (#[trigger] front[i]).name == inner[k];
                assert(options[i].name == out[k]);
            }
        }
    }
}

/// What `missing_required` takes from a catalog in ascending order is
/// ascending, so that no name is reported twice.
pub proof fn lemma_missing_required_ascending(reg: Registry, params: Map<Text, Text>)
    requires
        ascending(reg.names()),
    ensures
        ascending(missing_required(reg.options, params)),
    decreases reg.options.len(),
{
    let options = reg.options;
    if options.len() > 0 {
        let front = Registry { options: options.drop_last(), ..reg };
        assert forall|i: int, j: int| 0 <= i < j < front.names().len() implies before(
            #[trigger] front.names()[i],
            #[trigger] front.names()[j],
        ) by {
            assert(front.names()[i] == reg.names()[i] && front.names()[j] == reg.names()[j]);
        }
        lemma_missing_required_ascending(front, params);
        lemma_missing_required(front.options, params);
        let inner = missing_required(front.options, params);
        let out = missing_required(options, params);
        assert forall|i: int, j: int| 0 <= i < j < out.len() implies before(
            #[trigger] out[i],
            #[trigger] out[j],
        ) by {
            if j < inner.len() {
                assert(out[i] == inner[i] && out[j] == inner[j]);
            } else {
                assert(out[i] == inner[i]);
                assert(named_from(front.options, inner[i], i));
                let k = choose|k: int|
                    i <= k < front.options.len() && (#[trigger] front.options[k]).name == inner[i];
                assert(reg.names()[k] == out[i]);
                assert(out[j] == reg.names()[options.len() - 1]);
            }
        }
    }
}

/// Required-parameter collection: once every argument is read and no
/// required subcommand is missing, the parse fails for missing parameters
/// exactly if some required parameter has no value, and the failure then
/// names every required parameter without a value, each once, and nothing
/// else.
pub proof fn law_required_parameters_are_collected(reg: Registry, name: Text, st: Progress)
    requires
        reg.wf(),
        !(reg.features.subcmd_required && st.subcommand.len() == 0),
    ensures
        finish(reg, name, st) is Err <==> exists|t: Text|
            reg.lookup(t) == Some(Desc::Param(true)) && !st.params.contains_key(t),
        finish(reg, name, st) matches Err(e) ==> e matches Failure::MissingRequiredParameters(
            names,
        ) && ascending(names) && forall|t: Text| #[trigger]
            names.contains(t) <==> reg.lookup(t) == Some(Desc::Param(true))
                && !st.params.contains_key(t),
{
    let names = missing_required(reg.options, st.params);
    lemma_missing_required(reg.options, st.params);
    lemma_missing_required_ascending(reg, st.params);
    assert forall|t: Text| #[trigger]
        names.contains(t) <==> reg.lookup(t) == Some(Desc::Param(true)) && !st.params.contains_key(
            t,
        ) by {
        if names.contains(t) {
            let i = choose|i: int|
                0 <= i < reg.options.len() && (#[trigger] reg.options[i]).name == t
                    && reg.options[i].desc == Desc::Param(true);
            lemma_index_of(reg, i);
        }
        if reg.lookup(t) == Some(Desc::Param(true)) {
            let i = reg.index_of(t);
            assert(reg.options[i].name == t);
        }
    }
    if names.len() > 0 {
        assert(names.contains(names[0]));
    }
    if exists|t: Text| reg.lookup(t) == Some(Desc::Param(true)) && !st.params.contains_key(t) {
        let t = choose|t: Text|
            reg.lookup(t) == Some(Desc::Param(true)) && !st.params.contains_key(t);
        assert(names.contains(t));
    }
}

/// Duplication policy: a parameter that has a value already takes a new one
/// if duplication is allowed, and only the new value stays. If it is not
/// allowed the new value is refused, and the failure names the alias if it
/// was through an alias that the parameter was reached this time.
pub proof fn law_duplication_policy(reg: Registry, st: Progress, r: Resolved, value: Text)
    requires
        st.params.contains_key(r.target),
    ensures
        store(reg, st, r, value) == if reg.features.param_duplication {
            Ok::<Progress, Failure>(Progress { params: st.params.insert(r.target, value), ..st })
        } else {
            Err::<Progress, Failure>(
                match r.alias {
                    Some(alias) => Failure::ParameterDuplicationAlias(r.target, alias),
                    None => Failure::ParameterDuplication(r.target),
                },
            )
        },
        reg.features.param_duplication ==> store(reg, st, r, value)->Ok_0.params[r.target]
            == value,
{
}

/// The parameters' values once each of `ps` has been given the value at its
/// place in `values`, in order.
pub open spec fn given(params: Map<Text, Text>, ps: Seq<Resolved>, values: Seq<Text>) -> Map<
    Text,
    Text,
>
    decreases ps.len(),
{
    if ps.len() == 0 || values.len() == 0 {
        params
    } else {
        given(params.insert(ps[0].target, values[0]), ps.skip(1), values.skip(1))
    }
}

/// Whether no two of `ps` are the same parameter.
pub open spec fn distinct_targets(ps: Seq<Resolved>) -> bool {
    forall|i: int, j: int|
        0 <= i < j < ps.len() ==> (#[trigger] ps[i]).target != (#[trigger] ps[j]).target
}

/// Whether each of `ps` can be given a value: duplication is allowed, or the
/// parameters differ from each other and none of them has a value yet.
pub open spec fn unhindered(reg: Registry, st: Progress, ps: Seq<Resolved>) -> bool {
    reg.features.param_duplication || (distinct_targets(ps) && forall|i: int|
        0 <= i < ps.len() ==> !st.params.contains_key((#[trigger] ps[i]).target))
}

/// Where nothing hinders it, every parameter is given its value.
pub proof fn lemma_store_all_given(
    reg: Registry,
    st: Progress,
    ps: Seq<Resolved>,
    values: Seq<Text>,
)
    requires
        unhindered(reg, st, ps),
    ensures
        store_all(reg, st, ps, values) == Ok::<Progress, Failure>(
            Progress { params: given(st.params, ps, values), ..st },
        ),
    decreases ps.len(),
{
    if ps.len() > 0 && values.len() > 0 {
        let next = Progress { params: st.params.insert(ps[0].target, values[0]), ..st };
        assert(reg.features.param_duplication || !st.params.contains_key(ps[0].target));
        assert(store(reg, st, ps[0], values[0]) == Ok::<Progress, Failure>(next));
        let tail = ps.skip(1);
        if !reg.features.param_duplication {
            assert forall|i: int, j: int| 0 <= i < j < tail.len() implies (#[trigger] tail[i]).target
                != (#[trigger] tail[j]).target by {
                assert(tail[i] == ps[i + 1] && tail[j] == ps[j + 1]);
            }
            assert forall|i: int| 0 <= i < tail.len() implies !next.params.contains_key(
                (#[trigger] tail[i]).target,
            ) by {
                assert(tail[i] == ps[i + 1]);
                assert(ps[0].target != ps[i + 1].target);
            }
        }
        lemma_store_all_given(reg, next, tail, values.skip(1));
    }
}

/// Parameters that differ from each other hold, once they are given their
/// values, each the value at its place.
pub proof fn lemma_given_values(params: Map<Text, Text>, ps: Seq<Resolved>, values: Seq<Text>)
    requires
        distinct_targets(ps),
        values.len() >= ps.len(),
    ensures
        forall|i: int|
            0 <= i < ps.len() ==> given(params, ps, values).contains_key(
                (#[trigger] ps[i]).target,
            ) && given(params, ps, values)[ps[i].target] == values[i],
    decreases ps.len(),
{
    if ps.len() > 0 {
        let tail = ps.skip(1);
        let then = params.insert(ps[0].target, values[0]);
        assert forall|i: int, j: int| 0 <= i < j < tail.len() implies (#[trigger] tail[i]).target
            != (#[trigger] tail[j]).target by {
            assert(tail[i] == ps[i + 1] && tail[j] == ps[j + 1]);
        }
        lemma_given_values(then, tail, values.skip(1));
        lemma_given_keeps(then, tail, values.skip(1), ps[0].target);
        assert forall|i: int| 0 <= i < ps.len() implies given(params, ps, values).contains_key(
            (#[trigger] ps[i]).target,
        ) && given(params, ps, values)[ps[i].target] == values[i] by {
            if i > 0 {
                assert(tail[i - 1] == ps[i]);
                assert(values.skip(1)[i - 1] == values[i]);
            } else {
                assert forall|j: int| 0 <= j < tail.len() implies (#[trigger] tail[j]).target
                    != ps[0].target by {
                    assert(tail[j] == ps[j + 1]);
                }
            }
        }
    }
}

/// Giving parameters their values leaves every other parameter as it was.
pub proof fn lemma_given_keeps(
    params: Map<Text, Text>,
    ps: Seq<Resolved>,
    values: Seq<Text>,
    other: Text,
)
    requires
        forall|i: int| 0 <= i < ps.len() ==> (#[trigger] ps[i]).target != other,
    ensures
        given(params, ps, values).contains_key(other) == params.contains_key(other),
        params.contains_key(other) ==> given(params, ps, values)[other] == params[other],
    decreases ps.len(),
{
    if ps.len() > 0 && values.len() > 0 {
        let tail = ps.skip(1);
        assert forall|i: int| 0 <= i < tail.len() implies (#[trigger] tail[i]).target != other by {
            assert(tail[i] == ps[i + 1]);
        }
        assert(ps[0].target != other);
        lemma_given_keeps(params.insert(ps[0].target, values[0]), tail, values.skip(1), other);
    }
}

/// How many of the next arguments the parameters `ps` of a bundle take: one
/// each, but for the last if the bundle has a value of its own.
pub open spec fn arguments_taken(ps: Seq<Resolved>, inline: Text) -> int {
    if inline.len() > 0 && ps.len() > 0 {
        ps.len() - 1
    } else {
        ps.len() as int
    }
}

/// The values that the parameters `ps` of a bundle are handed: the next
/// arguments, with the bundle's own value in the last place if it has one.
pub open spec fn handed(ps: Seq<Resolved>, inline: Text, rest: Seq<Text>) -> Seq<Text> {
    if inline.len() > 0 {
        rest.take(arguments_taken(ps, inline)).push(inline)
    } else {
        rest.take(arguments_taken(ps, inline))
    }
}

/// Stacking distribution: with parameter stacking, in a bundle whose letters
/// are all names of options, whose value (if it has one) does not stand
/// behind a flag, and behind which enough arguments stand, the flags are set
/// and the parameters are given values in the order of their letters: each
/// but the last takes one of the next arguments, and the last takes the
/// bundle's value or, if it has none, one more argument. This holds where
/// nothing hinders it: where duplication is allowed, or the parameters
/// differ from each other and none has a value yet. Parameters that differ
/// from each other then hold each the value that was handed to it.
pub proof fn law_stacked_parameters(
    reg: Registry,
    st: Progress,
    letters: Text,
    inline: Text,
    rest: Seq<Text>,
)
    requires
        reg.features.param_stacking,
        letters.len() > 0,
        known_run(reg, letters) >= letters.len(),
        !(bundle(reg, letters).last().is_flag && inline.len() > 0),
        rest.len() >= arguments_taken(params_of(bundle(reg, letters)), inline),
        unhindered(reg, st, params_of(bundle(reg, letters))),
    ensures
        ({
            let rs = bundle(reg, letters);
            let ps = params_of(rs);
            let values = handed(ps, inline, rest);
            &&& rule_bundle(reg, st, letters, inline, rest) matches Step::Continue(next, used)
            &&& next == (Progress {
                flags: st.flags.union(flags_of(rs)),
                params: given(st.params, ps, values),
                ..st
            })
            &&& used == arguments_taken(ps, inline)
            &&& distinct_targets(ps) ==> forall|i: int|
                0 <= i < ps.len() ==> next.params.contains_key((#[trigger] ps[i]).target)
                    && next.params[ps[i].target] == values[i]
        }),
{
    let rs = bundle(reg, letters);
    let ps = params_of(rs);
    let values = handed(ps, inline, rest);
    let flagged = Progress { flags: st.flags.union(flags_of(rs)), ..st };
    lemma_store_all_given(reg, flagged, ps, values);
    if distinct_targets(ps) {
        lemma_given_values(st.params, ps, values);
    }
}

/// In an ascending sequence no text occurs twice.
pub proof fn law_ascending_has_no_duplicates(names: Seq<Text>)
    requires
        ascending(names),
    ensures
        names.no_duplicates(),
{
    assert forall|i: int, j: int|
        0 <= i < names.len() && 0 <= j < names.len() && i != j implies names[i] != names[j] by {
        lemma_before_irreflexive(names[i]);
        if i < j {
            assert(before(names[i], names[j]));
        } else {
            assert(before(names[j], names[i]));
        }
    }
}

} // verus!
