//! What every outcome keeps: it names declared flags, parameters and
//! subcommands only, never an alias, and it lacks nothing that is required.

use vstd::prelude::*;
use crate::laws::{lemma_missing_required, lemma_names_contain};
use crate::parsing_config::{Desc, Registry};
use crate::parsing_error::Failure;
use crate::resolve::{lemma_prefixed_members, Resolved};
use crate::rules::{
    bundle, distribute, finish, known_run, missing_required, params_of, parse_spec,
    rule_assignment, rule_bundle, rule_double, rule_naked, rule_plain, rule_single, run, step,
    store, store_all, Progress, Step,
};
use crate::text::Text;

verus! {

/// Whether `r` names a declared flag or parameter and says rightly which of
/// the two it is.
pub open spec fn leads_to_option(reg: Registry, r: Resolved) -> bool {
    &&& reg.has_option(r.target)
    &&& if r.is_flag {
        reg.desc_of(r.target) is Flag
    } else {
        reg.desc_of(r.target) is Param
    }
}

/// Whether what has been gathered speaks of the catalog's own flags,
/// parameters and subcommands only, and never of an alias.
pub open spec fn canonical(reg: Registry, st: Progress) -> bool {
    &&& forall|t: Text| st.flags.contains(t) ==> reg.has_option(t) && reg.desc_of(t) is Flag
    &&& forall|t: Text| st.params.contains_key(t) ==> reg.has_option(t) && reg.desc_of(t) is Param
    &&& st.subcommand.len() > 0 ==> reg.has_subcommand(st.subcommand[0])
}

/// Whether `e` is a failure that reading arguments can end in: any but the
/// failure of a conversion, which only asking for a typed value gives.
pub open spec fn from_reading(e: Failure) -> bool {
    !(e is ArgumentParsingError)
}

/// Whether `step`, made from a canonical state with `available` arguments
/// behind the one that was read, keeps what the reading rests on.
pub open spec fn sound_step(reg: Registry, step: Step, available: nat) -> bool {
    match step {
        Step::Continue(next, used) => canonical(reg, next) && used <= available,
        Step::Stop(last) => canonical(reg, last),
        Step::Fail(e) => from_reading(e),
    }
}

/// A declared name leads to a declared flag or parameter.
pub proof fn lemma_resolved(reg: Registry, name: Text)
    requires
        reg.wf(),
        reg.has_option(name),
    ensures
        leads_to_option(reg, reg.resolved(name)),
{
    let i = reg.index_of(name);
    assert(reg.options[i].name == name);
}

/// A written name that is resolved leads to a declared flag or parameter.
pub proof fn lemma_resolve_option(reg: Registry, cand: Text)
    requires
        reg.wf(),
    ensures
        match reg.resolve_option(cand) {
            Ok(r) => leads_to_option(reg, r),
            Err(e) => from_reading(e),
        },
{
    let m = reg.option_matches(cand);
    if m.len() == 1 {
        assert(m.contains(m[0]));
        lemma_names_contain(reg, cand);
        lemma_prefixed_members(reg.names(), cand);
        lemma_names_contain(reg, m[0]);
        lemma_resolved(reg, m[0]);
    }
}

/// Giving a declared parameter a value keeps the state canonical.
pub proof fn lemma_store(reg: Registry, st: Progress, r: Resolved, value: Text)
    requires
        canonical(reg, st),
        leads_to_option(reg, r),
        !r.is_flag,
    ensures
        match store(reg, st, r, value) {
            Ok(next) => canonical(reg, next),
            Err(e) => from_reading(e),
        },
{
}

/// Giving declared parameters their values keeps the state canonical.
pub proof fn lemma_store_all(reg: Registry, st: Progress, ps: Seq<Resolved>, values: Seq<Text>)
    requires
        canonical(reg, st),
        forall|i: int| 0 <= i < ps.len() ==> leads_to_option(reg, #[trigger] ps[i]) && !ps[i].is_flag,
    ensures
        match store_all(reg, st, ps, values) {
            Ok(next) => canonical(reg, next),
            Err(e) => from_reading(e),
        },
    decreases ps.len(),
{
    if ps.len() > 0 && values.len() > 0 {
        lemma_store(reg, st, ps[0], values[0]);
        if let Ok(next) = store(reg, st, ps[0], values[0]) {
            assert forall|i: int| 0 <= i < ps.skip(1).len() implies leads_to_option(
                reg,
                #[trigger] ps.skip(1)[i],
            ) && !ps.skip(1)[i].is_flag by {
                assert(ps.skip(1)[i] == ps[i + 1]);
            }
            lemma_store_all(reg, next, ps.skip(1), values.skip(1));
        }
    }
}

/// Where every letter is known, every letter is a declared name.
pub proof fn lemma_known_letters(reg: Registry, letters: Text)
    requires
        known_run(reg, letters) >= letters.len(),
    ensures
        forall|i: int| 0 <= i < letters.len() ==> reg.has_option(seq![#[trigger] letters[i]]),
    decreases letters.len(),
{
    if letters.len() > 0 {
        lemma_known_letters(reg, letters.skip(1));
        assert forall|i: int| 0 <= i < letters.len() implies reg.has_option(
            seq![#[trigger] letters[i]],
        ) by {
            if i > 0 {
                assert(letters.skip(1)[i - 1] == letters[i]);
            }
        }
    }
}

/// Whether `r` is one of `rs` and no flag.
pub open spec fn parameter_among(rs: Seq<Resolved>, r: Resolved) -> bool {
    !r.is_flag && exists|i: int| 0 <= i < rs.len() && #[trigger] rs[i] == r
}

/// `params_of` takes parameters of `rs` only.
pub proof fn lemma_params_of(rs: Seq<Resolved>)
    ensures
        forall|k: int|
            0 <= k < params_of(rs).len() ==> parameter_among(rs, #[trigger] params_of(rs)[k]),
    decreases rs.len(),
{
    if rs.len() > 0 {
        let front = rs.drop_last();
        lemma_params_of(front);
        assert forall|k: int| 0 <= k < params_of(rs).len() implies parameter_among(
            rs,
            #[trigger] params_of(rs)[k],
        ) by {
            if !rs.last().is_flag && k == params_of(rs).len() - 1 {
                assert(rs[rs.len() - 1] == params_of(rs)[k]);
            } else {
                let r = params_of(front)[k];
                assert(parameter_among(front, r));
                let i = choose|i: int| 0 <= i < front.len() && #[trigger] front[i] == r;
                assert(rs[i] == r);
            }
        }
    }
}

/// Handing out values to declared parameters is a sound step.
pub proof fn lemma_distribute(
    reg: Registry,
    st: Progress,
    ps: Seq<Resolved>,
    inline: Text,
    rest: Seq<Text>,
)
    requires
        canonical(reg, st),
        forall|i: int| 0 <= i < ps.len() ==> leads_to_option(reg, #[trigger] ps[i]) && !ps[i].is_flag,
    ensures
        sound_step(reg, distribute(reg, st, ps, inline, rest), rest.len()),
{
    let needed = if inline.len() > 0 && ps.len() > 0 {
        ps.len() - 1
    } else {
        ps.len() as int
    };
    if rest.len() >= needed {
        let values = if inline.len() > 0 {
            rest.take(needed).push(inline)
        } else {
            rest.take(needed)
        };
        lemma_store_all(reg, st, ps, values);
    }
}

/// Reading a bundle of letters is a sound step.
pub proof fn lemma_rule_bundle(
    reg: Registry,
    st: Progress,
    letters: Text,
    inline: Text,
    rest: Seq<Text>,
)
    requires
        reg.wf(),
        canonical(reg, st),
    ensures
        sound_step(reg, rule_bundle(reg, st, letters, inline, rest), rest.len()),
{
    if known_run(reg, letters) >= letters.len() {
        lemma_known_letters(reg, letters);
        let rs = bundle(reg, letters);
        let ps = params_of(rs);
        assert forall|i: int| 0 <= i < rs.len() implies leads_to_option(reg, #[trigger] rs[i]) by {
            assert(reg.has_option(seq![letters[i]]));
            lemma_resolved(reg, seq![letters[i]]);
        }
        lemma_params_of(rs);
        assert forall|k: int| 0 <= k < ps.len() implies leads_to_option(reg, #[trigger] ps[k])
            && !ps[k].is_flag by {
            assert(parameter_among(rs, ps[k]));
            let i = choose|i: int| 0 <= i < rs.len() && #[trigger] rs[i] == ps[k];
            assert(leads_to_option(reg, rs[i]));
        }
        let flagged = Progress { flags: st.flags.union(crate::rules::flags_of(rs)), ..st };
        assert forall|t: Text| flagged.flags.contains(t) implies reg.has_option(t)
            && reg.desc_of(t) is Flag by {
            if !st.flags.contains(t) {
                let i = choose|i: int|
                    0 <= i < rs.len() && (#[trigger] rs[i]).is_flag && rs[i].target == t;
                assert(leads_to_option(reg, rs[i]));
            }
        }
        assert(canonical(reg, flagged));
        lemma_distribute(reg, flagged, ps, inline, rest);
    }
}

/// Reading a hyphen with no letter behind it is a sound step.
pub proof fn lemma_rule_naked(reg: Registry, st: Progress, inline: Text, rest: Seq<Text>)
    requires
        reg.wf(),
        canonical(reg, st),
    ensures
        sound_step(reg, rule_naked(reg, st, inline, rest), rest.len()),
{
    let nameless = Seq::<char>::empty();
    if reg.has_option(nameless) {
        lemma_resolved(reg, nameless);
        let r = reg.resolved(nameless);
        if !r.is_flag {
            lemma_store(reg, st, r, inline);
            if rest.len() > 0 {
                lemma_store(reg, st, r, rest[0]);
            }
        }
    }
}

/// Reading one argument from a canonical state is a sound step.
pub proof fn lemma_step(reg: Registry, st: Progress, token: Text, rest: Seq<Text>)
    requires
        reg.wf(),
        canonical(reg, st),
    ensures
        sound_step(reg, step(reg, st, token, rest), rest.len()),
{
    let f = reg.features;
    let eq = crate::text::first_index(token, '=');
    let double = crate::rules::hyphens().is_prefix_of(token);
    if f.dh_marker && token == crate::rules::hyphens() {
    } else if f.dha_syntax && double && eq is Some {
        let cand = token.subrange(2, eq->0);
        let value = token.skip(eq->0 + 1);
        lemma_resolve_option(reg, cand);
        if let Ok(r) = reg.resolve_option(cand) {
            if !r.is_flag {
                lemma_store(reg, st, r, value);
            }
        }
        assert(sound_step(reg, rule_assignment(reg, st, cand, value), rest.len()));
    } else if f.dh_syntax && double {
        let cand = token.skip(2);
        lemma_resolve_option(reg, cand);
        if let Ok(r) = reg.resolve_option(cand) {
            if !r.is_flag && rest.len() > 0 {
                lemma_store(reg, st, r, rest[0]);
            }
        }
        assert(sound_step(reg, rule_double(reg, st, cand, rest), rest.len()));
    } else if f.sh_syntax && token.len() > 0 && token[0] == '-' {
        let n = crate::text::letter_run(token.skip(1)) as int;
        lemma_rule_naked(reg, st, token.skip(1 + n), rest);
        lemma_rule_bundle(reg, st, token.subrange(1, 1 + n), token.skip(1 + n), rest);
        assert(sound_step(reg, rule_single(reg, st, token, rest), rest.len()));
    } else if f.a_syntax && eq is Some {
        let cand = token.take(eq->0);
        let value = token.skip(eq->0 + 1);
        lemma_resolve_option(reg, cand);
        if let Ok(r) = reg.resolve_option(cand) {
            if !r.is_flag {
                lemma_store(reg, st, r, value);
            }
        }
        assert(sound_step(reg, rule_assignment(reg, st, cand, value), rest.len()));
    } else {
        let m = reg.subcommand_matches(token);
        if m.len() == 1 {
            assert(m.contains(m[0]));
            lemma_prefixed_members(reg.subcmds, token);
        }
        assert(sound_step(reg, rule_plain(reg, st, token, rest), rest.len()));
    }
}

/// Reading arguments from a canonical state ends in a canonical state or in
/// a failure of reading.
pub proof fn lemma_run(reg: Registry, st: Progress, tokens: Seq<Text>)
    requires
        reg.wf(),
        canonical(reg, st),
    ensures
        match run(reg, st, tokens) {
            Ok(last) => canonical(reg, last),
            Err(e) => from_reading(e),
        },
    decreases tokens.len(),
{
    if tokens.len() > 0 {
        lemma_step(reg, st, tokens[0], tokens.skip(1));
        if let Step::Continue(next, used) = step(reg, st, tokens[0], tokens.skip(1)) {
            if used < tokens.len() {
                lemma_run(reg, next, tokens.skip(1 + used as int));
            }
        }
    }
}

/// Canonical identity: what a successful parse returns speaks of the
/// catalog's own names only. Every flag that is set is a declared flag,
/// every parameter that has a value is a declared parameter, and never an
/// alias; the subcommand, if there is one, is a declared subcommand. Every
/// required parameter has a value, and a required subcommand was found. A
/// parse that fails never fails for a conversion.
pub proof fn law_outcome_is_canonical(reg: Registry, tokens: Seq<Text>)
    requires
        reg.wf(),
    ensures
        match parse_spec(reg, tokens) {
            Ok(outcome) => {
                &&& forall|t: Text| #[trigger]
                    outcome.flags.contains(t) ==> reg.lookup(t) == Some(Desc::Flag)
                &&& forall|t: Text| #[trigger]
                    outcome.params.contains_key(t) ==> reg.lookup(t) is Some && reg.lookup(t)->0
                        is Param
                &&& forall|t: Text|
                    reg.lookup(t) == Some(Desc::Param(true)) ==> #[trigger] outcome.params.contains_key(
                        t,
                    )
                &&& outcome.subcommand.len() > 0 ==> reg.has_subcommand(outcome.subcommand[0])
                &&& reg.features.subcmd_required ==> outcome.subcommand.len() > 0
            },
            Err(e) => from_reading(e),
        },
{
    let name = if tokens.len() == 0 {
        Seq::empty()
    } else {
        tokens[0]
    };
    let arguments = if tokens.len() == 0 {
        tokens
    } else {
        tokens.skip(1)
    };
    lemma_run(reg, Progress::empty(), arguments);
    if let Ok(st) = run(reg, Progress::empty(), arguments) {
        lemma_missing_required(reg.options, st.params);
        if let Ok(outcome) = finish(reg, name, st) {
            let missing = missing_required(reg.options, st.params);
            assert forall|t: Text| reg.lookup(t) == Some(Desc::Param(true)) implies
                #[trigger] outcome.params.contains_key(t) by {
                let i = reg.index_of(t);
                assert(reg.options[i].name == t);
                if !st.params.contains_key(t) {
                    assert(missing.contains(t));
                }
            }
        }
    }
}

} // verus!
