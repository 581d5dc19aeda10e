//! The parser: one pass over the arguments, proved to return what `rules`
//! says.

use vstd::prelude::*;
use vstd::string::*;
use vstd::slice::slice_subrange;
use crate::parsed_args::{name_set, ParsedArgs};
use crate::parsing_config::{ArgDesc, Entry, ParsingConfig, Registry};
use crate::parsing_error::{Failure, ParsingError};
use crate::resolve::{parse_option_name, parse_subcommand_name, resolve_target, Resolved, Target};
use crate::rules::{
    assignment_to_flag, bundle, distribute, duplication, flags_of, hyphens, known_run,
    missing_argument, missing_required, params_of, parse_spec, rule_assignment, rule_bundle,
    rule_double, rule_marker, rule_naked, rule_plain, rule_single, run, step, store, store_all,
    Outcome, Progress, Step,
};
use crate::text::{
    chars_of, count_letters, find_char, lemma_first_index, piece, same_text, texts, Name, Text,
};

verus! {

/// How reading goes on behind an argument.
pub enum Flow {
    /// Behind this argument and as many further ones as the field says.
    Next(usize),
    /// Not at all: everything has been taken.
    Stop,
}

/// Whether `r`, together with what has been gathered, is the step `step`.
pub open spec fn is_step(r: Result<Flow, ParsingError>, gathered: Progress, step: Step) -> bool {
    match r {
        Ok(Flow::Next(used)) => step == Step::Continue(gathered, used as nat),
        Ok(Flow::Stop) => step == Step::Stop(gathered),
        Err(e) => step == Step::Fail(e@),
    }
}

/// A parsing result as plain data.
pub open spec fn outcome_of(r: Result<ParsedArgs, ParsingError>) -> Result<Outcome, Failure> {
    match r {
        Ok(parsed) => Ok(parsed@),
        Err(e) => Err(e@),
    }
}

fn assignment_error(t: &Target) -> (e: ParsingError)
    ensures
        e@ == assignment_to_flag(t@),
{
    match &t.alias {
        Some(alias) => ParsingError::AssignmentToFlagAlias(t.name.clone(), alias.clone()),
        None => ParsingError::AssignmentToFlag(t.name.clone()),
    }
}

fn missing_error(t: &Target) -> (e: ParsingError)
    ensures
        e@ == missing_argument(t@),
{
    match &t.alias {
        Some(alias) => ParsingError::MissingArgumentAlias(t.name.clone(), alias.clone()),
        None => ParsingError::MissingArgument(t.name.clone()),
    }
}

fn duplication_error(t: &Target) -> (e: ParsingError)
    ensures
        e@ == duplication(t@),
{
    match &t.alias {
        Some(alias) => ParsingError::ParameterDuplicationAlias(t.name.clone(), alias.clone()),
        None => ParsingError::ParameterDuplication(t.name.clone()),
    }
}

/// Sets the flag `name`.
fn set_flag(out: &mut ParsedArgs, name: &String)
    ensures
        final(out).progress() == old(out).progress().with_flag(name@),
        final(out)@.name == old(out)@.name,
{
    let key = Name::new(name.clone());
    let mut i: usize = 0;
    while i < out.flags.len()
        invariant
            i <= out.flags.len(),
            *out == *old(out),
            key@ == name@,
            forall|j: int| 0 <= j < i ==> (#[trigger] out.flags@[j])@ != name@,
        decreases out.flags.len() - i,
    {
        if same_text(out.flags[i].chars(), key.chars()) {
            assert(name_set(out.flags@) =~= name_set(out.flags@).insert(name@));
            return ;
        }
        i += 1;
    }
    out.flags.push(key);
    assert(name_set(out.flags@) =~= name_set(old(out).flags@).insert(name@)) by {
        assert forall|t: Text| name_set(out.flags@).contains(t) <==> name_set(
            old(out).flags@,
        ).insert(name@).contains(t) by {
            if name_set(old(out).flags@).contains(t) {
                let j = choose|j: int|
                    0 <= j < old(out).flags@.len() && (#[trigger] old(out).flags@[j])@ == t;
                assert(out.flags@[j]@ == t);
            }
            if t == name@ {
                assert(out.flags@[out.flags@.len() - 1]@ == t);
            }
        }
    }
}

/// Gives the parameter `target` the value `value`, or refuses a second value
/// where duplication is not allowed.
pub(crate) fn insert_param(
    out: &mut ParsedArgs,
    config: &ParsingConfig,
    target: &Target,
    value: String,
) -> (r: Result<(), ParsingError>)
    ensures
        match r {
            Ok(()) => store(config@, old(out).progress(), target@, value@) == Ok::<
                Progress,
                Failure,
            >(final(out).progress()),
            Err(e) => store(config@, old(out).progress(), target@, value@) == Err::<
                Progress,
                Failure,
            >(e@),
        },
        final(out)@.name == old(out)@.name,
{
    let key = Name::new(target.name.clone());
    if !config.features.param_duplication {
        if out.find_param(key.chars()).is_some() {
            return Err(duplication_error(target));
        }
    }
    out.params.push((key, value));
    assert(out.params@.drop_last() =~= old(out).params@);
    Ok(())
}

/// Copies the arguments from place `from` on to the end of `dst`.
fn append_rest(dst: &mut Vec<String>, args: &Vec<String>, from: usize)
    requires
        from <= args.len(),
    ensures
        texts(final(dst)@) == texts(old(dst)@) + texts(args@).skip(from as int),
{
    let mut i: usize = from;
    assert(texts(dst@) =~= texts(old(dst)@) + texts(args@).subrange(from as int, i as int));
    while i < args.len()
        invariant
            from <= i <= args.len(),
            texts(dst@) == texts(old(dst)@) + texts(args@).subrange(from as int, i as int),
        decreases args.len() - i,
    {
        let ghost prev = dst@;
        dst.push(args[i].clone());
        assert(texts(dst@) =~= texts(prev).push(args@[i as int]@));
        assert(texts(args@).subrange(from as int, i + 1) =~= texts(args@).subrange(
            from as int,
            i as int,
        ).push(args@[i as int]@));
        i += 1;
    }
    assert(texts(args@).subrange(from as int, args@.len() as int) =~= texts(args@).skip(
        from as int,
    ));
}

/// One more unnamed argument.
fn push_unnamed(out: &mut ParsedArgs, token: String)
    ensures
        final(out).progress() == old(out).progress().with_unnamed(token@),
        final(out)@.name == old(out)@.name,
{
    out.unnameds.push(token);
    assert(texts(out.unnameds@) =~= texts(old(out).unnameds@).push(token@));
}

/// The subcommand `name` takes every argument behind place `pos`.
fn delegate(out: &mut ParsedArgs, name: String, args: &Vec<String>, pos: usize)
    requires
        pos < args.len(),
    ensures
        final(out).progress() == old(out).progress().delegate(
            name@,
            texts(args@).skip(pos + 1),
        ),
        final(out)@.name == old(out)@.name,
{
    let mut tail: Vec<String> = Vec::new();
    tail.push(name);
    assert(texts(tail@) =~= seq![name@]);
    append_rest(&mut tail, args, pos + 1);
    out.subcommand = tail;
}

/// `NAME=VALUE`, with or without two hyphens in front.
fn assign(out: &mut ParsedArgs, config: &ParsingConfig, cand: &str, value: String) -> (r: Result<
    Flow,
    ParsingError,
>)
    requires
        config@.wf(),
    ensures
        is_step(
            r,
            final(out).progress(),
            rule_assignment(config@, old(out).progress(), cand@, value@),
        ),
        r matches Ok(Flow::Next(used)) ==> used == 0,
        final(out)@.name == old(out)@.name,
{
    match parse_option_name(config, cand) {
        Err(e) => Err(e),
        Ok(target) => {
            if target.is_flag {
                Err(assignment_error(&target))
            } else {
                match insert_param(out, config, &target, value) {
                    Ok(()) => Ok(Flow::Next(0)),
                    Err(e) => Err(e),
                }
            }
        },
    }
}

/// `--NAME`: sets a flag, or gives a parameter the next argument.
fn double(
    out: &mut ParsedArgs,
    config: &ParsingConfig,
    cand: &str,
    args: &Vec<String>,
    pos: usize,
) -> (r: Result<Flow, ParsingError>)
    requires
        config@.wf(),
        pos < args.len(),
    ensures
        is_step(
            r,
            final(out).progress(),
            rule_double(config@, old(out).progress(), cand@, texts(args@).skip(pos + 1)),
        ),
        r matches Ok(Flow::Next(used)) ==> pos + 1 + used <= args.len(),
        final(out)@.name == old(out)@.name,
{
    match parse_option_name(config, cand) {
        Err(e) => Err(e),
        Ok(target) => {
            if target.is_flag {
                set_flag(out, &target.name);
                Ok(Flow::Next(0))
            } else if pos + 1 >= args.len() {
                Err(missing_error(&target))
            } else {
                let value = args[pos + 1].clone();
                assert(texts(args@).skip(pos + 1)[0] == value@);
                match insert_param(out, config, &target, value) {
                    Ok(()) => Ok(Flow::Next(1)),
                    Err(e) => Err(e),
                }
            }
        },
    }
}

/// A hyphen with no letter behind it; `inline` is what follows the hyphen.
fn naked(
    out: &mut ParsedArgs,
    config: &ParsingConfig,
    inline: String,
    args: &Vec<String>,
    pos: usize,
) -> (r: Result<Flow, ParsingError>)
    requires
        config@.wf(),
        pos < args.len(),
    ensures
        is_step(
            r,
            final(out).progress(),
            rule_naked(config@, old(out).progress(), inline@, texts(args@).skip(pos + 1)),
        ),
        r matches Ok(Flow::Next(used)) ==> pos + 1 + used <= args.len(),
        final(out)@.name == old(out)@.name,
{
    let nameless: Vec<char> = Vec::new();
    assert(nameless@ =~= Seq::<char>::empty());
    match config.find_option(nameless.as_slice()) {
        None => {
            if inline.as_str().unicode_len() == 0 {
                let hyphen = String::from_str("-");
                proof {
                    reveal_strlit("-");
                    assert(hyphen@ =~= seq!['-']);
                }
                push_unnamed(out, hyphen);
                Ok(Flow::Next(0))
            } else {
                Err(ParsingError::UnrecognizedOption(inline))
            }
        },
        Some(i) => {
            let target = resolve_target(config, i);
            if target.is_flag {
                if inline.as_str().unicode_len() == 0 {
                    set_flag(out, &target.name);
                    Ok(Flow::Next(0))
                } else {
                    Err(assignment_error(&target))
                }
            } else if inline.as_str().unicode_len() > 0 {
                match insert_param(out, config, &target, inline) {
                    Ok(()) => Ok(Flow::Next(0)),
                    Err(e) => Err(e),
                }
            } else if pos + 1 < args.len() {
                let value = args[pos + 1].clone();
                assert(texts(args@).skip(pos + 1)[0] == value@);
                match insert_param(out, config, &target, value) {
                    Ok(()) => Ok(Flow::Next(1)),
                    Err(e) => Err(e),
                }
            } else {
                Err(missing_error(&target))
            }
        },
    }
}

/// An argument that no option syntax claims: a subcommand or an unnamed argument.
fn plain(out: &mut ParsedArgs, config: &ParsingConfig, args: &Vec<String>, pos: usize) -> (r:
    Result<Flow, ParsingError>)
    requires
        config@.wf(),
        pos < args.len(),
    ensures
        is_step(
            r,
            final(out).progress(),
            rule_plain(
                config@,
                old(out).progress(),
                args@[pos as int]@,
                texts(args@).skip(pos + 1),
            ),
        ),
        r matches Ok(Flow::Next(used)) ==> used == 0,
        final(out)@.name == old(out)@.name,
{
    let arg = &args[pos];
    if !config.features.subcmd_index {
        if config.has_subcommand(arg.as_str()) {
            delegate(out, arg.clone(), args, pos);
            Ok(Flow::Stop)
        } else {
            push_unnamed(out, arg.clone());
            Ok(Flow::Next(0))
        }
    } else if out.unnameds.len() != config.features.subcmd_index_value {
        push_unnamed(out, arg.clone());
        Ok(Flow::Next(0))
    } else {
        match parse_subcommand_name(config, arg.as_str()) {
            Ok(name) => {
                delegate(out, name, args, pos);
                Ok(Flow::Stop)
            },
            Err(e) => {
                match e {
                    ParsingError::UnrecognizedSubcommand(_) => {
                        if config.features.subcmd_required {
                            Err(e)
                        } else {
                            push_unnamed(out, arg.clone());
                            Ok(Flow::Next(0))
                        }
                    },
                    _ => Err(e),
                }
            },
        }
    }
}

/// The lone double hyphen at place `pos`: everything behind it is unnamed.
fn marker(out: &mut ParsedArgs, config: &ParsingConfig, args: &Vec<String>, pos: usize) -> (r:
    Result<Flow, ParsingError>)
    requires
        pos < args.len(),
        args@[pos as int]@ == hyphens(),
    ensures
        is_step(
            r,
            final(out).progress(),
            rule_marker(config@, old(out).progress(), texts(args@).skip(pos + 1)),
        ),
        r matches Ok(Flow::Next(used)) ==> used == 0,
        final(out)@.name == old(out)@.name,
{
    if config.features.store_dh_marker {
        push_unnamed(out, args[pos].clone());
    }
    let mut unnameds: Vec<String> = Vec::new();
    std::mem::swap(&mut unnameds, &mut out.unnameds);
    append_rest(&mut unnameds, args, pos + 1);
    out.unnameds = unnameds;
    Ok(Flow::Stop)
}

/// The targets as plain data.
pub open spec fn resolved_all(targets: Seq<Target>) -> Seq<Resolved> {
    Seq::new(targets.len(), |k: int| targets[k]@)
}

/// `known_run` is the place of the first letter that names no option.
proof fn lemma_known_run(reg: Registry, letters: Text, k: int)
    requires
        0 <= k <= letters.len(),
        forall|j: int| 0 <= j < k ==> reg.has_option(seq![#[trigger] letters[j]]),
        k < letters.len() ==> !reg.has_option(seq![letters[k]]),
    ensures
        known_run(reg, letters) == k,
    decreases k,
{
    if k > 0 {
        assert(reg.has_option(seq![letters[0]]));
        assert forall|j: int| 0 <= j < k - 1 implies reg.has_option(
            seq![#[trigger] letters.skip(1)[j]],
        ) by {
            assert(letters.skip(1)[j] == letters[j + 1]);
        }
        if k < letters.len() {
            assert(letters.skip(1)[k - 1] == letters[k]);
        }
        lemma_known_run(reg, letters.skip(1), k - 1);
    }
}

/// The flags among the first `i + 1` of `rs` are the flags among the first
/// `i`, and `rs[i]` if it is one.
proof fn lemma_flags_of_next(rs: Seq<Resolved>, i: int)
    requires
        0 <= i < rs.len(),
    ensures
        flags_of(rs.take(i + 1)) == if rs[i].is_flag {
            flags_of(rs.take(i)).insert(rs[i].target)
        } else {
            flags_of(rs.take(i))
        },
{
    let older = flags_of(rs.take(i));
    let newer = flags_of(rs.take(i + 1));
    let expected = if rs[i].is_flag {
        older.insert(rs[i].target)
    } else {
        older
    };
    assert forall|t: Text| newer.contains(t) <==> expected.contains(t) by {
        if newer.contains(t) {
            let j = choose|j: int|
                0 <= j < rs.take(i + 1).len() && (#[trigger] rs.take(i + 1)[j]).is_flag && rs.take(
                    i + 1,
                )[j].target == t;
            if j < i {
                assert(rs.take(i)[j].is_flag);
            }
        }
        if older.contains(t) {
            let j = choose|j: int|
                0 <= j < rs.take(i).len() && (#[trigger] rs.take(i)[j]).is_flag && rs.take(
                    i,
                )[j].target == t;
            assert(rs.take(i + 1)[j].is_flag);
        }
        if rs[i].is_flag && t == rs[i].target {
            assert(rs.take(i + 1)[i].is_flag);
        }
    }
    assert(newer =~= expected);
}

/// Hands out values to the parameters `ps` of a bundle.
fn hand_out(
    out: &mut ParsedArgs,
    config: &ParsingConfig,
    ps: &Vec<Target>,
    inline: String,
    args: &Vec<String>,
    pos: usize,
) -> (r: Result<Flow, ParsingError>)
    requires
        pos < args.len(),
    ensures
        is_step(
            r,
            final(out).progress(),
            distribute(
                config@,
                old(out).progress(),
                resolved_all(ps@),
                inline@,
                texts(args@).skip(pos + 1),
            ),
        ),
        r matches Ok(Flow::Next(used)) ==> pos + 1 + used <= args.len(),
        final(out)@.name == old(out)@.name,
{
    let has_inline = inline.as_str().unicode_len() > 0;
    let needed: usize = if has_inline && ps.len() > 0 {
        ps.len() - 1
    } else {
        ps.len()
    };
    let available: usize = args.len() - (pos + 1);
    if available < needed {
        return Err(missing_error(&ps[available]));
    }
    let ghost rest = texts(args@).skip(pos + 1);
    let ghost values = if has_inline {
        rest.take(needed as int).push(inline@)
    } else {
        rest.take(needed as int)
    };
    let ghost all = resolved_all(ps@);
    let ghost start = out.progress();
    let mut k: usize = 0;
    assert(all.skip(0) =~= all && values.skip(0) =~= values);
    while k < ps.len()
        invariant
            k <= ps.len(),
            pos + 1 + needed <= args.len(),
            needed <= ps.len(),
            has_inline ==> needed + 1 == ps.len() || ps.len() == 0,
            !has_inline ==> needed == ps.len(),
            rest == texts(args@).skip(pos + 1),
            values == if has_inline {
                rest.take(needed as int).push(inline@)
            } else {
                rest.take(needed as int)
            },
            all == resolved_all(ps@),
            start == old(out).progress(),
            has_inline == (inline@.len() > 0),
            store_all(config@, start, all, values) == store_all(
                config@,
                out.progress(),
                all.skip(k as int),
                values.skip(k as int),
            ),
            out@.name == old(out)@.name,
        decreases ps.len() - k,
    {
        let value = if k < needed {
            args[pos + 1 + k].clone()
        } else {
            inline.clone()
        };
        proof {
            assert(values.skip(k as int)[0] == value@);
            assert(all.skip(k as int)[0] == ps@[k as int]@);
            assert(all.skip(k as int).skip(1) =~= all.skip(k + 1));
            assert(values.skip(k as int).skip(1) =~= values.skip(k + 1));
        }
        match insert_param(out, config, &ps[k], value) {
            Ok(()) => {},
            Err(e) => {
                return Err(e);
            },
        }
        k += 1;
    }
    Ok(Flow::Next(needed))
}

/// A hyphen with the `n` letters of `chars[1..=n]` behind it.
fn bundled(
    out: &mut ParsedArgs,
    config: &ParsingConfig,
    chars: &[char],
    n: usize,
    args: &Vec<String>,
    pos: usize,
) -> (r: Result<Flow, ParsingError>)
    requires
        config@.wf(),
        pos < args.len(),
        chars@ == args@[pos as int]@,
        1 <= n,
        1 + n <= chars.len(),
    ensures
        is_step(
            r,
            final(out).progress(),
            rule_bundle(
                config@,
                old(out).progress(),
                chars@.subrange(1, 1 + n),
                chars@.skip(1 + n),
                texts(args@).skip(pos + 1),
            ),
        ),
        r matches Ok(Flow::Next(used)) ==> pos + 1 + used <= args.len(),
        final(out)@.name == old(out)@.name,
{
    let arg = args[pos].as_str();
    let ghost reg = config@;
    let ghost letters = chars@.subrange(1, 1 + n);
    let ghost rs = bundle(reg, letters);
    let ghost start = out.progress();
    let mut ps: Vec<Target> = Vec::new();
    let mut last: Option<Target> = None;
    let mut i: usize = 0;
    proof {
        assert(rs.take(0) =~= Seq::<Resolved>::empty());
        assert(resolved_all(ps@) =~= params_of(rs.take(0)));
        assert(start.flags.union(flags_of(rs.take(0))) =~= start.flags);
    }
    while i < n
        invariant
            config@.wf(),
            reg == config@,
            i <= n,
            1 + n <= chars.len(),
            pos < args.len(),
            chars@ == args@[pos as int]@,
            arg@ == chars@,
            letters == chars@.subrange(1, 1 + n),
            rs == bundle(reg, letters),
            forall|j: int| 0 <= j < i ==> reg.has_option(seq![#[trigger] letters[j]]),
            resolved_all(ps@) == params_of(rs.take(i as int)),
            out.progress() == (Progress {
                flags: start.flags.union(flags_of(rs.take(i as int))),
                ..start
            }),
            out@.name == old(out)@.name,
            i > 0 ==> last is Some && last->0@ == rs[i - 1],
        decreases n - i,
    {
        let key = slice_subrange(chars, 1 + i, 2 + i);
        assert(key@ =~= seq![letters[i as int]]);
        match config.find_option(key) {
            None => {
                proof {
                    lemma_known_run(reg, letters, i as int);
                }
                let shown = piece(arg, 1 + i, 2 + i);
                assert(shown@ =~= seq![letters[i as int]]);
                return Err(ParsingError::UnrecognizedOption(shown));
            },
            Some(at) => {
                let target = resolve_target(config, at);
                proof {
                    assert(target@ == rs[i as int]);
                    assert(rs.take(i + 1).drop_last() =~= rs.take(i as int));
                    assert(rs.take(i + 1).last() == rs[i as int]);
                }
                proof {
                    lemma_flags_of_next(rs, i as int);
                }
                if target.is_flag {
                    set_flag(out, &target.name);
                    assert(out.progress().flags =~= start.flags.union(flags_of(rs.take(i + 1))));
                } else {
                    let ghost before_push = ps@;
                    ps.push(
                        Target {
                            name: target.name.clone(),
                            alias: target.alias.clone(),
                            is_flag: false,
                        },
                    );
                    assert(resolved_all(ps@) =~= resolved_all(before_push).push(target@));
                }
                last = Some(target);
            },
        }
        i += 1;
    }
    proof {
        lemma_known_run(reg, letters, n as int);
        assert(rs.take(n as int) =~= rs);
    }
    let inline = piece(arg, 1 + n, chars.len());
    if let Some(last) = &last {
        if ps.len() > 0 && !config.features.param_stacking && (last.is_flag || ps.len() > 1) {
            return Err(missing_error(&ps[0]));
        }
        if last.is_flag && inline.as_str().unicode_len() > 0 {
            return Err(assignment_error(last));
        }
    }
    hand_out(out, config, &ps, inline, args, pos)
}

/// An argument that begins with a hyphen.
fn single(
    out: &mut ParsedArgs,
    config: &ParsingConfig,
    chars: &[char],
    args: &Vec<String>,
    pos: usize,
) -> (r: Result<Flow, ParsingError>)
    requires
        config@.wf(),
        pos < args.len(),
        chars@ == args@[pos as int]@,
        chars.len() > 0,
    ensures
        is_step(
            r,
            final(out).progress(),
            rule_single(config@, old(out).progress(), chars@, texts(args@).skip(pos + 1)),
        ),
        r matches Ok(Flow::Next(used)) ==> pos + 1 + used <= args.len(),
        final(out)@.name == old(out)@.name,
{
    let n = count_letters(chars, 1);
    if n == 0 {
        let inline = piece(args[pos].as_str(), 1, chars.len());
        naked(out, config, inline, args, pos)
    } else {
        bundled(out, config, chars, n, args, pos)
    }
}

/// Reads the argument at place `pos`.
fn read_one(out: &mut ParsedArgs, config: &ParsingConfig, args: &Vec<String>, pos: usize) -> (r:
    Result<Flow, ParsingError>)
    requires
        config@.wf(),
        pos < args.len(),
    ensures
        is_step(
            r,
            final(out).progress(),
            step(config@, old(out).progress(), args@[pos as int]@, texts(args@).skip(pos + 1)),
        ),
        r matches Ok(Flow::Next(used)) ==> pos + 1 + used <= args.len(),
        final(out)@.name == old(out)@.name,
{
    let arg = args[pos].as_str();
    let chars = chars_of(arg);
    let len = chars.len();
    let double_hyphen = len >= 2 && chars[0] == '-' && chars[1] == '-';
    proof {
        if double_hyphen {
            assert(chars@.subrange(0, 2) =~= hyphens());
            if len == 2 {
                assert(chars@ =~= hyphens());
            }
        } else if len >= 2 {
            assert(chars@.subrange(0, 2)[0] == chars@[0]);
            assert(chars@.subrange(0, 2)[1] == chars@[1]);
        }
        lemma_first_index(chars@, '=');
    }
    if config.features.dh_marker && double_hyphen && len == 2 {
        return marker(out, config, args, pos);
    }
    let eq = find_char(chars.as_slice(), '=');
    if config.features.dha_syntax && double_hyphen {
        if let Some(at) = eq {
            assert(at >= 2) by {
                if at < 2 {
                    assert(chars@[at as int] == '-');
                }
            }
            let value = piece(arg, at + 1, len);
            return assign(out, config, arg.substring_char(2, at), value);
        }
    }
    if config.features.dh_syntax && double_hyphen {
        return double(out, config, arg.substring_char(2, len), args, pos);
    }
    if config.features.sh_syntax && len > 0 && chars[0] == '-' {
        return single(out, config, chars.as_slice(), args, pos);
    }
    if config.features.a_syntax {
        if let Some(at) = eq {
            let value = piece(arg, at + 1, len);
            return assign(out, config, arg.substring_char(0, at), value);
        }
    }
    plain(out, config, args, pos)
}

/// The names of the required parameters that have no value.
fn missing_parameters(out: &ParsedArgs, config: &ParsingConfig) -> (r: Vec<String>)
    ensures
        texts(r@) == missing_required(config@.options, out@.params),
{
    let mut r: Vec<String> = Vec::new();
    let mut i: usize = 0;
    let ghost options = config@.options;
    assert(options.take(0) =~= Seq::<Entry>::empty());
    assert(texts(r@) =~= missing_required(options.take(0), out@.params));
    while i < config.options.len()
        invariant
            i <= config.options.len(),
            options == config@.options,
            texts(r@) == missing_required(options.take(i as int), out@.params),
        decreases config.options.len() - i,
    {
        let entry = &config.options[i];
        proof {
            assert(options.take(i + 1).drop_last() =~= options.take(i as int));
            assert(options.take(i + 1).last() == entry@);
        }
        let required = match &entry.desc {
            ArgDesc::Param(required) => *required,
            _ => false,
        };
        if required && out.find_param(entry.name.chars()).is_none() {
            let ghost prev = r@;
            r.push(entry.name.text().clone());
            assert(texts(r@) =~= texts(prev).push(entry@.name));
        }
        i += 1;
    }
    assert(options.take(options.len() as int) =~= options);
    r
}

/// Parses the argument list according to the provided configuration.
/// The result is either an error or the parsed arguments.
///
/// The first argument is taken as the name under which the program was
/// called. Every other argument is read by the first enabled syntax that
/// applies to it, from left to right, and the first one that is refused ends
/// the parsing. At the end a required subcommand must have been found and
/// every required parameter must have a value.
pub fn parse(args: Vec<String>, config: &ParsingConfig) -> (r: Result<ParsedArgs, ParsingError>)
    requires
        config@.wf(),
    ensures
        outcome_of(r) == parse_spec(config@, texts(args@)),
{
    let name = if args.len() > 0 {
        args[0].clone()
    } else {
        String::new()
    };
    let mut out = ParsedArgs {
        name,
        flags: Vec::new(),
        params: Vec::new(),
        unnameds: Vec::new(),
        subcommand: Vec::new(),
    };
    let ghost tokens = texts(args@);
    let ghost arguments = if tokens.len() == 0 {
        tokens
    } else {
        tokens.skip(1)
    };
    let ghost whole = run(config@, Progress::empty(), arguments);
    let mut pos: usize = 1;
    let mut stopped = false;
    proof {
        assert(out.progress().flags =~= Set::<Text>::empty());
        assert(out.progress().unnamed =~= Seq::<Text>::empty());
        assert(out.progress().subcommand =~= Seq::<Text>::empty());
        assert(out.progress() == Progress::empty());
    }
    while !stopped && pos < args.len()
        invariant
            config@.wf(),
            tokens == texts(args@),
            whole == run(
                config@,
                Progress::empty(),
                if tokens.len() == 0 {
                    tokens
                } else {
                    tokens.skip(1)
                },
            ),
            1 <= pos,
            pos <= args.len() || args.len() == 0,
            out@.name == (if tokens.len() == 0 {
                Seq::<char>::empty()
            } else {
                tokens[0]
            }),
            stopped ==> whole == Ok::<Progress, Failure>(out.progress()),
            !stopped && pos <= args.len() ==> whole == run(
                config@,
                out.progress(),
                tokens.skip(pos as int),
            ),
            !stopped && args.len() == 0 ==> whole == Ok::<Progress, Failure>(out.progress()),
        decreases args.len() - pos + (if stopped { 0int } else { 1int }),
    {
        proof {
            assert(tokens.skip(pos as int)[0] == args@[pos as int]@);
            assert(tokens.skip(pos as int).skip(1) =~= tokens.skip(pos + 1));
        }
        match read_one(&mut out, config, &args, pos) {
            Err(e) => {
                return Err(e);
            },
            Ok(Flow::Stop) => {
                stopped = true;
            },
            Ok(Flow::Next(used)) => {
                proof {
                    assert(tokens.skip(pos as int).skip(1 + used) =~= tokens.skip(pos + 1 + used));
                }
                pos = pos + 1 + used;
            },
        }
    }
    if config.features.subcmd_required && out.subcommand.len() == 0 {
        return Err(ParsingError::MissingRequiredSubcommand);
    }
    let missing = missing_parameters(&out, config);
    if missing.len() != 0 {
        return Err(ParsingError::MissingRequiredParameters(missing));
    }
    Ok(out)
}

} // verus!
