//! What a successful parse returns, and how it is read.

use vstd::prelude::*;
use vstd::string::*;
use crate::param_parser::{ParamParser, ParamParserTyped};
use crate::parsing_error::{Failure, ParsingError};
use crate::rules::{Outcome, Progress};
use crate::text::{chars_of, same_text, texts, Name, Text};

verus! {

/// The names of `names`, as a set.
pub open spec fn name_set(names: Seq<Name>) -> Set<Text> {
    Set::new(|t: Text| exists|i: int| 0 <= i < names.len() && (#[trigger] names[i])@ == t)
}

/// The pairs of `pairs` as a map; of two pairs with one name the later counts.
pub open spec fn value_map(pairs: Seq<(Name, String)>) -> Map<Text, Text>
    decreases pairs.len(),
{
    if pairs.len() == 0 {
        Map::empty()
    } else {
        value_map(pairs.drop_last()).insert(pairs.last().0@, pairs.last().1@)
    }
}

/// `value_map` holds a name exactly if a pair bears it, and then with the value
/// of the last such pair.
pub proof fn lemma_value_map(pairs: Seq<(Name, String)>, name: Text)
    ensures
        value_map(pairs).contains_key(name) <==> exists|i: int|
            0 <= i < pairs.len() && (#[trigger] pairs[i]).0@ == name,
        forall|i: int|
            0 <= i < pairs.len() && (#[trigger] pairs[i]).0@ == name && (forall|j: int|
                i < j < pairs.len() ==> (#[trigger] pairs[j]).0@ != name) ==> value_map(pairs)[name]
                == pairs[i].1@,
    decreases pairs.len(),
{
    if pairs.len() > 0 {
        let front = pairs.drop_last();
        lemma_value_map(front, name);
        if pairs.last().0@ == name {
            assert(pairs[pairs.len() - 1].0@ == name);
        } else {
            if value_map(front).contains_key(name) {
                let i = choose|i: int| 0 <= i < front.len() && (#[trigger] front[i]).0@ == name;
                assert(pairs[i].0@ == name);
            }
            if exists|i: int| 0 <= i < pairs.len() && (#[trigger] pairs[i]).0@ == name {
                let i = choose|i: int| 0 <= i < pairs.len() && (#[trigger] pairs[i]).0@ == name;
                assert(front[i].0@ == name);
            }
        }
        assert forall|i: int|
            0 <= i < pairs.len() && (#[trigger] pairs[i]).0@ == name && (forall|j: int|
                i < j < pairs.len() ==> (#[trigger] pairs[j]).0@ != name) implies value_map(
            pairs,
        )[name] == pairs[i].1@ by {
            if i < pairs.len() - 1 {
                assert(pairs[pairs.len() - 1].0@ != name);
                assert(front[i].0@ == name);
                assert forall|j: int| i < j < front.len() implies (#[trigger] front[j]).0@
                    != name by {
                    assert(pairs[j].0@ != name);
                }
            }
        }
    }
}

/// Contains an argument list in parsed format.
pub struct ParsedArgs {
    pub(crate) name: String,
    pub(crate) flags: Vec<Name>,
    pub(crate) params: Vec<(Name, String)>,
    pub(crate) unnameds: Vec<String>,
    pub(crate) subcommand: Vec<String>,
}

impl View for ParsedArgs {
    type V = Outcome;

    open(crate) spec fn view(&self) -> Outcome {
        Outcome {
            name: self.name@,
            flags: name_set(self.flags@),
            params: value_map(self.params@),
            unnamed: texts(self.unnameds@),
            subcommand: texts(self.subcommand@),
        }
    }
}

/// What asking for the parameter `name` as a typed value gives, once its
/// value `raw` has been through the conversion: the converted value, or the
/// failure that names the parameter and the value as it was written.
pub fn typed<T>(name: &str, raw: &str, converted: Option<T>) -> (r: Result<T, ParsingError>)
    ensures
        match converted {
            Some(v) => r == Ok::<T, ParsingError>(v),
            None => r is Err && r->Err_0@ == Failure::ArgumentParsingError(name@, raw@),
        },
{
    match converted {
        Some(v) => Ok(v),
        None => Err(ParsingError::ArgumentParsingError(name.to_owned(), raw.to_owned())),
    }
}

impl ParsedArgs {
    /// What has been gathered, without the name.
    pub open(crate) spec fn progress(&self) -> Progress {
        Progress {
            flags: name_set(self.flags@),
            params: value_map(self.params@),
            unnamed: texts(self.unnameds@),
            subcommand: texts(self.subcommand@),
        }
    }

    /// Returns a reference to the first argument.
    pub fn name(&self) -> (r: &str)
        ensures
            r@ == self@.name,
    {
        self.name.as_str()
    }

    /// Returns `true` if the specified flag was in the argument list.
    pub fn has_flag(&self, name: &str) -> (r: bool)
        ensures
            r == self@.flags.contains(name@),
    {
        let chars = chars_of(name);
        let mut i: usize = 0;
        while i < self.flags.len()
            invariant
                i <= self.flags.len(),
                chars@ == name@,
                forall|j: int| 0 <= j < i ==> (#[trigger] self.flags@[j])@ != name@,
            decreases self.flags.len() - i,
        {
            if same_text(self.flags[i].chars(), chars.as_slice()) {
                return true;
            }
            i += 1;
        }
        false
    }

    /// The place of the last value given to the parameter `name`.
    pub(crate) fn find_param(&self, name: &[char]) -> (r: Option<usize>)
        ensures
            match r {
                Some(i) => i < self.params@.len() && self@.params.contains_key(name@)
                    && self@.params[name@] == self.params@[i as int].1@,
                None => !self@.params.contains_key(name@),
            },
    {
        let mut i: usize = self.params.len();
        while i > 0
            invariant
                i <= self.params.len(),
                forall|j: int| i <= j < self.params@.len() ==> (#[trigger] self.params@[j]).0@ != name@,
            decreases i,
        {
            i -= 1;
            if same_text(self.params[i].0.chars(), name) {
                proof {
                    lemma_value_map(self.params@, name@);
                }
                return Some(i);
            }
        }
        proof {
            lemma_value_map(self.params@, name@);
        }
        None
    }

    /// Returns the value that is associated with the specified parameter.
    pub fn get_param(&self, name: &str) -> (r: Option<&str>)
        ensures
            match r {
                Some(v) => self@.params.contains_key(name@) && self@.params[name@] == v@,
                None => !self@.params.contains_key(name@),
            },
    {
        let chars = chars_of(name);
        match self.find_param(chars.as_slice()) {
            Some(i) => Some(self.params[i].1.as_str()),
            None => None,
        }
    }

    /// Returns the value that is associated with the specified parameter,
    /// converted to the specified type. A value that cannot be converted gives
    /// the failure that names the parameter and the value.
    pub fn get_param_as<T: std::str::FromStr>(&self, name: &str) -> (r: Option<
        Result<T, ParsingError>,
    >)
        ensures
            r is Some <==> self@.params.contains_key(name@),
            r matches Some(Err(e)) ==> e@ == Failure::ArgumentParsingError(
                name@,
                self@.params[name@],
            ),
    {
        match self.get_param(name) {
            Some(value) => Some(typed(name, value, ParamParserTyped::<T>::new().parse(value))),
            None => None,
        }
    }

    /// Returns a reference to the vector of unnamed parameters.
    pub fn unnamed_params(&self) -> (r: &Vec<String>)
        ensures
            texts(r@) == self@.unnamed,
    {
        &self.unnameds
    }

    /// Returns a reference to the name of the subcommand that is being invoked.
    pub fn get_subcommand(&self) -> (r: Option<&str>)
        ensures
            match r {
                Some(s) => self@.subcommand.len() > 0 && s@ == self@.subcommand[0],
                None => self@.subcommand.len() == 0,
            },
    {
        if self.subcommand.len() > 0 {
            Some(self.subcommand[0].as_str())
        } else {
            None
        }
    }

    /// Returns a reference to the vector that holds the subcommand and the
    /// arguments behind it.
    pub fn subcommand_args(&self) -> (r: &Vec<String>)
        ensures
            texts(r@) == self@.subcommand,
    {
        &self.subcommand
    }
}

} // verus!
