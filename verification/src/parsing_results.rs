//! What a `Parser` returns, to be read and changed.

use vstd::prelude::*;
use vstd::string::*;
use crate::param_parser::{ParamParser, ParamParserTyped};
use crate::parsed_args::{lemma_value_map, name_set, typed, value_map};
use crate::parsing_error::{Failure, ParsingError};
use crate::text::{chars_of, same_text, texts, Name, Text};

verus! {

/// What a `ParsingResults` holds, as plain data.
pub struct Results {
    /// The first argument, as it was written.
    pub path: Text,
    /// The flags that were set.
    pub flags: Set<Text>,
    /// The parameters that were given, each with its value as it was written.
    pub named_params: Map<Text, Text>,
    /// The arguments that are neither options nor values of options, in order.
    pub unnamed_params: Seq<Text>,
}

/// Returned by a `Parser` after successfully parsing command-line arguments.
///
/// Holds the results with methods to read and to change them. A parameter's
/// value is kept as it was written and converted when it is asked for.
#[derive(Debug)]
pub struct ParsingResults {
    pub(crate) path: String,
    pub(crate) flags: Vec<Name>,
    pub(crate) named_params: Vec<(Name, String)>,
    pub(crate) unnamed_params: Vec<String>,
}

impl View for ParsingResults {
    type V = Results;

    open(crate) spec fn view(&self) -> Results {
        Results {
            path: self.path@,
            flags: name_set(self.flags@),
            named_params: value_map(self.named_params@),
            unnamed_params: texts(self.unnamed_params@),
        }
    }
}

/// Changing the value of the last pair that bears a name changes the value
/// that the map holds for that name, and nothing else.
pub proof fn lemma_value_map_update(
    pairs: Seq<(Name, String)>,
    changed: Seq<(Name, String)>,
    i: int,
)
    requires
        0 <= i < pairs.len(),
        forall|j: int| i < j < pairs.len() ==> (#[trigger] pairs[j]).0@ != pairs[i].0@,
        changed.len() == pairs.len(),
        changed[i].0@ == pairs[i].0@,
        forall|j: int| 0 <= j < pairs.len() && j != i ==> #[trigger] changed[j] == pairs[j],
    ensures
        value_map(changed) == value_map(pairs).insert(pairs[i].0@, changed[i].1@),
    decreases pairs.len(),
{
    let key = pairs[i].0@;
    if i == pairs.len() - 1 {
        assert(changed.drop_last() =~= pairs.drop_last());
        assert(value_map(changed) =~= value_map(pairs).insert(key, changed[i].1@));
    } else {
        let last = pairs.len() - 1;
        assert(changed[last] == pairs[last]);
        assert(pairs[last].0@ != key);
        assert forall|j: int| i < j < pairs.drop_last().len() implies (
        #[trigger] pairs.drop_last()[j]).0@ != pairs.drop_last()[i].0@ by {
            assert(pairs[j].0@ != key);
        }
        assert forall|j: int| 0 <= j < pairs.drop_last().len() && j != i implies
            #[trigger] changed.drop_last()[j] == pairs.drop_last()[j] by {
            assert(changed[j] == pairs[j]);
        }
        lemma_value_map_update(pairs.drop_last(), changed.drop_last(), i);
        assert(value_map(changed) =~= value_map(pairs).insert(key, changed[i].1@));
    }
}

impl ParsingResults {
    /// Constructs and returns a new `ParsingResults` object, with nothing in it.
    pub fn new() -> (r: ParsingResults)
        ensures
            r@ == (Results {
                path: Seq::empty(),
                flags: Set::empty(),
                named_params: Map::empty(),
                unnamed_params: Seq::empty(),
            }),
    {
        let r = ParsingResults {
            path: String::new(),
            flags: Vec::new(),
            named_params: Vec::new(),
            unnamed_params: Vec::new(),
        };
        assert(r@.flags =~= Set::<Text>::empty());
        assert(r@.unnamed_params =~= Seq::<Text>::empty());
        r
    }

    /// Returns a reference to the stored path.
    pub fn path(&self) -> (r: &String)
        ensures
            r@ == self@.path,
    {
        &self.path
    }

    /// Returns a mutable reference to the stored path.
    pub fn path_mut(&mut self) -> (r: &mut String)
        ensures
            r@ == old(self)@.path,
            final(self)@ == (Results { path: final(r)@, ..old(self)@ }),
    {
        &mut self.path
    }

    /// Returns a reference to the stored flags.
    pub fn flags(&self) -> (r: &Vec<Name>)
        ensures
            name_set(r@) == self@.flags,
    {
        &self.flags
    }

    /// Returns a mutable reference to the stored flags.
    pub fn flags_mut(&mut self) -> (r: &mut Vec<Name>)
        ensures
            name_set(r@) == old(self)@.flags,
            final(self)@ == (Results { flags: name_set(final(r)@), ..old(self)@ }),
    {
        &mut self.flags
    }

    /// Returns a reference to the stored named parameters and their values.
    /// Of two pairs with one name the later counts.
    pub fn named_params(&self) -> (r: &Vec<(Name, String)>)
        ensures
            value_map(r@) == self@.named_params,
    {
        &self.named_params
    }

    /// Returns a mutable reference to the stored named parameters and their values.
    pub fn named_params_mut(&mut self) -> (r: &mut Vec<(Name, String)>)
        ensures
            value_map(r@) == old(self)@.named_params,
            final(self)@ == (Results { named_params: value_map(final(r)@), ..old(self)@ }),
    {
        &mut self.named_params
    }

    /// Returns a reference to the vector of unnamed parameters.
    pub fn unnamed_params(&self) -> (r: &Vec<String>)
        ensures
            texts(r@) == self@.unnamed_params,
    {
        &self.unnamed_params
    }

    /// Returns a mutable reference to the vector of unnamed parameters.
    pub fn unnamed_params_mut(&mut self) -> (r: &mut Vec<String>)
        ensures
            texts(r@) == old(self)@.unnamed_params,
            final(self)@ == (Results { unnamed_params: texts(final(r)@), ..old(self)@ }),
    {
        &mut self.unnamed_params
    }

    /// Returns `true` if a flag with the specified `name` was set in the parsed arguments.
    pub fn flag(&self, name: &str) -> (r: bool)
        ensures
            r == self@.flags.contains(name@),
    {
        let chars = chars_of(name);
        let mut i: usize = 0;
        while i < self.flags.len()
            invariant
                i <= self.flags.len(),
                chars@ == name@,
                forall|j: int| 0 <= j < i ==> (#[trigger] self.flags@[j])@ != name@,
            decreases self.flags.len() - i,
        {
            if same_text(self.flags[i].chars(), chars.as_slice()) {
                return true;
            }
            i += 1;
        }
        false
    }

    /// The place of the last pair that bears `name`.
    fn find_named(&self, name: &[char]) -> (r: Option<usize>)
        ensures
            match r {
                Some(i) => i < self.named_params@.len() && self.named_params@[i as int].0@ == name@
                    && (forall|j: int|
                    i < j < self.named_params@.len() ==> (#[trigger] self.named_params@[j]).0@
                        != name@) && self@.named_params.contains_key(name@)
                    && self@.named_params[name@] == self.named_params@[i as int].1@,
                None => !self@.named_params.contains_key(name@),
            },
    {
        let mut i: usize = self.named_params.len();
        while i > 0
            invariant
                i <= self.named_params.len(),
                forall|j: int|
                    i <= j < self.named_params@.len() ==> (#[trigger] self.named_params@[j]).0@
                        != name@,
            decreases i,
        {
            i -= 1;
            if same_text(self.named_params[i].0.chars(), name) {
                proof {
                    lemma_value_map(self.named_params@, name@);
                }
                return Some(i);
            }
        }
        proof {
            lemma_value_map(self.named_params@, name@);
        }
        None
    }

    /// Returns the value of the specified named parameter, converted to the
    /// type `T`. Returns `None` if no such parameter was set in the parsed
    /// arguments. A value that cannot be converted gives the failure that
    /// names the parameter and the value.
    pub fn named_param<T: std::str::FromStr>(&self, name: &str) -> (r: Option<
        Result<T, ParsingError>,
    >)
        ensures
            r is Some <==> self@.named_params.contains_key(name@),
            r matches Some(Err(e)) ==> e@ == Failure::ArgumentParsingError(
                name@,
                self@.named_params[name@],
            ),
    {
        let chars = chars_of(name);
        match self.find_named(chars.as_slice()) {
            Some(i) => {
                let value = self.named_params[i].1.as_str();
                Some(typed(name, value, ParamParserTyped::<T>::new().parse(value)))
            },
            None => None,
        }
    }

    /// Returns a mutable reference to the specified named parameter's value,
    /// as it was written. Returns `None` if no such parameter was set in the
    /// parsed arguments.
    pub fn named_param_mut(&mut self, name: &str) -> (r: Option<&mut String>)
        ensures
            match r {
                Some(value) => old(self)@.named_params.contains_key(name@) && value@ == old(
                    self,
                )@.named_params[name@] && final(self)@ == (Results {
                    named_params: old(self)@.named_params.insert(name@, final(value)@),
                    ..old(self)@
                }),
                None => !old(self)@.named_params.contains_key(name@) && final(self)@ == old(
                    self,
                )@,
            },
    {
        let chars = chars_of(name);
        match self.find_named(chars.as_slice()) {
            Some(i) => {
                proof {
                    let pairs = self.named_params@;
                    assert forall|s: String| #[trigger]
                        value_map(pairs.update(i as int, (pairs[i as int].0, s))) == value_map(
                            pairs,
                        ).insert(name@, s@) by {
                        lemma_value_map_update(
                            pairs,
                            pairs.update(i as int, (pairs[i as int].0, s)),
                            i as int,
                        );
                    }
                }
                Some(&mut self.named_params[i].1)
            },
            None => None,
        }
    }

    /// Returns the number of stored unnamed parameters.
    pub fn num_unnamed_params(&self) -> (r: usize)
        ensures
            r == self@.unnamed_params.len(),
    {
        self.unnamed_params.len()
    }

    /// Returns a reference to the unnamed parameter at the specified zero-based `index`,
    /// which must be lower than the number of stored unnamed parameters.
    pub fn unnamed_param(&self, index: usize) -> (r: &String)
        requires
            index < self@.unnamed_params.len(),
        ensures
            r@ == self@.unnamed_params[index as int],
    {
        &self.unnamed_params[index]
    }

    /// Returns a mutable reference to the unnamed parameter at the specified
    /// zero-based `index`, which must be lower than the number of stored
    /// unnamed parameters.
    pub fn unnamed_param_mut(&mut self, index: usize) -> (r: &mut String)
        requires
            index < old(self)@.unnamed_params.len(),
        ensures
            r@ == old(self)@.unnamed_params[index as int],
            final(self)@ == (Results {
                unnamed_params: old(self)@.unnamed_params.update(index as int, final(r)@),
                ..old(self)@
            }),
    {
        proof {
            let stored = self.unnamed_params@;
            assert forall|s: String| #[trigger]
                texts(stored.update(index as int, s)) == texts(stored).update(index as int, s@) by {
                assert(texts(stored.update(index as int, s)) =~= texts(stored).update(
                    index as int,
                    s@,
                ));
            }
        }
        &mut self.unnamed_params[index]
    }
}

} // verus!
