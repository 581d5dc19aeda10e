//! Text as sequences of characters: the order of names, prefixes, the first
//! place of a character, runs of letters, and names that are kept with their
//! characters.

use vstd::prelude::*;
use vstd::string::*;

verus! {

/// Text as the rules see it: a sequence of Unicode scalar values.
pub type Text = Seq<char>;

/// Whether `c` has the Unicode `Alphabetic` property, as `char::is_alphabetic` reports it.
pub uninterp spec fn alphabetic(c: char) -> bool;

/// Whether `c` has the Unicode `White_Space` property, as `char::is_whitespace` reports it.
pub uninterp spec fn whitespace(c: char) -> bool;

/// `char::is_alphabetic` consults the Unicode tables; its answer depends on the
/// character alone and is known here only by the name `alphabetic`.
pub assume_specification[ char::is_alphabetic ](c: char) -> (r: bool)
    ensures
        r == alphabetic(c),
;

/// `char::is_whitespace` consults the Unicode tables; its answer depends on the
/// character alone and is known here only by the name `whitespace`.
pub assume_specification[ char::is_whitespace ](c: char) -> (r: bool)
    ensures
        r == whitespace(c),
;

/// The text of each string of `v`, in order.
pub open spec fn texts(v: Seq<String>) -> Seq<Text> {
    Seq::new(v.len(), |i: int| v[i]@)
}

/// Strict lexicographic order on text, character by character.
pub open spec fn before(a: Text, b: Text) -> bool
    decreases a.len(),
{
    if b.len() == 0 {
        false
    } else if a.len() == 0 {
        true
    } else if a[0] != b[0] {
        a[0] < b[0]
    } else {
        before(a.skip(1), b.skip(1))
    }
}

/// Every element of `s` comes strictly before each one that follows it.
pub open spec fn ascending(s: Seq<Text>) -> bool {
    forall|i: int, j: int| 0 <= i < j < s.len() ==> before(#[trigger] s[i], #[trigger] s[j])
}

/// The position of the first `c` in `s`, if there is one.
pub open spec fn first_index(s: Text, c: char) -> Option<int>
    decreases s.len(),
{
    if s.len() == 0 {
        None
    } else if s[0] == c {
        Some(0)
    } else {
        match first_index(s.skip(1), c) {
            Some(i) => Some(i + 1),
            None => None,
        }
    }
}

/// The length of the longest prefix of `s` that consists of alphabetic characters.
pub open spec fn letter_run(s: Text) -> nat
    decreases s.len(),
{
    if s.len() > 0 && alphabetic(s[0]) {
        1 + letter_run(s.skip(1))
    } else {
        0
    }
}

/// No text comes before itself.
pub proof fn lemma_before_irreflexive(a: Text)
    ensures
        !before(a, a),
    decreases a.len(),
{
    if a.len() > 0 {
        lemma_before_irreflexive(a.skip(1));
    }
}

/// What comes before a text comes before everything that the text comes before.
pub proof fn lemma_before_transitive(a: Text, b: Text, c: Text)
    requires
        before(a, b),
        before(b, c),
    ensures
        before(a, c),
    decreases a.len(),
{
    if a.len() > 0 && a[0] == b[0] && b[0] == c[0] {
        lemma_before_transitive(a.skip(1), b.skip(1), c.skip(1));
    }
}

/// Of two different texts one comes before the other.
pub proof fn lemma_before_total(a: Text, b: Text)
    ensures
        a == b || before(a, b) || before(b, a),
    decreases a.len(),
{
    if a.len() > 0 && b.len() > 0 && a[0] == b[0] {
        lemma_before_total(a.skip(1), b.skip(1));
        if a.skip(1) == b.skip(1) {
            assert(a =~= seq![a[0]] + a.skip(1));
            assert(b =~= seq![b[0]] + b.skip(1));
        }
    } else if a.len() == 0 && b.len() == 0 {
        assert(a =~= b);
    }
}

/// What `first_index` finds is the first occurrence, and it finds one whenever there is one.
pub proof fn lemma_first_index(s: Text, c: char)
    ensures
        match first_index(s, c) {
            Some(i) => 0 <= i < s.len() && s[i] == c && forall|j: int| 0 <= j < i ==> s[j] != c,
            None => forall|j: int| 0 <= j < s.len() ==> s[j] != c,
        },
    decreases s.len(),
{
    if s.len() > 0 && s[0] != c {
        lemma_first_index(s.skip(1), c);
        match first_index(s.skip(1), c) {
            Some(i) => {
                assert forall|j: int| 0 <= j < i + 1 implies s[j] != c by {
                    if j > 0 {
                        assert(s.skip(1)[j - 1] == s[j]);
                    }
                }
            },
            None => {
                assert forall|j: int| 0 <= j < s.len() implies s[j] != c by {
                    if j > 0 {
                        assert(s.skip(1)[j - 1] == s[j]);
                    }
                }
            },
        }
    }
}

/// `letter_run` stops at the first character that is not alphabetic.
pub proof fn lemma_letter_run(s: Text)
    ensures
        letter_run(s) <= s.len(),
        forall|j: int| 0 <= j < letter_run(s) ==> alphabetic(#[trigger] s[j]),
        letter_run(s) < s.len() ==> !alphabetic(s[letter_run(s) as int]),
    decreases s.len(),
{
    if s.len() > 0 && alphabetic(s[0]) {
        lemma_letter_run(s.skip(1));
        let n = letter_run(s.skip(1)) as int;
        assert forall|j: int| 0 <= j < n + 1 implies alphabetic(#[trigger] s[j]) by {
            if j > 0 {
                assert(s.skip(1)[j - 1] == s[j]);
            }
        }
        if n + 1 < s.len() {
            assert(s.skip(1)[n] == s[n + 1]);
        }
    }
}

/// Whether `a` comes strictly before `b` in lexicographic order.
pub fn precedes(a: &[char], b: &[char]) -> (r: bool)
    ensures
        r == before(a@, b@),
{
    let mut i: usize = 0;
    assert(a@.skip(0) =~= a@ && b@.skip(0) =~= b@);
    while i < a.len() && i < b.len()
        invariant
            i <= a.len(),
            i <= b.len(),
            before(a@, b@) == before(a@.skip(i as int), b@.skip(i as int)),
        decreases a.len() - i,
    {
        if a[i] != b[i] {
            return a[i] < b[i];
        }
        assert(a@.skip(i as int).skip(1) =~= a@.skip(i + 1));
        assert(b@.skip(i as int).skip(1) =~= b@.skip(i + 1));
        i += 1;
    }
    i < b.len()
}

/// Whether `s` begins with `p`.
pub fn starts_with(s: &[char], p: &[char]) -> (r: bool)
    ensures
        r == p@.is_prefix_of(s@),
{
    if p.len() > s.len() {
        return false;
    }
    let mut i: usize = 0;
    while i < p.len()
        invariant
            i <= p.len() <= s.len(),
            forall|j: int| 0 <= j < i ==> s@[j] == p@[j],
        decreases p.len() - i,
    {
        if s[i] != p[i] {
            assert(s@.subrange(0, p@.len() as int)[i as int] != p@[i as int]);
            return false;
        }
        i += 1;
    }
    assert(s@.subrange(0, p@.len() as int) =~= p@);
    true
}

/// Whether `a` and `b` hold the same characters.
pub fn same_text(a: &[char], b: &[char]) -> (r: bool)
    ensures
        r == (a@ == b@),
{
    if a.len() != b.len() {
        return false;
    }
    let mut i: usize = 0;
    while i < a.len()
        invariant
            i <= a.len() == b.len(),
            forall|j: int| 0 <= j < i ==> a@[j] == b@[j],
        decreases a.len() - i,
    {
        if a[i] != b[i] {
            return false;
        }
        i += 1;
    }
    assert(a@ =~= b@);
    true
}

/// The position of the first `c` in `s`.
pub fn find_char(s: &[char], c: char) -> (r: Option<usize>)
    ensures
        match r {
            Some(i) => first_index(s@, c) == Some(i as int),
            None => first_index(s@, c) is None,
        },
{
    let mut i: usize = 0;
    while i < s.len()
        invariant
            i <= s.len(),
            forall|j: int| 0 <= j < i ==> s@[j] != c,
        decreases s.len() - i,
    {
        if s[i] == c {
            proof {
                lemma_first_index(s@, c);
                match first_index(s@, c) {
                    Some(k) => {
                        if k < i {
                            assert(s@[k] != c);
                        } else if k > i {
                            assert(s@[i as int] != c);
                        }
                    },
                    None => {
                        assert(s@[i as int] != c);
                    },
                }
            }
            return Some(i);
        }
        i += 1;
    }
    proof {
        lemma_first_index(s@, c);
        if let Some(k) = first_index(s@, c) {
            assert(s@[k] != c);
        }
    }
    None
}

/// How many alphabetic characters stand at the start of `s[from..]`.
pub fn count_letters(s: &[char], from: usize) -> (n: usize)
    requires
        from <= s.len(),
    ensures
        n == letter_run(s@.skip(from as int)),
        from + n <= s.len(),
{
    proof {
        lemma_letter_run(s@.skip(from as int));
    }
    let mut i: usize = from;
    while i < s.len() && s[i].is_alphabetic()
        invariant
            from <= i <= s.len(),
            forall|j: int| from <= j < i ==> alphabetic(s@[j]),
        decreases s.len() - i,
    {
        i += 1;
    }
    let ghost run = letter_run(s@.skip(from as int)) as int;
    proof {
        if run < i - from {
            assert(s@.skip(from as int)[run] == s@[from + run]);
        } else if run > i - from {
            assert(s@.skip(from as int)[i - from] == s@[i as int]);
        }
    }
    i - from
}

/// The characters of `s`, decoded once so that they can be indexed.
pub fn chars_of(s: &str) -> (out: Vec<char>)
    ensures
        out@ == s@,
{
    broadcast use vstd::string::group_string_axioms;
    let mut out: Vec<char> = Vec::new();
    for c in it: s.chars()
        invariant
            it.seq() == s@,
            out@ == s@.take(it.index()),
    {
        assert(s@.take(it.index() + 1) =~= s@.take(it.index()).push(c));
        out.push(c);
    }
    assert(s@.take(s@.len() as int) =~= s@);
    out
}

/// The characters `from..to` of `s`, as a string of their own.
pub fn piece(s: &str, from: usize, to: usize) -> (r: String)
    requires
        from <= to <= s@.len(),
    ensures
        r@ == s@.subrange(from as int, to as int),
{
    s.substring_char(from, to).to_owned()
}

/// A name that is kept both as the string it was given as and as its characters,
/// so that comparing names never decodes the string again.
#[derive(Debug)]
pub struct Name {
    text: String,
    chars: Vec<char>,
}

impl View for Name {
    type V = Text;

    closed spec fn view(&self) -> Text {
        self.text@
    }
}

impl Name {
    #[verifier::type_invariant]
    spec fn coherent(&self) -> bool {
        self.chars@ == self.text@
    }

    pub fn new(text: String) -> (r: Name)
        ensures
            r@ == text@,
    {
        let chars = chars_of(text.as_str());
        Name { text, chars }
    }

    pub fn text(&self) -> (r: &String)
        ensures
            r@ == self@,
    {
        &self.text
    }

    pub fn chars(&self) -> (r: &[char])
        ensures
            r@ == self@,
    {
        proof {
            use_type_invariant(self);
        }
        self.chars.as_slice()
    }
}

} // verus!
