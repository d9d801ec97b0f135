//! Compiled patterns and their matches.

use crate::error::{refusal, Error, Failure};
use crate::expand::Scope;
use crate::names::{
    capture_texts, captured, name_table, part_of, parts_of, present, MatchesIter,
};
use crate::pcre2_engine::{pcre2_accepts, Pcre2Matches, Pcre2Pattern};
use crate::strmap::{map_of, StrMap};
use crate::text::ascending;
use vstd::prelude::*;

verus! {

/// The `Pattern` represents a compiled regex, ready to be matched against arbitrary text.
#[derive(Debug)]
pub struct Pattern {
    inner: Pcre2Pattern,
    extracts: StrMap<String>,
}

impl Pattern {
    /// The flat regular expression that the pattern was compiled from.
    pub closed spec fn source(&self) -> Seq<char> {
        self.inner.source()
    }

    /// The names of the capture groups of the compiled regex, by number.
    pub closed spec fn groups(&self) -> Seq<Option<Seq<char>>> {
        self.inner.groups()
    }

    /// The table of names: the group number of each key.
    pub closed spec fn names(&self) -> Map<Seq<char>, usize> {
        self.inner.names()
    }

    /// The keys of the table of names, in ascending order.
    pub closed spec fn keys(&self) -> Seq<Seq<char>> {
        self.inner.keys()
    }

    /// The group number of each key, in the order of the keys.
    pub closed spec fn indices(&self) -> Seq<usize> {
        self.inner.indices()
    }

    /// The extract of each key that has one.
    pub closed spec fn extracts(&self) -> Scope {
        self.extracts.texts()
    }

    /// Creates a new pattern from a raw regex string and an alias map to identify the
    /// fields properly.
    pub fn new(regex: &str, alias: StrMap<String>, extracts: StrMap<String>) -> (r: Result<
        Self,
        Error,
    >)
        ensures
            r is Ok <==> pcre2_accepts(regex@),
            r matches Ok(p) ==> p.source() == regex@ && p.extracts() == extracts.texts()
                && p.names() == name_table(p.groups(), alias.texts()),
            r matches Err(e) ==> exists|d: Seq<char>|
                e@ == Failure::RegexCompilationFailed(#[trigger] refusal(d, regex@)),
    {
        match Pcre2Pattern::new(regex, &alias) {
            Ok(inner) => Ok(Pattern { inner, extracts }),
            Err(e) => Err(e),
        }
    }

    /// Matches this compiled `Pattern` against the text and returns the matches.
    pub fn match_against<'a>(&'a self, text: &'a str) -> (r: Option<Matches<'a>>)
        ensures
            match r {
                Some(m) => *m.pattern_of() == *self && m.text() == text@ && self.finds().contains_key(
                    text@,
                ) && self.finds()[text@] == m.captures(),
                None => !self.finds().contains_key(text@),
            },
    {
        match self.inner.match_against(text) {
            Some(inner) => Some(Matches { inner, pattern: self }),
            None => None,
        }
    }

    /// Returns all names this `Pattern` captures, in ascending order.
    pub fn capture_names(&self) -> (r: Vec<&str>)
        ensures
            r@.len() == self.keys().len(),
            forall|i: int| 0 <= i < r@.len() ==> (#[trigger] r@[i])@ == self.keys()[i],
            ascending(self.keys()),
            self.keys().len() == self.indices().len(),
            self.names() == map_of(self.keys(), self.indices()),
    {
        self.inner.capture_names()
    }

    /// Returns the extract for the given name.
    pub fn get_extract(&self, name: &str) -> (r: Option<&str>)
        ensures
            match r {
                Some(extract) => self.extracts().contains_key(name@) && self.extracts()[name@]
                    == extract@,
                None => !self.extracts().contains_key(name@),
            },
    {
        match self.extracts.get(name) {
            Some(extract) => Some(extract.as_str()),
            None => None,
        }
    }

    /// The extracts that the pattern recorded, under their keys.
    pub fn extract_map(&self) -> (r: &StrMap<String>)
        ensures
            r.texts() == self.extracts(),
    {
        &self.extracts
    }

    /// The flat regular expression that the pattern was compiled from.
    pub fn regex_text(&self) -> (r: &str)
        ensures
            r@ == self.source(),
    {
        self.inner.regex_text()
    }
}

/// The `Matches` represent matched results from a `Pattern` against a provided text.
#[derive(Debug)]
pub struct Matches<'a> {
    inner: Pcre2Matches<'a>,
    pattern: &'a Pattern,
}

impl<'a> Matches<'a> {
    /// What each group captured, by group number.
    pub closed spec fn captures(&self) -> Seq<Option<Seq<char>>> {
        capture_texts(self.inner.values@)
    }

    /// The pattern that matched.
    pub closed spec fn pattern_of(&self) -> &'a Pattern {
        self.pattern
    }

    /// The text that was matched.
    pub closed spec fn text(&self) -> Seq<char> {
        self.inner.text@
    }

    /// The keys with their captures, in the order of the keys, without the
    /// keys whose group took no part in the match.
    pub open spec fn pairs(&self) -> Seq<(Seq<char>, Seq<char>)> {
        present(self.pattern_of().keys(), self.pattern_of().indices(), self.captures(), 0)
    }

    #[verifier::type_invariant]
    spec fn same_pattern(&self) -> bool {
        *self.inner.pattern == self.pattern.inner && parts_of(self.inner.values@, self.inner.text@)
    }

    /// Gets the value for the name (or) alias if found, `None` otherwise.
    /// The value is a piece of the text that was matched.
    pub fn get(&self, name: &str) -> (r: Option<&'a str>)
        ensures
            match r {
                Some(text) => captured(self.pattern_of().names(), self.captures(), name@) == Some(
                    text@,
                ) && part_of(text@, self.text()),
                None => captured(self.pattern_of().names(), self.captures(), name@) is None,
            },
    {
        proof {
            use_type_invariant(self);
        }
        let r = self.inner.get(name);
        proof {
            if let Some(text) = r {
                let index = self.pattern.inner.names()[name@] as int;
                assert(capture_texts(self.inner.values@)[index] == Some(text@));
                assert(self.inner.values@[index] is Some);
                assert(self.inner.values@[index].unwrap()@ == text@);
            }
        }
        r
    }

    /// Returns a tuple of key/value with all the matches found.
    pub fn iter(&'a self) -> (r: MatchesIter<'a>)
        ensures
            r.remaining() == self.pairs(),
    {
        proof {
            use_type_invariant(self);
        }
        self.inner.iter()
    }

    /// Collects the matches into a vector, in the order of the keys.
    pub fn collect(&'a self) -> (r: Vec<(&'a str, &'a str)>)
        ensures
            r@.len() == self.pairs().len(),
            forall|i: int|
                0 <= i < r@.len() ==> ((#[trigger] r@[i]).0@, r@[i].1@) == self.pairs()[i],
    {
        let mut it = self.iter();
        let mut r: Vec<(&'a str, &'a str)> = Vec::new();
        let ghost all = self.pairs();
        loop
            invariant
                all == self.pairs(),
                r@.len() + it.remaining().len() == all.len(),
                it.remaining() == all.skip(r@.len() as int),
                forall|i: int| 0 <= i < r@.len() ==> ((#[trigger] r@[i]).0@, r@[i].1@) == all[i],
            decreases it.remaining().len(),
        {
            match it.next() {
                Some(pair) => {
                    proof {
                        assert(all.skip(r@.len() as int).drop_first() =~= all.skip(r@.len() as int + 1));
                    }
                    r.push(pair);
                },
                None => {
                    return r;
                },
            }
        }
    }

    /// Returns the number of matches.
    pub fn len(&'a self) -> (n: usize)
        ensures
            n == self.pairs().len(),
    {
        self.collect().len()
    }

    /// Returns the pattern that was used to match this `Matches` instance.
    pub fn pattern(&self) -> (r: &'a Pattern)
        ensures
            r == self.pattern_of(),
    {
        self.pattern
    }
}

impl Pattern {
    /// What the compiled regex finds: under each text that it matches, what
    /// each group captures in the first match there, by group number.
    pub closed spec fn finds(&self) -> Map<Seq<char>, Seq<Option<Seq<char>>>> {
        self.inner.finds()
    }
}

} // verus!
