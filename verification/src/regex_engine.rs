//! Patterns that the `regex` engine runs.

use crate::error::{Error, Failure};
use crate::names::{
    capture_texts, captured, fetch, group_texts, name_groups, name_table, parts_of, present,
    MatchesIter,
};
use crate::strmap::{map_of, StrMap};
use crate::text::ascending;
use vstd::prelude::*;

verus! {

/// `regex::Regex`, a compiled regular expression: nothing of its inside is
/// known here.
#[verifier::external_type_specification]
#[verifier::external_body]
pub struct ExRegex(regex::Regex);

/// Whether `regex::Regex::new` compiles a text.
pub uninterp spec fn regex_accepts(text: Seq<char>) -> bool;

/// The names of the capture groups that a compiled regex holds, by group
/// number, as `regex::Regex::capture_names` lists them.
pub uninterp spec fn regex_groups(regex: regex::Regex) -> Seq<Option<Seq<char>>>;

/// `regex::Regex::new`: compiles a text, if the engine accepts it. Which
/// texts compile depends on the text alone, and the compiled regex keeps the
/// text that it was made from.
#[verifier::external_body]
fn regex_compile(text: &str) -> (r: Option<regex::Regex>)
    ensures
        r is Some <==> regex_accepts(text@),
        r matches Some(regex) ==> regex_source(regex) == text@,
{
    regex::Regex::new(text).ok()
}

/// `regex::Regex::capture_names`: the name of each capture group, in
/// the order of the group numbers.
#[verifier::external_body]
fn regex_group_names(regex: &regex::Regex) -> (r: Vec<Option<String>>)
    ensures
        group_texts(r@) == regex_groups(*regex),
{
    regex.capture_names().map(|name| name.map(|s| s.to_string())).collect()
}

/// `regex::Regex::captures`: what the regex finds in a text, with at least
/// one group, the whole match, and each capture a piece of the text. The
/// result depends on the compiled regex and on the text alone.
#[verifier::external_body]
fn regex_captures<'a>(regex: &regex::Regex, text: &'a str) -> (r: Option<Vec<Option<&'a str>>>)
    ensures
        crate::names::found_in(regex_finds(*regex), text@, r) && (r matches Some(v) ==> v@.len() >= 1),
{
    regex.captures(text).map(|c| (0..c.len()).map(|i| c.get(i).map(|m| m.as_str())).collect())
}

/// The `Pattern` represents a compiled regex, ready to be matched against arbitrary text.
#[derive(Debug)]
pub struct RegexPattern {
    regex: regex::Regex,
    names: StrMap<usize>,
}

impl RegexPattern {
    /// The names of the capture groups of the compiled regex.
    pub closed spec fn groups(&self) -> Seq<Option<Seq<char>>> {
        regex_groups(self.regex)
    }

    /// The table of names: the group number of each key.
    pub closed spec fn names(&self) -> Map<Seq<char>, usize> {
        self.names@
    }

    /// The keys of the table of names, in ascending order.
    pub closed spec fn keys(&self) -> Seq<Seq<char>> {
        self.names.keys()
    }

    /// The group number of each key, in the order of the keys.
    pub closed spec fn indices(&self) -> Seq<usize> {
        self.names.values()
    }

    /// Creates a new pattern from a raw regex string and an alias map to identify the
    /// fields properly.
    pub fn new(regex: &str, alias: &StrMap<String>) -> (r: Result<Self, Error>)
        ensures
            r is Ok <==> regex_accepts(regex@),
            r matches Ok(p) ==> p.source() == regex@ && p.names() == name_table(
                p.groups(),
                alias.texts(),
            ),
            r matches Err(e) ==> e@ == Failure::RegexCompilationFailed(regex@),
    {
        match regex_compile(regex) {
            Some(r) => {
                let groups = regex_group_names(&r);
                let names = name_groups(&groups, alias);
                Ok(RegexPattern { regex: r, names })
            },
            None => Err(Error::RegexCompilationFailed(String::from_str(regex))),
        }
    }

    /// Matches this compiled `Pattern` against the text and returns the matches.
    pub fn match_against<'a>(&'a self, text: &'a str) -> (r: Option<RegexMatches<'a>>)
        ensures
            match r {
                Some(m) => *m.pattern == *self && m.text@ == text@ && m.values@.len() >= 1
                    && self.finds().contains_key(text@) && self.finds()[text@] == capture_texts(
                    m.values@,
                ) && parts_of(m.values@, text@),
                None => !self.finds().contains_key(text@),
            },
    {
        match regex_captures(&self.regex, text) {
            Some(values) => Some(RegexMatches::new(text, values, self)),
            None => None,
        }
    }

    /// Returns all names this `Pattern` captures, in ascending order.
    pub fn capture_names(&self) -> (r: Vec<&str>)
        ensures
            r@.len() == self.keys().len(),
            forall|i: int| 0 <= i < r@.len() ==> (#[trigger] r@[i])@ == self.keys()[i],
            ascending(self.keys()),
            self.keys().len() == self.indices().len(),
            self.names() == map_of(self.keys(), self.indices()),
    {
        self.names.key_list()
    }
}

/// The `Matches` represent matched results from a `Pattern` against a provided text.
#[derive(Debug)]
pub struct RegexMatches<'a> {
    /// The text that was matched.
    pub text: &'a str,
    /// What each group captured, by group number.
    pub values: Vec<Option<&'a str>>,
    /// The pattern that matched.
    pub pattern: &'a RegexPattern,
}

impl<'a> RegexMatches<'a> {
    /// Instantiates the matches for a pattern after the match.
    pub fn new(text: &'a str, values: Vec<Option<&'a str>>, pattern: &'a RegexPattern) -> (r: Self)
        ensures
            r.text@ == text@,
            r.values == values,
            *r.pattern == *pattern,
    {
        RegexMatches { text, values, pattern }
    }

    /// Returns the number of groups of the pattern, the whole match not
    /// counted.
    pub fn len(&self) -> (n: usize)
        requires
            self.values@.len() >= 1,
        ensures
            n == self.values@.len() - 1,
    {
        self.values.len() - 1
    }

    /// Returns true if the pattern has no groups, false otherwise.
    pub fn is_empty(&self) -> (r: bool)
        requires
            self.values@.len() >= 1,
        ensures
            r == (self.values@.len() == 1),
    {
        self.len() == 0
    }

    /// Gets the value for the name (or) alias if found, `None` otherwise.
    pub fn get(&self, name_or_alias: &str) -> (r: Option<&'a str>)
        ensures
            match r {
                Some(text) => captured(
                    self.pattern.names(),
                    capture_texts(self.values@),
                    name_or_alias@,
                ) == Some(text@),
                None => captured(self.pattern.names(), capture_texts(self.values@), name_or_alias@)
                    is None,
            },
    {
        fetch(&self.pattern.names, &self.values, name_or_alias)
    }

    /// Returns a tuple of key/value with all the matches found.
    pub fn iter(&'a self) -> (r: RegexMatchesIter<'a>)
        ensures
            r.remaining() == present(
                self.pattern.keys(),
                self.pattern.indices(),
                capture_texts(self.values@),
                0,
            ),
    {
        RegexMatchesIter { inner: MatchesIter::new(&self.pattern.names, &self.values) }
    }
}

/// An `Iterator` over all matches, accessible via `Matches`.
pub struct RegexMatchesIter<'a> {
    inner: MatchesIter<'a>,
}

impl<'a> RegexMatchesIter<'a> {
    /// The pairs that are still to come.
    pub closed spec fn remaining(&self) -> Seq<(Seq<char>, Seq<char>)> {
        self.inner.remaining()
    }

    /// The next key with its capture. Keys whose group took no part in the
    /// match are passed over.
    pub fn next(&mut self) -> (r: Option<(&'a str, &'a str)>)
        ensures
            match r {
                Some((key, text)) => old(self).remaining().len() > 0 && old(self).remaining()[0]
                    == (key@, text@) && final(self).remaining() == old(self).remaining().drop_first(),
                None => old(self).remaining().len() == 0 && final(self).remaining().len() == 0,
            },
    {
        self.inner.next()
    }
}

/// What a compiled regex finds with `regex::Regex::captures`: under each text that it
/// matches, what each group captures in the first match there, by group
/// number. Where the regex does not match a text, or the engine gives up on
/// it, the text is not among them. This depends on the compiled regex and on
/// the text alone.
pub uninterp spec fn regex_finds(regex: regex::Regex) -> Map<Seq<char>, Seq<Option<Seq<char>>>>;

impl RegexPattern {
    /// What the compiled regex finds in each text that it matches.
    pub closed spec fn finds(&self) -> Map<Seq<char>, Seq<Option<Seq<char>>>> {
        regex_finds(self.regex)
    }
}

/// The text that a compiled regex was made from, as `regex::Regex::as_str`
/// returns it.
pub uninterp spec fn regex_source(regex: regex::Regex) -> Seq<char>;

/// `regex::Regex::as_str`: the text that the regex was compiled from.
#[verifier::external_body]
fn regex_text<'a>(regex: &'a regex::Regex) -> (r: &'a str)
    ensures
        r@ == regex_source(*regex),
{
    regex.as_str()
}

impl RegexPattern {
    /// The flat regular expression that the pattern was compiled from.
    pub closed spec fn source(&self) -> Seq<char> {
        regex_source(self.regex)
    }

    /// The flat regular expression that the pattern was compiled from.
    pub fn regex_text(&self) -> (r: &str)
        ensures
            r@ == self.source(),
    {
        regex_text(&self.regex)
    }
}

} // verus!
