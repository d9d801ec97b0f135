//! Patterns that the `fancy-regex` engine runs.

use crate::error::{refusal, refusal_text, Error, Failure};
use crate::names::{
    capture_texts, captured, fetch, group_texts, name_groups, name_table, parts_of, present,
    MatchesIter,
};
use crate::strmap::{map_of, StrMap};
use crate::text::ascending;
use vstd::prelude::*;

verus! {

/// `fancy_regex::Regex`, a compiled regular expression: nothing of its
/// inside is known here.
#[verifier::external_type_specification]
#[verifier::external_body]
pub struct ExFancyRegex(fancy_regex::Regex);

/// Whether `fancy_regex::Regex::new` compiles a text.
pub uninterp spec fn fancy_accepts(text: Seq<char>) -> bool;

/// The names of the capture groups that a compiled regex holds, by group
/// number, as `fancy_regex::Regex::capture_names` lists them.
pub uninterp spec fn fancy_groups(regex: fancy_regex::Regex) -> Seq<Option<Seq<char>>>;

/// `fancy_regex::Regex::new`: compiles a text, or gives the error in its
/// `Debug` form. Which texts compile depends on the text alone, and the
/// compiled regex keeps the text that it was made from.
#[verifier::external_body]
fn fancy_compile(text: &str) -> (r: Result<fancy_regex::Regex, String>)
    ensures
        r is Ok <==> fancy_accepts(text@),
        r matches Ok(regex) ==> fancy_source(regex) == text@,
{
    match fancy_regex::Regex::new(text) {
        Ok(regex) => Ok(regex),
        Err(e) => Err(format!("{e:?}")),
    }
}

/// `fancy_regex::Regex::capture_names`: the name of each capture group, in
/// the order of the group numbers.
#[verifier::external_body]
fn fancy_group_names(regex: &fancy_regex::Regex) -> (r: Vec<Option<String>>)
    ensures
        group_texts(r@) == fancy_groups(*regex),
{
    regex.capture_names().map(|name| name.map(|s| s.to_string())).collect()
}

/// `fancy_regex::Regex::captures`: what the regex finds in a text, each
/// capture a piece of the text; `None` where it finds no match or gives up.
/// The result depends on the compiled regex and on the text alone.
#[verifier::external_body]
fn fancy_captures<'a>(regex: &fancy_regex::Regex, text: &'a str) -> (r: Option<
    Vec<Option<&'a str>>,
>)
    ensures
        crate::names::found_in(fancy_finds(*regex), text@, r),
{
    match regex.captures(text) {
        Ok(Some(c)) => Some((0..c.len()).map(|i| c.get(i).map(|m| m.as_str())).collect()),
        _ => None,
    }
}

/// The `Pattern` represents a compiled regex, ready to be matched against arbitrary text.
#[derive(Debug)]
pub struct FancyRegexPattern {
    regex: fancy_regex::Regex,
    names: StrMap<usize>,
}

impl FancyRegexPattern {
    /// The names of the capture groups of the compiled regex.
    pub closed spec fn groups(&self) -> Seq<Option<Seq<char>>> {
        fancy_groups(self.regex)
    }

    /// The table of names: the group number of each key.
    pub closed spec fn names(&self) -> Map<Seq<char>, usize> {
        self.names@
    }

    /// The keys of the table of names, in ascending order.
    pub closed spec fn keys(&self) -> Seq<Seq<char>> {
        self.names.keys()
    }

    /// The group number of each key, in the order of the keys.
    pub closed spec fn indices(&self) -> Seq<usize> {
        self.names.values()
    }

    /// Creates a new pattern from a raw regex string and an alias map to identify the
    /// fields properly.
    pub fn new(regex: &str, alias: &StrMap<String>) -> (r: Result<Self, Error>)
        ensures
            r is Ok <==> fancy_accepts(regex@),
            r matches Ok(p) ==> p.source() == regex@ && p.names() == name_table(
                p.groups(),
                alias.texts(),
            ),
            r matches Err(e) ==> exists|d: Seq<char>|
                e@ == Failure::RegexCompilationFailed(#[trigger] refusal(d, regex@)),
    {
        match fancy_compile(regex) {
            Ok(r) => {
                let groups = fancy_group_names(&r);
                let names = name_groups(&groups, alias);
                Ok(FancyRegexPattern { regex: r, names })
            },
            Err(e) => {
                let detail = refusal_text(e.as_str(), regex);
                assert(detail@ == refusal(e@, regex@));
                Err(Error::RegexCompilationFailed(detail))
            },
        }
    }

    /// Matches this compiled `Pattern` against the text and returns the matches.
    pub fn match_against<'a>(&'a self, text: &'a str) -> (r: Option<FancyRegexMatches<'a>>)
        ensures
            match r {
                Some(m) => *m.pattern == *self && m.text@ == text@ && self.finds().contains_key(
                    text@,
                ) && self.finds()[text@] == capture_texts(m.values@) && parts_of(m.values@, text@),
                None => !self.finds().contains_key(text@),
            },
    {
        match fancy_captures(&self.regex, text) {
            Some(values) => Some(FancyRegexMatches::new(text, values, self)),
            None => None,
        }
    }

    /// Returns all names this `Pattern` captures, in ascending order.
    pub fn capture_names(&self) -> (r: Vec<&str>)
        ensures
            r@.len() == self.keys().len(),
            forall|i: int| 0 <= i < r@.len() ==> (#[trigger] r@[i])@ == self.keys()[i],
            ascending(self.keys()),
            self.keys().len() == self.indices().len(),
            self.names() == map_of(self.keys(), self.indices()),
    {
        self.names.key_list()
    }
}

/// The `Matches` represent matched results from a `Pattern` against a provided text.
#[derive(Debug)]
pub struct FancyRegexMatches<'a> {
    /// The text that was matched.
    pub text: &'a str,
    /// What each group captured, by group number.
    pub values: Vec<Option<&'a str>>,
    /// The pattern that matched.
    pub pattern: &'a FancyRegexPattern,
}

impl<'a> FancyRegexMatches<'a> {
    /// Gets the value for the name (or) alias if found, `None` otherwise.
    pub fn get(&self, name_or_alias: &str) -> (r: Option<&'a str>)
        ensures
            match r {
                Some(text) => captured(
                    self.pattern.names(),
                    capture_texts(self.values@),
                    name_or_alias@,
                ) == Some(text@),
                None => captured(self.pattern.names(), capture_texts(self.values@), name_or_alias@)
                    is None,
            },
    {
        fetch(&self.pattern.names, &self.values, name_or_alias)
    }

    /// Returns a tuple of key/value with all the matches found.
    pub fn iter(&'a self) -> (r: MatchesIter<'a>)
        ensures
            r.remaining() == present(
                self.pattern.keys(),
                self.pattern.indices(),
                capture_texts(self.values@),
                0,
            ),
    {
        MatchesIter::new(&self.pattern.names, &self.values)
    }
}

/// What a compiled regex finds with `fancy_regex::Regex::captures`: under each text that it
/// matches, what each group captures in the first match there, by group
/// number. Where the regex does not match a text, or the engine gives up on
/// it, the text is not among them. This depends on the compiled regex and on
/// the text alone.
pub uninterp spec fn fancy_finds(regex: fancy_regex::Regex) -> Map<Seq<char>, Seq<Option<Seq<char>>>>;

impl FancyRegexPattern {
    /// What the compiled regex finds in each text that it matches.
    pub closed spec fn finds(&self) -> Map<Seq<char>, Seq<Option<Seq<char>>>> {
        fancy_finds(self.regex)
    }
}

impl<'a> FancyRegexMatches<'a> {
    /// Instantiates the matches for a pattern after the match.
    pub fn new(text: &'a str, values: Vec<Option<&'a str>>, pattern: &'a FancyRegexPattern) -> (r: Self)
        ensures
            r.text@ == text@,
            r.values == values,
            *r.pattern == *pattern,
    {
        FancyRegexMatches { text, values, pattern }
    }
}

/// The text that a compiled regex was made from, as `fancy_regex::Regex::as_str`
/// returns it.
pub uninterp spec fn fancy_source(regex: fancy_regex::Regex) -> Seq<char>;

/// `fancy_regex::Regex::as_str`: the text that the regex was compiled from.
#[verifier::external_body]
fn fancy_text<'a>(regex: &'a fancy_regex::Regex) -> (r: &'a str)
    ensures
        r@ == fancy_source(*regex),
{
    regex.as_str()
}

impl FancyRegexPattern {
    /// The flat regular expression that the pattern was compiled from.
    pub closed spec fn source(&self) -> Seq<char> {
        fancy_source(self.regex)
    }

    /// The flat regular expression that the pattern was compiled from.
    pub fn regex_text(&self) -> (r: &str)
        ensures
            r@ == self.source(),
    {
        fancy_text(&self.regex)
    }
}

} // verus!
