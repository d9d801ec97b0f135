//! Patterns that the PCRE2 engine runs.

use crate::error::{refusal, refusal_text, Error, Failure};
use crate::names::{
    capture_texts, captured, cut_pieces, fetch, finds_of, found_spans, group_texts, name_groups,
    name_table, parts_of, present, MatchesIter,
};
use crate::strmap::{map_of, StrMap};
use crate::text::ascending;
use vstd::prelude::*;

verus! {

/// `pcre2::bytes::Regex`, a compiled regular expression: nothing of its
/// inside is known here.
#[verifier::external_type_specification]
#[verifier::external_body]
pub struct ExPcre2Regex(pcre2::bytes::Regex);

/// Whether a `pcre2::bytes::RegexBuilder` with UTF mode and the JIT where it
/// is available compiles a text.
pub uninterp spec fn pcre2_accepts(text: Seq<char>) -> bool;

/// The names of the capture groups that a compiled regex holds, by group
/// number, as `pcre2::bytes::Regex::capture_names` lists them.
pub uninterp spec fn pcre2_groups(regex: pcre2::bytes::Regex) -> Seq<Option<Seq<char>>>;

/// `pcre2::bytes::RegexBuilder::build`, in UTF mode and with the JIT where it
/// is available: compiles a text, or gives the error in its `Debug` form.
/// Which texts compile depends on the text alone: without the JIT the
/// builder falls back to the interpreter. The compiled regex keeps the text
/// that it was made from.
#[verifier::external_body]
fn pcre2_compile(text: &str) -> (r: Result<pcre2::bytes::Regex, String>)
    ensures
        r is Ok <==> pcre2_accepts(text@),
        r matches Ok(regex) ==> pcre2_source(regex) == text@,
{
    let mut builder = pcre2::bytes::RegexBuilder::new();
    builder.jit_if_available(true);
    builder.utf(true);
    match builder.build(text) {
        Ok(regex) => Ok(regex),
        Err(e) => Err(format!("{e:?}")),
    }
}

/// `pcre2::bytes::Regex::capture_names`: the name of each capture group, in
/// the order of the group numbers.
#[verifier::external_body]
fn pcre2_group_names(regex: &pcre2::bytes::Regex) -> (r: Vec<Option<String>>)
    ensures
        group_texts(r@) == pcre2_groups(*regex),
{
    regex.capture_names().to_vec()
}

/// `pcre2::bytes::Regex::captures`: the span of each group in the first
/// match, by group number; `None` where the regex finds no match or the
/// engine gives up. The result depends on the compiled regex and on the
/// text alone.
#[verifier::external_body]
fn pcre2_spans(regex: &pcre2::bytes::Regex, text: &str) -> (r: Option<Vec<Option<(usize, usize)>>>)
    ensures
        found_spans(pcre2_finds(*regex), text@, r),
{
    match regex.captures(text.as_bytes()) {
        Ok(Some(c)) => Some((0..c.len()).map(|i| c.get(i).map(|m| (m.start(), m.end()))).collect()),
        _ => None,
    }
}

/// The `Pattern` represents a compiled regex, ready to be matched against arbitrary text.
#[derive(Debug)]
pub struct Pcre2Pattern {
    regex: pcre2::bytes::Regex,
    names: StrMap<usize>,
}

impl Pcre2Pattern {
    /// The names of the capture groups of the compiled regex.
    pub closed spec fn groups(&self) -> Seq<Option<Seq<char>>> {
        pcre2_groups(self.regex)
    }

    /// The table of names: the group number of each key.
    pub closed spec fn names(&self) -> Map<Seq<char>, usize> {
        self.names@
    }

    /// The keys of the table of names, in ascending order.
    pub closed spec fn keys(&self) -> Seq<Seq<char>> {
        self.names.keys()
    }

    /// The group number of each key, in the order of the keys.
    pub closed spec fn indices(&self) -> Seq<usize> {
        self.names.values()
    }

    /// Creates a new pattern from a raw regex string and an alias map to identify the
    /// fields properly.
    pub fn new(regex: &str, alias: &StrMap<String>) -> (r: Result<Self, Error>)
        ensures
            r is Ok <==> pcre2_accepts(regex@),
            r matches Ok(p) ==> p.source() == regex@ && p.names() == name_table(
                p.groups(),
                alias.texts(),
            ),
            r matches Err(e) ==> exists|d: Seq<char>|
                e@ == Failure::RegexCompilationFailed(#[trigger] refusal(d, regex@)),
    {
        match pcre2_compile(regex) {
            Ok(r) => {
                let groups = pcre2_group_names(&r);
                let names = name_groups(&groups, alias);
                Ok(Pcre2Pattern { regex: r, names })
            },
            Err(e) => {
                let detail = refusal_text(e.as_str(), regex);
                assert(detail@ == refusal(e@, regex@));
                Err(Error::RegexCompilationFailed(detail))
            },
        }
    }

    /// Matches this compiled `Pattern` against the text and returns the matches.
    pub fn match_against<'a>(&'a self, text: &'a str) -> (r: Option<Pcre2Matches<'a>>)
        ensures
            match r {
                Some(m) => *m.pattern == *self && m.text@ == text@ && self.finds().contains_key(
                    text@,
                ) && self.finds()[text@] == capture_texts(m.values@) && parts_of(m.values@, text@),
                None => !self.finds().contains_key(text@),
            },
    {
        match pcre2_spans(&self.regex, text) {
            Some(spans) => Some(Pcre2Matches::new(text, cut_pieces(text, &spans), self)),
            None => None,
        }
    }

    /// Returns all names this `Pattern` captures, in ascending order.
    pub fn capture_names(&self) -> (r: Vec<&str>)
        ensures
            r@.len() == self.keys().len(),
            forall|i: int| 0 <= i < r@.len() ==> (#[trigger] r@[i])@ == self.keys()[i],
            ascending(self.keys()),
            self.keys().len() == self.indices().len(),
            self.names() == map_of(self.keys(), self.indices()),
    {
        self.names.key_list()
    }
}

/// The `Matches` represent matched results from a `Pattern` against a provided text.
#[derive(Debug)]
pub struct Pcre2Matches<'a> {
    /// The text that was matched.
    pub text: &'a str,
    /// What each group captured, by group number.
    pub values: Vec<Option<&'a str>>,
    /// The pattern that matched.
    pub pattern: &'a Pcre2Pattern,
}

impl<'a> Pcre2Matches<'a> {
    /// Gets the value for the name (or) alias if found, `None` otherwise.
    pub fn get(&self, name_or_alias: &str) -> (r: Option<&'a str>)
        ensures
            match r {
                Some(text) => captured(
                    self.pattern.names(),
                    capture_texts(self.values@),
                    name_or_alias@,
                ) == Some(text@),
                None => captured(self.pattern.names(), capture_texts(self.values@), name_or_alias@)
                    is None,
            },
    {
        fetch(&self.pattern.names, &self.values, name_or_alias)
    }

    /// Returns a tuple of key/value with all the matches found.
    pub fn iter(&'a self) -> (r: MatchesIter<'a>)
        ensures
            r.remaining() == present(
                self.pattern.keys(),
                self.pattern.indices(),
                capture_texts(self.values@),
                0,
            ),
    {
        MatchesIter::new(&self.pattern.names, &self.values)
    }
}

/// What a compiled regex finds with `pcre2::bytes::Regex::captures`: under
/// each text that it matches, the byte offsets between which each group
/// captures in the first match there, by group number. Where the regex does
/// not match a text, or the engine gives up on it, the text is not among
/// them. This depends on the compiled regex and on the text alone.
pub uninterp spec fn pcre2_finds(regex: pcre2::bytes::Regex) -> Map<
    Seq<char>,
    Seq<Option<(usize, usize)>>,
>;

impl Pcre2Pattern {
    /// What the compiled regex finds in each text that it matches.
    pub closed spec fn finds(&self) -> Map<Seq<char>, Seq<Option<Seq<char>>>> {
        finds_of(pcre2_finds(self.regex))
    }
}

impl<'a> Pcre2Matches<'a> {
    /// Instantiates the matches for a pattern after the match.
    pub fn new(text: &'a str, values: Vec<Option<&'a str>>, pattern: &'a Pcre2Pattern) -> (r: Self)
        ensures
            r.text@ == text@,
            r.values == values,
            *r.pattern == *pattern,
    {
        Pcre2Matches { text, values, pattern }
    }
}

/// The text that a compiled regex was made from, as `pcre2::bytes::Regex::as_str`
/// returns it.
pub uninterp spec fn pcre2_source(regex: pcre2::bytes::Regex) -> Seq<char>;

/// `pcre2::bytes::Regex::as_str`: the text that the regex was compiled from.
#[verifier::external_body]
fn pcre2_text<'a>(regex: &'a pcre2::bytes::Regex) -> (r: &'a str)
    ensures
        r@ == pcre2_source(*regex),
{
    regex.as_str()
}

impl Pcre2Pattern {
    /// The flat regular expression that the pattern was compiled from.
    pub closed spec fn source(&self) -> Seq<char> {
        pcre2_source(self.regex)
    }

    /// The flat regular expression that the pattern was compiled from.
    pub fn regex_text(&self) -> (r: &str)
        ensures
            r@ == self.source(),
    {
        pcre2_text(&self.regex)
    }
}

} // verus!
