//! Patterns that the Oniguruma engine runs.
//!
//! Oniguruma lists its named groups by name, each name with the numbers of
//! all groups that carry it, and in no order that a caller may rely on.

use crate::error::{refusal, refusal_text, Error, Failure};
use crate::expand::Scope;
use crate::names::{
    capture_texts, captured, cut_pieces, fetch, finds_of, found_spans, parts_of, present, record,
    user_key, MatchesIter,
};
use crate::strmap::{map_of, StrMap};
use crate::text::ascending;
use vstd::prelude::*;

verus! {

/// `onig::Regex`, a compiled regular expression: nothing of its inside is
/// known here.
#[verifier::external_type_specification]
#[verifier::external_body]
pub struct ExOnigRegex(onig::Regex);

/// Whether `onig::Regex::new` compiles a text.
pub uninterp spec fn onig_accepts(text: Seq<char>) -> bool;

/// The named groups that a compiled regex holds: under each name the numbers
/// of the groups that carry it, as `onig::Regex::foreach_name` hands them
/// out.
pub uninterp spec fn onig_names(regex: onig::Regex) -> Map<Seq<char>, Seq<usize>>;

/// `onig::Regex::new`: compiles a text, or gives the error in its `Debug`
/// form. Which texts compile depends on the text alone, and so do the named
/// groups of the compiled regex and what it finds: Oniguruma hands out no
/// copy of the text, so the regex is known by these.
#[verifier::external_body]
fn onig_compile(text: &str) -> (r: Result<onig::Regex, String>)
    ensures
        r is Ok <==> onig_accepts(text@),
        r matches Ok(regex) ==> onig_names(regex) == onig_names_for(text@) && onig_finds(regex)
            == onig_finds_for(text@),
{
    match onig::Regex::new(text) {
        Ok(regex) => Ok(regex),
        Err(e) => Err(format!("{e:?}")),
    }
}

/// The names of a list of named groups.
pub open spec fn listed_names(list: Seq<(String, Vec<usize>)>) -> Seq<Seq<char>> {
    list.map_values(|entry: (String, Vec<usize>)| entry.0@)
}

/// Puts one named group at the end of a list, and asks for the next.
fn keep_name(list: &mut Vec<(String, Vec<usize>)>, name: &str, groups: &[u32]) -> (r: bool)
    ensures
        r,
        final(list)@.len() == old(list)@.len() + 1,
        final(list)@.drop_last() == old(list)@,
        final(list)@.last().0@ == name@,
        final(list)@.last().1@.len() == groups@.len(),
        forall|i: int| 0 <= i < groups@.len() ==> final(list)@.last().1@[i] == groups@[i],
{
    let mut numbers: Vec<usize> = Vec::new();
    let mut i: usize = 0;
    while i < groups.len()
        invariant
            i <= groups@.len(),
            numbers@.len() == i,
            forall|j: int| 0 <= j < i ==> numbers@[j] == groups@[j],
        decreases groups@.len() - i,
    {
        numbers.push(groups[i] as usize);
        i += 1;
    }
    list.push((String::from_str(name), numbers));
    proof {
        assert(list@.drop_last() =~= old(list)@);
    }
    true
}

/// `onig::Regex::foreach_name`: every name of the regex once, with the
/// numbers of its groups. The order of the names is left open.
#[verifier::external_body]
fn onig_group_names(regex: &onig::Regex) -> (r: Vec<(String, Vec<usize>)>)
    ensures
        listed_names(r@).to_set() == onig_names(*regex).dom(),
        forall|i: int|
            0 <= i < r@.len() ==> onig_names(*regex)[(#[trigger] r@[i]).0@] == r@[i].1@,
{
    let mut list = Vec::new();
    regex.foreach_name(|name, groups| keep_name(&mut list, name, groups));
    list
}

/// `onig::Regex::search_with_param` over the whole text, with the default
/// parameters: the span of each group in the first match, by group number;
/// `None` where the regex finds no match or the engine gives up. The result
/// depends on the compiled regex and on the text alone.
#[verifier::external_body]
fn onig_spans(regex: &onig::Regex, text: &str) -> (r: Option<Vec<Option<(usize, usize)>>>)
    ensures
        found_spans(onig_finds(*regex), text@, r),
{
    let mut region = onig::Region::new();
    let options = onig::SearchOptions::SEARCH_OPTION_NONE;
    let param = onig::MatchParam::default();
    match regex.search_with_param(text, 0, text.len(), options, Some(&mut region), param) {
        Ok(Some(_)) => Some((0..region.len()).map(|i| region.pos(i)).collect()),
        _ => None,
    }
}

/// Whether a group with number `index` shows under `key`: it carries a name
/// that stands for the key.
pub open spec fn listed_under(
    names: Map<Seq<char>, Seq<usize>>,
    alias: Scope,
    key: Seq<char>,
    index: usize,
) -> bool {
    exists|name: Seq<char>|
        #![auto]
        names.contains_key(name) && user_key(alias, name) == key && names[name].contains(index)
}

/// Largest number wins: the table holds the keys under which some group
/// shows, each with the largest number of such a group.
pub open spec fn largest_listed(
    table: Map<Seq<char>, usize>,
    names: Map<Seq<char>, Seq<usize>>,
    alias: Scope,
) -> bool {
    &&& forall|key: Seq<char>| #[trigger]
        table.contains_key(key) ==> listed_under(names, alias, key, table[key])
    &&& forall|key: Seq<char>, index: usize| #[trigger]
        listed_under(names, alias, key, index) ==> table.contains_key(key) && index <= table[key]
}

/// Whether the group at place `j` of entry `i` of a list comes before the
/// place `(at, inner)`.
pub open spec fn entered(i: int, j: int, at: int, inner: int) -> bool {
    i < at || (i == at && j < inner)
}

/// The table holds what the groups of a list before the place `(at, inner)`
/// give, the largest number under each key.
pub open spec fn largest_entered(
    table: Map<Seq<char>, usize>,
    list: Seq<(String, Vec<usize>)>,
    alias: Scope,
    at: int,
    inner: int,
) -> bool {
    &&& forall|key: Seq<char>| #[trigger]
        table.contains_key(key) ==> exists|i: int, j: int|
            #![auto]
            0 <= i < list.len() && 0 <= j < list[i].1@.len() && entered(i, j, at, inner)
                && user_key(alias, list[i].0@) == key && list[i].1@[j] == table[key]
    &&& forall|i: int, j: int|
        0 <= i < list.len() && 0 <= j < list[i].1@.len() && #[trigger] entered(i, j, at, inner)
            ==> table.contains_key(user_key(alias, list[i].0@)) && list[i].1@[j]
            <= table[user_key(alias, list[i].0@)]
}

/// Builds the table of names from a list of named groups and the names that
/// the compiler gave.
pub fn name_listed(list: &Vec<(String, Vec<usize>)>, alias: &StrMap<String>) -> (names: StrMap<
    usize,
>)
    ensures
        largest_entered(names@, list@, alias.texts(), list@.len() as int, 0),
{
    let mut names: StrMap<usize> = StrMap::new();
    let mut i: usize = 0;
    while i < list.len()
        invariant
            i <= list@.len(),
            largest_entered(names@, list@, alias.texts(), i as int, 0),
        decreases list@.len() - i,
    {
        let name = list[i].0.as_str();
        let mut j: usize = 0;
        while j < list[i].1.len()
            invariant
                i < list@.len(),
                j <= list@[i as int].1@.len(),
                name@ == list@[i as int].0@,
                largest_entered(names@, list@, alias.texts(), i as int, j as int),
            decreases list@[i as int].1@.len() - j,
        {
            let key = match alias.get(name) {
                Some(key) => key.clone(),
                None => String::from_str(name),
            };
            let ghost before = names@;
            let ghost k = key@;
            let index = list[i].1[j];
            record(&mut names, key, index);
            proof {
                assert(k == user_key(alias.texts(), list@[i as int].0@));
                assert forall|q: Seq<char>| #[trigger] names@.contains_key(q) implies exists|
                    a: int,
                    b: int,
                |
                    #![auto]
                    0 <= a < list@.len() && 0 <= b < list@[a].1@.len() && entered(
                        a,
                        b,
                        i as int,
                        j + 1,
                    ) && user_key(alias.texts(), list@[a].0@) == q && list@[a].1@[b]
                        == names@[q] by {
                    if q == k && names@[q] == index && !(before.contains_key(q) && before[q]
                        == index) {
                        assert(entered(i as int, j as int, i as int, j + 1));
                    } else {
                        assert(before.contains_key(q));
                        let (a, b) = choose|a: int, b: int|
                            #![auto]
                            0 <= a < list@.len() && 0 <= b < list@[a].1@.len() && entered(
                                a,
                                b,
                                i as int,
                                j as int,
                            ) && user_key(alias.texts(), list@[a].0@) == q && list@[a].1@[b]
                                == before[q];
                        assert(entered(a, b, i as int, j + 1));
                    }
                }
                assert forall|a: int, b: int|
                    0 <= a < list@.len() && 0 <= b < list@[a].1@.len() && #[trigger] entered(
                        a,
                        b,
                        i as int,
                        j + 1,
                    ) implies names@.contains_key(user_key(alias.texts(), list@[a].0@))
                    && list@[a].1@[b] <= names@[user_key(alias.texts(), list@[a].0@)] by {
                    if !(a == i && b == j) {
                        assert(entered(a, b, i as int, j as int));
                    }
                }
            }
            j += 1;
        }
        proof {
            assert forall|q: Seq<char>| #[trigger] names@.contains_key(q) implies exists|
                a: int,
                b: int,
            |
                #![auto]
                0 <= a < list@.len() && 0 <= b < list@[a].1@.len() && entered(a, b, i + 1, 0)
                    && user_key(alias.texts(), list@[a].0@) == q && list@[a].1@[b]
                    == names@[q] by {
                let (a, b) = choose|a: int, b: int|
                    #![auto]
                    0 <= a < list@.len() && 0 <= b < list@[a].1@.len() && entered(
                        a,
                        b,
                        i as int,
                        j as int,
                    ) && user_key(alias.texts(), list@[a].0@) == q && list@[a].1@[b] == names@[q];
                assert(entered(a, b, i + 1, 0));
            }
            assert forall|a: int, b: int|
                0 <= a < list@.len() && 0 <= b < list@[a].1@.len() && #[trigger] entered(
                    a,
                    b,
                    i + 1,
                    0,
                ) implies names@.contains_key(user_key(alias.texts(), list@[a].0@))
                && list@[a].1@[b] <= names@[user_key(alias.texts(), list@[a].0@)] by {
                assert(entered(a, b, i as int, j as int));
            }
        }
        i += 1;
    }
    names
}

/// A table built from the whole list of an engine holds the largest number
/// under each key.
pub proof fn lemma_listed(
    table: Map<Seq<char>, usize>,
    list: Seq<(String, Vec<usize>)>,
    names: Map<Seq<char>, Seq<usize>>,
    alias: Scope,
)
    requires
        largest_entered(table, list, alias, list.len() as int, 0),
        listed_names(list).to_set() == names.dom(),
        forall|i: int| 0 <= i < list.len() ==> names[(#[trigger] list[i]).0@] == list[i].1@,
    ensures
        largest_listed(table, names, alias),
{
    assert forall|key: Seq<char>| #[trigger] table.contains_key(key) implies listed_under(
        names,
        alias,
        key,
        table[key],
    ) by {
        let (i, j) = choose|i: int, j: int|
            #![auto]
            0 <= i < list.len() && 0 <= j < list[i].1@.len() && entered(
                i,
                j,
                list.len() as int,
                0,
            ) && user_key(alias, list[i].0@) == key && list[i].1@[j] == table[key];
        let name = list[i].0@;
        assert(listed_names(list)[i] == name);
        assert(listed_names(list).to_set().contains(name));
        assert(names.dom().contains(name));
        assert(names[name][j] == table[key]);
    }
    assert forall|key: Seq<char>, index: usize| #[trigger]
        listed_under(names, alias, key, index) implies table.contains_key(key) && index
        <= table[key] by {
        let name = choose|name: Seq<char>|
            #![auto]
            names.contains_key(name) && user_key(alias, name) == key && names[name].contains(
                index,
            );
        assert(listed_names(list).to_set().contains(name));
        let i = choose|i: int| 0 <= i < listed_names(list).len() && listed_names(list)[i] == name;
        assert(list[i].0@ == name);
        let j = choose|j: int| 0 <= j < names[name].len() && names[name][j] == index;
        assert(entered(i, j, list.len() as int, 0));
    }
}

/// The `Pattern` represents a compiled regex, ready to be matched against arbitrary text.
#[derive(Debug)]
pub struct OnigPattern {
    regex: onig::Regex,
    names: StrMap<usize>,
}

impl OnigPattern {
    /// The named groups of the compiled regex.
    pub closed spec fn named(&self) -> Map<Seq<char>, Seq<usize>> {
        onig_names(self.regex)
    }

    /// The table of names: the group number of each key.
    pub closed spec fn names(&self) -> Map<Seq<char>, usize> {
        self.names@
    }

    /// The keys of the table of names, in ascending order.
    pub closed spec fn keys(&self) -> Seq<Seq<char>> {
        self.names.keys()
    }

    /// The group number of each key, in the order of the keys.
    pub closed spec fn indices(&self) -> Seq<usize> {
        self.names.values()
    }

    /// Creates a new pattern from a raw regex string and an alias map to identify the
    /// fields properly.
    pub fn new(regex: &str, alias: &StrMap<String>) -> (r: Result<Self, Error>)
        ensures
            r is Ok <==> onig_accepts(regex@),
            r matches Ok(p) ==> p.named() == onig_names_for(regex@) && p.finds() == finds_of(
                onig_finds_for(regex@),
            ) && largest_listed(p.names(), p.named(), alias.texts()),
            r matches Err(e) ==> exists|d: Seq<char>|
                e@ == Failure::RegexCompilationFailed(#[trigger] refusal(d, regex@)),
    {
        match onig_compile(regex) {
            Ok(r) => {
                let list = onig_group_names(&r);
                let names = name_listed(&list, alias);
                proof {
                    lemma_listed(names@, list@, onig_names(r), alias.texts());
                }
                Ok(OnigPattern { regex: r, names })
            },
            Err(e) => {
                let detail = refusal_text(e.as_str(), regex);
                assert(detail@ == refusal(e@, regex@));
                Err(Error::RegexCompilationFailed(detail))
            },
        }
    }

    /// Matches this compiled `Pattern` against the text and returns the matches.
    pub fn match_against<'a>(&'a self, text: &'a str) -> (r: Option<OnigMatches<'a>>)
        ensures
            match r {
                Some(m) => *m.pattern == *self && m.text@ == text@ && self.finds().contains_key(
                    text@,
                ) && self.finds()[text@] == capture_texts(m.values@) && parts_of(m.values@, text@),
                None => !self.finds().contains_key(text@),
            },
    {
        match onig_spans(&self.regex, text) {
            Some(spans) => Some(OnigMatches::new(text, cut_pieces(text, &spans), self)),
            None => None,
        }
    }

    /// Returns all names this `Pattern` captures, in ascending order.
    pub fn capture_names(&self) -> (r: Vec<&str>)
        ensures
            r@.len() == self.keys().len(),
            forall|i: int| 0 <= i < r@.len() ==> (#[trigger] r@[i])@ == self.keys()[i],
            ascending(self.keys()),
            self.keys().len() == self.indices().len(),
            self.names() == map_of(self.keys(), self.indices()),
    {
        self.names.key_list()
    }
}

/// The `Matches` represent matched results from a `Pattern` against a provided text.
#[derive(Debug)]
pub struct OnigMatches<'a> {
    /// The text that was matched.
    pub text: &'a str,
    /// What each group captured, by group number.
    pub values: Vec<Option<&'a str>>,
    /// The pattern that matched.
    pub pattern: &'a OnigPattern,
}

impl<'a> OnigMatches<'a> {
    /// Gets the value for the name (or) alias if found, `None` otherwise.
    pub fn get(&self, name_or_alias: &str) -> (r: Option<&'a str>)
        ensures
            match r {
                Some(text) => captured(
                    self.pattern.names(),
                    capture_texts(self.values@),
                    name_or_alias@,
                ) == Some(text@),
                None => captured(self.pattern.names(), capture_texts(self.values@), name_or_alias@)
                    is None,
            },
    {
        fetch(&self.pattern.names, &self.values, name_or_alias)
    }

    /// Returns a tuple of key/value with all the matches found.
    pub fn iter(&'a self) -> (r: MatchesIter<'a>)
        ensures
            r.remaining() == present(
                self.pattern.keys(),
                self.pattern.indices(),
                capture_texts(self.values@),
                0,
            ),
    {
        MatchesIter::new(&self.pattern.names, &self.values)
    }
}

/// What a compiled regex finds with `onig::Regex::search_with_param`: under
/// each text that it matches, the byte offsets between which each group
/// captures in the first match there, by group number. Where the regex does
/// not match a text, or the engine gives up on it, the text is not among
/// them. This depends on the compiled regex and on the text alone.
pub uninterp spec fn onig_finds(regex: onig::Regex) -> Map<Seq<char>, Seq<Option<(usize, usize)>>>;

impl OnigPattern {
    /// What the compiled regex finds in each text that it matches.
    pub closed spec fn finds(&self) -> Map<Seq<char>, Seq<Option<Seq<char>>>> {
        finds_of(onig_finds(self.regex))
    }
}

impl<'a> OnigMatches<'a> {
    /// Instantiates the matches for a pattern after the match.
    pub fn new(text: &'a str, values: Vec<Option<&'a str>>, pattern: &'a OnigPattern) -> (r: Self)
        ensures
            r.text@ == text@,
            r.values == values,
            *r.pattern == *pattern,
    {
        OnigMatches { text, values, pattern }
    }
}

/// The named groups of the regex that `onig::Regex::new` makes of a text:
/// under each name the numbers of the groups that carry it.
pub uninterp spec fn onig_names_for(text: Seq<char>) -> Map<Seq<char>, Seq<usize>>;

/// What the regex that `onig::Regex::new` makes of a text finds: under each
/// text that it matches, the byte offsets between which each group captures
/// in the first match there, by group number.
pub uninterp spec fn onig_finds_for(text: Seq<char>) -> Map<Seq<char>, Seq<Option<(usize, usize)>>>;

} // verus!
