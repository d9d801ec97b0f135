//! The dictionary of patterns, and the compiler that expands a source
//! under it.

use crate::defaults::{default_patterns, pair_texts, patterns};
use crate::error::{refusal, Error, Failure};
use crate::names::name_table;
use crate::pattern::Pattern;
use crate::pcre2_engine::pcre2_accepts;
use crate::expand::{
    alias_map, enter, expand, lemma_step, levels_of, resume, scoped, work, Builder, Frame, Rules,
    Scope,
};
use crate::parser::GrokComponent;
use crate::strmap::{lemma_texts_insert, StrMap};
use crate::MAX_RECURSION;
use vstd::prelude::*;

verus! {

/// The `Grok` struct is the main entry point into using this library.
#[derive(Debug)]
pub struct Grok {
    patterns: StrMap<String>,
}

impl View for Grok {
    type V = Scope;

    /// The dictionary: the body of each pattern that has a name.
    closed spec fn view(&self) -> Scope {
        self.patterns.texts()
    }
}

/// The dictionary that some pairs of a name and a body make, entered in
/// turn: a later pair replaces an earlier one with the same name.
pub open spec fn dictionary_of(pairs: Seq<(Seq<char>, Seq<char>)>) -> Scope
    decreases pairs.len(),
{
    if pairs.len() == 0 {
        Map::empty()
    } else {
        dictionary_of(pairs.drop_last()).insert(pairs.last().0, pairs.last().1)
    }
}

impl Grok {
    /// Creates a new `Grok` instance with no patterns.
    pub fn empty() -> (r: Self)
        ensures
            r@ == Scope::empty(),
    {
        proof {
            crate::strmap::lemma_texts_empty::<String>();
        }
        Grok { patterns: StrMap::new() }
    }

    /// Adds a custom grok pattern. A pattern that had the name is replaced.
    ///
    /// A grok pattern is a standard regular expression string with grok
    /// pattern placeholders embedded in it, of the form
    /// `%{name:alias:extract=definition}`.
    pub fn add_pattern(&mut self, name: &str, pattern: &str)
        ensures
            final(self)@ == old(self)@.insert(name@, pattern@),
    {
        let body = String::from_str(pattern);
        proof {
            lemma_texts_insert(self.patterns@, name@, body);
        }
        self.patterns.insert(String::from_str(name), body);
    }

    /// Creates a new `Grok` instance with the given patterns.
    pub fn from_iter(pairs: &[(&str, &str)]) -> (r: Self)
        ensures
            r@ == dictionary_of(pair_texts(pairs@)),
    {
        let ghost all = pair_texts(pairs@);
        let mut grok = Grok::empty();
        let mut i: usize = 0;
        while i < pairs.len()
            invariant
                i <= pairs@.len(),
                all == pair_texts(pairs@),
                grok@ == dictionary_of(all.take(i as int)),
            decreases pairs@.len() - i,
        {
            proof {
                assert(all.take(i + 1).drop_last() =~= all.take(i as int));
            }
            grok.add_pattern(pairs[i].0, pairs[i].1);
            i += 1;
        }
        proof {
            assert(all.take(pairs@.len() as int) =~= all);
        }
        grok
    }

    /// Creates a new `Grok` instance and loads all the default patterns.
    pub fn with_default_patterns() -> (r: Self)
        ensures
            r@ == dictionary_of(default_patterns()),
    {
        let table = patterns();
        Grok::from_iter(table.as_slice())
    }

    /// Compiles the given pattern, making it ready for matching.
    ///
    /// Specify `with_alias_only` to only include the aliases in the matches
    /// rather that all named patterns. This may result in a more efficient
    /// compiled pattern.
    pub fn compile(&self, pattern: &str, with_alias_only: bool) -> (r: Result<Pattern, Error>)
        ensures
            match expand(self@, pattern@, with_alias_only) {
                Err(e) => r matches Err(x) && x@ == e,
                Ok(g) => if g.regex.len() == 0 {
                    r matches Err(x) && x@ == Failure::CompiledPatternIsEmpty(pattern@)
                } else {
                    &&& r is Ok <==> pcre2_accepts(g.regex)
                    &&& r matches Ok(p) ==> p.source() == g.regex && p.extracts() == g.extracts
                        && p.names() == name_table(p.groups(), alias_map(g.keys))
                    &&& r matches Err(e) ==> exists|d: Seq<char>|
                        e@ == Failure::RegexCompilationFailed(#[trigger] refusal(d, g.regex))
                },
            },
    {
        match self.compile_regex(pattern, with_alias_only) {
            Err(e) => Err(e),
            Ok((named_regex, aliases, extracts)) => {
                if named_regex.as_str().is_empty() {
                    Err(Error::CompiledPatternIsEmpty(String::from_str(pattern)))
                } else {
                    Pattern::new(named_regex.as_str(), aliases, extracts)
                }
            },
        }
    }

    /// The body of a pattern, if the dictionary holds the name.
    pub fn get_pattern(&self, name: &str) -> (r: Option<&str>)
        ensures
            match r {
                Some(body) => self@.contains_key(name@) && self@[name@] == body@,
                None => !self@.contains_key(name@),
            },
    {
        match self.patterns.get(name) {
            Some(body) => Some(body.as_str()),
            None => None,
        }
    }

    /// Expands a source into its flat regular expression, the table from
    /// the names of its groups to their keys, and the extracts of the keys.
    ///
    /// With `with_alias_only` the placeholders without an alias capture
    /// nothing.
    pub fn compile_regex<'a>(&'a self, pattern: &'a str, with_alias_only: bool) -> (r: Result<
        (String, StrMap<String>, StrMap<String>),
        Error,
    >)
        ensures
            match expand(self@, pattern@, with_alias_only) {
                Ok(g) => r is Ok && r.unwrap().0@ == g.regex && r.unwrap().1.texts() == alias_map(
                    g.keys,
                ) && r.unwrap().2.texts() == g.extracts,
                Err(e) => r is Err && r.unwrap_err()@ == e,
            },
    {
        let ghost rules = Rules {
            dict: self@,
            alias_only: with_alias_only,
            limit: MAX_RECURSION as nat,
        };
        let ghost goal = expand(self@, pattern@, with_alias_only);
        let mut builder = Builder::new();
        let mut pattern_stack: Vec<Frame<'a>> = Vec::new();
        pattern_stack.push(enter(pattern));
        proof {
            assert(levels_of(pattern_stack@) =~= seq![crate::expand::fresh(pattern@)]);
            reveal_with_fuel(resume, 2);
        }
        while pattern_stack.len() > 0
            invariant
                builder.wf(),
                pattern_stack@.len() <= MAX_RECURSION,
                rules == (Rules {
                    dict: self@,
                    alias_only: with_alias_only,
                    limit: MAX_RECURSION as nat,
                }),
                goal == expand(self@, pattern@, with_alias_only),
                resume(rules, levels_of(pattern_stack@), builder.gathered()) == goal,
            decreases work(rules, levels_of(pattern_stack@), builder.gathered()),
        {
            let ghost levels = levels_of(pattern_stack@);
            let ghost gathered = builder.gathered();
            let mut frame = pattern_stack.pop().unwrap();
            proof {
                assert(levels_of(pattern_stack@) =~= levels.drop_last());
            }
            let ghost top = levels.last();
            let next = frame.split.next();
            proof {
                lemma_step(rules, levels, gathered);
            }
            match next {
                None => {
                    if pattern_stack.len() > 0 {
                        builder.push_text(")");
                    }
                },
                Some(GrokComponent::RegularExpression { string, .. }) => {
                    builder.push_text(string);
                    pattern_stack.push(frame);
                    proof {
                        assert(levels_of(pattern_stack@) =~= crate::expand::advanced(
                            levels,
                            crate::parser::token_end(top.body, top.pos),
                            top.scope,
                        ));
                    }
                },
                Some(GrokComponent::GrokPattern { name, alias, extract, definition, .. }) => {
                    if !definition.is_empty() {
                        proof {
                            lemma_texts_insert(frame.overrides@, name@, definition);
                        }
                        frame.overrides.insert(String::from_str(name), definition);
                    }
                    pattern_stack.push(frame);
                    let ghost parent = levels_of(pattern_stack@);
                    proof {
                        assert(parent =~= crate::expand::advanced(
                            levels,
                            crate::parser::token_end(top.body, top.pos),
                            frame.overrides.texts(),
                        ));
                    }
                    let body: &'a str = match scoped(&pattern_stack, name) {
                        Some(body) => body,
                        None => match self.patterns.get(name) {
                            Some(body) => body.as_str(),
                            None => {
                                return Err(Error::DefinitionNotFound(String::from_str(name)));
                            },
                        },
                    };
                    match builder.open(with_alias_only, name, alias, extract) {
                        Ok(_) => {},
                        Err(detail) => {
                            return Err(Error::GenericCompilationFailure(detail));
                        },
                    }
                    if pattern_stack.len() >= MAX_RECURSION {
                        return Err(Error::RecursionTooDeep);
                    }
                    pattern_stack.push(enter(body));
                    proof {
                        assert(levels_of(pattern_stack@) =~= parent.push(
                            crate::expand::fresh(body@),
                        ));
                    }
                },
                Some(GrokComponent::PatternError(e)) => {
                    return Err(Error::GenericCompilationFailure(e.describe()));
                },
            }
        }
        proof {
            reveal_with_fuel(resume, 1);
        }
        Ok(builder.finish())
    }
}

impl Clone for Grok {
    fn clone(&self) -> (r: Grok)
        ensures
            r@ == self@,
    {
        Grok { patterns: self.patterns.duplicate() }
    }
}

/// The Default implementation for Grok which will load the default patterns.
impl Default for Grok {
    fn default() -> (r: Grok)
        ensures
            r@ == dictionary_of(default_patterns()),
    {
        Grok::with_default_patterns()
    }
}

/// Allows to construct Grok with an array of patterns directly.
impl<'a, const N: usize> From<[(&'a str, &'a str); N]> for Grok {
    fn from(arr: [(&'a str, &'a str); N]) -> (r: Self)
        ensures
            r@ == dictionary_of(pair_texts(arr@)),
    {
        Grok::from_iter(arr.as_slice())
    }
}

impl<'a, const N: usize> vstd::std_specs::convert::FromSpecImpl<[(&'a str, &'a str); N]> for Grok {
    open spec fn obeys_from_spec() -> bool {
        false
    }

    open spec fn from_spec(arr: [(&'a str, &'a str); N]) -> Self {
        arbitrary()
    }
}

} // verus!
