//! The expansion of a grok source into one flat regular expression.
//!
//! A placeholder stands for the body that its name has: the definition that
//! it carries, or one that a placeholder before it carried in the same body
//! or in a body around it, or the entry of the dictionary. The body is
//! expanded in its place, inside a group. A group that shows in the matches
//! gets a name of its own making; the table of names says which key of the
//! user each of them stands for.

use crate::error::Failure;
use crate::parser::{grok_split, token_at, GrokSplit, Token};
use crate::strmap::{lemma_texts_empty, lemma_texts_insert, StrMap};
use crate::text::{decimal, decimal_text};
use crate::MAX_RECURSION;
use vstd::prelude::*;
use vstd::utf8::*;

verus! {

/// A scope: the bodies that names have.
pub type Scope = Map<Seq<char>, Seq<char>>;

/// What a compilation has gathered.
pub struct Gathered {
    /// The flat regular expression.
    pub regex: Seq<char>,
    /// For each named group, the key as the placeholder gave it: its ALIAS,
    /// or its NAME where it has none.
    pub raw: Seq<Seq<char>>,
    /// For each named group, whether its placeholder has an ALIAS.
    pub aliased: Seq<bool>,
    /// For each named group, where in the regular expression it opens.
    pub places: Seq<int>,
    /// For each named group, the key under which it shows in the matches.
    pub keys: Seq<Seq<char>>,
    /// The EXTRACT of each key that has one.
    pub extracts: Scope,
}

/// What governs a compilation: the dictionary, whether only aliases count,
/// and how many levels of bodies inside bodies there may be.
pub struct Rules {
    pub dict: Scope,
    pub alias_only: bool,
    pub limit: nat,
}

/// One body under expansion: its bytes, how far it has been read, and the
/// definitions that its placeholders have brought so far.
pub struct Level {
    pub body: Seq<u8>,
    pub pos: int,
    pub scope: Scope,
}

impl Gathered {
    /// Nothing gathered yet.
    pub open spec fn empty() -> Gathered {
        Gathered {
            regex: Seq::empty(),
            raw: Seq::empty(),
            aliased: Seq::empty(),
            places: Seq::empty(),
            keys: Seq::empty(),
            extracts: Map::empty(),
        }
    }

    /// The same with a text added to the regular expression.
    pub open spec fn append(self, text: Seq<char>) -> Gathered {
        Gathered { regex: self.regex + text, ..self }
    }
}

/// The name that the `k`-th named group has in the flat regular expression.
pub open spec fn synthetic(k: nat) -> Seq<char> {
    "_n_"@ + decimal(k)
}

/// How often a key stands among the keys given so far.
pub open spec fn occurrences(raw: Seq<Seq<char>>, key: Seq<char>) -> nat
    decreases raw.len(),
{
    if raw.len() == 0 {
        0
    } else {
        occurrences(raw.drop_last(), key) + if raw.last() == key {
            1nat
        } else {
            0nat
        }
    }
}

/// The key of a group whose placeholder gave `raw`, after `count` earlier
/// groups with the same: the first keeps the key, the later ones get their
/// number in square brackets.
pub open spec fn resolved(raw: Seq<char>, count: nat) -> Seq<char> {
    if count == 0 {
        raw
    } else {
        raw + "["@ + decimal(count) + "]"@
    }
}

/// The table from the names of the groups to their keys.
pub open spec fn alias_map(keys: Seq<Seq<char>>) -> Scope
    decreases keys.len(),
{
    if keys.len() == 0 {
        Map::empty()
    } else {
        alias_map(keys.drop_last()).insert(synthetic((keys.len() - 1) as nat), keys.last())
    }
}

/// What opens the `k`-th named group in the flat regular expression.
pub open spec fn opener(k: nat) -> Seq<char> {
    "(?<"@ + synthetic(k) + ">"@
}

/// The key that the group of a placeholder gets, after what was gathered.
pub open spec fn group_key(g: Gathered, name: Seq<char>, alias: Seq<char>) -> Seq<char> {
    let raw = if alias.len() == 0 {
        name
    } else {
        alias
    };
    resolved(raw, occurrences(g.raw, raw))
}

/// Whether the group of a placeholder would get a key that a group before
/// it has, as where a placeholder gave `x[1]` and two others then give `x`.
pub open spec fn key_taken(
    g: Gathered,
    alias_only: bool,
    name: Seq<char>,
    alias: Seq<char>,
) -> bool {
    !(alias_only && alias.len() == 0) && g.keys.contains(group_key(g, name, alias))
}

/// The detail of the failure on a key that a group before has.
pub open spec fn taken_text(key: Seq<char>) -> Seq<char> {
    "Alias "@ + key + " already exists"@
}

/// The failure on the key of a placeholder that a group before has.
pub open spec fn taken_failure(g: Gathered, name: Seq<char>, alias: Seq<char>) -> Failure {
    Failure::GenericCompilationFailure(taken_text(group_key(g, name, alias)))
}

/// The opening of the group of a placeholder. Where only aliases count and
/// the placeholder has none, the group captures nothing. Otherwise it gets
/// the next name, and its key and EXTRACT are recorded.
pub open spec fn open_group(
    g: Gathered,
    alias_only: bool,
    name: Seq<char>,
    alias: Seq<char>,
    extract: Seq<char>,
) -> Gathered {
    if alias_only && alias.len() == 0 {
        g.append("(?:"@)
    } else {
        let raw = if alias.len() == 0 {
            name
        } else {
            alias
        };
        let key = resolved(raw, occurrences(g.raw, raw));
        Gathered {
            regex: g.regex + "(?<"@ + synthetic(g.keys.len()) + ">"@,
            raw: g.raw.push(raw),
            aliased: g.aliased.push(alias.len() > 0),
            places: g.places.push(g.regex.len() as int),
            keys: g.keys.push(key),
            extracts: if extract.len() == 0 {
                g.extracts
            } else {
                g.extracts.insert(key, extract)
            },
        }
    }
}

/// The definition that a name has in the innermost level that defines it.
pub open spec fn innermost(levels: Seq<Level>, name: Seq<char>) -> Option<Seq<char>>
    decreases levels.len(),
{
    if levels.len() == 0 {
        None
    } else if levels.last().scope.contains_key(name) {
        Some(levels.last().scope[name])
    } else {
        innermost(levels.drop_last(), name)
    }
}

/// The body that a name has: its innermost definition, else the entry of
/// the dictionary.
pub open spec fn lookup(dict: Scope, levels: Seq<Level>, name: Seq<char>) -> Option<Seq<char>> {
    match innermost(levels, name) {
        Some(body) => Some(body),
        None => if dict.contains_key(name) {
            Some(dict[name])
        } else {
            None
        },
    }
}

/// The levels with the innermost one read up to `pos`, under `scope`.
pub open spec fn advanced(levels: Seq<Level>, pos: int, scope: Scope) -> Seq<Level> {
    levels.update(levels.len() - 1, Level { body: levels.last().body, pos, scope })
}

/// A level that starts on a body.
pub open spec fn fresh(body: Seq<char>) -> Level {
    Level { body: encode_utf8(body), pos: 0, scope: Map::empty() }
}

/// What the rest of the innermost level yields, from where it has been read.
///
/// A literal goes into the regular expression as it stands. A placeholder
/// opens a group, has its body expanded as a level of its own, and closes
/// the group. Its definition, if it carries one, is known from then on in
/// its level. A malformed placeholder, a name without a body, a key that a
/// group before has, and more than the limit of levels each end the
/// compilation.
#[verifier::opaque]
pub open spec fn expand_top(rules: Rules, levels: Seq<Level>, g: Gathered) -> Result<
    Gathered,
    Failure,
>
    decreases rules.limit - levels.len(), levels.last().body.len() - levels.last().pos,
    when levels.len() > 0
{
    let top = levels.last();
    if top.pos < 0 || top.pos >= top.body.len() {
        Ok(g)
    } else {
        match token_at(top.body, top.pos) {
            Token::Error(e) => Err(Failure::GenericCompilationFailure(e.text())),
            Token::Literal { end, text, .. } => {
                if top.pos < end <= top.body.len() {
                    expand_top(rules, advanced(levels, end, top.scope), g.append(text))
                } else {
                    Ok(g)
                }
            },
            Token::Placeholder { end, name, alias, extract, definition, .. } => {
                let scope = if definition.len() > 0 {
                    top.scope.insert(name, definition)
                } else {
                    top.scope
                };
                let parent = advanced(levels, end, scope);
                match lookup(rules.dict, parent, name) {
                    None => Err(Failure::DefinitionNotFound(name)),
                    Some(body) => {
                        if key_taken(g, rules.alias_only, name, alias) {
                            Err(taken_failure(g, name, alias))
                        } else if levels.len() >= rules.limit {
                            Err(Failure::RecursionTooDeep)
                        } else if top.pos < end <= top.body.len() {
                            match expand_top(
                                rules,
                                parent.push(fresh(body)),
                                open_group(g, rules.alias_only, name, alias, extract),
                            ) {
                                Err(e) => Err(e),
                                Ok(inner) => expand_top(
                                    rules,
                                    parent,
                                    inner.append(")"@),
                                ),
                            }
                        } else {
                            Ok(g)
                        }
                    },
                }
            },
        }
    }
}

/// What a source yields under a dictionary.
pub open spec fn expand(dict: Scope, source: Seq<char>, alias_only: bool) -> Result<
    Gathered,
    Failure,
> {
    expand_within(Rules { dict, alias_only, limit: MAX_RECURSION as nat }, source)
}

/// What a source yields under some rules.
pub open spec fn expand_within(rules: Rules, source: Seq<char>) -> Result<Gathered, Failure> {
    expand_top(rules, seq![fresh(source)], Gathered::empty())
}

/// What some levels yield, the innermost first: each level that ends closes
/// the group of the placeholder that opened it, but for the outermost, which
/// no placeholder opened.
#[verifier::opaque]
pub(crate) open spec fn resume(rules: Rules, levels: Seq<Level>, g: Gathered) -> Result<
    Gathered,
    Failure,
>
    decreases levels.len(),
{
    if levels.len() == 0 {
        Ok(g)
    } else {
        match expand_top(rules, levels, g) {
            Err(e) => Err(e),
            Ok(inner) => if levels.len() == 1 {
                Ok(inner)
            } else {
                resume(rules, levels.drop_last(), inner.append(")"@))
            },
        }
    }
}

/// The steps that the rest of the innermost level takes: one for each token
/// read, one for each level that ends, up to the first error.
pub(crate) closed spec fn work_top(rules: Rules, levels: Seq<Level>, g: Gathered) -> nat
    decreases rules.limit - levels.len(), levels.last().body.len() - levels.last().pos,
    when levels.len() > 0
{
    let top = levels.last();
    if top.pos < 0 || top.pos >= top.body.len() {
        0
    } else {
        match token_at(top.body, top.pos) {
            Token::Error(e) => 1,
            Token::Literal { end, text, .. } => {
                if top.pos < end <= top.body.len() {
                    1 + work_top(rules, advanced(levels, end, top.scope), g.append(text))
                } else {
                    1
                }
            },
            Token::Placeholder { end, name, alias, extract, definition, .. } => {
                let scope = if definition.len() > 0 {
                    top.scope.insert(name, definition)
                } else {
                    top.scope
                };
                let parent = advanced(levels, end, scope);
                match lookup(rules.dict, parent, name) {
                    None => 1,
                    Some(body) => {
                        if key_taken(g, rules.alias_only, name, alias) || levels.len()
                            >= rules.limit {
                            1
                        } else if top.pos < end <= top.body.len() {
                            let inside = parent.push(fresh(body));
                            let opened = open_group(g, rules.alias_only, name, alias, extract);
                            2 + work_top(rules, inside, opened) + match expand_top(
                                rules,
                                inside,
                                opened,
                            ) {
                                Err(e) => 0,
                                Ok(inner) => work_top(rules, parent, inner.append(")"@)),
                            }
                        } else {
                            1
                        }
                    },
                }
            },
        }
    }
}

/// The steps that some levels take, the innermost first.
pub(crate) closed spec fn work(rules: Rules, levels: Seq<Level>, g: Gathered) -> nat
    decreases levels.len(),
{
    if levels.len() == 0 {
        0
    } else {
        1 + work_top(rules, levels, g) + match expand_top(rules, levels, g) {
            Err(e) => 0,
            Ok(inner) => work(rules, levels.drop_last(), inner.append(")"@)),
        }
    }
}

/// What one step does, by the token that the innermost level holds next.
pub(crate) enum Step {
    /// The level has ended: it leaves, and its group closes.
    Leave,
    /// A literal: its text is added, and the level goes on after it.
    Text { end: int, text: Seq<char> },
    /// A placeholder: its group opens, and its body becomes a level.
    Enter { parent: Seq<Level>, body: Seq<char>, opened: Gathered },
    /// The compilation ends.
    Fail(Failure),
}

/// The step that the levels take next.
pub(crate) open spec fn step(rules: Rules, levels: Seq<Level>, g: Gathered) -> Step
    recommends
        levels.len() > 0,
{
    let top = levels.last();
    if top.pos >= top.body.len() {
        Step::Leave
    } else {
        match token_at(top.body, top.pos) {
            Token::Error(e) => Step::Fail(Failure::GenericCompilationFailure(e.text())),
            Token::Literal { end, text, .. } => Step::Text { end, text },
            Token::Placeholder { end, name, alias, extract, definition, .. } => {
                let scope = if definition.len() > 0 {
                    top.scope.insert(name, definition)
                } else {
                    top.scope
                };
                let parent = advanced(levels, end, scope);
                match lookup(rules.dict, parent, name) {
                    None => Step::Fail(Failure::DefinitionNotFound(name)),
                    Some(body) => if key_taken(g, rules.alias_only, name, alias) {
                        Step::Fail(taken_failure(g, name, alias))
                    } else if levels.len() >= rules.limit {
                        Step::Fail(Failure::RecursionTooDeep)
                    } else {
                        Step::Enter {
                            parent,
                            body,
                            opened: open_group(g, rules.alias_only, name, alias, extract),
                        }
                    },
                }
            },
        }
    }
}

/// One step leaves what the levels yield as it was, and leaves fewer steps
/// to take.
pub(crate) proof fn lemma_step(rules: Rules, levels: Seq<Level>, g: Gathered)
    requires
        0 < levels.len() <= rules.limit,
        0 <= levels.last().pos,
        levels.last().pos < levels.last().body.len() ==> levels.last().pos < crate::parser::token_end(
            levels.last().body,
            levels.last().pos,
        ) <= levels.last().body.len(),
    ensures
        match step(rules, levels, g) {
            Step::Leave => {
                let closed = if levels.len() == 1 {
                    g
                } else {
                    g.append(")"@)
                };
                &&& resume(rules, levels, g) == resume(
                    rules,
                    levels.drop_last(),
                    closed,
                )
                &&& work(rules, levels, g) > work(
                    rules,
                    levels.drop_last(),
                    closed,
                )
            },
            Step::Text { end, text } => {
                let after = advanced(levels, end, levels.last().scope);
                &&& resume(rules, levels, g) == resume(
                    rules,
                    after,
                    g.append(text),
                )
                &&& work(rules, levels, g) > work(rules, after, g.append(text))
            },
            Step::Enter { parent, body, opened } => {
                let inside = parent.push(fresh(body));
                &&& resume(rules, levels, g) == resume(rules, inside, opened)
                &&& work(rules, levels, g) > work(rules, inside, opened)
            },
            Step::Fail(e) => resume(rules, levels, g) == Err::<Gathered, Failure>(e),
        },
{
    reveal_with_fuel(resume, 3);
    reveal_with_fuel(work, 3);
    reveal(expand_top);
    let top = levels.last();
    let rest = levels.drop_last();
    match step(rules, levels, g) {
        Step::Leave => {},
        Step::Text { end, text } => {
            let after = advanced(levels, end, top.scope);
            assert(after.drop_last() =~= rest);
        },
        Step::Enter { parent, body, opened } => {
            let inside = parent.push(fresh(body));
            assert(inside.drop_last() =~= parent);
            assert(parent.drop_last() =~= rest);
        },
        Step::Fail(e) => {},
    }
}

/// A key stands among some keys at most as often as there are keys.
pub(crate) proof fn lemma_occurrences_bound(raw: Seq<Seq<char>>, key: Seq<char>)
    ensures
        occurrences(raw, key) <= raw.len(),
    decreases raw.len(),
{
    if raw.len() > 0 {
        lemma_occurrences_bound(raw.drop_last(), key);
    }
}

/// The texts of some strings.
pub(crate) open spec fn views(strings: Seq<String>) -> Seq<Seq<char>> {
    strings.map_values(|s: String| s@)
}

/// What a compilation has gathered, as it is built.
pub(crate) struct Builder {
    regex: String,
    keys: Vec<String>,
    counts: StrMap<usize>,
    aliases: StrMap<String>,
    extracts: StrMap<String>,
    taken: StrMap<usize>,
    raw: Ghost<Seq<Seq<char>>>,
    aliased: Ghost<Seq<bool>>,
    places: Ghost<Seq<int>>,
}

impl Builder {
    /// What has been gathered.
    pub(crate) closed spec fn gathered(&self) -> Gathered {
        Gathered {
            regex: self.regex@,
            raw: self.raw@,
            aliased: self.aliased@,
            places: self.places@,
            keys: views(self.keys@),
            extracts: self.extracts.texts(),
        }
    }

    /// The tables agree with what has been gathered: the names stand for
    /// the keys, and each key is counted as often as it was given.
    pub(crate) closed spec fn wf(&self) -> bool {
        &&& self.raw@.len() == self.keys@.len()
        &&& self.aliases.texts() == alias_map(views(self.keys@))
        &&& forall|k: Seq<char>| #[trigger]
            self.taken@.contains_key(k) <==> views(self.keys@).contains(k)
        &&& forall|k: Seq<char>|
            #[trigger] occurrences(self.raw@, k) == if self.counts@.contains_key(k) {
                self.counts@[k] as nat
            } else {
                0
            }
    }

    /// A builder that has gathered nothing.
    pub(crate) fn new() -> (r: Builder)
        ensures
            r.wf(),
            r.gathered() == Gathered::empty(),
    {
        let r = Builder {
            regex: String::new(),
            keys: Vec::new(),
            counts: StrMap::new(),
            aliases: StrMap::new(),
            extracts: StrMap::new(),
            taken: StrMap::new(),
            raw: Ghost(Seq::empty()),
            aliased: Ghost(Seq::empty()),
            places: Ghost(Seq::empty()),
        };
        proof {
            lemma_texts_empty::<String>();
            assert(views(r.keys@) =~= Seq::<Seq<char>>::empty());
        }
        r
    }

    /// Adds a text to the regular expression.
    pub(crate) fn push_text(&mut self, text: &str)
        requires
            old(self).wf(),
        ensures
            final(self).wf(),
            final(self).gathered() == old(self).gathered().append(text@),
    {
        self.regex.append(text);
    }

    /// Opens the group of a placeholder, unless its key is one that a group
    /// before has: then nothing is opened, and the detail of the failure is
    /// returned.
    pub(crate) fn open(&mut self, alias_only: bool, name: &str, alias: &str, extract: &str) -> (r:
        Result<(), String>)
        requires
            old(self).wf(),
        ensures
            match r {
                Ok(_) => !key_taken(old(self).gathered(), alias_only, name@, alias@)
                    && final(self).wf() && final(self).gathered() == open_group(
                    old(self).gathered(),
                    alias_only,
                    name@,
                    alias@,
                    extract@,
                ),
                Err(detail) => key_taken(old(self).gathered(), alias_only, name@, alias@)
                    && detail@ == taken_text(group_key(old(self).gathered(), name@, alias@)),
            },
    {
        if alias_only && alias.is_empty() {
            self.regex.append("(?:");
            return Ok(());
        }
        let ghost before = self.gathered();
        let index = self.keys.len();
        let mut match_name = String::from_str("_n_");
        match_name.append(decimal_text(index).as_str());
        let raw_key = if alias.is_empty() {
            name
        } else {
            alias
        };
        let count = match self.counts.get(raw_key) {
            Some(c) => *c,
            None => 0,
        };
        let mut key = String::from_str(raw_key);
        if count > 0 {
            key.append("[");
            key.append(decimal_text(count).as_str());
            key.append("]");
        }
        assert(key@ == group_key(before, name@, alias@));
        if self.taken.contains_key(key.as_str()) {
            let mut detail = String::from_str("Alias ");
            detail.append(key.as_str());
            detail.append(" already exists");
            return Err(detail);
        }
        let ghost held = self.taken@;
        self.taken.insert(key.clone(), index);
        self.keys.push(key.clone());
        proof {
            lemma_occurrences_bound(before.raw, raw_key@);
            assert(views(self.keys@) =~= before.keys.push(key@));
            assert(views(self.keys@).drop_last() =~= before.keys);
        }
        let groups = self.keys.len();
        assert(count < groups);
        let ghost counted = self.counts@;
        self.counts.insert(String::from_str(raw_key), count + 1);
        self.raw = Ghost(before.raw.push(raw_key@));
        self.aliased = Ghost(before.aliased.push(alias@.len() > 0));
        self.places = Ghost(before.places.push(before.regex.len() as int));
        proof {
            assert(self.raw@.drop_last() =~= before.raw);
            assert forall|k: Seq<char>| #[trigger]
                occurrences(self.raw@, k) == if self.counts@.contains_key(k) {
                    self.counts@[k] as nat
                } else {
                    0
                } by {
                assert(occurrences(before.raw, k) == if counted.contains_key(k) {
                    counted[k] as nat
                } else {
                    0
                });
            }
        }
        if !extract.is_empty() {
            let tag = String::from_str(extract);
            proof {
                lemma_texts_insert(self.extracts@, key@, tag);
            }
            self.extracts.insert(key.clone(), tag);
        }
        proof {
            lemma_texts_insert(self.aliases@, match_name@, key);
        }
        self.regex.append("(?<");
        self.regex.append(match_name.as_str());
        self.regex.append(">");
        self.aliases.insert(match_name, key);
        proof {
            assert(views(self.keys@).last() == key@);
            assert(self.aliases.texts() == alias_map(views(self.keys@)));
            assert forall|k: Seq<char>| #[trigger]
                self.taken@.contains_key(k) <==> views(self.keys@).contains(k) by {
                assert(held.contains_key(k) <==> before.keys.contains(k));
                if before.keys.contains(k) {
                    let i = before.keys.index_of(k);
                    assert(views(self.keys@)[i] == k);
                }
                if views(self.keys@).contains(k) && k != key@ {
                    let i = views(self.keys@).index_of(k);
                    assert(before.keys[i] == k);
                }
            }
        }
        Ok(())
    }

    /// The regular expression, the table of names and the extracts.
    pub(crate) fn finish(self) -> (r: (String, StrMap<String>, StrMap<String>))
        requires
            self.wf(),
        ensures
            r.0@ == self.gathered().regex,
            r.1.texts() == alias_map(self.gathered().keys),
            r.2.texts() == self.gathered().extracts,
    {
        (self.regex, self.aliases, self.extracts)
    }
}

/// One body under expansion: its scanner, and the definitions that its
/// placeholders have brought.
pub(crate) struct Frame<'a> {
    pub(crate) split: GrokSplit<'a>,
    pub(crate) overrides: StrMap<&'a str>,
}

/// The level that a frame stands for.
pub(crate) open spec fn level_of(frame: Frame) -> Level {
    Level {
        body: frame.split.bytes(),
        pos: frame.split.position(),
        scope: frame.overrides.texts(),
    }
}

/// The levels that some frames stand for.
pub(crate) open spec fn levels_of(frames: Seq<Frame>) -> Seq<Level> {
    frames.map_values(|f: Frame| level_of(f))
}

/// A frame that starts on a body.
pub(crate) fn enter<'a>(body: &'a str) -> (r: Frame<'a>)
    ensures
        level_of(r) == fresh(body@),
{
    proof {
        lemma_texts_empty::<&str>();
    }
    Frame { split: grok_split(body), overrides: StrMap::new() }
}

/// The definition that a name has in the innermost frame that defines it.
pub(crate) fn scoped<'a>(frames: &Vec<Frame<'a>>, name: &str) -> (r: Option<&'a str>)
    ensures
        match r {
            Some(body) => innermost(levels_of(frames@), name@) == Some(body@),
            None => innermost(levels_of(frames@), name@) is None,
        },
{
    let ghost levels = levels_of(frames@);
    let mut i = frames.len();
    proof {
        assert(levels.take(i as int) =~= levels);
    }
    while i > 0
        invariant
            i <= frames@.len(),
            levels == levels_of(frames@),
            innermost(levels, name@) == innermost(levels.take(i as int), name@),
        decreases i,
    {
        i -= 1;
        proof {
            assert(levels.take(i + 1).drop_last() =~= levels.take(i as int));
        }
        match frames[i].overrides.get(name) {
            Some(body) => {
                return Some(*body);
            },
            None => {},
        }
    }
    None
}

} // verus!
