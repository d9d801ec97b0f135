//! What holds of every compilation and of every match.

use crate::error::Failure;
use crate::expand::{
    advanced, alias_map, expand, expand_top, expand_within, fresh, group_key, key_taken, lookup,
    occurrences, open_group, opener, resolved, synthetic, taken_text, Gathered, Level, Rules,
    Scope,
};
use crate::names::{captured, present};
use crate::parser::{token_at, Token};
use crate::strmap::{lemma_map_of_at, map_of};
use crate::text::{ascending, decimal, lemma_decimal_injective, lemma_key_order};
use crate::MAX_RECURSION;
use vstd::prelude::*;

verus! {

/// Different groups have different names in the flat regular expression.
pub proof fn lemma_synthetic_injective(a: nat, b: nat)
    requires
        synthetic(a) == synthetic(b),
    ensures
        a == b,
{
    let head = "_n_"@;
    assert((head + decimal(a)).skip(head.len() as int) =~= decimal(a));
    assert((head + decimal(b)).skip(head.len() as int) =~= decimal(b));
    lemma_decimal_injective(a, b);
}

/// Two-level naming: the table of names holds the name of each group once,
/// and no other name, and under the name of the `k`-th group the key of that
/// group.
pub proof fn lemma_alias_map(keys: Seq<Seq<char>>, name: Seq<char>)
    ensures
        alias_map(keys).contains_key(name) <==> exists|k: int|
            0 <= k < keys.len() && name == #[trigger] synthetic(k as nat),
        forall|k: int|
            0 <= k < keys.len() && name == #[trigger] synthetic(k as nat) ==> alias_map(keys)[name]
                == keys[k],
    decreases keys.len(),
{
    if keys.len() > 0 {
        let before = keys.drop_last();
        let last = keys.len() - 1;
        lemma_alias_map(before, name);
        if name == synthetic(last as nat) {
            assert forall|k: int|
                0 <= k < keys.len() && name == #[trigger] synthetic(k as nat) implies k
                == last by {
                lemma_synthetic_injective(k as nat, last as nat);
            }
        } else {
            if alias_map(keys).contains_key(name) {
                let k = choose|k: int| 0 <= k < before.len() && name == #[trigger] synthetic(k as nat);
                assert(0 <= k < keys.len() && name == synthetic(k as nat));
            }
        }
    }
}

/// Each group has the key that its placeholder gave, with the number of the
/// earlier groups that were given the same key, if there are any: of `k`
/// groups with the key `raw`, the first shows under `raw`, the next under
/// `raw[1]`, and so on up to `raw[k-1]`.
pub open spec fn numbered(g: Gathered) -> bool {
    &&& g.raw.len() == g.keys.len()
    &&& g.aliased.len() == g.keys.len()
    &&& forall|i: int|
        0 <= i < g.keys.len() ==> #[trigger] g.keys[i] == resolved(
            g.raw[i],
            occurrences(g.raw.take(i), g.raw[i]),
        )
}

/// A group that opens keeps the groups numbered.
pub proof fn lemma_open_numbered(
    g: Gathered,
    alias_only: bool,
    name: Seq<char>,
    alias: Seq<char>,
    extract: Seq<char>,
)
    requires
        numbered(g),
    ensures
        numbered(open_group(g, alias_only, name, alias, extract)),
{
    let after = open_group(g, alias_only, name, alias, extract);
    if !(alias_only && alias.len() == 0) {
        assert forall|i: int| 0 <= i < after.keys.len() implies #[trigger] after.keys[i]
            == resolved(after.raw[i], occurrences(after.raw.take(i), after.raw[i])) by {
            if i < g.keys.len() {
                assert(after.raw.take(i) =~= g.raw.take(i));
                assert(g.keys[i] == after.keys[i]);
            } else {
                assert(after.raw.take(i) =~= g.raw);
            }
        }
    }
}

/// What some levels yield is numbered, if what was gathered before is.
pub proof fn lemma_expand_numbered(rules: Rules, levels: Seq<Level>, g: Gathered)
    requires
        levels.len() > 0,
        numbered(g),
    ensures
        expand_top(rules, levels, g) matches Ok(r) ==> numbered(r),
    decreases rules.limit - levels.len(), levels.last().body.len() - levels.last().pos,
{
    reveal(expand_top);
    let top = levels.last();
    if 0 <= top.pos < top.body.len() {
        match token_at(top.body, top.pos) {
            Token::Error(e) => {},
            Token::Literal { end, text, .. } => {
                if top.pos < end <= top.body.len() {
                    lemma_expand_numbered(rules, advanced(levels, end, top.scope), g.append(text));
                }
            },
            Token::Placeholder { end, name, alias, extract, definition, .. } => {
                let scope = if definition.len() > 0 {
                    top.scope.insert(name, definition)
                } else {
                    top.scope
                };
                let parent = advanced(levels, end, scope);
                match lookup(rules.dict, parent, name) {
                    None => {},
                    Some(body) => {
                        if !key_taken(g, rules.alias_only, name, alias) && levels.len()
                            < rules.limit && top.pos < end <= top.body.len() {
                            let inside = parent.push(fresh(body));
                            let opened = open_group(g, rules.alias_only, name, alias, extract);
                            lemma_open_numbered(g, rules.alias_only, name, alias, extract);
                            lemma_expand_numbered(rules, inside, opened);
                            match expand_top(rules, inside, opened) {
                                Err(e) => {},
                                Ok(inner) => {
                                    lemma_expand_numbered(rules, parent, inner.append(")"@));
                                },
                            }
                        }
                    },
                }
            },
        }
    }
}

/// Duplicate resolution: in every compilation that succeeds, of the groups
/// whose placeholders give one key the first shows under that key, and the
/// `n`-th after it under the key with `[n]` behind it.
pub proof fn lemma_duplicate_resolution(dict: Scope, source: Seq<char>, alias_only: bool)
    ensures
        expand(dict, source, alias_only) matches Ok(g) ==> numbered(g),
{
    lemma_expand_numbered(
        Rules { dict, alias_only, limit: MAX_RECURSION as nat },
        seq![fresh(source)],
        Gathered::empty(),
    );
}

/// What some levels yield has no key twice, if what was gathered before has
/// none twice.
pub proof fn lemma_expand_distinct(rules: Rules, levels: Seq<Level>, g: Gathered)
    requires
        levels.len() > 0,
        g.keys.no_duplicates(),
    ensures
        expand_top(rules, levels, g) matches Ok(r) ==> r.keys.no_duplicates(),
    decreases rules.limit - levels.len(), levels.last().body.len() - levels.last().pos,
{
    reveal(expand_top);
    let top = levels.last();
    if 0 <= top.pos < top.body.len() {
        match token_at(top.body, top.pos) {
            Token::Error(e) => {},
            Token::Literal { end, text, .. } => {
                if top.pos < end <= top.body.len() {
                    lemma_expand_distinct(rules, advanced(levels, end, top.scope), g.append(text));
                }
            },
            Token::Placeholder { end, name, alias, extract, definition, .. } => {
                let scope = if definition.len() > 0 {
                    top.scope.insert(name, definition)
                } else {
                    top.scope
                };
                let parent = advanced(levels, end, scope);
                match lookup(rules.dict, parent, name) {
                    None => {},
                    Some(body) => {
                        if !key_taken(g, rules.alias_only, name, alias) && levels.len()
                            < rules.limit && top.pos < end <= top.body.len() {
                            let inside = parent.push(fresh(body));
                            let opened = open_group(g, rules.alias_only, name, alias, extract);
                            lemma_open_distinct(g, rules.alias_only, name, alias, extract);
                            lemma_expand_distinct(rules, inside, opened);
                            match expand_top(rules, inside, opened) {
                                Err(e) => {},
                                Ok(inner) => {
                                    lemma_expand_distinct(rules, parent, inner.append(")"@));
                                },
                            }
                        }
                    },
                }
            },
        }
    }
}

/// Unique keys: in every compilation that succeeds no two groups show under
/// one key, so the table of names holds as many keys as there are groups
/// with a name of the compiler's making.
pub proof fn lemma_keys_distinct(dict: Scope, source: Seq<char>, alias_only: bool)
    ensures
        expand(dict, source, alias_only) matches Ok(g) ==> g.keys.no_duplicates(),
{
    lemma_expand_distinct(
        Rules { dict, alias_only, limit: MAX_RECURSION as nat },
        seq![fresh(source)],
        Gathered::empty(),
    );
}

/// Whether the opening of each named group stands in the regular expression
/// at the place of the group, the places in the order of the groups and no
/// opening reaching into the next.
pub open spec fn placed(g: Gathered) -> bool {
    &&& g.places.len() == g.keys.len()
    &&& forall|k: int|
        0 <= k < g.places.len() ==> 0 <= #[trigger] g.places[k] && g.places[k] + opener(
            k as nat,
        ).len() <= g.regex.len() && g.regex.subrange(
            g.places[k],
            g.places[k] + opener(k as nat).len(),
        ) == opener(k as nat)
    &&& forall|j: int, k: int|
        0 <= j < k < g.places.len() ==> #[trigger] g.places[j] + opener(j as nat).len()
            <= #[trigger] g.places[k]
}

/// A text added behind leaves the groups at their places.
pub proof fn lemma_append_placed(g: Gathered, text: Seq<char>)
    requires
        placed(g),
    ensures
        placed(g.append(text)),
{
    let after = g.append(text);
    assert forall|k: int| 0 <= k < after.places.len() implies 0 <= #[trigger] after.places[k]
        && after.places[k] + opener(k as nat).len() <= after.regex.len() && after.regex.subrange(
        after.places[k],
        after.places[k] + opener(k as nat).len(),
    ) == opener(k as nat) by {
        assert(after.regex.subrange(g.places[k], g.places[k] + opener(k as nat).len())
            =~= g.regex.subrange(g.places[k], g.places[k] + opener(k as nat).len()));
    }
}

/// A group that opens stands at its place, behind the groups before it.
pub proof fn lemma_open_placed(
    g: Gathered,
    alias_only: bool,
    name: Seq<char>,
    alias: Seq<char>,
    extract: Seq<char>,
)
    requires
        placed(g),
    ensures
        placed(open_group(g, alias_only, name, alias, extract)),
{
    let after = open_group(g, alias_only, name, alias, extract);
    if alias_only && alias.len() == 0 {
        lemma_append_placed(g, "(?:"@);
    } else {
        let last = g.keys.len() as int;
        assert(after.regex =~= g.regex + opener(last as nat));
        assert forall|k: int| 0 <= k < after.places.len() implies 0 <= #[trigger] after.places[k]
            && after.places[k] + opener(k as nat).len() <= after.regex.len()
            && after.regex.subrange(after.places[k], after.places[k] + opener(k as nat).len())
            == opener(k as nat) by {
            if k < last {
                assert(after.places[k] == g.places[k]);
                assert(after.regex.subrange(g.places[k], g.places[k] + opener(k as nat).len())
                    =~= g.regex.subrange(g.places[k], g.places[k] + opener(k as nat).len()));
            } else {
                assert(after.regex.subrange(
                    g.regex.len() as int,
                    g.regex.len() as int + opener(k as nat).len() as int,
                ) =~= opener(k as nat));
            }
        }
        assert forall|j: int, k: int| 0 <= j < k < after.places.len() implies #[trigger] after.places[j]
            + opener(j as nat).len() <= #[trigger] after.places[k] by {
            if k < last {
                assert(g.places[j] + opener(j as nat).len() <= g.places[k]);
            } else {
                assert(after.places[j] == g.places[j]);
            }
        }
    }
}

/// What some levels yield holds each group at its place, if what was
/// gathered before does.
pub proof fn lemma_expand_placed(rules: Rules, levels: Seq<Level>, g: Gathered)
    requires
        levels.len() > 0,
        placed(g),
    ensures
        expand_top(rules, levels, g) matches Ok(r) ==> placed(r),
    decreases rules.limit - levels.len(), levels.last().body.len() - levels.last().pos,
{
    reveal(expand_top);
    let top = levels.last();
    if 0 <= top.pos < top.body.len() {
        match token_at(top.body, top.pos) {
            Token::Error(e) => {},
            Token::Literal { end, text, .. } => {
                if top.pos < end <= top.body.len() {
                    lemma_append_placed(g, text);
                    lemma_expand_placed(rules, advanced(levels, end, top.scope), g.append(text));
                }
            },
            Token::Placeholder { end, name, alias, extract, definition, .. } => {
                let scope = if definition.len() > 0 {
                    top.scope.insert(name, definition)
                } else {
                    top.scope
                };
                let parent = advanced(levels, end, scope);
                match lookup(rules.dict, parent, name) {
                    None => {},
                    Some(body) => {
                        if !key_taken(g, rules.alias_only, name, alias) && levels.len()
                            < rules.limit && top.pos < end <= top.body.len() {
                            let inside = parent.push(fresh(body));
                            let opened = open_group(g, rules.alias_only, name, alias, extract);
                            lemma_open_placed(g, rules.alias_only, name, alias, extract);
                            lemma_expand_placed(rules, inside, opened);
                            match expand_top(rules, inside, opened) {
                                Err(e) => {},
                                Ok(inner) => {
                                    lemma_append_placed(inner, ")"@);
                                    lemma_expand_placed(rules, parent, inner.append(")"@));
                                },
                            }
                        }
                    },
                }
            },
        }
    }
}

/// Each group opens once: in every compilation that succeeds the flat
/// regular expression holds the opening `(?<_n_k>` of every named group at a
/// place of its own, the places in the order of the groups, and the table of
/// names holds its name once. The compiler writes no other opening; a
/// literal of the source that spells one is kept as it stands.
pub proof fn lemma_groups_open_once(dict: Scope, source: Seq<char>, alias_only: bool)
    ensures
        expand(dict, source, alias_only) matches Ok(g) ==> placed(g),
{
    lemma_expand_placed(
        Rules { dict, alias_only, limit: MAX_RECURSION as nat },
        seq![fresh(source)],
        Gathered::empty(),
    );
}

/// Two sets of rules that differ at most in the limit of levels.
pub open spec fn same_but_limit(a: Rules, b: Rules) -> bool {
    a.dict == b.dict && a.alias_only == b.alias_only
}

/// What fits under a limit of levels is the same under every larger limit.
pub proof fn lemma_deeper_limit(a: Rules, b: Rules, levels: Seq<Level>, g: Gathered)
    requires
        levels.len() > 0,
        same_but_limit(a, b),
        a.limit <= b.limit,
        expand_top(a, levels, g) != Err::<Gathered, Failure>(Failure::RecursionTooDeep),
    ensures
        expand_top(b, levels, g) == expand_top(a, levels, g),
    decreases a.limit - levels.len(), levels.last().body.len() - levels.last().pos,
{
    reveal(expand_top);
    let top = levels.last();
    if 0 <= top.pos < top.body.len() {
        match token_at(top.body, top.pos) {
            Token::Error(e) => {},
            Token::Literal { end, text, .. } => {
                if top.pos < end <= top.body.len() {
                    lemma_deeper_limit(a, b, advanced(levels, end, top.scope), g.append(text));
                }
            },
            Token::Placeholder { end, name, alias, extract, definition, .. } => {
                let scope = if definition.len() > 0 {
                    top.scope.insert(name, definition)
                } else {
                    top.scope
                };
                let parent = advanced(levels, end, scope);
                match lookup(a.dict, parent, name) {
                    None => {},
                    Some(body) => {
                        if !key_taken(g, a.alias_only, name, alias) && levels.len() < a.limit
                            && top.pos < end <= top.body.len() {
                            let inside = parent.push(fresh(body));
                            let opened = open_group(g, a.alias_only, name, alias, extract);
                            lemma_deeper_limit(a, b, inside, opened);
                            match expand_top(a, inside, opened) {
                                Err(e) => {},
                                Ok(inner) => {
                                    lemma_deeper_limit(a, b, parent, inner.append(")"@));
                                },
                            }
                        }
                    },
                }
            },
        }
    }
}

/// An expansion ends well, or on a malformed placeholder, on a name without
/// a body, on a key that is taken, or on too many levels: on nothing else.
pub proof fn lemma_failures(rules: Rules, levels: Seq<Level>, g: Gathered)
    requires
        levels.len() > 0,
    ensures
        expand_top(rules, levels, g) matches Err(e) ==> e is RecursionTooDeep
            || e is DefinitionNotFound || e is GenericCompilationFailure,
    decreases rules.limit - levels.len(), levels.last().body.len() - levels.last().pos,
{
    reveal(expand_top);
    let top = levels.last();
    if 0 <= top.pos < top.body.len() {
        match token_at(top.body, top.pos) {
            Token::Error(e) => {},
            Token::Literal { end, text, .. } => {
                if top.pos < end <= top.body.len() {
                    lemma_failures(rules, advanced(levels, end, top.scope), g.append(text));
                }
            },
            Token::Placeholder { end, name, alias, extract, definition, .. } => {
                let scope = if definition.len() > 0 {
                    top.scope.insert(name, definition)
                } else {
                    top.scope
                };
                let parent = advanced(levels, end, scope);
                match lookup(rules.dict, parent, name) {
                    None => {},
                    Some(body) => {
                        if !key_taken(g, rules.alias_only, name, alias) && levels.len()
                            < rules.limit && top.pos < end <= top.body.len() {
                            let inside = parent.push(fresh(body));
                            let opened = open_group(g, rules.alias_only, name, alias, extract);
                            lemma_failures(rules, inside, opened);
                            match expand_top(rules, inside, opened) {
                                Err(e) => {},
                                Ok(inner) => {
                                    lemma_failures(rules, parent, inner.append(")"@));
                                },
                            }
                        }
                    },
                }
            },
        }
    }
}

/// Recursion bound: a source whose bodies stand at most `limit` levels deep,
/// for a `limit` of at most `MAX_RECURSION`, compiles as it would under that
/// limit: it does not fail for its depth. A source that needs more than
/// `MAX_RECURSION` levels fails with `RecursionTooDeep`, and no failure is of
/// another kind than that, a name without a body, and what is wrong with a
/// placeholder: that it is malformed, or that its key is taken.
pub proof fn lemma_recursion_bound(dict: Scope, source: Seq<char>, alias_only: bool, limit: nat)
    ensures
        limit <= MAX_RECURSION && expand_within(Rules { dict, alias_only, limit }, source)
            != Err::<Gathered, Failure>(Failure::RecursionTooDeep) ==> expand(
            dict,
            source,
            alias_only,
        ) == expand_within(Rules { dict, alias_only, limit }, source),
        limit >= MAX_RECURSION && expand_within(Rules { dict, alias_only, limit }, source)
            == Err::<Gathered, Failure>(Failure::RecursionTooDeep) ==> expand(
            dict,
            source,
            alias_only,
        ) == Err::<Gathered, Failure>(Failure::RecursionTooDeep),
        expand(dict, source, alias_only) matches Err(e) ==> e is RecursionTooDeep
            || e is DefinitionNotFound || e is GenericCompilationFailure,
{
    let under = Rules { dict, alias_only, limit };
    let full = Rules { dict, alias_only, limit: MAX_RECURSION as nat };
    let levels = seq![fresh(source)];
    if limit <= MAX_RECURSION && expand_top(under, levels, Gathered::empty()) != Err::<
        Gathered,
        Failure,
    >(Failure::RecursionTooDeep) {
        lemma_deeper_limit(under, full, levels, Gathered::empty());
    }
    if limit >= MAX_RECURSION && expand_top(full, levels, Gathered::empty()) != Err::<
        Gathered,
        Failure,
    >(Failure::RecursionTooDeep) {
        lemma_deeper_limit(full, under, levels, Gathered::empty());
    }
    lemma_failures(full, levels, Gathered::empty());
}

/// The keys of the groups whose placeholders have an ALIAS, in their order.
pub open spec fn aliased_part(raw: Seq<Seq<char>>, aliased: Seq<bool>) -> Seq<Seq<char>>
    decreases raw.len(),
{
    if raw.len() == 0 || aliased.len() != raw.len() {
        Seq::empty()
    } else {
        let before = aliased_part(raw.drop_last(), aliased.drop_last());
        if aliased.last() {
            before.push(raw.last())
        } else {
            before
        }
    }
}

/// What is gathered where only aliases count is what is gathered otherwise,
/// without the groups of the placeholders that have no ALIAS.
pub open spec fn drops_unaliased(all: Gathered, only: Gathered) -> bool {
    &&& all.raw.len() == all.aliased.len()
    &&& only.raw.len() == only.aliased.len()
    &&& only.raw == aliased_part(all.raw, all.aliased)
    &&& forall|i: int| 0 <= i < only.aliased.len() ==> #[trigger] only.aliased[i]
}

/// Two sets of rules that differ in whether only aliases count.
pub open spec fn same_but_alias_only(all: Rules, only: Rules) -> bool {
    all.dict == only.dict && all.limit == only.limit && !all.alias_only && only.alias_only
}

/// Whether an expansion ended on a key that a group before has.
pub open spec fn ends_on_taken_key(r: Result<Gathered, Failure>) -> bool {
    match r {
        Err(Failure::GenericCompilationFailure(detail)) => exists|key: Seq<char>|
            detail == #[trigger] taken_text(key),
        _ => false,
    }
}

/// Whether two expansions of one source, the second where only aliases
/// count, end alike: with the same error, or with the same groups but for
/// those of placeholders without an ALIAS. The keys of the groups differ
/// between the two, so one of them may end on a key that is taken where the
/// other does not.
pub open spec fn ends_alike(all: Result<Gathered, Failure>, only: Result<Gathered, Failure>) -> bool {
    ||| ends_on_taken_key(all)
    ||| ends_on_taken_key(only)
    ||| match (all, only) {
        (Ok(a), Ok(b)) => drops_unaliased(a, b),
        (Err(a), Err(b)) => a == b,
        _ => false,
    }
}

/// Where only aliases count, an expansion ends as it does otherwise, unless
/// one of the two ends on a key that is taken.
pub proof fn lemma_expand_alias_only(
    all: Rules,
    only: Rules,
    levels: Seq<Level>,
    g: Gathered,
    h: Gathered,
)
    requires
        levels.len() > 0,
        same_but_alias_only(all, only),
        drops_unaliased(g, h),
    ensures
        ends_alike(expand_top(all, levels, g), expand_top(only, levels, h)),
    decreases all.limit - levels.len(), levels.last().body.len() - levels.last().pos,
{
    reveal(expand_top);
    let top = levels.last();
    if 0 <= top.pos < top.body.len() {
        match token_at(top.body, top.pos) {
            Token::Error(e) => {},
            Token::Literal { end, text, .. } => {
                if top.pos < end <= top.body.len() {
                    lemma_expand_alias_only(
                        all,
                        only,
                        advanced(levels, end, top.scope),
                        g.append(text),
                        h.append(text),
                    );
                }
            },
            Token::Placeholder { end, name, alias, extract, definition, .. } => {
                let scope = if definition.len() > 0 {
                    top.scope.insert(name, definition)
                } else {
                    top.scope
                };
                let parent = advanced(levels, end, scope);
                match lookup(all.dict, parent, name) {
                    None => {},
                    Some(body) => {
                        if key_taken(g, false, name, alias) {
                            assert(ends_on_taken_key(expand_top(all, levels, g))) by {
                                let key = group_key(g, name, alias);
                                assert(taken_text(key) == taken_text(key));
                            }
                        } else if key_taken(h, true, name, alias) {
                            assert(ends_on_taken_key(expand_top(only, levels, h))) by {
                                let key = group_key(h, name, alias);
                                assert(taken_text(key) == taken_text(key));
                            }
                        } else if levels.len() < all.limit && top.pos < end <= top.body.len() {
                            let inside = parent.push(fresh(body));
                            let opened = open_group(g, false, name, alias, extract);
                            let fewer = open_group(h, true, name, alias, extract);
                            assert(opened.raw.drop_last() =~= g.raw);
                            assert(opened.aliased.drop_last() =~= g.aliased);
                            assert(drops_unaliased(opened, fewer));
                            lemma_expand_alias_only(all, only, inside, opened, fewer);
                            match (
                                expand_top(all, inside, opened),
                                expand_top(only, inside, fewer),
                            ) {
                                (Ok(a), Ok(b)) => {
                                    lemma_expand_alias_only(
                                        all,
                                        only,
                                        parent,
                                        a.append(")"@),
                                        b.append(")"@),
                                    );
                                },
                                _ => {},
                            }
                        }
                    },
                }
            },
        }
    }
}

/// Among some keys a key stands once more for each place up to which one
/// counts.
pub proof fn lemma_occurrences_grow(raw: Seq<Seq<char>>, key: Seq<char>, a: int, b: int)
    requires
        0 <= a <= b <= raw.len(),
    ensures
        occurrences(raw.take(a), key) <= occurrences(raw.take(b), key),
        a < b && raw[a] == key ==> occurrences(raw.take(a), key) < occurrences(raw.take(b), key),
    decreases b - a,
{
    if a < b {
        assert(raw.take(b).drop_last() =~= raw.take(b - 1));
        lemma_occurrences_grow(raw, key, a, b - 1);
        if a == b - 1 {
            assert(raw.take(b).last() == raw[a]);
        }
    }
}

/// Where a key stands more than `n` times among some keys, one of its
/// places has `n` of them before it.
pub proof fn lemma_nth_occurrence(raw: Seq<Seq<char>>, key: Seq<char>, n: nat) -> (p: int)
    requires
        n < occurrences(raw, key),
    ensures
        0 <= p < raw.len(),
        raw[p] == key,
        occurrences(raw.take(p), key) == n,
    decreases raw.len(),
{
    let last = raw.len() - 1;
    if raw[last] == key && occurrences(raw.drop_last(), key) == n {
        assert(raw.take(last) =~= raw.drop_last());
        last
    } else {
        let p = lemma_nth_occurrence(raw.drop_last(), key, n);
        assert(raw.drop_last().take(p) =~= raw.take(p));
        p
    }
}

/// A key stands among the keys of the placeholders with an ALIAS at most as
/// often as among all.
pub proof fn lemma_aliased_part_fewer(raw: Seq<Seq<char>>, aliased: Seq<bool>, key: Seq<char>)
    requires
        raw.len() == aliased.len(),
    ensures
        occurrences(aliased_part(raw, aliased), key) <= occurrences(raw, key),
    decreases raw.len(),
{
    if raw.len() > 0 {
        lemma_aliased_part_fewer(raw.drop_last(), aliased.drop_last(), key);
        let before = aliased_part(raw.drop_last(), aliased.drop_last());
        if aliased.last() {
            assert(before.push(raw.last()).drop_last() =~= before);
        }
    }
}

/// One key with two different numbers behind it makes two different keys.
pub proof fn lemma_resolved_injective(raw: Seq<char>, n: nat, m: nat)
    requires
        resolved(raw, n) == resolved(raw, m),
    ensures
        n == m,
{
    reveal_strlit("[");
    reveal_strlit("]");
    if n == 0 || m == 0 {
        assert(resolved(raw, n).len() == resolved(raw, m).len());
    } else {
        let a = raw + "["@ + decimal(n) + "]"@;
        let b = raw + "["@ + decimal(m) + "]"@;
        assert(a.drop_last().skip(raw.len() as int + 1) =~= decimal(n));
        assert(b.drop_last().skip(raw.len() as int + 1) =~= decimal(m));
        lemma_decimal_injective(n, m);
    }
}

/// What two expansions of one source have gathered, the second where only
/// aliases count: the same groups but for those of placeholders without an
/// ALIAS, each numbered, and no key twice in the first.
pub open spec fn drops_numbered(all: Gathered, only: Gathered) -> bool {
    drops_unaliased(all, only) && numbered(all) && numbered(only) && all.keys.no_duplicates()
}

/// A key that is free where every placeholder gets a group is free where
/// only aliases count.
pub proof fn lemma_free_key(g: Gathered, h: Gathered, name: Seq<char>, alias: Seq<char>)
    requires
        drops_numbered(g, h),
        !key_taken(g, false, name, alias),
    ensures
        !key_taken(h, true, name, alias),
{
    if alias.len() > 0 && h.keys.contains(group_key(h, name, alias)) {
        let raw = alias;
        let key = group_key(h, name, alias);
        let mine = occurrences(h.raw, raw);
        let theirs = occurrences(g.raw, raw);
        lemma_aliased_part_fewer(g.raw, g.aliased, raw);
        // The group of `h` that has the key, and the key that its placeholder gave.
        let j = h.keys.index_of(key);
        let other = h.raw[j];
        let number = occurrences(h.raw.take(j), other);
        assert(h.keys[j] == resolved(other, number));
        lemma_occurrences_grow(h.raw, other, j, h.raw.len() as int);
        assert(h.raw.take(h.raw.len() as int) =~= h.raw);
        if other == raw {
            lemma_resolved_injective(raw, number, mine);
        } else {
            // The same group stands in `g` under the same key.
            lemma_aliased_part_fewer(g.raw, g.aliased, other);
            let q = lemma_nth_occurrence(g.raw, other, number);
            assert(g.keys[q] == resolved(other, number));
            if mine == theirs {
                assert(g.keys.contains(group_key(g, name, alias)));
            } else {
                let p = lemma_nth_occurrence(g.raw, raw, mine);
                assert(g.keys[p] == resolved(raw, mine));
                assert(p != q);
            }
        }
    }
}

/// A group that opens under a free key leaves no key twice.
pub proof fn lemma_open_distinct(
    g: Gathered,
    alias_only: bool,
    name: Seq<char>,
    alias: Seq<char>,
    extract: Seq<char>,
)
    requires
        g.keys.no_duplicates(),
        !key_taken(g, alias_only, name, alias),
    ensures
        open_group(g, alias_only, name, alias, extract).keys.no_duplicates(),
{
    let opened = open_group(g, alias_only, name, alias, extract);
    if !(alias_only && alias.len() == 0) {
        let key = group_key(g, name, alias);
        assert(opened.keys == g.keys.push(key));
        assert forall|i: int, j: int|
            0 <= i < opened.keys.len() && 0 <= j < opened.keys.len() && i != j implies opened.keys[i]
            != opened.keys[j] by {
            if i < g.keys.len() && j < g.keys.len() {
                assert(g.keys[i] != g.keys[j]);
            } else if i < g.keys.len() {
                assert(g.keys[i] == opened.keys[i]);
            } else {
                assert(g.keys[j] == opened.keys[j]);
            }
        }
    }
}

/// What compiles where every placeholder gets a group compiles where only
/// aliases count, with the same groups but for those of placeholders without
/// an ALIAS.
pub proof fn lemma_expand_only_aliases(
    all: Rules,
    only: Rules,
    levels: Seq<Level>,
    g: Gathered,
    h: Gathered,
)
    requires
        levels.len() > 0,
        same_but_alias_only(all, only),
        drops_numbered(g, h),
    ensures
        expand_top(all, levels, g) matches Ok(a) ==> (expand_top(only, levels, h) matches Ok(b)
            && drops_numbered(a, b)),
    decreases all.limit - levels.len(), levels.last().body.len() - levels.last().pos,
{
    reveal(expand_top);
    let top = levels.last();
    if 0 <= top.pos < top.body.len() {
        match token_at(top.body, top.pos) {
            Token::Error(e) => {},
            Token::Literal { end, text, .. } => {
                if top.pos < end <= top.body.len() {
                    lemma_expand_only_aliases(
                        all,
                        only,
                        advanced(levels, end, top.scope),
                        g.append(text),
                        h.append(text),
                    );
                }
            },
            Token::Placeholder { end, name, alias, extract, definition, .. } => {
                let scope = if definition.len() > 0 {
                    top.scope.insert(name, definition)
                } else {
                    top.scope
                };
                let parent = advanced(levels, end, scope);
                match lookup(all.dict, parent, name) {
                    None => {},
                    Some(body) => {
                        if !key_taken(g, false, name, alias) {
                            lemma_free_key(g, h, name, alias);
                        }
                        if !key_taken(g, false, name, alias) && levels.len() < all.limit && top.pos
                            < end <= top.body.len() {
                            let inside = parent.push(fresh(body));
                            let opened = open_group(g, false, name, alias, extract);
                            let fewer = open_group(h, true, name, alias, extract);
                            assert(opened.raw.drop_last() =~= g.raw);
                            assert(opened.aliased.drop_last() =~= g.aliased);
                            assert(drops_unaliased(opened, fewer));
                            lemma_open_numbered(g, false, name, alias, extract);
                            lemma_open_numbered(h, true, name, alias, extract);
                            lemma_open_distinct(g, false, name, alias, extract);
                            lemma_expand_only_aliases(all, only, inside, opened, fewer);
                            match (
                                expand_top(all, inside, opened),
                                expand_top(only, inside, fewer),
                            ) {
                                (Ok(a), Ok(b)) => {
                                    lemma_expand_only_aliases(
                                        all,
                                        only,
                                        parent,
                                        a.append(")"@),
                                        b.append(")"@),
                                    );
                                },
                                _ => {},
                            }
                        }
                    },
                }
            },
        }
    }
}

/// Alias-only mode: a source that compiles where every placeholder gets a
/// group compiles where only aliases count. The groups that get a name are
/// then those of the placeholders with an ALIAS, each with the key that its
/// placeholder gave, in the same order, and no others. Where a compilation
/// fails, the other fails with the same error, unless one of the two ends on
/// a key that is taken: the keys are numbered over the groups of each, so
/// they differ between the two.
pub proof fn lemma_alias_only(dict: Scope, source: Seq<char>)
    ensures
        ends_alike(expand(dict, source, false), expand(dict, source, true)),
        expand(dict, source, false) matches Ok(all) ==> (expand(dict, source, true) matches Ok(
            only,
        ) && drops_unaliased(all, only)),
{
    lemma_expand_only_aliases(
        Rules { dict, alias_only: false, limit: MAX_RECURSION as nat },
        Rules { dict, alias_only: true, limit: MAX_RECURSION as nat },
        seq![fresh(source)],
        Gathered::empty(),
        Gathered::empty(),
    );
    lemma_expand_alias_only(
        Rules { dict, alias_only: false, limit: MAX_RECURSION as nat },
        Rules { dict, alias_only: true, limit: MAX_RECURSION as nat },
        seq![fresh(source)],
        Gathered::empty(),
        Gathered::empty(),
    );
}

/// From place `from` of the table on, the pairs of a match are the keys with
/// what is captured under them.
pub proof fn lemma_present(
    keys: Seq<Seq<char>>,
    indices: Seq<usize>,
    values: Seq<Option<Seq<char>>>,
    from: int,
    key: Seq<char>,
    text: Seq<char>,
)
    requires
        ascending(keys),
        keys.len() == indices.len(),
        0 <= from <= keys.len(),
    ensures
        present(keys, indices, values, from).contains((key, text)) <==> (exists|i: int|
            from <= i < keys.len() && #[trigger] keys[i] == key) && captured(
            map_of(keys, indices),
            values,
            key,
        ) == Some(text),
    decreases keys.len() - from,
{
    let table = map_of(keys, indices);
    if from < keys.len() {
        lemma_present(keys, indices, values, from + 1, key, text);
        lemma_map_of_at(keys, indices, from);
        let rest = present(keys, indices, values, from + 1);
        let here = present(keys, indices, values, from);
        if indices[from] < values.len() && values[indices[from] as int] is Some {
            let first = (keys[from], values[indices[from] as int].unwrap());
            assert(here == seq![first] + rest);
            if here.contains((key, text)) {
                let j = choose|j: int| 0 <= j < here.len() && here[j] == (key, text);
                if j > 0 {
                    assert(rest[j - 1] == (key, text));
                }
            }
            if rest.contains((key, text)) {
                let j = choose|j: int| 0 <= j < rest.len() && rest[j] == (key, text);
                assert(here[j + 1] == (key, text));
            }
            if first == (key, text) {
                assert(here[0] == (key, text));
            }
        }
        if exists|i: int| from <= i < keys.len() && #[trigger] keys[i] == key {
            let i = choose|i: int| from <= i < keys.len() && #[trigger] keys[i] == key;
            if i == from {
                if exists|j: int| from + 1 <= j < keys.len() && #[trigger] keys[j] == key {
                    let j = choose|j: int| from + 1 <= j < keys.len() && #[trigger] keys[j] == key;
                    lemma_key_order(keys[from], keys[j], keys[from]);
                }
            } else {
                assert(from + 1 <= i);
            }
        }
    }
}

/// Round-trip of names: what a match hands out pair by pair is what it
/// holds key by key. Every key of the table of names is found by `get`, and
/// it has a capture there exactly when it stands, with that capture, among
/// the pairs of the match: when its group took part in the match.
pub proof fn lemma_round_trip(
    keys: Seq<Seq<char>>,
    indices: Seq<usize>,
    values: Seq<Option<Seq<char>>>,
    key: Seq<char>,
    text: Seq<char>,
)
    requires
        ascending(keys),
        keys.len() == indices.len(),
    ensures
        present(keys, indices, values, 0).contains((key, text)) <==> captured(
            map_of(keys, indices),
            values,
            key,
        ) == Some(text),
        keys.contains(key) <==> map_of(keys, indices).contains_key(key),
{
    lemma_present(keys, indices, values, 0, key, text);
    if captured(map_of(keys, indices), values, key) == Some(text) {
        assert(keys.contains(key));
        let i = keys.index_of(key);
        assert(0 <= i < keys.len() && keys[i] == key);
    }
}

} // verus!
