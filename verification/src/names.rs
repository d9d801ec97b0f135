//! The table of names of a compiled pattern, and the captures of a match
//! seen through it.
//!
//! A regex engine numbers its capture groups and knows the names that the
//! flat regular expression gives them. The table of names maps each key of
//! the user to the number of its group. Where several groups stand for one
//! key, the one with the largest number wins.

use crate::expand::Scope;
use crate::strmap::StrMap;
use crate::text::{byte_len, lemma_text_join, slice, text_of};
use vstd::prelude::*;
use vstd::string::StringSliceAdditionalSpecFns;
use vstd::utf8::{
    encode_utf8, encode_utf8_decode_utf8, encode_utf8_valid_utf8, is_char_boundary,
    is_char_boundary_start_end_of_seq,
};

verus! {

/// The key under which a group shows: the key that the compiler recorded for
/// its name, or the name itself where the author of the source wrote the
/// group by hand.
pub open spec fn user_key(alias: Scope, name: Seq<char>) -> Seq<char> {
    if alias.contains_key(name) {
        alias[name]
    } else {
        name
    }
}

/// The table of names for the groups of an engine, given by their numbers:
/// each named group is entered in turn under its key, a later one in place
/// of an earlier one.
pub open spec fn name_table(groups: Seq<Option<Seq<char>>>, alias: Scope) -> Map<Seq<char>, usize>
    decreases groups.len(),
{
    if groups.len() == 0 {
        Map::empty()
    } else {
        let before = name_table(groups.drop_last(), alias);
        match groups.last() {
            None => before,
            Some(name) => before.insert(user_key(alias, name), (groups.len() - 1) as usize),
        }
    }
}

/// Whether group `i` is named and shows under `key`.
pub open spec fn shows_under(
    groups: Seq<Option<Seq<char>>>,
    alias: Scope,
    i: int,
    key: Seq<char>,
) -> bool {
    0 <= i < groups.len() && groups[i] is Some && user_key(alias, groups[i].unwrap()) == key
}

/// Largest number wins: the table holds a key exactly when some group shows
/// under it, and then it holds the largest number of such a group.
pub proof fn lemma_name_table_largest(
    groups: Seq<Option<Seq<char>>>,
    alias: Scope,
    key: Seq<char>,
)
    requires
        groups.len() <= usize::MAX,
    ensures
        name_table(groups, alias).contains_key(key) <==> exists|i: int|
            shows_under(groups, alias, i, key),
        name_table(groups, alias).contains_key(key) ==> shows_under(
            groups,
            alias,
            name_table(groups, alias)[key] as int,
            key,
        ),
        forall|i: int| #[trigger]
            shows_under(groups, alias, i, key) ==> i <= name_table(groups, alias)[key],
    decreases groups.len(),
{
    if groups.len() > 0 {
        let before = groups.drop_last();
        let last = groups.len() - 1;
        lemma_name_table_largest(before, alias, key);
        assert forall|i: int| shows_under(before, alias, i, key) implies shows_under(
            groups,
            alias,
            i,
            key,
        ) by {}
        assert forall|i: int| shows_under(groups, alias, i, key) && i < last implies shows_under(
            before,
            alias,
            i,
            key,
        ) by {}
        if shows_under(groups, alias, last, key) {
            assert(name_table(groups, alias)[key] == last);
        } else if name_table(groups, alias).contains_key(key) {
            assert(name_table(before, alias).contains_key(key));
            let i = name_table(before, alias)[key] as int;
            assert(shows_under(groups, alias, i, key));
        }
        if exists|i: int| shows_under(groups, alias, i, key) {
            let i = choose|i: int| shows_under(groups, alias, i, key);
            if i < last {
                assert(shows_under(before, alias, i, key));
            }
        }
    }
}

/// Enters a group under a key, unless the key has a group with a larger
/// number.
pub fn record(names: &mut StrMap<usize>, key: String, index: usize)
    ensures
        final(names)@ == if old(names)@.contains_key(key@) && old(names)@[key@] > index {
            old(names)@
        } else {
            old(names)@.insert(key@, index)
        },
{
    let keep = match names.get(key.as_str()) {
        Some(held) => *held > index,
        None => false,
    };
    if !keep {
        names.insert(key, index);
    }
}

/// The names of some groups as plain values.
pub open spec fn group_texts(groups: Seq<Option<String>>) -> Seq<Option<Seq<char>>> {
    groups.map_values(
        |g: Option<String>|
            match g {
                Some(name) => Some(name@),
                None => None,
            },
    )
}

/// Builds the table of names from the names of the groups, as an engine
/// lists them by number, and the names that the compiler gave.
pub fn name_groups(groups: &Vec<Option<String>>, alias: &StrMap<String>) -> (names: StrMap<usize>)
    ensures
        names@ == name_table(group_texts(groups@), alias.texts()),
{
    let ghost all = group_texts(groups@);
    let mut names: StrMap<usize> = StrMap::new();
    let mut i: usize = 0;
    while i < groups.len()
        invariant
            i <= groups@.len(),
            all == group_texts(groups@),
            names@ == name_table(all.take(i as int), alias.texts()),
            forall|k: Seq<char>| #[trigger] names@.contains_key(k) ==> names@[k] < i,
        decreases groups@.len() - i,
    {
        proof {
            assert(all.take(i + 1).drop_last() =~= all.take(i as int));
        }
        match &groups[i] {
            Some(name) => {
                let key = match alias.get(name.as_str()) {
                    Some(key) => key.clone(),
                    None => name.clone(),
                };
                record(&mut names, key, i);
            },
            None => {},
        }
        i += 1;
    }
    proof {
        assert(all.take(groups@.len() as int) =~= all);
    }
    names
}

/// The captures of a match as plain values.
pub open spec fn capture_texts(values: Seq<Option<&str>>) -> Seq<Option<Seq<char>>> {
    values.map_values(
        |v: Option<&str>|
            match v {
                Some(text) => Some(text@),
                None => None,
            },
    )
}

/// Whether a text stands in another as one piece.
pub open spec fn part_of(part: Seq<char>, text: Seq<char>) -> bool {
    exists|at: int|
        0 <= at && at + part.len() <= text.len() && #[trigger] text.subrange(
            at,
            at + part.len(),
        ) == part
}

/// Whether every capture of a match is a piece of the text that was
/// matched.
pub open spec fn parts_of(values: Seq<Option<&str>>, text: Seq<char>) -> bool {
    forall|i: int|
        0 <= i < values.len() && (#[trigger] values[i]) is Some ==> part_of(
            values[i].unwrap()@,
            text,
        )
}

/// What a match holds under a key: the capture of the group that the table
/// names, if the key is in the table and the group took part in the match.
pub open spec fn captured(
    names: Map<Seq<char>, usize>,
    values: Seq<Option<Seq<char>>>,
    key: Seq<char>,
) -> Option<Seq<char>> {
    if names.contains_key(key) && names[key] < values.len() {
        values[names[key] as int]
    } else {
        None
    }
}

/// The capture of a group by number, if the group took part in the match.
pub fn capture_at<'a>(values: &Vec<Option<&'a str>>, index: usize) -> (r: Option<&'a str>)
    ensures
        match r {
            Some(text) => index < values@.len() && capture_texts(values@)[index as int] == Some(
                text@,
            ),
            None => index >= values@.len() || capture_texts(values@)[index as int] is None,
        },
{
    if index < values.len() {
        values[index]
    } else {
        None
    }
}

/// Gets the capture under a key.
pub fn fetch<'a>(names: &StrMap<usize>, values: &Vec<Option<&'a str>>, key: &str) -> (r: Option<
    &'a str,
>)
    ensures
        match r {
            Some(text) => captured(names@, capture_texts(values@), key@) == Some(text@),
            None => captured(names@, capture_texts(values@), key@) is None,
        },
{
    match names.get(key) {
        Some(index) => capture_at(values, *index),
        None => None,
    }
}

/// The keys and captures of a match from place `from` of the table on, in
/// the order of the keys, without the keys whose group took no part.
pub open spec fn present(
    keys: Seq<Seq<char>>,
    indices: Seq<usize>,
    values: Seq<Option<Seq<char>>>,
    from: int,
) -> Seq<(Seq<char>, Seq<char>)>
    decreases keys.len() - from,
{
    if from < 0 || from >= keys.len() || from >= indices.len() {
        Seq::empty()
    } else if indices[from] < values.len() && values[indices[from] as int] is Some {
        seq![(keys[from], values[indices[from] as int].unwrap())] + present(
            keys,
            indices,
            values,
            from + 1,
        )
    } else {
        present(keys, indices, values, from + 1)
    }
}

/// An iterator over the keys and captures of a match, in the order of the
/// keys.
pub struct MatchesIter<'a> {
    names: &'a StrMap<usize>,
    values: &'a Vec<Option<&'a str>>,
    at: usize,
}

impl<'a> MatchesIter<'a> {
    /// The pairs that are still to come.
    pub closed spec fn remaining(&self) -> Seq<(Seq<char>, Seq<char>)> {
        present(
            self.names.keys(),
            self.names.values(),
            capture_texts(self.values@),
            self.at as int,
        )
    }

    /// An iterator over all pairs of a match.
    pub fn new(names: &'a StrMap<usize>, values: &'a Vec<Option<&'a str>>) -> (r: Self)
        ensures
            r.remaining() == present(names.keys(), names.values(), capture_texts(values@), 0),
    {
        MatchesIter { names, values, at: 0 }
    }

    /// The next key with its capture. Keys whose group took no part in the
    /// match are passed over.
    pub fn next(&mut self) -> (r: Option<(&'a str, &'a str)>)
        ensures
            match r {
                Some((key, text)) => old(self).remaining().len() > 0 && old(self).remaining()[0]
                    == (key@, text@) && final(self).remaining() == old(self).remaining().drop_first(),
                None => old(self).remaining().len() == 0 && final(self).remaining().len() == 0,
            },
    {
        let ghost before = self.remaining();
        let n = self.names.len();
        while self.at < n
            invariant
                n == self.names.keys().len(),
                n == self.names.values().len(),
                self.names == old(self).names,
                self.values == old(self).values,
                self.remaining() == before,
                before == old(self).remaining(),
            decreases n - self.at,
        {
            let at = self.at;
            let key = self.names.key_at(at);
            let index = *self.names.value_at(at);
            self.at = at + 1;
            match capture_at(self.values, index) {
                Some(text) => {
                    proof {
                        let rest = self.remaining();
                        assert(before == seq![(key@, text@)] + rest);
                        assert(before.drop_first() =~= rest);
                    }
                    return Some((key, text));
                },
                None => {},
            }
        }
        None
    }
}

/// What a compiled regex finds: under each text that it matches, what each
/// group captures in the first match there, by group number.
pub type Finds = Map<Seq<char>, Seq<Option<Seq<char>>>>;

/// Whether `found` is what a regex finds in a text: its captures where it
/// matches the text, each a piece of the text, and nothing where it does
/// not.
pub open spec fn found_in(finds: Finds, text: Seq<char>, found: Option<Vec<Option<&str>>>) -> bool {
    match found {
        Some(values) => finds.contains_key(text) && finds[text] == capture_texts(values@)
            && parts_of(values@, text),
        None => !finds.contains_key(text),
    }
}

/// What a compiled regex finds, as an engine reports it: under each text
/// that it matches, the byte offsets between which each group captures in
/// the first match there, by group number.
pub type Spans = Map<Seq<char>, Seq<Option<(usize, usize)>>>;

/// Whether `found` is what a regex finds in a text: the spans of its
/// captures where it matches the text, and nothing where it does not.
pub open spec fn found_spans(
    spans: Spans,
    text: Seq<char>,
    found: Option<Vec<Option<(usize, usize)>>>,
) -> bool {
    match found {
        Some(values) => spans.contains_key(text) && spans[text] == values@,
        None => !spans.contains_key(text),
    }
}

/// The piece of a text between two byte offsets of its UTF-8 form, where
/// both stand on the start of a character or on the end of the text.
pub open spec fn piece(text: Seq<char>, span: (usize, usize)) -> Option<Seq<char>> {
    let bytes = encode_utf8(text);
    if span.0 <= span.1 <= bytes.len() && is_char_boundary(bytes, span.0 as int)
        && is_char_boundary(bytes, span.1 as int) {
        Some(text_of(bytes, span.0 as int, span.1 as int))
    } else {
        None
    }
}

/// The pieces of a text that some spans cut; a group without a span has
/// none.
pub open spec fn pieces(text: Seq<char>, spans: Seq<Option<(usize, usize)>>) -> Seq<
    Option<Seq<char>>,
> {
    spans.map_values(
        |span: Option<(usize, usize)>|
            match span {
                Some(span) => piece(text, span),
                None => None,
            },
    )
}

/// What a regex finds as texts, from what it finds as spans.
pub open spec fn finds_of(spans: Spans) -> Finds {
    Map::new(|text: Seq<char>| spans.contains_key(text), |text: Seq<char>| pieces(text, spans[text]))
}

/// What is cut between two character boundaries of a text is a piece of
/// the text.
pub proof fn lemma_piece_is_part(text: Seq<char>, from: int, to: int)
    requires
        0 <= from <= to <= encode_utf8(text).len(),
        is_char_boundary(encode_utf8(text), from),
        is_char_boundary(encode_utf8(text), to),
    ensures
        part_of(text_of(encode_utf8(text), from, to), text),
{
    let bytes = encode_utf8(text);
    let end = bytes.len() as int;
    encode_utf8_valid_utf8(text);
    is_char_boundary_start_end_of_seq(bytes);
    lemma_text_join(bytes, 0, from, to);
    lemma_text_join(bytes, 0, to, end);
    assert(bytes.subrange(0, end) =~= bytes);
    encode_utf8_decode_utf8(text);
    let head = text_of(bytes, 0, from);
    let part = text_of(bytes, from, to);
    assert(text == (head + part) + text_of(bytes, to, end));
    assert(text.subrange(head.len() as int, head.len() as int + part.len() as int) =~= part);
}

/// Cuts the captures of a match out of the text, by the spans that the
/// engine reports. A span that does not lie in the text between two
/// characters cuts nothing.
pub fn cut_pieces<'a>(text: &'a str, spans: &Vec<Option<(usize, usize)>>) -> (r: Vec<
    Option<&'a str>,
>)
    ensures
        capture_texts(r@) == pieces(text@, spans@),
        parts_of(r@, text@),
{
    let n = byte_len(text);
    let mut r: Vec<Option<&'a str>> = Vec::new();
    let mut i: usize = 0;
    while i < spans.len()
        invariant
            i <= spans@.len(),
            r@.len() == i,
            n == encode_utf8(text@).len(),
            forall|j: int|
                0 <= j < i ==> capture_texts(r@)[j] == #[trigger] pieces(text@, spans@)[j],
            parts_of(r@, text@),
        decreases spans@.len() - i,
    {
        let ghost before = r@;
        let cut = match spans[i] {
            Some((from, to)) => {
                if from <= to && to <= n && text.is_char_boundary(from) && text.is_char_boundary(
                    to,
                ) {
                    proof {
                        lemma_piece_is_part(text@, from as int, to as int);
                    }
                    Some(slice(text, from, to))
                } else {
                    None
                }
            },
            None => None,
        };
        r.push(cut);
        proof {
            assert forall|j: int| 0 <= j < i + 1 implies capture_texts(r@)[j] == #[trigger] pieces(
                text@,
                spans@,
            )[j] by {
                if j < i {
                    assert(capture_texts(before)[j] == pieces(text@, spans@)[j]);
                    assert(r@[j] == before[j]);
                }
            }
            assert forall|j: int| 0 <= j < r@.len() && (#[trigger] r@[j]) is Some implies part_of(
                r@[j].unwrap()@,
                text@,
            ) by {
                if j < i {
                    assert(r@[j] == before[j]);
                }
            }
        }
        i += 1;
    }
    proof {
        assert(capture_texts(r@) =~= pieces(text@, spans@));
    }
    r
}

} // verus!
