//! The scanner that cuts a grok source into regular-expression text and
//! `%{name:alias:extract=definition}` placeholders.
//!
//! The grammar is stated over the UTF-8 bytes of the source. Every byte that
//! the grammar names is ASCII, so each cut falls on a character boundary and
//! the ranges are the byte offsets of `str`.

use crate::text::{byte_len, lemma_ascii_boundaries, lemma_text_join, slice, text_of};
use vstd::prelude::*;
use vstd::string::StringSliceAdditionalSpecFns;
use vstd::utf8::*;

verus! {

/// `%`, which opens a placeholder when `{` follows.
pub const PERCENT: u8 = 0x25;

/// `{`
pub const OPEN: u8 = 0x7b;

/// `}`
pub const CLOSE: u8 = 0x7d;

/// `:`
pub const COLON: u8 = 0x3a;

/// `=`
pub const EQUALS: u8 = 0x3d;

/// An error in the grok pattern.
#[derive(Debug, Clone, Copy, PartialEq, Eq)]
pub enum GrokPatternError {
    /// A character that the field it stands in does not allow.
    InvalidCharacter(char),
    /// The placeholder is not closed, has no name, or has too many fields.
    InvalidPattern,
    /// A field that must not be empty is empty, or the definition is broken.
    InvalidPatternDefinition,
}

/// What `{:?}` writes for a character: the character in single quotes, with
/// an escape where it cannot stand for itself.
pub uninterp spec fn char_debug(c: char) -> Seq<char>;

/// The `Debug` form of a character, as the formatter of `char` writes it.
#[verifier::external_body]
fn char_debug_text(c: char) -> (r: String)
    ensures
        r@ == char_debug(c),
{
    format!("{c:?}")
}

impl GrokPatternError {
    /// The text that names the error: the variant, with the offending
    /// character in brackets where there is one.
    pub open spec fn text(self) -> Seq<char> {
        match self {
            GrokPatternError::InvalidCharacter(c) => "InvalidCharacter("@ + char_debug(c) + ")"@,
            GrokPatternError::InvalidPattern => "InvalidPattern"@,
            GrokPatternError::InvalidPatternDefinition => "InvalidPatternDefinition"@,
        }
    }

    /// Writes the error as text.
    pub fn describe(&self) -> (r: String)
        ensures
            r@ == self.text(),
    {
        match self {
            GrokPatternError::InvalidCharacter(c) => {
                let mut r = String::from_str("InvalidCharacter(");
                r.append(char_debug_text(*c).as_str());
                r.append(")");
                r
            },
            GrokPatternError::InvalidPattern => String::from_str("InvalidPattern"),
            GrokPatternError::InvalidPatternDefinition => String::from_str(
                "InvalidPatternDefinition",
            ),
        }
    }
}

/// What the scanner finds at one position of a source, as plain values.
pub enum Token {
    /// Regular-expression text, taken as it stands.
    Literal { start: int, end: int, text: Seq<char> },
    /// A placeholder and its fields; an absent field is empty.
    Placeholder {
        start: int,
        end: int,
        text: Seq<char>,
        name: Seq<char>,
        alias: Seq<char>,
        extract: Seq<char>,
        definition: Seq<char>,
    },
    /// A malformed placeholder.
    Error(GrokPatternError),
}

impl Token {
    /// The text that the token covers; an error covers none.
    pub open spec fn text(self) -> Seq<char> {
        match self {
            Token::Literal { text, .. } => text,
            Token::Placeholder { text, .. } => text,
            Token::Error(_) => Seq::empty(),
        }
    }
}

/// ASCII letters, digits and `_`: the bytes of a NAME.
pub open spec fn name_byte(b: u8) -> bool {
    (0x30 <= b <= 0x39) || (0x41 <= b <= 0x5a) || (0x61 <= b <= 0x7a) || b == 0x5f
}

/// The bytes of an ALIAS or an EXTRACT: those of a NAME and `-`, `[`, `]`, `.`.
pub open spec fn field_byte(b: u8) -> bool {
    name_byte(b) || b == 0x2d || b == 0x5b || b == 0x5d || b == 0x2e
}

/// The bytes of a word: of a NAME, or of the wider class of the later fields.
pub open spec fn word_byte(b: u8, wide: bool) -> bool {
    if wide {
        field_byte(b)
    } else {
        name_byte(b)
    }
}

/// The bytes that end a word: `}`, `=` and `:`.
pub open spec fn closes_word(b: u8) -> bool {
    b == CLOSE || b == EQUALS || b == COLON
}

/// The first offset at or after `from` that holds no byte of a word.
pub open spec fn word_stop(s: Seq<u8>, from: int, wide: bool) -> int
    decreases s.len() - from,
{
    if 0 <= from < s.len() && word_byte(s[from], wide) {
        word_stop(s, from + 1, wide)
    } else {
        from
    }
}

/// The first offset at or after `from` that holds `%`, or the end.
pub open spec fn literal_stop(s: Seq<u8>, from: int) -> int
    decreases s.len() - from,
{
    if 0 <= from < s.len() && s[from] != PERCENT {
        literal_stop(s, from + 1)
    } else {
        from
    }
}

/// The first offset at or after `from` that holds `{` or `}`, or the end.
pub open spec fn definition_stop(s: Seq<u8>, from: int) -> int
    decreases s.len() - from,
{
    if 0 <= from < s.len() && s[from] != OPEN && s[from] != CLOSE {
        definition_stop(s, from + 1)
    } else {
        from
    }
}

/// The character that starts at byte `at`.
pub open spec fn char_at(s: Seq<u8>, at: int) -> char {
    decode_utf8(s.subrange(at, s.len() as int))[0]
}

/// One word of a placeholder, read from `from`: the offset of the byte that
/// ends it, or why there is no such word. A NAME may not be empty.
pub open spec fn munch(s: Seq<u8>, from: int, wide: bool) -> Result<int, GrokPatternError> {
    let stop = word_stop(s, from, wide);
    if stop >= s.len() {
        Err(GrokPatternError::InvalidPattern)
    } else if !closes_word(s[stop]) {
        Err(GrokPatternError::InvalidCharacter(char_at(s, stop)))
    } else if stop == from && !wide {
        Err(GrokPatternError::InvalidPattern)
    } else {
        Ok(stop)
    }
}

/// The end of a placeholder whose last word stops at `stop`, on `}` or `=`.
/// `words` counts the words read. After `=` the definition runs up to the
/// next `}`; it holds no `{` and is not empty. An empty ALIAS is accepted
/// only before an EXTRACT.
pub open spec fn finish_placeholder(
    s: Seq<u8>,
    start: int,
    name: Seq<char>,
    alias: Seq<char>,
    extract: Seq<char>,
    words: int,
    stop: int,
) -> Token {
    if s[stop] == CLOSE {
        if words == 2 && alias.len() == 0 {
            Token::Error(GrokPatternError::InvalidPatternDefinition)
        } else {
            Token::Placeholder {
                start,
                end: stop + 1,
                text: text_of(s, start, stop + 1),
                name,
                alias,
                extract,
                definition: Seq::empty(),
            }
        }
    } else {
        let close = definition_stop(s, stop + 1);
        if close >= s.len() || s[close] != CLOSE || close == stop + 1 || (words == 2 && alias.len()
            == 0) {
            Token::Error(GrokPatternError::InvalidPatternDefinition)
        } else {
            Token::Placeholder {
                start,
                end: close + 1,
                text: text_of(s, start, close + 1),
                name,
                alias,
                extract,
                definition: text_of(s, stop + 1, close),
            }
        }
    }
}

/// The placeholder that opens with `%{` at `start`: up to three words
/// separated by `:`, then `}` or `=` and a definition.
pub open spec fn placeholder_at(s: Seq<u8>, start: int) -> Token {
    match munch(s, start + 2, false) {
        Err(e) => Token::Error(e),
        Ok(e0) => {
            let name = text_of(s, start + 2, e0);
            if s[e0] != COLON {
                finish_placeholder(s, start, name, Seq::empty(), Seq::empty(), 1, e0)
            } else {
                match munch(s, e0 + 1, true) {
                    Err(e) => Token::Error(e),
                    Ok(e1) => {
                        let alias = text_of(s, e0 + 1, e1);
                        if s[e1] != COLON {
                            finish_placeholder(s, start, name, alias, Seq::empty(), 2, e1)
                        } else {
                            match munch(s, e1 + 1, true) {
                                Err(e) => Token::Error(e),
                                Ok(e2) => {
                                    let extract = text_of(s, e1 + 1, e2);
                                    if e2 == e1 + 1 {
                                        Token::Error(GrokPatternError::InvalidPatternDefinition)
                                    } else if s[e2] != COLON {
                                        finish_placeholder(s, start, name, alias, extract, 3, e2)
                                    } else {
                                        match munch(s, e2 + 1, true) {
                                            Err(e) => Token::Error(e),
                                            Ok(_) => Token::Error(GrokPatternError::InvalidPattern),
                                        }
                                    }
                                },
                            }
                        }
                    },
                }
            }
        },
    }
}

/// Where the literal that starts at `start` ends: at the next `%` after
/// `start`, or at the end of the source. A `%` at `start` that opens no
/// placeholder belongs to the literal.
pub open spec fn literal_end(s: Seq<u8>, start: int) -> int {
    literal_stop(s, start + 1)
}

/// The token that starts at `start`, an offset inside the source.
#[verifier::opaque]
pub open spec fn token_at(s: Seq<u8>, start: int) -> Token {
    if s[start] == PERCENT && start + 1 < s.len() && s[start + 1] == OPEN {
        placeholder_at(s, start)
    } else {
        let end = literal_end(s, start);
        Token::Literal { start, end, text: text_of(s, start, end) }
    }
}

/// Where the scanner stands after the token at `start`: at the token's end,
/// or at the end of the source after an error.
pub open spec fn token_end(s: Seq<u8>, start: int) -> int {
    match token_at(s, start) {
        Token::Literal { end, .. } => end,
        Token::Placeholder { end, .. } => end,
        Token::Error(_) => s.len() as int,
    }
}

/// All tokens from `start` on, in order. An error is the last token.
pub open spec fn tokens_from(s: Seq<u8>, start: int) -> Seq<Token>
    decreases s.len() - start,
    when 0 <= start
{
    if start >= s.len() {
        Seq::empty()
    } else {
        let next = token_end(s, start);
        if start < next <= s.len() {
            seq![token_at(s, start)] + tokens_from(s, next)
        } else {
            seq![token_at(s, start)]
        }
    }
}

/// The texts of some tokens, joined in order.
pub open spec fn joined(tokens: Seq<Token>) -> Seq<char>
    decreases tokens.len(),
{
    if tokens.len() == 0 {
        Seq::empty()
    } else {
        tokens[0].text() + joined(tokens.drop_first())
    }
}

/// How far the tokens from `start` on reach: to the end of the source, or
/// to where a malformed placeholder begins.
pub open spec fn covered_from(s: Seq<u8>, start: int) -> int
    decreases s.len() - start,
    when 0 <= start
{
    if start >= s.len() {
        start
    } else {
        let next = token_end(s, start);
        if token_at(s, start) is Error || next <= start || next > s.len() {
            start
        } else {
            covered_from(s, next)
        }
    }
}

/// One of the components of a grok pattern: a regular expression, a pattern or
/// an error.
#[derive(Debug)]
pub enum GrokComponent<'a> {
    /// This chunk is a regular expression.
    RegularExpression {
        /// The span of the source, in bytes.
        range: core::ops::Range<usize>,
        /// The text chunk of the source.
        string: &'a str,
    },
    /// This chunk is a grok pattern placeholder.
    GrokPattern {
        /// The span of the source, in bytes.
        range: core::ops::Range<usize>,
        /// The text chunk of the source.
        pattern: &'a str,
        /// The name part of the pattern.
        name: &'a str,
        /// The alias part of the pattern.
        alias: &'a str,
        /// The extract part of the pattern.
        extract: &'a str,
        /// The definition part of the pattern.
        definition: &'a str,
    },
    /// The pattern could not be parsed successfully.
    PatternError(GrokPatternError),
}

impl<'a> View for GrokComponent<'a> {
    type V = Token;

    open spec fn view(&self) -> Token {
        match *self {
            GrokComponent::RegularExpression { range, string } => Token::Literal {
                start: range.start as int,
                end: range.end as int,
                text: string@,
            },
            GrokComponent::GrokPattern {
                range,
                pattern,
                name,
                alias,
                extract,
                definition,
            } => Token::Placeholder {
                start: range.start as int,
                end: range.end as int,
                text: pattern@,
                name: name@,
                alias: alias@,
                extract: extract@,
                definition: definition@,
            },
            GrokComponent::PatternError(e) => Token::Error(e),
        }
    }
}

impl<'a> GrokComponent<'a> {
    /// The component as it stands in the source; an error as its name in
    /// angle brackets.
    pub fn to_text(&self) -> (r: String)
        ensures
            r@ == match self@ {
                Token::Literal { text, .. } => text,
                Token::Placeholder { text, .. } => text,
                Token::Error(e) => "<error "@ + e.text() + ">"@,
            },
    {
        match self {
            GrokComponent::RegularExpression { string, .. } => String::from_str(string),
            GrokComponent::GrokPattern { pattern, .. } => String::from_str(pattern),
            GrokComponent::PatternError(e) => {
                let mut r = String::from_str("<error ");
                r.append(e.describe().as_str());
                r.append(">");
                r
            },
        }
    }
}

/// A place where the scanner may stand: the start of a character, or the
/// end of the source.
pub open spec fn cut(s: Seq<u8>, at: int) -> bool {
    0 <= at <= s.len() && is_char_boundary(s, at)
}

/// A word stops inside the source or at its end, on a cut, and on the first
/// byte that is not of the word.
pub proof fn lemma_word_stop(s: Seq<u8>, from: int, wide: bool)
    requires
        valid_utf8(s),
        cut(s, from),
    ensures
        from <= word_stop(s, from, wide) <= s.len(),
        cut(s, word_stop(s, from, wide)),
        word_stop(s, from, wide) < s.len() ==> !word_byte(
            s[word_stop(s, from, wide)],
            wide,
        ),
    decreases s.len() - from,
{
    if from < s.len() && word_byte(s[from], wide) {
        lemma_ascii_boundaries(s, from);
        lemma_word_stop(s, from + 1, wide);
    }
}

/// A literal stops after `from`, on `%` or at the end of the source.
pub proof fn lemma_literal_stop(s: Seq<u8>, from: int)
    requires
        valid_utf8(s),
        0 <= from <= s.len(),
    ensures
        from <= literal_stop(s, from) <= s.len(),
        cut(s, literal_stop(s, from)),
        literal_stop(s, from) < s.len() ==> s[literal_stop(s, from)] == PERCENT,
    decreases s.len() - from,
{
    if from < s.len() && s[from] != PERCENT {
        lemma_literal_stop(s, from + 1);
    } else if from < s.len() {
        lemma_ascii_boundaries(s, from);
    } else {
        is_char_boundary_start_end_of_seq(s);
    }
}

/// A definition stops after `from`, on `{` or `}` or at the end of the
/// source.
pub proof fn lemma_definition_stop(s: Seq<u8>, from: int)
    requires
        valid_utf8(s),
        0 <= from <= s.len(),
    ensures
        from <= definition_stop(s, from) <= s.len(),
        cut(s, definition_stop(s, from)),
        definition_stop(s, from) < s.len() ==> s[definition_stop(s, from)] == OPEN
            || s[definition_stop(s, from)] == CLOSE,
    decreases s.len() - from,
{
    if from < s.len() && s[from] != OPEN && s[from] != CLOSE {
        lemma_definition_stop(s, from + 1);
    } else if from < s.len() {
        lemma_ascii_boundaries(s, from);
    } else {
        is_char_boundary_start_end_of_seq(s);
    }
}

/// A word that is read ends on a cut inside the source, and the next cut is
/// right after the byte that ends it.
pub proof fn lemma_munch(s: Seq<u8>, from: int, wide: bool)
    requires
        valid_utf8(s),
        cut(s, from),
    ensures
        munch(s, from, wide) matches Ok(stop) ==> from <= stop < s.len() && cut(s, stop) && cut(
            s,
            stop + 1,
        ) && closes_word(s[stop]),
{
    lemma_word_stop(s, from, wide);
    let stop = word_stop(s, from, wide);
    if stop < s.len() && closes_word(s[stop]) {
        lemma_ascii_boundaries(s, stop);
    }
}

/// A token that is no error starts where it was asked for, is not empty,
/// and ends on a cut.
pub proof fn lemma_token_bounds(s: Seq<u8>, start: int)
    requires
        valid_utf8(s),
        cut(s, start),
        start < s.len(),
    ensures
        start < token_end(s, start) <= s.len(),
        cut(s, token_end(s, start)),
        match token_at(s, start) {
            Token::Literal { start: a, end: b, text } => a == start && b == token_end(s, start)
                && text == text_of(s, a, b),
            Token::Placeholder { start: a, end: b, text, .. } => a == start && b == token_end(
                s,
                start,
            ) && text == text_of(s, a, b),
            Token::Error(_) => true,
        },
{
    reveal(token_at);
    is_char_boundary_start_end_of_seq(s);
    if s[start] == PERCENT && start + 1 < s.len() && s[start + 1] == OPEN {
        lemma_ascii_boundaries(s, start + 1);
        lemma_munch(s, start + 2, false);
        if let Ok(e0) = munch(s, start + 2, false) {
            lemma_definition_stop(s, e0 + 1);
            if definition_stop(s, e0 + 1) < s.len() {
                lemma_ascii_boundaries(s, definition_stop(s, e0 + 1));
            }
            lemma_munch(s, e0 + 1, true);
            if let Ok(e1) = munch(s, e0 + 1, true) {
                lemma_definition_stop(s, e1 + 1);
                if definition_stop(s, e1 + 1) < s.len() {
                    lemma_ascii_boundaries(s, definition_stop(s, e1 + 1));
                }
                lemma_munch(s, e1 + 1, true);
                if let Ok(e2) = munch(s, e1 + 1, true) {
                    lemma_definition_stop(s, e2 + 1);
                    if definition_stop(s, e2 + 1) < s.len() {
                        lemma_ascii_boundaries(s, definition_stop(s, e2 + 1));
                    }
                }
            }
        }
    } else {
        lemma_literal_stop(s, start + 1);
    }
}

/// Whether a byte may stand in a word.
fn is_word_byte(b: u8, wide: bool) -> (r: bool)
    ensures
        r == word_byte(b, wide),
{
    (0x30 <= b && b <= 0x39) || (0x41 <= b && b <= 0x5a) || (0x61 <= b && b <= 0x7a) || b == 0x5f
        || (wide && (b == 0x2d || b == 0x5b || b == 0x5d || b == 0x2e))
}

/// An iterator over the components of a grok pattern.
pub struct GrokSplit<'a> {
    string: &'a str,
    pos: usize,
}

impl<'a> GrokSplit<'a> {
    #[verifier::type_invariant]
    spec fn stands_on_cut(&self) -> bool {
        cut(self.string.spec_bytes(), self.pos as int)
    }

    /// The source that is scanned.
    pub closed spec fn source(&self) -> Seq<char> {
        self.string@
    }

    /// The byte offset of the next token.
    pub closed spec fn position(&self) -> int {
        self.pos as int
    }

    /// The UTF-8 bytes of the source.
    pub open spec fn bytes(&self) -> Seq<u8> {
        encode_utf8(self.source())
    }

    /// Reads one word from `from`, and returns the offset of the byte that
    /// ends it.
    fn try_munch_word(&self, from: usize, wide: bool) -> (r: Result<usize, GrokPatternError>)
        requires
            cut(self.bytes(), from as int),
        ensures
            match munch(self.bytes(), from as int, wide) {
                Ok(stop) => r == Ok::<usize, GrokPatternError>(stop as usize) && from <= stop
                    < self.bytes().len(),
                Err(e) => r == Err::<usize, GrokPatternError>(e),
            },
    {
        let ghost s = self.bytes();
        proof {
            encode_utf8_valid_utf8(self.source());
            lemma_word_stop(s, from as int, wide);
        }
        let bytes = self.string.as_bytes();
        let n = bytes.len();
        let mut i = from;
        while i < n && is_word_byte(bytes[i], wide)
            invariant
                from <= i <= n,
                n == s.len(),
                bytes@ == s,
                word_stop(s, from as int, wide) == word_stop(s, i as int, wide),
            decreases n - i,
        {
            i += 1;
        }
        if i >= n {
            return Err(GrokPatternError::InvalidPattern);
        }
        let b = bytes[i];
        if !(b == CLOSE || b == EQUALS || b == COLON) {
            proof {
                is_char_boundary_start_end_of_seq(s);
                crate::text::lemma_slice_valid(s, i as int, n as int);
            }
            let rest = slice(self.string, i, n);
            let c = rest.get_char(0);
            return Err(GrokPatternError::InvalidCharacter(c));
        }
        if i == from && !wide {
            return Err(GrokPatternError::InvalidPattern);
        }
        Ok(i)
    }

    /// Closes the placeholder that opened at `start`, after its last word.
    fn finish(
        &self,
        start: usize,
        name: &'a str,
        alias: &'a str,
        extract: &'a str,
        words: usize,
        stop: usize,
    ) -> (r: GrokComponent<'a>)
        requires
            cut(self.bytes(), start as int),
            cut(self.bytes(), stop as int),
            start < stop < self.bytes().len(),
            self.bytes()[stop as int] == CLOSE || self.bytes()[stop as int] == EQUALS,
        ensures
            r@ == finish_placeholder(
                self.bytes(),
                start as int,
                name@,
                alias@,
                extract@,
                words as int,
                stop as int,
            ),
    {
        let ghost s = self.bytes();
        proof {
            encode_utf8_valid_utf8(self.source());
            lemma_ascii_boundaries(s, stop as int);
            lemma_definition_stop(s, stop + 1);
            reveal_strlit("");
        }
        let bytes = self.string.as_bytes();
        let n = bytes.len();
        if bytes[stop] == CLOSE {
            if words == 2 && alias.is_empty() {
                return GrokComponent::PatternError(GrokPatternError::InvalidPatternDefinition);
            }
            let definition = "";
            assert(definition@ =~= Seq::<char>::empty());
            return GrokComponent::GrokPattern {
                range: start..stop + 1,
                pattern: slice(self.string, start, stop + 1),
                name,
                alias,
                extract,
                definition,
            };
        }
        let mut close = stop + 1;
        while close < n && bytes[close] != OPEN && bytes[close] != CLOSE
            invariant
                stop < close <= n,
                n == s.len(),
                bytes@ == s,
                definition_stop(s, stop + 1) == definition_stop(s, close as int),
            decreases n - close,
        {
            close += 1;
        }
        if close >= n || bytes[close] != CLOSE || close == stop + 1 || (words == 2
            && alias.is_empty()) {
            return GrokComponent::PatternError(GrokPatternError::InvalidPatternDefinition);
        }
        proof {
            lemma_ascii_boundaries(s, close as int);
        }
        GrokComponent::GrokPattern {
            range: start..close + 1,
            pattern: slice(self.string, start, close + 1),
            name,
            alias,
            extract,
            definition: slice(self.string, stop + 1, close),
        }
    }

    /// Reads the placeholder that opens with `%{` at `start`.
    fn placeholder(&self, start: usize) -> (r: GrokComponent<'a>)
        requires
            cut(self.bytes(), start as int),
            start + 1 < self.bytes().len(),
            self.bytes()[start as int] == PERCENT,
            self.bytes()[start + 1] == OPEN,
        ensures
            r@ == placeholder_at(self.bytes(), start as int),
    {
        let ghost s = self.bytes();
        proof {
            encode_utf8_valid_utf8(self.source());
            lemma_ascii_boundaries(s, start + 1);
            lemma_munch(s, start + 2, false);
            reveal_strlit("");
        }
        let bytes = self.string.as_bytes();
        let n = bytes.len();
        assert(start + 1 < n);
        let none = "";
        assert(none@ =~= Seq::<char>::empty());
        let e0 = match self.try_munch_word(start + 2, false) {
            Ok(stop) => stop,
            Err(e) => {
                return GrokComponent::PatternError(e);
            },
        };
        let name = slice(self.string, start + 2, e0);
        if bytes[e0] != COLON {
            return self.finish(start, name, none, none, 1, e0);
        }
        proof {
            lemma_munch(s, e0 + 1, true);
        }
        let e1 = match self.try_munch_word(e0 + 1, true) {
            Ok(stop) => stop,
            Err(e) => {
                return GrokComponent::PatternError(e);
            },
        };
        let alias = slice(self.string, e0 + 1, e1);
        if bytes[e1] != COLON {
            return self.finish(start, name, alias, none, 2, e1);
        }
        proof {
            lemma_munch(s, e1 + 1, true);
        }
        let e2 = match self.try_munch_word(e1 + 1, true) {
            Ok(stop) => stop,
            Err(e) => {
                return GrokComponent::PatternError(e);
            },
        };
        let extract = slice(self.string, e1 + 1, e2);
        if e2 == e1 + 1 {
            return GrokComponent::PatternError(GrokPatternError::InvalidPatternDefinition);
        }
        if bytes[e2] != COLON {
            return self.finish(start, name, alias, extract, 3, e2);
        }
        proof {
            lemma_munch(s, e2 + 1, true);
        }
        match self.try_munch_word(e2 + 1, true) {
            Ok(_) => GrokComponent::PatternError(GrokPatternError::InvalidPattern),
            Err(e) => GrokComponent::PatternError(e),
        }
    }

    /// Reads the token at the position of the scanner, if the source has
    /// not ended there, and does not move.
    fn try_next(&self) -> (r: Option<GrokComponent<'a>>)
        ensures
            self.position() >= self.bytes().len() ==> r is None,
            self.position() < self.bytes().len() ==> r is Some && r.unwrap()@ == token_at(
                self.bytes(),
                self.position(),
            ),
    {
        let ghost s = self.bytes();
        proof {
            reveal(token_at);
            use_type_invariant(self);
            encode_utf8_valid_utf8(self.source());
        }
        let bytes = self.string.as_bytes();
        let n = bytes.len();
        let start = self.pos;
        if start >= n {
            return None;
        }
        if bytes[start] == PERCENT && start + 1 < n && bytes[start + 1] == OPEN {
            return Some(self.placeholder(start));
        }
        let from = start + 1;
        let mut end = from;
        while end < n && bytes[end] != PERCENT
            invariant
                from <= end <= n,
                n == s.len(),
                bytes@ == s,
                literal_stop(s, from as int) == literal_stop(s, end as int),
            decreases n - end,
        {
            end += 1;
        }
        proof {
            lemma_literal_stop(s, from as int);
        }
        Some(
            GrokComponent::RegularExpression {
                range: start..end,
                string: slice(self.string, start, end),
            },
        )
    }

    /// The next component of the source, or `None` at its end. After an
    /// error the scanner stands at the end: no component follows one.
    pub fn next(&mut self) -> (r: Option<GrokComponent<'a>>)
        ensures
            final(self).source() == old(self).source(),
            cut(old(self).bytes(), old(self).position()),
            cut(old(self).bytes(), final(self).position()),
            r matches Some(c) ==> fields_in_class(c@),
            old(self).position() >= old(self).bytes().len() ==> r is None && final(self).position()
                == old(self).position(),
            old(self).position() < old(self).bytes().len() ==> r is Some && r.unwrap()@
                == token_at(old(self).bytes(), old(self).position()) && final(self).position()
                == token_end(old(self).bytes(), old(self).position()) && old(self).position()
                < final(self).position() <= old(self).bytes().len(),
    {
        proof {
            use_type_invariant(&*self);
            encode_utf8_valid_utf8(self.source());
            is_char_boundary_start_end_of_seq(self.bytes());
            if self.position() < self.bytes().len() {
                lemma_token_bounds(self.bytes(), self.position());
                lemma_fields_in_class(self.source(), self.position());
            }
        }
        let r = self.try_next();
        match &r {
            None => {},
            Some(GrokComponent::RegularExpression { range, .. }) => {
                self.pos = range.end;
            },
            Some(GrokComponent::GrokPattern { range, .. }) => {
                self.pos = range.end;
            },
            Some(GrokComponent::PatternError(_)) => {
                self.pos = byte_len(self.string);
            },
        }
        r
    }
}

/// Splits a grok pattern into its components.
///
/// A grok pattern is a regular expression string with grok pattern
/// placeholders embedded in it, of the form
/// `%{name:alias:extract=definition}`.
///
/// - `name` is required. It may contain any ASCII alphanumeric character,
///   or `_`.
/// - `alias` is optional. It may contain any ASCII alphanumeric character,
///   or any of `_-[].`. If extract is provided, `alias` may be empty.
/// - `extract` is optional. It may contain the characters of an alias.
/// - `definition` is optional. It may contain any character other than `{`
///   or `}`.
///
/// A literal `%` character may appear in a grok pattern as long as it is not
/// followed by `{`.
pub fn grok_split<'a>(string: &'a str) -> (r: GrokSplit<'a>)
    ensures
        r.source() == string@,
        r.position() == 0,
        cut(r.bytes(), 0),
{
    proof {
        encode_utf8_valid_utf8(string@);
        is_char_boundary_start_end_of_seq(string.spec_bytes());
    }
    GrokSplit { string, pos: 0 }
}

/// Tokens that follow one another without a gap from `start` on; an error
/// ends them.
pub open spec fn contiguous(tokens: Seq<Token>, start: int) -> bool
    decreases tokens.len(),
{
    if tokens.len() == 0 {
        true
    } else {
        match tokens[0] {
            Token::Literal { start: a, end: b, .. } => a == start && start < b && contiguous(
                tokens.drop_first(),
                b,
            ),
            Token::Placeholder { start: a, end: b, .. } => a == start && start < b && contiguous(
                tokens.drop_first(),
                b,
            ),
            Token::Error(_) => tokens.len() == 1,
        }
    }
}

/// The tokens from a cut on follow one another without a gap, and their
/// texts joined are the source from that cut up to where they reach: the end
/// of the source, unless the last token is an error.
pub proof fn lemma_partition_from(s: Seq<u8>, start: int)
    requires
        valid_utf8(s),
        cut(s, start),
    ensures
        contiguous(tokens_from(s, start), start),
        start <= covered_from(s, start) <= s.len(),
        cut(s, covered_from(s, start)),
        joined(tokens_from(s, start)) == text_of(s, start, covered_from(s, start)),
        covered_from(s, start) == s.len() || (tokens_from(s, start).len() > 0 && tokens_from(
            s,
            start,
        ).last() is Error),
        tokens_from(s, start).len() > 0 && tokens_from(s, start).last() is Error
            ==> token_at(s, covered_from(s, start)) is Error && covered_from(s, start) < s.len(),
    decreases s.len() - start,
{
    let tokens = tokens_from(s, start);
    if start >= s.len() {
        assert(s.subrange(start, start) =~= Seq::<u8>::empty());
        assert(joined(tokens) =~= text_of(s, start, start));
    } else {
        lemma_token_bounds(s, start);
        let next = token_end(s, start);
        let first = token_at(s, start);
        let rest = tokens_from(s, next);
        assert(tokens.drop_first() =~= rest);
        lemma_partition_from(s, next);
        if first is Error {
            // Nothing follows an error: the scanner stands at the end.
            assert(rest =~= Seq::<Token>::empty());
            assert(s.subrange(start, start) =~= Seq::<u8>::empty());
            assert(joined(tokens) =~= text_of(s, start, start));
        } else {
            lemma_text_join(s, start, next, covered_from(s, next));
            if rest.len() > 0 {
                assert(tokens.last() == rest.last());
            }
        }
    }
}

/// Scanner partition: the tokens of a source follow one another from its
/// first byte without a gap, and unless the last one is an error their texts
/// joined are the source itself. Before an error they are the source up
/// to the malformed placeholder.
pub proof fn lemma_scanner_partition(source: Seq<char>)
    ensures
        contiguous(tokens_from(encode_utf8(source), 0), 0),
        joined(tokens_from(encode_utf8(source), 0)) == text_of(
            encode_utf8(source),
            0,
            covered_from(encode_utf8(source), 0),
        ),
        tokens_from(encode_utf8(source), 0).len() == 0 || !(tokens_from(
            encode_utf8(source),
            0,
        ).last() is Error) ==> joined(tokens_from(encode_utf8(source), 0)) == source,
{
    let s = encode_utf8(source);
    encode_utf8_valid_utf8(source);
    is_char_boundary_start_end_of_seq(s);
    lemma_partition_from(s, 0);
    if covered_from(s, 0) == s.len() {
        assert(s.subrange(0, s.len() as int) =~= s);
        encode_utf8_decode_utf8(source);
    }
}

/// The characters of a NAME: ASCII letters, digits and `_`.
pub open spec fn name_char(c: char) -> bool {
    ('0' <= c <= '9') || ('A' <= c <= 'Z') || ('a' <= c <= 'z') || c == '_'
}

/// The characters of an ALIAS or an EXTRACT: those of a NAME and `-`, `[`,
/// `]`, `.`.
pub open spec fn field_char(c: char) -> bool {
    name_char(c) || c == '-' || c == '[' || c == ']' || c == '.'
}

/// The bytes of a word, from its start to where it stops.
pub proof fn lemma_word_bytes(s: Seq<u8>, from: int, wide: bool, i: int)
    requires
        0 <= from <= i < word_stop(s, from, wide),
    ensures
        i < s.len(),
        word_byte(s[i], wide),
    decreases s.len() - from,
{
    if from < s.len() && word_byte(s[from], wide) && i > from {
        lemma_word_bytes(s, from + 1, wide, i);
    }
}

/// The bytes of a definition, from its start to where it stops, are no
/// braces.
pub proof fn lemma_definition_bytes(s: Seq<u8>, from: int, i: int)
    requires
        0 <= from <= i < definition_stop(s, from),
    ensures
        i < s.len(),
        s[i] != OPEN,
        s[i] != CLOSE,
    decreases s.len() - from,
{
    if from < s.len() && s[from] != OPEN && s[from] != CLOSE && i > from {
        lemma_definition_bytes(s, from + 1, i);
    }
}

/// ASCII bytes spell the characters with their values.
pub proof fn lemma_ascii_text(bytes: Seq<u8>)
    requires
        forall|i: int| 0 <= i < bytes.len() ==> #[trigger] bytes[i] < 0x80,
    ensures
        decode_utf8(bytes).len() == bytes.len(),
        forall|i: int|
            0 <= i < bytes.len() ==> #[trigger] decode_utf8(bytes)[i] as u32 == bytes[i] as u32,
{
    let chars = Seq::new(bytes.len(), |i: int| bytes[i] as char);
    assert(is_ascii_chars(chars));
    is_ascii_chars_encode_utf8(chars);
    assert(encode_utf8(chars) =~= bytes);
    encode_utf8_decode_utf8(chars);
}

/// A brace in a text is a byte of a brace in its UTF-8 form.
pub proof fn lemma_brace_byte(chars: Seq<char>, i: int)
    requires
        0 <= i < chars.len(),
        chars[i] == '{' || chars[i] == '}',
    ensures
        exists|j: int|
            0 <= j < encode_utf8(chars).len() && (#[trigger] encode_utf8(chars)[j] == OPEN
                || encode_utf8(chars)[j] == CLOSE),
    decreases chars.len(),
{
    let first = encode_scalar(chars[0] as u32);
    let rest = encode_utf8(chars.drop_first());
    assert(encode_utf8(chars) == first + rest);
    if i == 0 {
        let c = chars[0] as u32;
        assert(c == 0x7b || c == 0x7d);
        assert(leading_byte_width_1(0x7b) == 0x7b) by (bit_vector);
        assert(leading_byte_width_1(0x7d) == 0x7d) by (bit_vector);
        assert(encode_utf8(chars)[0] == first[0]);
    } else {
        assert(chars.drop_first()[i - 1] == chars[i]);
        lemma_brace_byte(chars.drop_first(), i - 1);
        let j = choose|j: int|
            0 <= j < rest.len() && (#[trigger] rest[j] == OPEN || rest[j] == CLOSE);
        assert(encode_utf8(chars)[first.len() + j] == rest[j]);
    }
}

/// Valid UTF-8 without the two bytes of the braces spells a text without
/// braces.
pub proof fn lemma_no_braces(bytes: Seq<u8>, i: int)
    requires
        valid_utf8(bytes),
        forall|j: int| 0 <= j < bytes.len() ==> #[trigger] bytes[j] != OPEN && bytes[j] != CLOSE,
        0 <= i < decode_utf8(bytes).len(),
    ensures
        decode_utf8(bytes)[i] != '{',
        decode_utf8(bytes)[i] != '}',
{
    let chars = decode_utf8(bytes);
    decode_utf8_encode_utf8(bytes);
    if chars[i] == '{' || chars[i] == '}' {
        lemma_brace_byte(chars, i);
    }
}

/// The fields of a word that was read are of its class of characters.
pub proof fn lemma_word_text(s: Seq<u8>, from: int, wide: bool)
    requires
        valid_utf8(s),
        cut(s, from),
    ensures
        munch(s, from, wide) matches Ok(stop) ==> text_of(s, from, stop).len() == stop - from
            && forall|i: int|
            0 <= i < stop - from ==> if wide {
                field_char(#[trigger] text_of(s, from, stop)[i])
            } else {
                name_char(text_of(s, from, stop)[i])
            },
{
    if let Ok(stop) = munch(s, from, wide) {
        lemma_word_stop(s, from, wide);
        let bytes = s.subrange(from, stop);
        assert forall|i: int| 0 <= i < bytes.len() implies #[trigger] bytes[i] < 0x80
            && word_byte(bytes[i], wide) by {
            lemma_word_bytes(s, from, wide, from + i);
        }
        lemma_ascii_text(bytes);
        assert forall|i: int| 0 <= i < stop - from implies if wide {
            field_char(#[trigger] text_of(s, from, stop)[i])
        } else {
            name_char(text_of(s, from, stop)[i])
        } by {
            let c = text_of(s, from, stop)[i];
            let b = bytes[i];
            assert(c as u32 == b as u32);
            assert(word_byte(b, wide));
            char_u32_cast(c, c as u32);
            char_u32_cast('_', 0x5f);
            char_u32_cast('-', 0x2d);
            char_u32_cast('[', 0x5b);
            char_u32_cast(']', 0x5d);
            char_u32_cast('.', 0x2e);
        }
    }
}

/// Whether the fields of a token are of their classes of characters: a
/// NAME is not empty and holds letters, digits and `_`; an ALIAS and an
/// EXTRACT hold these and `-`, `[`, `]`, `.`; a DEFINITION holds no brace.
pub open spec fn fields_in_class(token: Token) -> bool {
    match token {
        Token::Placeholder { name, alias, extract, definition, .. } => {
            &&& name.len() > 0
            &&& forall|i: int| 0 <= i < name.len() ==> name_char(#[trigger] name[i])
            &&& forall|i: int| 0 <= i < alias.len() ==> field_char(#[trigger] alias[i])
            &&& forall|i: int| 0 <= i < extract.len() ==> field_char(#[trigger] extract[i])
            &&& forall|i: int|
                0 <= i < definition.len() ==> #[trigger] definition[i] != '{' && definition[i]
                    != '}'
        },
        _ => true,
    }
}

/// The definition that follows `=` holds no brace.
proof fn lemma_definition_text(s: Seq<u8>, stop: int)
    requires
        valid_utf8(s),
        0 <= stop < s.len(),
        s[stop] < 0x80,
        definition_stop(s, stop + 1) < s.len(),
        s[definition_stop(s, stop + 1)] == CLOSE,
    ensures
        forall|i: int|
            0 <= i < text_of(s, stop + 1, definition_stop(s, stop + 1)).len() ==> #[trigger] text_of(
                s,
                stop + 1,
                definition_stop(s, stop + 1),
            )[i] != '{' && text_of(s, stop + 1, definition_stop(s, stop + 1))[i] != '}',
{
    let close = definition_stop(s, stop + 1);
    lemma_definition_stop(s, stop + 1);
    lemma_ascii_boundaries(s, stop);
    lemma_ascii_boundaries(s, close);
    crate::text::lemma_slice_valid(s, stop + 1, close);
    let bytes = s.subrange(stop + 1, close);
    assert forall|j: int| 0 <= j < bytes.len() implies #[trigger] bytes[j] != OPEN && bytes[j]
        != CLOSE by {
        lemma_definition_bytes(s, stop + 1, stop + 1 + j);
    }
    assert forall|i: int| 0 <= i < decode_utf8(bytes).len() implies #[trigger] decode_utf8(
        bytes,
    )[i] != '{' && decode_utf8(bytes)[i] != '}' by {
        lemma_no_braces(bytes, i);
    }
}

/// No field that the scanner returns holds a character outside its class.
pub proof fn lemma_fields_in_class(source: Seq<char>, start: int)
    requires
        cut(encode_utf8(source), start),
        start < encode_utf8(source).len(),
    ensures
        fields_in_class(token_at(encode_utf8(source), start)),
{
    let s = encode_utf8(source);
    encode_utf8_valid_utf8(source);
    reveal(token_at);
    if s[start] == PERCENT && start + 1 < s.len() && s[start + 1] == OPEN {
        lemma_ascii_boundaries(s, start + 1);
        lemma_munch(s, start + 2, false);
        lemma_word_text(s, start + 2, false);
        if let Ok(e0) = munch(s, start + 2, false) {
            if definition_stop(s, e0 + 1) < s.len() && s[definition_stop(s, e0 + 1)] == CLOSE {
                lemma_definition_text(s, e0);
            }
            lemma_munch(s, e0 + 1, true);
            lemma_word_text(s, e0 + 1, true);
            if let Ok(e1) = munch(s, e0 + 1, true) {
                if definition_stop(s, e1 + 1) < s.len() && s[definition_stop(s, e1 + 1)]
                    == CLOSE {
                    lemma_definition_text(s, e1);
                }
                lemma_munch(s, e1 + 1, true);
                lemma_word_text(s, e1 + 1, true);
                if let Ok(e2) = munch(s, e1 + 1, true) {
                    if definition_stop(s, e2 + 1) < s.len() && s[definition_stop(s, e2 + 1)]
                        == CLOSE {
                        lemma_definition_text(s, e2);
                    }
                }
            }
        }
    }
}

} // verus!
