//! Grok patterns: regular expressions with named placeholders, compiled into
//! matchers for unstructured text.
//!
//! A grok pattern such as `%{IPORHOST:clientip} %{USER:ident}` mixes regular
//! expression text with placeholders. A placeholder stands for the body that
//! a dictionary holds under its name, and that body may hold placeholders in
//! turn. [`Grok`] is the dictionary. [`Grok::compile`] expands a source into
//! one flat regular expression, hands it to a regex engine, and returns a
//! [`Pattern`]. [`Pattern::match_against`] runs the pattern on a text and
//! returns the [`Matches`]: the parts of the text that the placeholders
//! captured, under the keys that the source gave them.
//!
//! The modules, from the leaves up:
//!
//! - [`text`]: texts as UTF-8 bytes, their order and their slices;
//! - [`strmap`]: a map keyed by text, kept in the order of its keys;
//! - [`parser`]: the scanner that cuts a source into literals and
//!   placeholders;
//! - [`expand`]: what a source expands to, stated as a function;
//! - [`grok`]: the dictionary and the compiler that computes that function;
//! - [`names`]: the table from keys to capture groups, and the captures of a
//!   match seen through it;
//! - [`pcre2_engine`], [`fancy_engine`], [`onig_engine`], [`regex_engine`]:
//!   one adapter for each regex engine;
//! - [`pattern`]: compiled patterns and their matches, run by PCRE2;
//! - [`defaults`]: the patterns that a dictionary holds from the start;
//! - [`error`]: the errors of a compilation;
//! - [`laws`]: what holds of every compilation and of every match.
//!
//! What the engines do is taken on trust: which texts they accept as
//! regular expressions, how they number and name their groups, and what
//! they find in a text. So are two facts about the standard library: that
//! `String::push` appends a character, and that the `Debug` form of a `char`
//! depends on the character alone. All else is proved.

pub mod defaults;
pub mod error;
pub mod expand;
pub mod fancy_engine;
pub mod grok;
pub mod laws;
pub mod names;
pub mod onig_engine;
pub mod parser;
pub mod pattern;
pub mod pcre2_engine;
pub mod regex_engine;
pub mod strmap;
pub mod text;

pub use defaults::patterns;
pub use error::Error;
pub use grok::Grok;
pub use names::MatchesIter;
pub use pattern::{Matches, Pattern};

use vstd::prelude::*;

verus! {

/// The deepest stack of nested expansions that a compilation may reach.
pub const MAX_RECURSION: usize = 1024;

} // verus!
