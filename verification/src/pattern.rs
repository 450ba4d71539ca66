//! Regular expressions of the crate `regex`, each kept with the text that it
//! was compiled from.
//!
//! Nothing but `compile` makes a `Pattern`, so the compiled form of a pattern
//! always belongs to its text.

use crate::project::option_texts;
use crate::text::contains;
use regex::Regex;
use vstd::prelude::*;

verus! {

/// `Regex` of the crate `regex`, a compiled regular expression. The library
/// sees nothing of what is inside it.
#[verifier::external_type_specification]
#[verifier::external_body]
pub struct ExRegex(regex::Regex);

/// A regular expression: its text, and what the crate `regex` compiled the
/// text to.
pub struct Pattern {
    source: String,
    compiled: Regex,
}

impl View for Pattern {
    type V = Seq<char>;

    closed spec fn view(&self) -> Seq<char> {
        self.source@
    }
}

/// For each match of the expression `pattern` in `text`, in the order of the
/// matches, the text of the first group of the match, or `None` where the
/// group took no part in the match.
pub uninterp spec fn first_groups_of(pattern: Seq<char>, text: Seq<char>) -> Seq<Option<Seq<char>>>;

/// `Regex::new` of the crate `regex`: the compiled form of `source`, kept
/// with `source`; nothing where the crate does not accept `source`.
#[verifier::external_body]
pub(crate) fn compile(source: &str) -> (pattern: Option<Pattern>)
    ensures
        pattern matches Some(p) ==> p@ == source@,
{
    Regex::new(source).ok().map(|compiled| Pattern { source: source.to_owned(), compiled })
}

/// `Regex::captures_iter` of the crate `regex`, with `Captures::get` for the
/// first group of each match: for each match of `pattern` in `text`, in the
/// order of the matches, the text of its first group where the group took
/// part in the match. What is found depends on the expression and on `text`
/// alone, and each text found is a piece of `text`.
#[verifier::external_body]
pub(crate) fn first_groups(pattern: &Pattern, text: &str) -> (groups: Vec<Option<String>>)
    ensures
        option_texts(groups@) == first_groups_of(pattern@, text@),
        forall|i: int|
            0 <= i < groups@.len() ==> (#[trigger] groups@[i] matches Some(name) ==> contains(
                text@,
                name@,
            )),
{
    pattern.compiled.captures_iter(text).map(
        |found| found.get(1).map(|group| group.as_str().to_owned()),
    ).collect()
}

} // verus!
