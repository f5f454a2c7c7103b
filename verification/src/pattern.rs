//! Regular expressions, through the `regex` crate.
use regex::Regex;
use vstd::prelude::*;

verus! {

#[verifier::external_type_specification]
#[verifier::external_body]
pub struct ExRegex(Regex);

/// Whether `regex::Regex::new` accepts the pattern.
pub uninterp spec fn regex_compiles(pattern: Seq<char>) -> bool;

/// The span, in characters, of the leftmost-first match of `pattern` in
/// `text`, as `regex::Regex::find` gives it.
pub uninterp spec fn regex_find(pattern: Seq<char>, text: Seq<char>) -> Option<(usize, usize)>;

/// The span, in characters, of capture group `group` of the leftmost-first
/// match of `pattern` in `text`, as `regex::Regex::captures` gives it.
pub uninterp spec fn regex_group(pattern: Seq<char>, text: Seq<char>, group: usize) -> Option<
    (usize, usize),
>;

/// A compiled regular expression, with the pattern it was compiled from.
pub struct Pattern {
    source: String,
    compiled: Regex,
}

impl Pattern {
    /// The pattern this expression was compiled from.
    pub closed spec fn source(&self) -> Seq<char> {
        self.source@
    }

    /// `regex::Regex::new`: compiles `pattern`; `None` where the crate
    /// refuses it.
    #[verifier::external_body]
    pub fn new(pattern: &str) -> (res: Option<Pattern>)
        ensures
            res is Some <==> regex_compiles(pattern@),
            res matches Some(p) ==> p.source() == pattern@,
    {
        match Regex::new(pattern) {
            Ok(compiled) => Some(Pattern { source: pattern.to_string(), compiled }),
            Err(_) => None,
        }
    }

    /// `regex::Regex::find`: the span of the leftmost-first match in `text`,
    /// with its byte offsets turned into character offsets. A match lies
    /// within the text.
    #[verifier::external_body]
    pub fn find(&self, text: &str) -> (res: Option<(usize, usize)>)
        ensures
            res == regex_find(self.source(), text@),
            res matches Some((s, e)) ==> s <= e <= text@.len(),
    {
        match self.compiled.find(text) {
            Some(m) => Some((text[..m.start()].chars().count(), text[..m.end()].chars().count())),
            None => None,
        }
    }

    /// `regex::Regex::captures`: the span of capture group `group` of the
    /// leftmost-first match in `text`, in character offsets. A group lies
    /// within the text.
    #[verifier::external_body]
    pub fn group(&self, text: &str, group: usize) -> (res: Option<(usize, usize)>)
        ensures
            res == regex_group(self.source(), text@, group),
            res matches Some((s, e)) ==> s <= e <= text@.len(),
    {
        match self.compiled.captures(text) {
            Some(caps) => match caps.get(group) {
                Some(m) => Some(
                    (text[..m.start()].chars().count(), text[..m.end()].chars().count()),
                ),
                None => None,
            },
            None => None,
        }
    }
}

} // verus!
