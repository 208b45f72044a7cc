//! A cheap filter in front of the classifier: most user turns say nothing about the items in play.

use regex::Regex;
use vstd::prelude::*;

verus! {

/// Words that praise or blame, at word boundaries and in any case, with straight, curly or missing
/// apostrophes; and the mark of an interrupt.
pub const DEFAULT_PATTERN: &'static str = r"(?ix)
    (?:
        # Praise
        \b (?:
            thanks?       | thank\s+you   | perfect      | exactly
          | great         | awesome       | excellent    | brilliant
          | nice          | cool          | sweet        | yay
          | lol           | lmao          | rofl
          | (?:you['‘’]?re|youre|that['‘’]?s|thats)\s+right
        ) \b
      |
        # Blame
        \b (?:
            wrong         | broken        | sorry        | bad
          | no(?:pe)?     | not           | stop         | bug
          | error         | fail(?:ed|s)? | bullshit
        ) \b
      |
        # Negated verbs
        \b (?:
            do['‘’]?n['‘’]?t
          | does['‘’]?n['‘’]?t
          | did['‘’]?n['‘’]?t
          | won['‘’]?t
          | can['‘’]?t        | cannot
          | should['‘’]?n['‘’]?t
          | would['‘’]?n['‘’]?t
          | could['‘’]?n['‘’]?t
          | is['‘’]?n['‘’]?t
          | are['‘’]?n['‘’]?t
          | was['‘’]?n['‘’]?t
          | were['‘’]?n['‘’]?t
        ) \b
      |
        # Groans
        \b (?: ugh | meh | wtf | fuck (?:ing|ed)? ) \b
      |
        # What the host writes on an interrupt
        \[Request\s+interrupted
    )
";

/// What `regex::Regex::new` says against a pattern, if anything.
pub uninterp spec fn pattern_error(pattern: Seq<char>) -> Option<Seq<char>>;

/// Whether `regex::Regex::is_match` finds a pattern in a text, for a pattern that compiles.
pub uninterp spec fn pattern_found(pattern: Seq<char>, text: Seq<char>) -> bool;

/// Calls `regex::Regex::new`. The contract says that the message, or that there is none, depends on
/// the pattern alone.
#[verifier::external_body]
fn regex_check(pattern: &str) -> (r: Result<(), String>)
    ensures
        match r {
            Ok(_) => pattern_error(pattern@) is None,
            Err(e) => pattern_error(pattern@) == Some(e@),
        },
{
    match Regex::new(pattern) {
        Ok(_) => Ok(()),
        Err(e) => Err(e.to_string()),
    }
}

/// Calls `regex::Regex::new` and, where the pattern compiles, `regex::Regex::is_match`. The contract
/// says that there is an answer where the pattern compiles, and that it depends on the pattern and
/// the text alone.
#[verifier::external_body]
fn regex_is_match(pattern: &str, text: &str) -> (r: Option<bool>)
    ensures
        match r {
            Some(found) => pattern_error(pattern@) is None && found == pattern_found(
                pattern@,
                text@,
            ),
            None => pattern_error(pattern@) is Some,
        },
{
    match Regex::new(pattern) {
        Ok(regex) => Some(regex.is_match(text)),
        Err(_) => None,
    }
}

/// The filter.
#[derive(Debug, Clone, PartialEq, Eq)]
pub struct Pretrigger {
    pattern: String,
}

impl View for Pretrigger {
    type V = Seq<char>;

    closed spec fn view(&self) -> Seq<char> {
        self.pattern@
    }
}

/// Whether a filter with this pattern lets a text through.
pub open spec fn fires(pattern: Seq<char>, text: Seq<char>) -> bool {
    pattern_error(pattern) is None && pattern_found(pattern, text)
}

impl Default for Pretrigger {
    fn default() -> (p: Pretrigger)
        ensures
            p@ == DEFAULT_PATTERN@,
    {
        Pretrigger { pattern: DEFAULT_PATTERN.to_owned() }
    }
}

impl Pretrigger {
    /// A filter with another pattern, or what is wrong with the pattern.
    pub fn with_pattern(pattern: &str) -> (r: Result<Pretrigger, String>)
        ensures
            match r {
                Ok(p) => pattern_error(pattern@) is None && p@ == pattern@,
                Err(e) => pattern_error(pattern@) == Some(e@),
            },
    {
        match regex_check(pattern) {
            Ok(_) => Ok(Pretrigger { pattern: pattern.to_owned() }),
            Err(e) => Err(e),
        }
    }

    /// Whether the pattern is found in the text.
    pub fn fires_on(&self, text: &str) -> (b: bool)
        ensures
            b == fires(self@, text@),
    {
        match regex_is_match(self.pattern.as_str(), text) {
            Some(found) => found,
            None => false,
        }
    }
}

// ---- Laws --------------------------------------------------------------------

/// A filter fires on exactly the texts in which its pattern is found; a pattern that is wrong makes
/// no filter.
pub proof fn law_a_filter_fires_where_its_pattern_is_found(
    pattern: &str,
    made: Result<Pretrigger, String>,
    text: &str,
    fired: bool,
)
    requires
        call_ensures(Pretrigger::with_pattern, (pattern,), made),
        made is Ok ==> call_ensures(Pretrigger::fires_on, (&made->Ok_0, text), fired),
    ensures
        made is Ok <==> pattern_error(pattern@) is None,
        made is Ok ==> (fired <==> pattern_found(pattern@, text@)),
{
}

} // verus!
