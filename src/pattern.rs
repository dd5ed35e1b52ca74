//! The pattern compiler: one regular expression that matches a line holding
//! the search pattern together with a bounded window of lines around it.
//!
//! The search pattern is spliced into the expression as it is: characters
//! with a meaning in regular-expression syntax keep that meaning, so a
//! pattern such as `a(b` makes the whole expression invalid.
use vstd::prelude::*;
use regex::Regex;
use crate::text::{chars_of, decimal, push_decimal};

verus! {

#[verifier::external_type_specification]
#[verifier::external_body]
pub struct ExRegex(Regex);

#[verifier::external_type_specification]
#[verifier::external_body]
pub struct ExRegexError(regex::Error);

/// Whether the regex engine builds a regex from `expr`.
pub uninterp spec fn regex_accepts(expr: Seq<char>) -> bool;

/// The text of the leftmost-first match of the regex built from `expr` in
/// `text`, if there is one.
pub uninterp spec fn leftmost_match(expr: Seq<char>, text: Seq<char>) -> Option<Seq<char>>;

/// The view of an optional string.
pub open spec fn opt_text(o: Option<String>) -> Option<Seq<char>> {
    match o {
        Some(s) => Some(s@),
        None => None,
    }
}

/// The expression for a search: an optional case-insensitivity flag, up to
/// `before` whole lines each ended by a line break, a line that contains
/// `pattern`, and up to `after` further lines.
pub open spec fn expression_of(pattern: Seq<char>, before: nat, after: nat, case_insensitive: bool) -> Seq<char> {
    (if case_insensitive { "(?i)"@ } else { Seq::empty() })
        + "(?:.*\\n){0,"@ + decimal(before) + "}.*"@
        + pattern
        + ".*(?:\\n.*){0,"@ + decimal(after) + "}"@
}

/// Relies on regex::Regex::new, which fails exactly on the expressions that
/// its parser or its default size limit refuses; that depends on the
/// expression alone.
#[verifier::external_body]
fn new_regex(expr: &str) -> (r: Result<Regex, regex::Error>)
    ensures
        r is Ok <==> regex_accepts(expr@),
{
    Regex::new(expr)
}

/// Relies on regex::Regex::find, through `Match::as_str`: the text of the
/// first match in `text`. `m.regex` was built from `m.expression`: only
/// `SearchSpec::compile` makes a `Matcher`.
#[verifier::external_body]
fn first_match(m: &Matcher, text: &Vec<char>) -> (r: Option<String>)
    ensures
        opt_text(r) == leftmost_match(m.expression(), text@),
{
    let hay: String = text.iter().collect();
    m.regex.find(&hay).map(|found| found.as_str().to_string())
}

/// What a search looks for.
pub struct SearchSpec {
    pub pattern: String,
    pub context_before: u32,
    pub context_after: u32,
    pub case_insensitive: bool,
}

/// The expression could not be built into a regex.
pub struct PatternError {
    /// The assembled expression that was refused.
    pub expression: String,
    /// The regex engine's description of the refusal.
    pub message: String,
}

/// A compiled search: a regex together with the expression it was built from.
pub struct Matcher {
    regex: Regex,
    expression: String,
}

impl SearchSpec {
    /// The expression that this search compiles to.
    pub open spec fn expression_spec(&self) -> Seq<char> {
        expression_of(self.pattern@, self.context_before as nat, self.context_after as nat, self.case_insensitive)
    }

    /// Assembles the expression that this search compiles to.
    pub fn expression(&self) -> (r: String)
        ensures
            r@ == self.expression_spec(),
    {
        let mut r = String::new();
        if self.case_insensitive {
            r.append("(?i)");
        }
        r.append("(?:.*\\n){0,");
        push_decimal(&mut r, self.context_before as usize);
        r.append("}.*");
        r.append(self.pattern.as_str());
        r.append(".*(?:\\n.*){0,");
        push_decimal(&mut r, self.context_after as usize);
        r.append("}");
        assert(r@ =~= self.expression_spec());
        r
    }

    /// Compiles this search. It fails, before any text is read, exactly when
    /// the regex engine refuses the assembled expression.
    pub fn compile(&self) -> (r: Result<Matcher, PatternError>)
        ensures
            r is Ok <==> regex_accepts(self.expression_spec()),
            r matches Ok(m) ==> m.expression() == self.expression_spec(),
            r matches Err(e) ==> e.expression@ == self.expression_spec(),
    {
        let expression = self.expression();
        match new_regex(expression.as_str()) {
            Ok(regex) => Ok(Matcher { regex, expression }),
            Err(e) => Err(PatternError { expression, message: e.to_string() }),
        }
    }
}

impl Matcher {
    /// The expression this matcher was built from.
    pub closed spec fn expression(&self) -> Seq<char> {
        self.expression@
    }

    /// The expression this matcher was built from.
    pub fn as_str(&self) -> (r: &str)
        ensures
            r@ == self.expression(),
    {
        self.expression.as_str()
    }

    /// The first match in a text, which may span several lines: there the
    /// match covers the context window around the matching line.
    pub fn find(&self, text: &str) -> (r: Option<String>)
        ensures
            opt_text(r) == leftmost_match(self.expression(), text@),
    {
        let cs = chars_of(text);
        first_match(self, &cs)
    }

    /// The first match in a line or block of text, given as characters.
    pub fn find_chars(&self, text: &Vec<char>) -> (r: Option<String>)
        ensures
            opt_text(r) == leftmost_match(self.expression(), text@),
    {
        first_match(self, text)
    }
}

} // verus!
