//! Patterns over relative paths: shell globs and regular expressions.
//!
//! A pattern is kept as the text it was written in. It is compiled by the
//! `glob` or the `regex` crate when it is made, which is where a malformed
//! one is refused, and again where it is matched.

use crate::failure::{Failure, FailureKind};
use vstd::prelude::*;

verus! {

#[verifier::external_type_specification]
#[verifier::external_body]
pub struct ExGlobPatternError(glob::PatternError);

#[verifier::external_type_specification]
#[verifier::external_body]
pub struct ExRegexError(regex::Error);

/// Whether `glob::Pattern::new` compiles `pattern`.
pub uninterp spec fn glob_compiles(pattern: Seq<char>) -> bool;

/// Whether the glob compiled from `pattern` matches all of `text`, as
/// `glob::Pattern::matches` tells.
pub uninterp spec fn glob_matches(pattern: Seq<char>, text: Seq<char>) -> bool;

/// Whether `glob::glob` takes `pattern` for a walk of the file system.
pub uninterp spec fn glob_walks(pattern: Seq<char>) -> bool;

/// Whether `regex::Regex::new` compiles `pattern`.
pub uninterp spec fn regex_compiles(pattern: Seq<char>) -> bool;

/// Whether the regular expression compiled from `pattern` matches somewhere
/// in `text`, as `regex::Regex::is_match` tells.
pub uninterp spec fn regex_matches(pattern: Seq<char>, text: Seq<char>) -> bool;

/// Calls `glob::Pattern::new` and, on the compiled pattern,
/// `glob::Pattern::matches`. Trusted: the call fails exactly where
/// `glob_compiles` does not hold of the pattern's text, with the error of
/// `glob::Pattern::new`; else it tells what `glob_matches` names for the
/// two texts.
#[verifier::external_body]
fn glob_test(pattern: &str, text: &str) -> (r: Result<bool, glob::PatternError>)
    ensures
        r.is_ok() == glob_compiles(pattern@),
        r matches Ok(b) ==> b == glob_matches(pattern@, text@),
{
    match glob::Pattern::new(pattern) {
        Ok(p) => Ok(p.matches(text)),
        Err(e) => Err(e),
    }
}

/// Calls `glob::glob` and drops the walk before its first step, so that no
/// file is looked at. Trusted: the call succeeds exactly where `glob_walks`
/// holds of the text.
#[verifier::external_body]
fn glob_walk_check(pattern: &str) -> (ok: bool)
    ensures
        ok == glob_walks(pattern@),
{
    glob::glob(pattern).is_ok()
}

/// The text that `glob::PatternError` displays, by its `to_string`. Trusted
/// to return; nothing is claimed of the text.
#[verifier::external_body]
fn glob_error_text(e: &glob::PatternError) -> (s: String) {
    e.to_string()
}

/// Calls `regex::Regex::new` and, on the compiled expression,
/// `regex::Regex::is_match`. Trusted: the call fails exactly where
/// `regex_compiles` does not hold of the pattern's text, with the error of
/// `regex::Regex::new`; else it tells what `regex_matches` names for the
/// two texts.
#[verifier::external_body]
fn regex_test(pattern: &str, text: &str) -> (r: Result<bool, regex::Error>)
    ensures
        r.is_ok() == regex_compiles(pattern@),
        r matches Ok(b) ==> b == regex_matches(pattern@, text@),
{
    match regex::Regex::new(pattern) {
        Ok(p) => Ok(p.is_match(text)),
        Err(e) => Err(e),
    }
}

/// The text that `regex::Error` displays, by its `to_string`. Trusted to
/// return; nothing is claimed of the text.
#[verifier::external_body]
fn regex_error_text(e: &regex::Error) -> (s: String) {
    e.to_string()
}

/// A pattern, by the way it is read.
#[derive(Debug)]
pub enum Pattern {
    /// A shell glob: `*`, `**`, `?` and character classes.
    Glob(String),
    /// A regular expression.
    Regex(String),
}

/// What a `Pattern` stands for.
pub enum PatternView {
    Glob(Seq<char>),
    Regex(Seq<char>),
}

impl PatternView {
    /// The pattern compiles.
    pub open spec fn valid(self) -> bool {
        match self {
            PatternView::Glob(t) => glob_compiles(t),
            PatternView::Regex(t) => regex_compiles(t),
        }
    }

    /// The pattern compiles and matches `text`.
    pub open spec fn accepts(self, text: Seq<char>) -> bool {
        match self {
            PatternView::Glob(t) => glob_compiles(t) && glob_matches(t, text),
            PatternView::Regex(t) => regex_compiles(t) && regex_matches(t, text),
        }
    }
}

/// Whether one of `patterns` accepts `text`.
pub open spec fn any_accepts(patterns: Seq<PatternView>, text: Seq<char>) -> bool {
    exists|i: int| 0 <= i < patterns.len() && (#[trigger] patterns[i]).accepts(text)
}

/// The globs written as `texts`.
pub open spec fn globs(texts: Seq<Seq<char>>) -> Seq<PatternView> {
    texts.map_values(|t: Seq<char>| PatternView::Glob(t))
}

/// The regular expressions written as `texts`.
pub open spec fn regexes(texts: Seq<Seq<char>>) -> Seq<PatternView> {
    texts.map_values(|t: Seq<char>| PatternView::Regex(t))
}

/// Whether `patterns` are all read one way: all globs, or all regular
/// expressions.
pub open spec fn uniform(patterns: Seq<PatternView>) -> bool {
    ||| forall|i: int| 0 <= i < patterns.len() ==> (#[trigger] patterns[i]) is Glob
    ||| forall|i: int| 0 <= i < patterns.len() ==> (#[trigger] patterns[i]) is Regex
}

/// Whether every one of `patterns` compiles.
pub open spec fn all_valid(patterns: Seq<PatternView>) -> bool {
    forall|i: int| 0 <= i < patterns.len() ==> (#[trigger] patterns[i]).valid()
}

impl View for Pattern {
    type V = PatternView;

    open spec fn view(&self) -> PatternView {
        match self {
            Pattern::Glob(t) => PatternView::Glob(t@),
            Pattern::Regex(t) => PatternView::Regex(t@),
        }
    }
}

impl DeepView for Pattern {
    type V = PatternView;

    open spec fn deep_view(&self) -> PatternView {
        self@
    }
}

impl Clone for Pattern {
    fn clone(&self) -> (p: Self)
        ensures
            p == *self,
    {
        match self {
            Pattern::Glob(t) => Pattern::Glob(t.clone()),
            Pattern::Regex(t) => Pattern::Regex(t.clone()),
        }
    }
}

impl Pattern {
    /// The glob written as `text`, or the reason why it does not compile:
    /// the text is compiled once here, so that a malformed one is refused
    /// where it is made.
    pub fn glob(text: &str) -> (r: Result<Pattern, Failure>)
        ensures
            r.is_ok() == glob_compiles(text@),
            r matches Ok(p) ==> p@ == PatternView::Glob(text@),
            r matches Err(e) ==> e.kind == FailureKind::Pattern,
    {
        match glob_test(text, "") {
            Ok(_) => Ok(Pattern::Glob(String::from_str(text))),
            Err(e) => Err(Failure::new(FailureKind::Pattern, glob_error_text(&e))),
        }
    }

    /// The regular expression written as `text`, or the reason why it does
    /// not compile.
    pub fn regex(text: &str) -> (r: Result<Pattern, Failure>)
        ensures
            r.is_ok() == regex_compiles(text@),
            r matches Ok(p) ==> p@ == PatternView::Regex(text@),
            r matches Err(e) ==> e.kind == FailureKind::Pattern,
    {
        match regex_test(text, "") {
            Ok(_) => Ok(Pattern::Regex(String::from_str(text))),
            Err(e) => Err(Failure::new(FailureKind::Pattern, regex_error_text(&e))),
        }
    }

    /// Tells whether the pattern matches `s`. A pattern that does not
    /// compile matches nothing.
    pub fn matches(&self, s: &str) -> (b: bool)
        ensures
            b == self@.accepts(s@),
    {
        match self {
            Pattern::Glob(t) => match glob_test(t.as_str(), s) {
                Ok(b) => b,
                Err(_) => false,
            },
            Pattern::Regex(t) => match regex_test(t.as_str(), s) {
                Ok(b) => b,
                Err(_) => false,
            },
        }
    }
}

/// Tells whether one of `patterns` matches `path`.
pub fn should_ignore(path: &str, patterns: &Vec<Pattern>) -> (b: bool)
    ensures
        b == any_accepts(patterns.deep_view(), path@),
{
    let mut i: usize = 0;
    while i < patterns.len()
        invariant
            i <= patterns.len(),
            forall|j: int| 0 <= j < i ==> !(#[trigger] patterns.deep_view()[j]).accepts(path@),
        decreases patterns.len() - i,
    {
        if patterns[i].matches(path) {
            assert(patterns.deep_view()[i as int].accepts(path@));
            return true;
        }
        i += 1;
    }
    false
}

/// Tells whether `pattern` can be expanded in the file system.
pub fn can_expand(pattern: &str) -> (ok: bool)
    ensures
        ok == glob_walks(pattern@),
{
    glob_walk_check(pattern)
}

/// The allow-list of a run: a relative path is kept only if one of the
/// patterns matches it.
#[derive(Debug)]
pub struct Only {
    pub patterns: Vec<Pattern>,
}

impl View for Only {
    type V = Seq<PatternView>;

    open spec fn view(&self) -> Seq<PatternView> {
        self.patterns.deep_view()
    }
}

impl DeepView for Only {
    type V = Seq<PatternView>;

    open spec fn deep_view(&self) -> Seq<PatternView> {
        self@
    }
}

impl Clone for Only {
    fn clone(&self) -> (o: Self)
        ensures
            o@ == self@,
    {
        let mut ps: Vec<Pattern> = Vec::new();
        let mut i: usize = 0;
        while i < self.patterns.len()
            invariant
                i <= self.patterns.len(),
                ps.len() == i,
                ps.deep_view() == self.patterns.deep_view().take(i as int),
            decreases self.patterns.len() - i,
        {
            ps.push(self.patterns[i].clone());
            assert(ps.deep_view() =~= self.patterns.deep_view().take(i + 1));
            i += 1;
        }
        assert(self.patterns.deep_view().take(i as int) =~= self.patterns.deep_view());
        Only { patterns: ps }
    }
}

impl Only {
    /// The allow-list is well formed: its patterns compile, and they are
    /// all read one way.
    pub open spec fn wf(&self) -> bool {
        all_valid(self@) && uniform(self@)
    }

    /// The allow-list of the globs `patterns`, or the error of the first
    /// that does not compile.
    pub fn from_glob(patterns: &Vec<String>) -> (r: Result<Only, Failure>)
        ensures
            r.is_ok() == all_valid(globs(patterns.deep_view())),
            r matches Ok(o) ==> o@ == globs(patterns.deep_view()) && o.wf(),
            r matches Err(e) ==> e.kind == FailureKind::Pattern,
    {
        let mut ps: Vec<Pattern> = Vec::new();
        let mut i: usize = 0;
        while i < patterns.len()
            invariant
                i <= patterns.len(),
                ps.len() == i,
                ps.deep_view() == globs(patterns.deep_view()).take(i as int),
                all_valid(ps.deep_view()),
            decreases patterns.len() - i,
        {
            match Pattern::glob(patterns[i].as_str()) {
                Ok(p) => {
                    ps.push(p);
                    assert(ps.deep_view() =~= globs(patterns.deep_view()).take(i + 1));
                },
                Err(e) => {
                    assert(!globs(patterns.deep_view())[i as int].valid());
                    return Err(e);
                },
            }
            i += 1;
        }
        assert(globs(patterns.deep_view()).take(i as int) =~= globs(patterns.deep_view()));
        Ok(Only { patterns: ps })
    }

    /// The allow-list of the regular expressions `patterns`, or the error of
    /// the first that does not compile.
    pub fn from_regex(patterns: &Vec<String>) -> (r: Result<Only, Failure>)
        ensures
            r.is_ok() == all_valid(regexes(patterns.deep_view())),
            r matches Ok(o) ==> o@ == regexes(patterns.deep_view()) && o.wf(),
            r matches Err(e) ==> e.kind == FailureKind::Pattern,
    {
        let mut ps: Vec<Pattern> = Vec::new();
        let mut i: usize = 0;
        while i < patterns.len()
            invariant
                i <= patterns.len(),
                ps.len() == i,
                ps.deep_view() == regexes(patterns.deep_view()).take(i as int),
                all_valid(ps.deep_view()),
            decreases patterns.len() - i,
        {
            match Pattern::regex(patterns[i].as_str()) {
                Ok(p) => {
                    ps.push(p);
                    assert(ps.deep_view() =~= regexes(patterns.deep_view()).take(i + 1));
                },
                Err(e) => {
                    assert(!regexes(patterns.deep_view())[i as int].valid());
                    return Err(e);
                },
            }
            i += 1;
        }
        assert(regexes(patterns.deep_view()).take(i as int) =~= regexes(patterns.deep_view()));
        Ok(Only { patterns: ps })
    }

    /// Tells whether the allow-list keeps `relpath`.
    pub fn allows(&self, relpath: &str) -> (b: bool)
        ensures
            b == any_accepts(self@, relpath@),
    {
        should_ignore(relpath, &self.patterns)
    }
}

} // verus!
