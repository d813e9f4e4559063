//! The pattern that file names are searched with: the query taken literally,
//! matched without regard to case, through the `regex` crate.

use vstd::prelude::*;
use regex::{Regex, RegexBuilder};

verus! {

#[verifier::external_type_specification]
#[verifier::external_body]
pub struct ExRegex(Regex);

#[verifier::external_type_specification]
#[verifier::external_body]
pub struct ExRegexBuilder(RegexBuilder);

#[verifier::external_type_specification]
#[verifier::external_body]
pub struct ExRegexError(regex::Error);

/// Whether `regex` gives `c` a meaning of its own, so that it must be escaped
/// to stand for itself.
pub open spec fn is_meta_character(c: char) -> bool {
    c == '\\' || c == '.' || c == '+' || c == '*' || c == '?' || c == '(' || c == ')' || c == '|'
        || c == '[' || c == ']' || c == '{' || c == '}' || c == '^' || c == '$' || c == '#'
        || c == '&' || c == '-' || c == '~'
}

/// `text` with a backslash put before each meta character: a pattern that
/// matches `text` literally.
pub open spec fn escaped_literal(text: Seq<char>) -> Seq<char>
    decreases text.len(),
{
    if text.len() == 0 {
        Seq::empty()
    } else {
        let c = text.last();
        let front = escaped_literal(text.drop_last());
        if is_meta_character(c) {
            front.push('\\').push(c)
        } else {
            front.push(c)
        }
    }
}

/// Whether the `regex` crate compiles `pattern` (with the given case
/// sensitivity and otherwise its default settings) without error.
pub uninterp spec fn regex_builds(pattern: Seq<char>, case_insensitive: bool) -> bool;

/// Whether the regex compiled from `pattern` (with the given case sensitivity
/// and otherwise default settings) matches somewhere in `haystack`.
pub uninterp spec fn regex_is_match(pattern: Seq<char>, case_insensitive: bool, haystack: Seq<char>) -> bool;

/// `regex::escape`: puts a backslash before every meta character of `text`.
#[verifier::external_body]
fn escape(text: &str) -> (escaped: String)
    ensures
        escaped@ == escaped_literal(text@),
{
    regex::escape(text)
}

/// A regex builder together with the pattern and case sensitivity it was set up with.
pub struct PatternBuilder {
    builder: RegexBuilder,
    pattern: Ghost<Seq<char>>,
    case_insensitive: Ghost<bool>,
}

impl View for PatternBuilder {
    type V = (Seq<char>, bool);

    closed spec fn view(&self) -> (Seq<char>, bool) {
        (self.pattern@, self.case_insensitive@)
    }
}

/// A compiled regex together with the pattern and case sensitivity it was compiled from.
pub struct CompiledPattern {
    regex: Regex,
    pattern: Ghost<Seq<char>>,
    case_insensitive: Ghost<bool>,
}

impl View for CompiledPattern {
    type V = (Seq<char>, bool);

    closed spec fn view(&self) -> (Seq<char>, bool) {
        (self.pattern@, self.case_insensitive@)
    }
}

/// `RegexBuilder::new`: a builder for `pattern` with the default settings,
/// under which matching is case sensitive.
#[verifier::external_body]
fn new_builder(pattern: &str) -> (builder: PatternBuilder)
    ensures
        builder@ == (pattern@, false),
{
    PatternBuilder {
        builder: RegexBuilder::new(pattern),
        pattern: Ghost(pattern@),
        case_insensitive: Ghost(false),
    }
}

/// `RegexBuilder::case_insensitive`: sets whether matching ignores case.
#[verifier::external_body]
fn set_case_insensitive(builder: &mut PatternBuilder, yes: bool)
    ensures
        final(builder)@ == (old(builder)@.0, yes),
{
    builder.builder.case_insensitive(yes);
    builder.case_insensitive = Ghost(yes);
}

/// `RegexBuilder::build`: compiles the pattern; it fails exactly when the
/// crate rejects the pattern under these settings.  The empty pattern is
/// always valid.
#[verifier::external_body]
fn build(builder: &PatternBuilder) -> (compiled: Result<CompiledPattern, regex::Error>)
    ensures
        compiled is Ok <==> regex_builds(builder@.0, builder@.1),
        builder@.0.len() == 0 ==> compiled is Ok,
        compiled matches Ok(p) ==> p@ == builder@,
{
    match builder.builder.build() {
        Ok(regex) => Ok(CompiledPattern {
            regex,
            pattern: Ghost(builder@.0),
            case_insensitive: Ghost(builder@.1),
        }),
        Err(e) => Err(e),
    }
}

/// `Regex::is_match`: whether the regex matches somewhere in `haystack`.  The
/// empty pattern matches at every position, so it matches every haystack.
#[verifier::external_body]
fn is_match(compiled: &CompiledPattern, haystack: &str) -> (found: bool)
    ensures
        found == regex_is_match(compiled@.0, compiled@.1, haystack@),
        compiled@.0.len() == 0 ==> found,
{
    compiled.regex.is_match(haystack)
}

/// The pattern searched with for `query`: the escaped query, ignoring case;
/// if the crate rejects it, the empty pattern with default settings.
pub open spec fn query_pattern(query: Seq<char>) -> (Seq<char>, bool) {
    if regex_builds(escaped_literal(query), true) {
        (escaped_literal(query), true)
    } else {
        (Seq::empty(), false)
    }
}

/// Whether a file named `name` is reported for the search pattern `pattern`.
pub open spec fn name_matches(pattern: (Seq<char>, bool), name: Seq<char>) -> bool {
    regex_is_match(pattern.0, pattern.1, name)
}

/// The empty query gives the empty pattern, whether or not it is compiled
/// ignoring case; so every name matches it (see `NamePattern::matches`).
pub proof fn lemma_empty_query_matches_everything(query: Seq<char>)
    requires
        query.len() == 0,
    ensures
        query_pattern(query).0.len() == 0,
{
}

/// A query the regex crate accepts is searched for literally and without
/// regard to case, whatever its length.
pub proof fn lemma_query_ignores_case(query: Seq<char>)
    requires
        regex_builds(escaped_literal(query), true),
    ensures
        query_pattern(query) == (escaped_literal(query), true),
{
}

/// A query without meta characters is searched for as it stands.
pub proof fn lemma_plain_query_unescaped(query: Seq<char>)
    requires
        forall|i: int| 0 <= i < query.len() ==> !is_meta_character(#[trigger] query[i]),
    ensures
        escaped_literal(query) == query,
    decreases query.len(),
{
    if query.len() > 0 {
        lemma_plain_query_unescaped(query.drop_last());
        assert(query.drop_last().push(query.last()) =~= query);
    }
}

/// Whether a name is reported is decided by the compiled pattern on the whole
/// name, whatever its length.
pub proof fn lemma_match_on_whole_name(pattern: (Seq<char>, bool), name: Seq<char>)
    ensures
        name_matches(pattern, name) == regex_is_match(pattern.0, pattern.1, name),
{
}

/// A compiled search pattern for file names.
pub struct NamePattern {
    compiled: CompiledPattern,
}

impl View for NamePattern {
    type V = (Seq<char>, bool);

    closed spec fn view(&self) -> (Seq<char>, bool) {
        self.compiled@
    }
}

impl NamePattern {
    /// The pattern for a search query: the query matched literally, ignoring
    /// case; a query the crate cannot compile falls back to the empty
    /// pattern, which matches every name.
    pub fn for_query(query: &str) -> (pattern: NamePattern)
        ensures
            pattern@ == query_pattern(query@),
            regex_builds(escaped_literal(query@), true) ==> pattern@ == (escaped_literal(query@), true),
            !regex_builds(escaped_literal(query@), true) ==> pattern@.0.len() == 0,
    {
        let escaped = escape(query);
        let mut builder = new_builder(escaped.as_str());
        set_case_insensitive(&mut builder, true);
        match build(&builder) {
            Ok(compiled) => NamePattern { compiled },
            Err(_) => {
                let fallback = new_builder("");
                proof {
                    reveal_strlit("");
                }
                NamePattern { compiled: build(&fallback).unwrap() }
            },
        }
    }

    /// Whether a file named `name` is reported.
    pub fn matches(&self, name: &str) -> (found: bool)
        ensures
            found == name_matches(self@, name@),
            found == regex_is_match(self@.0, self@.1, name@),
            self@.0.len() == 0 ==> found,
    {
        is_match(&self.compiled, name)
    }
}

} // verus!
