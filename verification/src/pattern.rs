//! Regular expressions as the search uses them: compiled by the `regex`
//! crate with its default settings, known to the proofs by their source
//! text.

use regex::Regex;
use vstd::prelude::*;

verus! {

/// `regex::Regex`, a compiled regular expression. Nothing inside it is
/// visible to the proofs.
#[verifier::external_type_specification]
#[verifier::external_body]
pub struct ExRegex(regex::Regex);

/// `regex::Error`, the reason a pattern was refused. It is only told apart
/// from success.
#[verifier::external_type_specification]
#[verifier::external_body]
pub struct ExRegexError(regex::Error);

/// A pattern that compiled. The only way to one is `regex::Regex::new`, so
/// the regex inside was built from its text alone, with no setting changed.
pub struct Pattern {
    compiled: Regex,
}

/// Whether `regex::Regex::new` accepts `pattern`.
pub uninterp spec fn regex_compiles(pattern: Seq<char>) -> bool;

/// Whether the regex that `regex::Regex::new` builds from `pattern` matches
/// somewhere in `text`.
pub uninterp spec fn regex_matches(pattern: Seq<char>, text: Seq<char>) -> bool;

/// The text that a pattern was compiled from.
pub uninterp spec fn pattern_text(pattern: Pattern) -> Seq<char>;

impl View for Pattern {
    type V = Seq<char>;

    open spec fn view(&self) -> Seq<char> {
        pattern_text(*self)
    }
}

/// Calls `regex::Regex::new`. Trusted: the call succeeds exactly on the
/// texts that `regex_compiles` names, and the pattern it returns is the one
/// compiled from the text given.
#[verifier::external_body]
fn compile(pattern: &str) -> (r: Result<Pattern, regex::Error>)
    ensures
        r.is_ok() == regex_compiles(pattern@),
        r.is_ok() ==> pattern_text(r.unwrap()) == pattern@,
{
    match Regex::new(pattern) {
        Ok(compiled) => Ok(Pattern { compiled }),
        Err(error) => Err(error),
    }
}

/// Calls `regex::Regex::is_match`. Trusted: on a regex that
/// `regex::Regex::new` built, the answer depends only on the text it was
/// built from and on the text searched, and is what `regex_matches` names.
/// Every `Pattern` holds such a regex.
#[verifier::external_body]
fn is_match(pattern: &Pattern, text: &str) -> (found: bool)
    ensures
        found == regex_matches(pattern_text(*pattern), text@),
{
    pattern.compiled.is_match(text)
}

/// The source texts of a list of compiled patterns, in order.
pub open spec fn sources(patterns: Seq<Pattern>) -> Seq<Seq<char>> {
    Seq::new(patterns.len(), |i: int| patterns[i]@)
}

/// The texts of a list of strings, in order.
pub open spec fn texts(strings: Seq<String>) -> Seq<Seq<char>> {
    Seq::new(strings.len(), |i: int| strings[i]@)
}

/// Whether at least one of the patterns matches the name.
pub open spec fn any_match(patterns: Seq<Seq<char>>, name: Seq<char>) -> bool {
    exists|i: int| 0 <= i < patterns.len() && #[trigger] regex_matches(patterns[i], name)
}

/// Whether every pattern of the list compiles.
pub open spec fn all_compile(patterns: Seq<Seq<char>>) -> bool {
    forall|i: int| 0 <= i < patterns.len() ==> regex_compiles(#[trigger] patterns[i])
}

/// Whether `i` is the place of the first pattern that does not compile.
pub open spec fn first_invalid_at(patterns: Seq<Seq<char>>, i: int) -> bool {
    &&& 0 <= i < patterns.len()
    &&& !regex_compiles(patterns[i])
    &&& forall|j: int| 0 <= j < i ==> regex_compiles(#[trigger] patterns[j])
}

/// Tells whether a pattern is a well-formed regular expression.
pub fn is_valid_pattern(pattern: &str) -> (ok: bool)
    ensures
        ok == regex_compiles(pattern@),
{
    match compile(pattern) {
        Ok(_) => true,
        Err(_) => false,
    }
}

/// Compiles every pattern of the list, in order, and stops at the first
/// that is not a well-formed regular expression, whose index it returns.
pub fn compile_all(patterns: &Vec<String>) -> (r: Result<Vec<Pattern>, usize>)
    ensures
        match r {
            Ok(compiled) => all_compile(texts(patterns@)) && sources(compiled@) == texts(
                patterns@,
            ),
            Err(i) => first_invalid_at(texts(patterns@), i as int),
        },
{
    let mut compiled: Vec<Pattern> = Vec::new();
    let mut i: usize = 0;
    while i < patterns.len()
        invariant
            0 <= i <= patterns.len(),
            compiled@.len() == i,
            forall|j: int| 0 <= j < i ==> regex_compiles(#[trigger] texts(patterns@)[j]),
            forall|j: int| 0 <= j < i ==> (#[trigger] compiled@[j])@ == patterns@[j]@,
        decreases patterns.len() - i,
    {
        match compile(patterns[i].as_str()) {
            Ok(pattern) => {
                compiled.push(pattern);
            },
            Err(_) => {
                return Err(i);
            },
        }
        i += 1;
    }
    assert(sources(compiled@) =~= texts(patterns@));
    Ok(compiled)
}

/// Tests a base name against each pattern in turn, and tells whether one of
/// them matches it.
pub fn matches_any(patterns: &Vec<Pattern>, name: &str) -> (found: bool)
    ensures
        found == any_match(sources(patterns@), name@),
{
    let mut i: usize = 0;
    while i < patterns.len()
        invariant
            0 <= i <= patterns.len(),
            forall|j: int| 0 <= j < i ==> !regex_matches(#[trigger] sources(patterns@)[j], name@),
        decreases patterns.len() - i,
    {
        if is_match(&patterns[i], name) {
            assert(regex_matches(sources(patterns@)[i as int], name@));
            return true;
        }
        i += 1;
    }
    false
}

} // verus!
