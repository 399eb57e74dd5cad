//! Compiled patterns: regular expressions and glob sets. The matching itself
//! is done by the `regex` and `globset` crates; this module gives each call a
//! contract over the pattern text, so that what a search accepts can be stated.

use vstd::prelude::*;

verus! {

/// `regex::Regex`: a compiled regular expression, carried through as it is.
#[verifier::external_type_specification]
#[verifier::external_body]
pub struct ExRegex(regex::Regex);

/// `regex::Error`: why an expression did not compile.
#[verifier::external_type_specification]
#[verifier::external_body]
pub struct ExRegexError(regex::Error);

/// `globset::Glob`: a parsed glob, carried through as it is.
#[verifier::external_type_specification]
#[verifier::external_body]
pub struct ExGlob(globset::Glob);

/// `globset::GlobSet`: globs compiled to be matched together.
#[verifier::external_type_specification]
#[verifier::external_body]
pub struct ExGlobSet(globset::GlobSet);

/// `globset::Error`: why a glob did not parse or a set did not build.
#[verifier::external_type_specification]
#[verifier::external_body]
pub struct ExGlobError(globset::Error);

/// Whether a character has a meaning of its own in a regular expression.
pub open spec fn is_regex_meta(c: char) -> bool {
    c == '\\' || c == '.' || c == '+' || c == '*' || c == '?' || c == '(' || c == ')' || c == '|'
        || c == '[' || c == ']' || c == '{' || c == '}' || c == '^' || c == '$' || c == '#' || c
        == '&' || c == '-' || c == '~'
}

/// `text` with a backslash before every character that has a meaning of its
/// own in a regular expression: the expression that matches `text` literally.
pub open spec fn regex_escaped(text: Seq<char>) -> Seq<char>
    decreases text.len(),
{
    if text.len() == 0 {
        Seq::empty()
    } else {
        let before = regex_escaped(text.drop_last());
        if is_regex_meta(text.last()) {
            before.push('\\').push(text.last())
        } else {
            before.push(text.last())
        }
    }
}

/// Whether `pattern` compiles as a regular expression under the default size
/// limits, with or without case folding.
pub uninterp spec fn regex_compiles(pattern: Seq<char>, fold_case: bool) -> bool;

/// Whether the regular expression `pattern`, with or without case folding,
/// matches somewhere in `hay`.
pub uninterp spec fn regex_matches(pattern: Seq<char>, fold_case: bool, hay: Seq<char>) -> bool;

/// The pattern text that a compiled regular expression was built from.
pub uninterp spec fn regex_source(re: regex::Regex) -> Seq<char>;

/// Whether a compiled regular expression was built to fold case.
pub uninterp spec fn regex_folds_case(re: regex::Regex) -> bool;

/// Whether `pattern`, which holds no backslash, is a well-formed glob, as
/// `globset` reads globs with its default options. How a backslash is read
/// differs from platform to platform, so no pattern with one is ever asked
/// about.
pub uninterp spec fn glob_is_valid(pattern: Seq<char>) -> bool;

/// Whether the glob `pattern` matches the path `path`; neither holds a
/// backslash.
pub uninterp spec fn glob_matches(pattern: Seq<char>, path: Seq<char>) -> bool;

/// The pattern text that a glob was parsed from.
pub uninterp spec fn glob_source(glob: globset::Glob) -> Seq<char>;

/// Whether the globs with these pattern texts, none of which holds a
/// backslash, can be compiled into one set.
pub uninterp spec fn globs_compile(patterns: Seq<Seq<char>>) -> bool;

/// The pattern texts of the globs that a set was built from, in order.
pub uninterp spec fn globset_sources(set: globset::GlobSet) -> Seq<Seq<char>>;

/// The pattern texts of a list of globs.
pub open spec fn glob_sources(globs: Seq<globset::Glob>) -> Seq<Seq<char>> {
    Seq::new(globs.len(), |i: int| glob_source(globs[i]))
}

/// Whether some glob of `patterns` matches `path`.
pub open spec fn any_glob_matches(patterns: Seq<Seq<char>>, path: Seq<char>) -> bool {
    exists|i: int| 0 <= i < patterns.len() && glob_matches(#[trigger] patterns[i], path)
}

/// `regex::escape`: the result is the text with a backslash before each of
/// its meta characters.
#[verifier::external_body]
pub(crate) fn regex_escape(text: &str) -> (r: String)
    ensures
        r@ == regex_escaped(text@),
{
    regex::escape(text)
}

/// `regex::RegexBuilder::new`, `case_insensitive` and `build`: compilation
/// succeeds or fails by the pattern and the flag alone, and the compiled
/// expression remembers both.
#[verifier::external_body]
pub(crate) fn regex_build(pattern: &str, fold_case: bool) -> (r: Result<regex::Regex, regex::Error>)
    ensures
        r is Ok <==> regex_compiles(pattern@, fold_case),
        r matches Ok(re) ==> regex_source(re) == pattern@ && regex_folds_case(re) == fold_case,
{
    regex::RegexBuilder::new(pattern).case_insensitive(fold_case).build()
}

/// `regex::Regex::is_match`: whether the expression matches anywhere in the
/// text, which depends on the expression and the text alone.
#[verifier::external_body]
pub(crate) fn regex_is_match(re: &regex::Regex, hay: &str) -> (r: bool)
    ensures
        r == regex_matches(regex_source(*re), regex_folds_case(*re), hay@),
{
    re.is_match(hay)
}

/// `globset::Glob::new`: parsing succeeds or fails by the pattern alone, and
/// the glob remembers the pattern. The pattern holds no backslash, so that it
/// reads the same on every platform.
#[verifier::external_body]
pub(crate) fn glob_new(pattern: &str) -> (r: Result<globset::Glob, globset::Error>)
    requires
        !pattern@.contains('\\'),
    ensures
        r is Ok <==> glob_is_valid(pattern@),
        r matches Ok(g) ==> glob_source(g) == pattern@,
{
    globset::Glob::new(pattern)
}

/// `globset::GlobSet::new`: building succeeds or fails by the patterns alone,
/// and the set stands for exactly the given globs, in order. No pattern holds
/// a backslash.
#[verifier::external_body]
pub(crate) fn globset_new(globs: &Vec<globset::Glob>) -> (r: Result<
    globset::GlobSet,
    globset::Error,
>)
    requires
        forall|i: int| 0 <= i < globs@.len() ==> !glob_source(#[trigger] globs@[i]).contains('\\'),
    ensures
        r is Ok <==> globs_compile(glob_sources(globs@)),
        r matches Ok(set) ==> globset_sources(set) == glob_sources(globs@),
{
    globset::GlobSet::new(globs.iter())
}

/// `globset::GlobSet::is_match`: true exactly when some glob of the set
/// matches the path. Neither the path nor a pattern of the set holds a
/// backslash, so that both read the same on every platform.
#[verifier::external_body]
pub(crate) fn globset_is_match(set: &globset::GlobSet, path: &str) -> (r: bool)
    requires
        !path@.contains('\\'),
        forall|i: int|
            0 <= i < globset_sources(*set).len() ==> !(#[trigger] globset_sources(*set)[i]).contains(
                '\\',
            ),
    ensures
        r == (exists|i: int|
            0 <= i < globset_sources(*set).len() && glob_matches(
                #[trigger] globset_sources(*set)[i],
                path@,
            )),
{
    set.is_match(path)
}

} // verus!
