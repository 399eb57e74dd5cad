//! What a query looks for: one compiled regular expression, or a list of
//! terms that must all occur.

use crate::error::FsError;
use crate::pattern::{
    regex_build, regex_compiles, regex_escape, regex_escaped, regex_folds_case, regex_is_match,
    regex_matches, regex_source,
};
use crate::text::{
    chars_of, contains, contains_spec, lower_chars, lowercase, split_words, string_from_chars,
    texts_view, words,
};
use vstd::prelude::*;
use vstd::string::*;

verus! {

/// A compiled regular expression. One is made by [`build_matcher`] and in no
/// other way, so that it is known from which text and with which setting it
/// was compiled.
pub struct Expression {
    compiled: regex::Regex,
}

impl Expression {
    /// The text that the expression was compiled from.
    pub closed spec fn source(&self) -> Seq<char> {
        regex_source(self.compiled)
    }

    /// Whether the expression was compiled to fold case.
    pub closed spec fn folds_case(&self) -> bool {
        regex_folds_case(self.compiled)
    }

    /// Whether the expression matches somewhere in `target`.
    pub fn is_match(&self, target: &str) -> (r: bool)
        ensures
            r == regex_matches(self.source(), self.folds_case(), target@),
    {
        regex_is_match(&self.compiled, target)
    }
}

/// A compiled matcher, built once per query and only read afterwards.
pub enum Matcher {
    /// A regular expression, searched for anywhere in the target.
    Pattern(Expression),
    /// Terms that must all occur in the target. Without case sensitivity the
    /// terms are held in lower case and the target is folded before the test.
    Terms { terms: Vec<Vec<char>>, case_sensitive: bool },
}

/// The mathematical value of a [`Matcher`].
pub enum MatcherView {
    Pattern { source: Seq<char>, fold_case: bool },
    Terms { terms: Seq<Seq<char>>, case_sensitive: bool },
}

impl View for Matcher {
    type V = MatcherView;

    open spec fn view(&self) -> MatcherView {
        match self {
            Matcher::Pattern(e) => MatcherView::Pattern {
                source: e.source(),
                fold_case: e.folds_case(),
            },
            Matcher::Terms { terms, case_sensitive } => MatcherView::Terms {
                terms: texts_view(terms@),
                case_sensitive: *case_sensitive,
            },
        }
    }
}

/// Whether every one of `terms` stands somewhere in `hay`.
pub open spec fn all_occur(hay: Seq<char>, terms: Seq<Seq<char>>) -> bool {
    forall|i: int| 0 <= i < terms.len() ==> contains_spec(hay, #[trigger] terms[i])
}

/// Whether a matcher accepts a target text (a relative path or a line): an
/// expression when it matches somewhere in the target, terms when there is at
/// least one and each of them occurs in it.
pub open spec fn accepts(m: MatcherView, target: Seq<char>) -> bool {
    match m {
        MatcherView::Pattern { source, fold_case } => regex_matches(source, fold_case, target),
        MatcherView::Terms { terms, case_sensitive } => terms.len() > 0 && all_occur(
            if case_sensitive {
                target
            } else {
                lowercase(target)
            },
            terms,
        ),
    }
}

/// The regular expression that a query compiles when it asks for one: the
/// pattern itself or, for a literal, its escaped form, between word boundaries
/// when whole words are asked for.
pub open spec fn regex_text(pattern: Seq<char>, whole_word: bool, use_regex: bool) -> Seq<char> {
    let core = if use_regex {
        pattern
    } else {
        regex_escaped(pattern)
    };
    if whole_word {
        seq!['\\', 'b'] + core + seq!['\\', 'b']
    } else {
        core
    }
}

/// Each text of a list in lower case.
pub open spec fn lowercase_each(texts: Seq<Seq<char>>) -> Seq<Seq<char>> {
    Seq::new(texts.len(), |i: int| lowercase(texts[i]))
}

/// The terms of a literal query: its words. A pattern without words, one
/// that is empty or white space only, is looked for as it stands.
pub open spec fn query_terms(pattern: Seq<char>) -> Seq<Seq<char>> {
    if words(pattern).len() == 0 {
        seq![pattern]
    } else {
        words(pattern)
    }
}

/// The matcher that a query asks for. A regular expression or a whole-word
/// query compiles one expression; any other query is split at white space
/// into terms that must all occur.
pub open spec fn matcher_for(
    pattern: Seq<char>,
    case_sensitive: bool,
    whole_word: bool,
    use_regex: bool,
) -> MatcherView {
    if use_regex || whole_word {
        MatcherView::Pattern {
            source: regex_text(pattern, whole_word, use_regex),
            fold_case: !case_sensitive,
        }
    } else {
        MatcherView::Terms {
            terms: if case_sensitive {
                query_terms(pattern)
            } else {
                lowercase_each(query_terms(pattern))
            },
            case_sensitive,
        }
    }
}

/// Whether the matcher of a query can be built: always for terms, and for an
/// expression exactly when it compiles.
pub open spec fn matcher_compiles(
    pattern: Seq<char>,
    case_sensitive: bool,
    whole_word: bool,
    use_regex: bool,
) -> bool {
    (use_regex || whole_word) ==> regex_compiles(
        regex_text(pattern, whole_word, use_regex),
        !case_sensitive,
    )
}

/// Builds the matcher of a query, or reports the pattern as invalid.
pub fn build_matcher(pattern: &str, case_sensitive: bool, whole_word: bool, use_regex: bool) -> (r:
    Result<Matcher, FsError>)
    ensures
        r is Ok <==> matcher_compiles(pattern@, case_sensitive, whole_word, use_regex),
        r matches Ok(m) ==> m@ == matcher_for(pattern@, case_sensitive, whole_word, use_regex),
        r matches Err(e) ==> (e matches FsError::InvalidPattern(p) && p@ == pattern@),
{
    if use_regex || whole_word {
        let core = if use_regex {
            pattern.to_owned()
        } else {
            regex_escape(pattern)
        };
        let text = if whole_word {
            proof {
                reveal_strlit("\\b");
            }
            let mut t = String::new();
            t.append("\\b");
            t.append(core.as_str());
            t.append("\\b");
            assert(t@ =~= regex_text(pattern@, whole_word, use_regex));
            t
        } else {
            core
        };
        match regex_build(text.as_str(), !case_sensitive) {
            Ok(compiled) => Ok(Matcher::Pattern(Expression { compiled })),
            Err(_) => Err(FsError::InvalidPattern(pattern.to_owned())),
        }
    } else {
        let mut split = split_words(&chars_of(pattern));
        if split.len() == 0 {
            split.push(chars_of(pattern));
            assert(texts_view(split@) =~= seq![pattern@]);
        }
        assert(texts_view(split@) == query_terms(pattern@));
        if case_sensitive {
            return Ok(Matcher::Terms { terms: split, case_sensitive });
        }
        let mut terms: Vec<Vec<char>> = Vec::new();
        let mut i: usize = 0;
        while i < split.len()
            invariant
                i <= split.len(),
                terms@.len() == i,
                forall|j: int| 0 <= j < i ==> terms@[j]@ == lowercase(split@[j]@),
            decreases split.len() - i,
        {
            let word = string_from_chars(&split[i]);
            terms.push(lower_chars(word.as_str()));
            i += 1;
        }
        assert(texts_view(terms@) =~= lowercase_each(texts_view(split@)));
        Ok(Matcher::Terms { terms, case_sensitive })
    }
}

impl Matcher {
    /// Whether the matcher accepts `target`.
    pub fn is_match(&self, target: &str) -> (r: bool)
        ensures
            r == accepts(self@, target@),
    {
        match self {
            Matcher::Pattern(e) => e.is_match(target),
            Matcher::Terms { terms, case_sensitive } => {
                if terms.len() == 0 {
                    return false;
                }
                let hay = if *case_sensitive {
                    chars_of(target)
                } else {
                    lower_chars(target)
                };
                let mut i: usize = 0;
                while i < terms.len()
                    invariant
                        i <= terms.len(),
                        self@ == (MatcherView::Terms {
                            terms: texts_view(terms@),
                            case_sensitive: *case_sensitive,
                        }),
                        hay@ == if *case_sensitive {
                            target@
                        } else {
                            lowercase(target@)
                        },
                        forall|j: int| 0 <= j < i ==> contains_spec(hay@, terms@[j]@),
                    decreases terms.len() - i,
                {
                    if !contains(&hay, &terms[i]) {
                        proof {
                            let view = texts_view(terms@);
                            assert(view[i as int] == terms@[i as int]@);
                            assert(!contains_spec(hay@, view[i as int]));
                            assert(!all_occur(hay@, view));
                        }
                        return false;
                    }
                    i += 1;
                }
                assert(all_occur(hay@, texts_view(terms@))) by {
                    assert forall|j: int| 0 <= j < texts_view(terms@).len() implies contains_spec(
                        hay@,
                        #[trigger] texts_view(terms@)[j],
                    ) by {
                        assert(texts_view(terms@)[j] == terms@[j]@);
                    }
                }
                true
            },
        }
    }
}

} // verus!
