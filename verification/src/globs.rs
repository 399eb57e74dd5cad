//! Include and exclude filters: lists of globs compiled into sets.

use crate::error::FsError;
use crate::pattern::{
    any_glob_matches, glob_is_valid, glob_new, glob_source, glob_sources, globs_compile,
    globset_is_match, globset_new, globset_sources,
};
use crate::text::{
    chars_of, fields, forward_slashes, split_fields, string_from_chars, texts_view,
    to_forward_slashes, trim, trim_spec,
};
use vstd::prelude::*;

verus! {

/// The views of a list of strings.
pub open spec fn strings_view(v: Seq<String>) -> Seq<Seq<char>> {
    Seq::new(v.len(), |i: int| v[i]@)
}

/// Each text of a list trimmed, without those that are empty afterwards.
pub open spec fn trimmed_non_empty(items: Seq<Seq<char>>) -> Seq<Seq<char>>
    decreases items.len(),
{
    if items.len() == 0 {
        Seq::empty()
    } else {
        let before = trimmed_non_empty(items.drop_last());
        let t = trim_spec(items.last());
        if t.len() == 0 {
            before
        } else {
            before.push(t)
        }
    }
}

/// The globs that a comma-separated list names.
pub open spec fn glob_list(list: Seq<char>) -> Seq<Seq<char>> {
    trimmed_non_empty(fields(list, ','))
}

/// Reads a comma-separated list of globs: the fields are trimmed and the
/// empty ones are left out.
pub fn parse_glob_list(list: &str) -> (r: Vec<String>)
    ensures
        strings_view(r@) == glob_list(list@),
{
    let parts = split_fields(&chars_of(list), ',');
    let mut r: Vec<String> = Vec::new();
    let mut i: usize = 0;
    assert(texts_view(parts@).take(0) =~= Seq::<Seq<char>>::empty());
    assert(strings_view(r@) =~= Seq::<Seq<char>>::empty());
    while i < parts.len()
        invariant
            i <= parts.len(),
            strings_view(r@) == trimmed_non_empty(texts_view(parts@).take(i as int)),
        decreases parts.len() - i,
    {
        proof {
            let all = texts_view(parts@);
            assert(all.take(i + 1).drop_last() =~= all.take(i as int));
            assert(all.take(i + 1).last() == parts@[i as int]@);
        }
        let t = trim(&parts[i]);
        if t.len() > 0 {
            let ghost before = strings_view(r@);
            r.push(string_from_chars(&t));
            assert(strings_view(r@) =~= before.push(t@));
        }
        i += 1;
    }
    assert(texts_view(parts@).take(parts@.len() as int) =~= texts_view(parts@));
    r
}

/// A list of globs with every backslash read as a slash, as in paths: what
/// a glob means is then the same on every platform.
pub open spec fn unified_globs(patterns: Seq<Seq<char>>) -> Seq<Seq<char>> {
    Seq::new(patterns.len(), |i: int| forward_slashes(patterns[i]))
}

/// Whether every glob of a list, with its backslashes read as slashes, is
/// well formed and, when there is one at least, the list compiles into a set.
pub open spec fn globs_usable(patterns: Seq<Seq<char>>) -> bool {
    &&& forall|i: int|
        0 <= i < patterns.len() ==> glob_is_valid(forward_slashes(#[trigger] patterns[i]))
    &&& patterns.len() > 0 ==> globs_compile(unified_globs(patterns))
}

/// Whether `culprit` is the glob to blame when a list cannot be used: the
/// first glob that is not well formed, as it was given, or, when all are well
/// formed, the first of the list.
pub open spec fn is_offending_glob(patterns: Seq<Seq<char>>, culprit: Seq<char>) -> bool {
    ||| exists|i: int|
        0 <= i < patterns.len() && !glob_is_valid(forward_slashes(#[trigger] patterns[i]))
            && patterns[i] == culprit && forall|j: int|
            0 <= j < i ==> glob_is_valid(forward_slashes(#[trigger] patterns[j]))
    ||| (forall|i: int|
        0 <= i < patterns.len() ==> glob_is_valid(forward_slashes(#[trigger] patterns[i])))
        && patterns.len() > 0 && patterns[0] == culprit
}

/// Globs compiled into one set. A filter is made by [`compile_globs`] and in
/// no other way, so that none of its globs holds a backslash.
pub struct GlobFilter {
    set: globset::GlobSet,
}

impl GlobFilter {
    #[verifier::type_invariant]
    spec fn holds_no_backslash(self) -> bool {
        forall|i: int|
            0 <= i < globset_sources(self.set).len() ==> !(#[trigger] globset_sources(
                self.set,
            )[i]).contains('\\')
    }

    /// The globs of the filter, in order.
    pub closed spec fn globs(&self) -> Seq<Seq<char>> {
        globset_sources(self.set)
    }

    /// Whether some glob of the filter matches the path, read with forward
    /// slashes.
    pub fn is_match(&self, path: &str) -> (r: bool)
        ensures
            r == any_glob_matches(self.globs(), forward_slashes(path@)),
    {
        proof {
            use_type_invariant(self);
        }
        let clean = string_from_chars(&to_forward_slashes(&chars_of(path)));
        globset_is_match(&self.set, clean.as_str())
    }
}

/// Compiles a list of globs into a filter; a backslash in a glob is read as a
/// slash. An empty list gives no filter: no filter applies.
pub fn compile_globs(patterns: &Vec<String>) -> (r: Result<Option<GlobFilter>, FsError>)
    ensures
        r is Ok <==> globs_usable(strings_view(patterns@)),
        r matches Ok(None) ==> patterns@.len() == 0,
        r matches Ok(Some(filter)) ==> patterns@.len() > 0 && filter.globs() == unified_globs(
            strings_view(patterns@),
        ),
        r matches Err(e) ==> (e matches FsError::InvalidPattern(p) && is_offending_glob(
            strings_view(patterns@),
            p@,
        )),
{
    let ghost all = strings_view(patterns@);
    if patterns.len() == 0 {
        return Ok(None);
    }
    let mut globs: Vec<globset::Glob> = Vec::new();
    let mut i: usize = 0;
    while i < patterns.len()
        invariant
            i <= patterns.len(),
            all == strings_view(patterns@),
            globs@.len() == i,
            forall|j: int| 0 <= j < i ==> glob_source(#[trigger] globs@[j]) == forward_slashes(all[j]),
            forall|j: int| 0 <= j < i ==> glob_is_valid(forward_slashes(#[trigger] all[j])),
        decreases patterns.len() - i,
    {
        let unified = string_from_chars(&to_forward_slashes(&chars_of(patterns[i].as_str())));
        match glob_new(unified.as_str()) {
            Ok(g) => {
                globs.push(g);
            },
            Err(_) => {
                assert(!glob_is_valid(forward_slashes(all[i as int])));
                return Err(FsError::InvalidPattern(patterns[i].clone()));
            },
        }
        i += 1;
    }
    assert(glob_sources(globs@) =~= unified_globs(all));
    match globset_new(&globs) {
        Ok(set) => Ok(Some(GlobFilter { set })),
        Err(_) => Err(FsError::InvalidPattern(patterns[0].clone())),
    }
}

/// Whether some glob of the filter matches the path. Without a filter nothing
/// matches.
pub open spec fn filter_matches(filter: Option<GlobFilter>, path: Seq<char>) -> bool {
    match filter {
        None => false,
        Some(f) => any_glob_matches(f.globs(), path),
    }
}

/// Whether some glob of the filter matches the path, read with forward
/// slashes. Without a filter nothing matches.
pub fn filter_is_match(filter: &Option<GlobFilter>, path: &str) -> (r: bool)
    ensures
        r == filter_matches(*filter, forward_slashes(path@)),
{
    match filter {
        None => false,
        Some(f) => f.is_match(path),
    }
}

} // verus!
