//! The search engine's decisions: what a query compiles to, which files it
//! looks at, which names and lines it reports, and how the reports of many
//! workers become one bounded, ordered list. Walking the tree and reading the
//! files is the caller's business.

use crate::error::FsError;
use crate::globs::{
    compile_globs, filter_is_match, globs_usable, is_offending_glob, parse_glob_list, strings_view,
    unified_globs, GlobFilter,
};
use crate::matcher::{accepts, build_matcher, matcher_compiles, matcher_for, Matcher, MatcherView};
use crate::order::{
    is_stable_sort, key_le, keys_view, lemma_map_keeps_permutation, sort_by_keys, SortKey,
    SortKeyView,
};
use crate::pattern::any_glob_matches;
use crate::text::{
    chars_of, first_chars, forward_slashes, same_text, string_from_chars, to_forward_slashes, trim,
    trim_spec, truncate_chars,
};
use vstd::prelude::*;
use vstd::string::*;
use vstd::utf8::encode_utf8;

verus! {

/// The most results that one search reports.
pub const MAX_RESULTS: usize = 2000;

/// The most lines that one file contributes to a content search.
pub const MAX_MATCHES_PER_FILE: usize = 2000;

/// Lines with more characters than this are passed over unread.
pub const MAX_LINE_CHARS: usize = 10000;

/// The most characters of a line that a result quotes.
pub const SNIPPET_CHARS: usize = 100;

/// Files with more bytes than this are not searched for content.
pub const MAX_CONTENT_BYTES: u64 = 512000;

/// How many leading bytes of a file are inspected to tell binary from text.
pub const SNIFF_BYTES: usize = 1024;

/// What a search looks at.
#[derive(Clone, Copy, Debug, PartialEq, Eq, Structural)]
pub enum SearchMode {
    /// The lines of every file.
    Content,
    /// The path of every file, relative to the root of the search.
    Filename,
}

/// One reported match. `line` counts from 1; 0 stands for the file as a whole,
/// as a file-name search reports it. `content` quotes the matching line.
#[derive(Clone, Debug)]
pub struct SearchResult {
    pub path: String,
    pub line: usize,
    pub content: String,
}

/// The mathematical value of a [`SearchResult`].
pub struct SearchResultView {
    pub path: Seq<char>,
    pub line: int,
    pub content: Seq<char>,
}

impl View for SearchResult {
    type V = SearchResultView;

    open spec fn view(&self) -> SearchResultView {
        SearchResultView { path: self.path@, line: self.line as int, content: self.content@ }
    }
}

/// The views of a list of results.
pub open spec fn results_view(v: Seq<SearchResult>) -> Seq<SearchResultView> {
    v.map_values(|r: SearchResult| r@)
}

/// A search as the caller states it.
#[derive(Clone, Debug)]
pub struct SearchQuery {
    pub root: String,
    pub pattern: String,
    pub mode: SearchMode,
    pub case_sensitive: bool,
    pub whole_word: bool,
    pub use_regex: bool,
    pub include_globs: Vec<String>,
    pub exclude_globs: Vec<String>,
}

/// The mathematical value of a [`SearchQuery`].
pub struct SearchQueryView {
    pub root: Seq<char>,
    pub pattern: Seq<char>,
    pub mode: SearchMode,
    pub case_sensitive: bool,
    pub whole_word: bool,
    pub use_regex: bool,
    pub include_globs: Seq<Seq<char>>,
    pub exclude_globs: Seq<Seq<char>>,
}

impl View for SearchQuery {
    type V = SearchQueryView;

    open spec fn view(&self) -> SearchQueryView {
        SearchQueryView {
            root: self.root@,
            pattern: self.pattern@,
            mode: self.mode,
            case_sensitive: self.case_sensitive,
            whole_word: self.whole_word,
            use_regex: self.use_regex,
            include_globs: strings_view(self.include_globs@),
            exclude_globs: strings_view(self.exclude_globs@),
        }
    }
}

/// The mode that a mode word stands for: `filename` for file names, anything
/// else, or no word, for content.
pub open spec fn mode_of(word: Option<Seq<char>>) -> SearchMode {
    if word == Some("filename"@) {
        SearchMode::Filename
    } else {
        SearchMode::Content
    }
}

/// The globs that an optional comma-separated list names.
pub open spec fn optional_glob_list(list: Option<Seq<char>>) -> Seq<Seq<char>> {
    match list {
        None => Seq::empty(),
        Some(l) => crate::globs::glob_list(l),
    }
}

/// The view of an optional string.
pub open spec fn optional_text(s: Option<String>) -> Option<Seq<char>> {
    match s {
        None => None,
        Some(t) => Some(t@),
    }
}

impl SearchQuery {
    /// A query from the loose form in which a front end sends it: what is left
    /// out means a content search that ignores case, matches anywhere, reads
    /// the pattern literally and filters nothing.
    pub fn new(
        root: String,
        pattern: String,
        mode: Option<String>,
        case_sensitive: Option<bool>,
        whole_word: Option<bool>,
        use_regex: Option<bool>,
        include_list: Option<String>,
        exclude_list: Option<String>,
    ) -> (q: SearchQuery)
        ensures
            q@.root == root@,
            q@.pattern == pattern@,
            q@.mode == mode_of(optional_text(mode)),
            q@.case_sensitive == (case_sensitive == Some(true)),
            q@.whole_word == (whole_word == Some(true)),
            q@.use_regex == (use_regex == Some(true)),
            q@.include_globs == optional_glob_list(optional_text(include_list)),
            q@.exclude_globs == optional_glob_list(optional_text(exclude_list)),
    {
        let search_mode = match &mode {
            Some(word) => {
                if same_text(word.as_str(), "filename") {
                    SearchMode::Filename
                } else {
                    SearchMode::Content
                }
            },
            None => SearchMode::Content,
        };
        let include_globs = match &include_list {
            Some(list) => parse_glob_list(list.as_str()),
            None => Vec::new(),
        };
        let exclude_globs = match &exclude_list {
            Some(list) => parse_glob_list(list.as_str()),
            None => Vec::new(),
        };
        assert(strings_view(Seq::<String>::empty()) =~= Seq::<Seq<char>>::empty());
        SearchQuery {
            root,
            pattern,
            mode: search_mode,
            case_sensitive: matches!(case_sensitive, Some(true)),
            whole_word: matches!(whole_word, Some(true)),
            use_regex: matches!(use_regex, Some(true)),
            include_globs,
            exclude_globs,
        }
    }
}

/// A query compiled once, then only read: shared by every worker of a search.
pub struct SearchPlan {
    pub mode: SearchMode,
    /// `None` when the pattern is empty: such a search finds nothing.
    pub matcher: Option<Matcher>,
    /// `None` when no include glob was given: every path is let through.
    pub include_set: Option<GlobFilter>,
    /// `None` when no exclude glob was given: no path is held back.
    pub exclude_set: Option<GlobFilter>,
}

/// The mathematical value of a [`SearchPlan`].
pub struct SearchPlanView {
    pub mode: SearchMode,
    pub matcher: Option<MatcherView>,
    pub include_globs: Option<Seq<Seq<char>>>,
    pub exclude_globs: Option<Seq<Seq<char>>>,
}

/// The globs of an optional filter.
pub open spec fn filter_view(filter: Option<GlobFilter>) -> Option<Seq<Seq<char>>> {
    match filter {
        None => None,
        Some(f) => Some(f.globs()),
    }
}

impl View for SearchPlan {
    type V = SearchPlanView;

    open spec fn view(&self) -> SearchPlanView {
        SearchPlanView {
            mode: self.mode,
            matcher: match self.matcher {
                None => None,
                Some(m) => Some(m@),
            },
            include_globs: filter_view(self.include_set),
            exclude_globs: filter_view(self.exclude_set),
        }
    }
}

/// The filter that a list of globs stands for: none when the list is empty,
/// else the globs with every backslash read as a slash.
pub open spec fn filter_for(globs: Seq<Seq<char>>) -> Option<Seq<Seq<char>>> {
    if globs.len() == 0 {
        None
    } else {
        Some(unified_globs(globs))
    }
}

/// Whether a query can be compiled: its pattern is empty, or its matcher can
/// be built and both lists of globs can be used.
pub open spec fn query_compiles(q: SearchQueryView) -> bool {
    q.pattern.len() == 0 || (matcher_compiles(
        q.pattern,
        q.case_sensitive,
        q.whole_word,
        q.use_regex,
    ) && globs_usable(q.include_globs) && globs_usable(q.exclude_globs))
}

/// What a query compiles to. With an empty pattern there is nothing to look
/// for, and neither matcher nor filters are built.
pub open spec fn plan_for(q: SearchQueryView) -> SearchPlanView {
    if q.pattern.len() == 0 {
        SearchPlanView { mode: q.mode, matcher: None, include_globs: None, exclude_globs: None }
    } else {
        SearchPlanView {
            mode: q.mode,
            matcher: Some(matcher_for(q.pattern, q.case_sensitive, q.whole_word, q.use_regex)),
            include_globs: filter_for(q.include_globs),
            exclude_globs: filter_for(q.exclude_globs),
        }
    }
}

/// Whether `culprit` is the pattern to blame for a query that does not
/// compile: the search pattern when the matcher cannot be built, else the
/// offending include glob, else the offending exclude glob.
pub open spec fn is_offending_pattern(q: SearchQueryView, culprit: Seq<char>) -> bool {
    if !matcher_compiles(q.pattern, q.case_sensitive, q.whole_word, q.use_regex) {
        culprit == q.pattern
    } else if !globs_usable(q.include_globs) {
        is_offending_glob(q.include_globs, culprit)
    } else {
        is_offending_glob(q.exclude_globs, culprit)
    }
}

impl SearchQuery {
    /// Compiles the query. A malformed regular expression or glob fails the
    /// whole query; nothing is searched then.
    pub fn compile(&self) -> (r: Result<SearchPlan, FsError>)
        ensures
            r is Ok <==> query_compiles(self@),
            r matches Ok(plan) ==> plan@ == plan_for(self@),
            r matches Err(e) ==> (e matches FsError::InvalidPattern(p) && is_offending_pattern(
                self@,
                p@,
            )),
    {
        if self.pattern.as_str().unicode_len() == 0 {
            return Ok(
                SearchPlan {
                    mode: self.mode,
                    matcher: None,
                    include_set: None,
                    exclude_set: None,
                },
            );
        }
        let matcher = match build_matcher(
            self.pattern.as_str(),
            self.case_sensitive,
            self.whole_word,
            self.use_regex,
        ) {
            Ok(m) => m,
            Err(e) => {
                return Err(e);
            },
        };
        let include_set = match compile_globs(&self.include_globs) {
            Ok(f) => f,
            Err(e) => {
                return Err(e);
            },
        };
        let exclude_set = match compile_globs(&self.exclude_globs) {
            Ok(f) => f,
            Err(e) => {
                return Err(e);
            },
        };
        Ok(SearchPlan { mode: self.mode, matcher: Some(matcher), include_set, exclude_set })
    }
}

/// Whether the filters of a plan let a relative path through: some include
/// glob matches it when there are any, and no exclude glob does.
pub open spec fn plan_admits(plan: SearchPlanView, relative: Seq<char>) -> bool {
    &&& plan.include_globs matches Some(globs) ==> any_glob_matches(globs, relative)
    &&& !(plan.exclude_globs matches Some(globs) && any_glob_matches(globs, relative))
}

/// Whether the leading bytes of a file hold a NUL, which marks it as binary.
pub open spec fn has_nul(head: Seq<u8>) -> bool {
    exists|i: int| 0 <= i < head.len() && i < SNIFF_BYTES && head[i] == 0
}

/// Tells a binary file from a text file by its leading bytes: a NUL among the
/// first 1024 marks it as binary. The file itself is not touched.
pub fn is_binary(head: &[u8]) -> (r: bool)
    ensures
        r == has_nul(head@),
{
    let mut i: usize = 0;
    while i < head.len() && i < SNIFF_BYTES
        invariant
            forall|j: int| 0 <= j < i ==> head@[j] != 0,
        decreases head.len() - i,
    {
        if head[i] == 0 {
            return true;
        }
        i += 1;
    }
    false
}

/// The path under which a result is reported: as given, with forward slashes.
pub open spec fn shown_path(path: Seq<char>) -> Seq<char> {
    forward_slashes(path)
}

/// What a file-name search reports for a file: the file as a whole.
pub open spec fn name_hit(path: Seq<char>) -> SearchResultView {
    SearchResultView { path: shown_path(path), line: 0, content: Seq::empty() }
}

/// What a content search reports for the line at `index` (counted from 0).
pub open spec fn line_hit(path: Seq<char>, index: int, line: Seq<char>) -> SearchResultView {
    SearchResultView {
        path: shown_path(path),
        line: index + 1,
        content: first_chars(trim_spec(line), SNIPPET_CHARS as nat),
    }
}

/// Whether a content search reports a line: it could be read, is not longer
/// than the limit, and the matcher accepts it.
pub open spec fn line_is_hit(m: MatcherView, line: Option<Seq<char>>) -> bool {
    line matches Some(text) && text.len() <= MAX_LINE_CHARS && accepts(m, text)
}

/// The views of the lines of a file; `None` is a line that could not be read.
pub open spec fn lines_view(lines: Seq<Option<String>>) -> Seq<Option<Seq<char>>> {
    Seq::new(lines.len(), |i: int| optional_text(lines[i]))
}

/// What a content search reports for the lines of one file: every line that
/// is a hit, in order, until the file has contributed its share.
pub open spec fn content_matches(
    m: MatcherView,
    path: Seq<char>,
    lines: Seq<Option<Seq<char>>>,
) -> Seq<SearchResultView>
    decreases lines.len(),
{
    if lines.len() == 0 {
        Seq::empty()
    } else {
        let before = content_matches(m, path, lines.drop_last());
        if before.len() < MAX_MATCHES_PER_FILE && line_is_hit(m, lines.last()) {
            before.push(line_hit(path, lines.len() - 1, lines.last()->0))
        } else {
            before
        }
    }
}

/// Once a file has contributed its share, the rest of its lines adds nothing.
pub proof fn lemma_share_is_final(
    m: MatcherView,
    path: Seq<char>,
    lines: Seq<Option<Seq<char>>>,
    seen: int,
)
    requires
        0 <= seen <= lines.len(),
        content_matches(m, path, lines.take(seen)).len() >= MAX_MATCHES_PER_FILE,
    ensures
        content_matches(m, path, lines) == content_matches(m, path, lines.take(seen)),
    decreases lines.len(),
{
    if seen == lines.len() {
        assert(lines.take(seen) =~= lines);
    } else {
        assert(lines.drop_last().take(seen) =~= lines.take(seen));
        lemma_share_is_final(m, path, lines.drop_last(), seen);
    }
}

/// The path of a result, with forward slashes.
pub fn show_path(path: &str) -> (r: String)
    ensures
        r@ == shown_path(path@),
{
    string_from_chars(&to_forward_slashes(&chars_of(path)))
}

/// Searches the lines of one file. `None` stands for a line that could not be
/// read: it is passed over, and still counted.
pub fn scan_lines(matcher: &Matcher, path: &str, lines: &Vec<Option<String>>) -> (r: Vec<
    SearchResult,
>)
    ensures
        results_view(r@) == content_matches(matcher@, path@, lines_view(lines@)),
{
    let shown = show_path(path);
    let mut r: Vec<SearchResult> = Vec::new();
    let mut i: usize = 0;
    let ghost all = lines_view(lines@);
    assert(all.take(0) =~= Seq::<Option<Seq<char>>>::empty());
    assert(results_view(r@) =~= Seq::<SearchResultView>::empty());
    while i < lines.len() && r.len() < MAX_MATCHES_PER_FILE
        invariant
            i <= lines.len(),
            all == lines_view(lines@),
            shown@ == shown_path(path@),
            results_view(r@) == content_matches(matcher@, path@, all.take(i as int)),
        decreases lines.len() - i,
    {
        proof {
            assert(all.take(i + 1).drop_last() =~= all.take(i as int));
            assert(all.take(i + 1).last() == optional_text(lines@[i as int]));
        }
        match &lines[i] {
            Some(line) => {
                let chars = chars_of(line.as_str());
                if chars.len() <= MAX_LINE_CHARS && matcher.is_match(line.as_str()) {
                    let snippet = truncate_chars(&trim(&chars), SNIPPET_CHARS);
                    let hit = SearchResult {
                        path: shown.clone(),
                        line: i + 1,
                        content: string_from_chars(&snippet),
                    };
                    let ghost before = results_view(r@);
                    r.push(hit);
                    assert(results_view(r@) =~= before.push(hit@));
                }
            },
            None => {},
        }
        i += 1;
    }
    proof {
        if i < lines.len() {
            lemma_share_is_final(matcher@, path@, all, i as int);
        } else {
            assert(all.take(i as int) =~= all);
        }
    }
    r
}

/// Matches the matcher against the relative path of a file, read with forward
/// slashes, and reports the file as a whole when it is accepted.
pub fn match_name(matcher: &Matcher, path: &str, relative: &str) -> (r: Option<SearchResult>)
    ensures
        r is Some <==> accepts(matcher@, forward_slashes(relative@)),
        r matches Some(hit) ==> hit@ == name_hit(path@),
{
    let clean = show_path(relative);
    if matcher.is_match(clean.as_str()) {
        Some(SearchResult { path: show_path(path), line: 0, content: String::new() })
    } else {
        None
    }
}

/// What the caller has read of one file that the walk came across. A
/// file-name search looks at the two paths only.
#[derive(Clone, Debug)]
pub struct FileSample {
    /// The path as the walk gave it.
    pub path: String,
    /// The same path relative to the root of the search.
    pub relative: String,
    /// The size of the file in bytes.
    pub size: u64,
    /// The leading bytes of the file, as many as were read.
    pub head: Vec<u8>,
    /// The lines of the file; `None` for a line that could not be read.
    pub lines: Vec<Option<String>>,
}

/// The mathematical value of a [`FileSample`].
pub struct FileSampleView {
    pub path: Seq<char>,
    pub relative: Seq<char>,
    pub size: int,
    pub head: Seq<u8>,
    pub lines: Seq<Option<Seq<char>>>,
}

impl View for FileSample {
    type V = FileSampleView;

    open spec fn view(&self) -> FileSampleView {
        FileSampleView {
            path: self.path@,
            relative: self.relative@,
            size: self.size as int,
            head: self.head@,
            lines: lines_view(self.lines@),
        }
    }
}

/// The views of a list of samples.
pub open spec fn samples_view(files: Seq<FileSample>) -> Seq<FileSampleView> {
    Seq::new(files.len(), |i: int| files[i]@)
}

/// Whether a content search reads a file: it is no larger than the limit and
/// its leading bytes hold no NUL.
pub open spec fn is_searchable_content(size: int, head: Seq<u8>) -> bool {
    size <= MAX_CONTENT_BYTES && !has_nul(head)
}

/// What a search reports for one file. Nothing unless there is a matcher and
/// the filters let the relative path through. Then a file-name search reports
/// the file when the matcher accepts its relative path, whatever the file
/// holds; a content search passes over binary and oversized files and reports
/// the matching lines of the others.
pub open spec fn file_matches(plan: SearchPlanView, file: FileSampleView) -> Seq<SearchResultView> {
    let relative = forward_slashes(file.relative);
    match plan.matcher {
        None => Seq::empty(),
        Some(m) => if !plan_admits(plan, relative) {
            Seq::empty()
        } else {
            match plan.mode {
                SearchMode::Filename => if accepts(m, relative) {
                    seq![name_hit(file.path)]
                } else {
                    Seq::empty()
                },
                SearchMode::Content => if is_searchable_content(file.size, file.head) {
                    content_matches(m, file.path, file.lines)
                } else {
                    Seq::empty()
                },
            }
        },
    }
}

impl SearchPlan {
    /// Applies the include and exclude filters to a relative path, before
    /// anything is read of the file.
    pub fn admits(&self, relative: &str) -> (r: bool)
        ensures
            r == plan_admits(self@, forward_slashes(relative@)),
    {
        let included = match &self.include_set {
            None => true,
            Some(_) => filter_is_match(&self.include_set, relative),
        };
        included && !filter_is_match(&self.exclude_set, relative)
    }

    /// Whether a content search reads a file of this size with these leading
    /// bytes.
    pub fn wants_content(&self, size: u64, head: &[u8]) -> (r: bool)
        ensures
            r == is_searchable_content(size as int, head@),
    {
        size <= MAX_CONTENT_BYTES && !is_binary(head)
    }

    /// Searches one file.
    pub fn search_file(&self, file: &FileSample) -> (r: Vec<SearchResult>)
        ensures
            results_view(r@) == file_matches(self@, file@),
            self@.mode == SearchMode::Content && has_nul(file.head@) ==> r@.len() == 0,
            self@.mode == SearchMode::Filename && self@.matcher is Some ==> (r@.len() > 0
                <==> plan_admits(self@, forward_slashes(file.relative@)) && accepts(
                self@.matcher->0,
                forward_slashes(file.relative@),
            )),
    {
        let mut r: Vec<SearchResult> = Vec::new();
        assert(results_view(r@) =~= Seq::<SearchResultView>::empty());
        match &self.matcher {
            None => r,
            Some(m) => {
                if !self.admits(file.relative.as_str()) {
                    return r;
                }
                match self.mode {
                    SearchMode::Filename => {
                        match match_name(m, file.path.as_str(), file.relative.as_str()) {
                            Some(hit) => {
                                r.push(hit);
                                assert(results_view(r@) =~= seq![name_hit(file.path@)]);
                                r
                            },
                            None => r,
                        }
                    },
                    SearchMode::Content => {
                        if self.wants_content(file.size, file.head.as_slice()) {
                            scan_lines(m, file.path.as_str(), &file.lines)
                        } else {
                            r
                        }
                    },
                }
            },
        }
    }
}

/// The key by which results are ordered: the path, byte by byte, then the line.
pub open spec fn result_key(r: SearchResultView) -> SortKeyView {
    SortKeyView { group: 0, text: encode_utf8(r.path), number: r.line }
}

/// Whether results stand in ascending order of path and line.
pub open spec fn results_in_order(rs: Seq<SearchResultView>) -> bool {
    forall|i: int, j: int|
        0 <= i < j < rs.len() ==> key_le(result_key(#[trigger] rs[i]), result_key(#[trigger] rs[j]))
}

/// The results that a search keeps of those it received: the first
/// [`MAX_RESULTS`], or all when there are fewer.
pub open spec fn kept_results(received: Seq<SearchResultView>) -> Seq<SearchResultView> {
    if received.len() <= MAX_RESULTS {
        received
    } else {
        received.take(MAX_RESULTS as int)
    }
}

/// Whether `out` is `input` ordered by path and line, with results of the
/// same path and line in the order of `input`; `origin` says where each
/// result of `out` stood in `input`.
pub open spec fn is_ordering_of_results(
    out: Seq<SearchResultView>,
    input: Seq<SearchResultView>,
    origin: Seq<int>,
) -> bool {
    is_stable_sort(out, input, |v: SearchResultView| result_key(v), origin)
}

/// Turns what the workers sent, in the order of arrival, into the result of
/// the search: of the first [`MAX_RESULTS`] received nothing is lost or
/// added, and they come out ordered by path and line; results of the same
/// path and line stay in the order of arrival.
pub fn collect_results(received: Vec<SearchResult>) -> (r: Vec<SearchResult>)
    ensures
        r@.len() <= MAX_RESULTS,
        r@.len() == kept_results(results_view(received@)).len(),
        results_view(r@).to_multiset() == kept_results(results_view(received@)).to_multiset(),
        results_in_order(results_view(r@)),
        exists|origin: Seq<int>| #[trigger]
            is_ordering_of_results(
                results_view(r@),
                kept_results(results_view(received@)),
                origin,
            ),
{
    let mut kept = received;
    kept.truncate(MAX_RESULTS);
    assert(results_view(kept@) =~= kept_results(results_view(received@)));
    let ghost key_of = |r: SearchResult| result_key(r@);
    let mut keys: Vec<SortKey> = Vec::new();
    let mut i: usize = 0;
    while i < kept.len()
        invariant
            i <= kept.len(),
            keys@.len() == i,
            forall|j: int| 0 <= j < i ==> (#[trigger] keys@[j])@ == result_key(kept@[j]@),
        decreases kept.len() - i,
    {
        let key = SortKey {
            group: 0,
            text: kept[i].path.as_str().as_bytes_vec(),
            number: kept[i].line,
        };
        keys.push(key);
        i += 1;
    }
    let ghost before = kept@;
    let (sorted, sorted_keys, Ghost(origin)) = sort_by_keys(kept, keys, Ghost(key_of));
    proof {
        lemma_map_keeps_permutation(sorted@, before, |r: SearchResult| r@);
        let views = results_view(sorted@);
        assert(is_ordering_of_results(views, results_view(before), origin)) by {
            let key = |v: SearchResultView| result_key(v);
            assert forall|i: int| 0 <= i < views.len() implies 0 <= #[trigger] origin[i]
                < before.len() && views[i] == results_view(before)[origin[i]] by {}
            assert forall|i: int, j: int| 0 <= i < j < views.len() implies #[trigger] origin[i]
                != #[trigger] origin[j] && key_le(key(views[i]), key(views[j])) && (key_le(
                key(views[j]),
                key(views[i]),
            ) ==> origin[i] < origin[j]) by {
                assert(key_of(sorted@[i]) == key(views[i]));
                assert(key_of(sorted@[j]) == key(views[j]));
            }
        }
        assert forall|i: int, j: int| 0 <= i < j < views.len() implies key_le(
            result_key(#[trigger] views[i]),
            result_key(#[trigger] views[j]),
        ) by {
            let ks = keys_view(sorted_keys@);
            assert(ks[i] == sorted_keys@[i]@ && ks[j] == sorted_keys@[j]@);
            assert(key_le(ks[i], ks[j]));
        }
    }
    sorted
}

/// Everything that a search over `files` finds, file after file.
pub open spec fn all_matches(plan: SearchPlanView, files: Seq<FileSampleView>) -> Seq<
    SearchResultView,
>
    decreases files.len(),
{
    if files.len() == 0 {
        Seq::empty()
    } else {
        all_matches(plan, files.drop_last()) + file_matches(plan, files.last())
    }
}

/// Whether no two of the files are reported under the same path.
pub open spec fn files_differ(files: Seq<FileSampleView>) -> bool {
    forall|a: int, b: int|
        0 <= a < b < files.len() ==> shown_path(#[trigger] files[a].path) != shown_path(
            #[trigger] files[b].path,
        )
}

/// Whether `path` is the path under which one of the files is reported.
pub open spec fn is_path_of(files: Seq<FileSampleView>, path: Seq<char>) -> bool {
    exists|k: int| 0 <= k < files.len() && shown_path(#[trigger] files[k].path) == path
}

/// Whether every result stands for a file as a whole.
pub open spec fn are_whole_files(rs: Seq<SearchResultView>) -> bool {
    forall|i: int| 0 <= i < rs.len() ==> (#[trigger] rs[i]).line == 0 && rs[i].content.len() == 0
}

/// Whether the paths of the results ascend strictly, byte by byte: no path
/// comes twice.
pub open spec fn paths_ascend_strictly(rs: Seq<SearchResultView>) -> bool {
    forall|i: int, j: int|
        0 <= i < j < rs.len() ==> crate::order::bytes_lt(
            encode_utf8(#[trigger] rs[i].path),
            encode_utf8(#[trigger] rs[j].path),
        )
}

/// What a file-name search finds, file after file, are whole files, each
/// under the path of one of the files; when no two files share a path, no
/// two finds do.
pub proof fn lemma_name_matches(plan: SearchPlanView, files: Seq<FileSampleView>)
    requires
        plan.mode == SearchMode::Filename,
    ensures
        are_whole_files(all_matches(plan, files)),
        forall|i: int|
            0 <= i < all_matches(plan, files).len() ==> is_path_of(
                files,
                (#[trigger] all_matches(plan, files)[i]).path,
            ),
        files_differ(files) ==> forall|i: int, j: int|
            0 <= i < j < all_matches(plan, files).len() ==> (#[trigger] all_matches(
                plan,
                files,
            )[i]).path != (#[trigger] all_matches(plan, files)[j]).path,
    decreases files.len(),
{
    if files.len() > 0 {
        let front = files.drop_last();
        let last = files.last();
        let before = all_matches(plan, front);
        let added = file_matches(plan, last);
        let all = all_matches(plan, files);
        lemma_name_matches(plan, front);
        assert(all == before + added);
        assert(added.len() <= 1);
        assert forall|i: int| 0 <= i < all.len() implies is_path_of(files, (#[trigger] all[i]).path)
            && all[i].line == 0 && all[i].content.len() == 0 by {
            if i < before.len() {
                assert(all[i] == before[i]);
                assert(is_path_of(front, before[i].path));
                let k = choose|k: int|
                    0 <= k < front.len() && shown_path(#[trigger] front[k].path) == before[i].path;
                assert(files[k] == front[k]);
            } else {
                assert(all[i] == added[0]);
                assert(added[0] == name_hit(last.path));
                assert(files[files.len() - 1] == last);
            }
        }
        if files_differ(files) {
            assert(files_differ(front)) by {
                assert forall|a: int, b: int| 0 <= a < b < front.len() implies shown_path(
                    #[trigger] front[a].path,
                ) != shown_path(#[trigger] front[b].path) by {
                    assert(front[a] == files[a] && front[b] == files[b]);
                }
            }
            assert forall|i: int, j: int| 0 <= i < j < all.len() implies (#[trigger] all[i]).path
                != (#[trigger] all[j]).path by {
                if j < before.len() {
                    assert(all[i] == before[i] && all[j] == before[j]);
                } else {
                    assert(all[i] == before[i]);
                    assert(all[j] == name_hit(last.path));
                    assert(is_path_of(front, before[i].path));
                    let k = choose|k: int|
                        0 <= k < front.len() && shown_path(#[trigger] front[k].path)
                            == before[i].path;
                    assert(files[k] == front[k]);
                    assert(files[files.len() - 1] == last);
                }
            }
        }
    }
}

/// The result of a file-name search names whole files: every result has line
/// 0 and quotes nothing. When no two of the files that were searched share a
/// path, the paths of the result ascend strictly, so that no file comes twice.
pub proof fn name_search_reports_each_file_once(
    plan: SearchPlanView,
    files: Seq<FileSampleView>,
    found: Seq<SearchResultView>,
    origin: Seq<int>,
)
    requires
        plan.mode == SearchMode::Filename,
        is_ordering_of_results(found, kept_results(all_matches(plan, files)), origin),
    ensures
        are_whole_files(found),
        files_differ(files) ==> paths_ascend_strictly(found),
{
    let all = all_matches(plan, files);
    let kept = kept_results(all);
    lemma_name_matches(plan, files);
    assert forall|m: int| 0 <= m < kept.len() implies #[trigger] kept[m] == all[m] by {}
    assert forall|i: int| 0 <= i < found.len() implies (#[trigger] found[i]).line == 0
        && found[i].content.len() == 0 by {
        assert(found[i] == kept[origin[i]]);
    }
    if files_differ(files) {
        assert forall|i: int, j: int| 0 <= i < j < found.len() implies crate::order::bytes_lt(
            encode_utf8(#[trigger] found[i].path),
            encode_utf8(#[trigger] found[j].path),
        ) by {
            let a = origin[i];
            let b = origin[j];
            assert(found[i] == all[a] && found[j] == all[b]);
            assert(a != b);
            if a < b {
                assert(all[a].path != all[b].path);
            } else {
                assert(all[b].path != all[a].path);
            }
            let key = |v: SearchResultView| result_key(v);
            assert(key_le(key(found[i]), key(found[j])));
            if encode_utf8(found[i].path) == encode_utf8(found[j].path) {
                vstd::utf8::encode_utf8_decode_utf8(found[i].path);
                vstd::utf8::encode_utf8_decode_utf8(found[j].path);
            }
        }
    }
}

/// Runs a whole search over files that were read beforehand: compiles the
/// query, searches every file in turn, and collects. A query that does not
/// compile yields the error and no results at all; an empty pattern yields no
/// results. A file-name search reports whole files, and each file once when
/// no two of the files share a path.
pub fn search_in_dir(query: &SearchQuery, files: &Vec<FileSample>) -> (r: Result<
    Vec<SearchResult>,
    FsError,
>)
    ensures
        r is Ok <==> query_compiles(query@),
        r matches Err(e) ==> (e matches FsError::InvalidPattern(p) && is_offending_pattern(
            query@,
            p@,
        )),
        r matches Ok(found) ==> {
            let all = all_matches(plan_for(query@), samples_view(files@));
            &&& found@.len() <= MAX_RESULTS
            &&& found@.len() == kept_results(all).len()
            &&& results_view(found@).to_multiset() == kept_results(all).to_multiset()
            &&& results_in_order(results_view(found@))
            &&& exists|origin: Seq<int>| #[trigger]
                is_ordering_of_results(results_view(found@), kept_results(all), origin)
        },
        query@.pattern.len() == 0 ==> (r matches Ok(found) && found@.len() == 0),
        query@.mode == SearchMode::Filename ==> (r matches Ok(found) ==> are_whole_files(
            results_view(found@),
        ) && (files_differ(samples_view(files@)) ==> paths_ascend_strictly(results_view(found@)))),
{
    let plan = match query.compile() {
        Ok(plan) => plan,
        Err(e) => {
            return Err(e);
        },
    };
    let ghost samples = samples_view(files@);
    let mut received: Vec<SearchResult> = Vec::new();
    let mut i: usize = 0;
    assert(samples.take(0) =~= Seq::<FileSampleView>::empty());
    assert(results_view(received@) =~= Seq::<SearchResultView>::empty());
    while i < files.len()
        invariant
            i <= files.len(),
            samples == samples_view(files@),
            results_view(received@) == all_matches(plan@, samples.take(i as int)),
            plan@.matcher is None ==> received@.len() == 0,
        decreases files.len() - i,
    {
        proof {
            assert(samples.take(i + 1).drop_last() =~= samples.take(i as int));
            assert(samples.take(i + 1).last() == files@[i as int]@);
        }
        let mut found = plan.search_file(&files[i]);
        let ghost before = results_view(received@);
        let ghost added = results_view(found@);
        received.append(&mut found);
        assert(results_view(received@) =~= before + added);
        i += 1;
    }
    assert(samples.take(files@.len() as int) =~= samples);
    let found = collect_results(received);
    proof {
        if plan@.mode == SearchMode::Filename {
            let kept = kept_results(all_matches(plan@, samples));
            let origin = choose|origin: Seq<int>| #[trigger]
                is_ordering_of_results(results_view(found@), kept, origin);
            name_search_reports_each_file_once(plan@, samples, results_view(found@), origin);
        }
    }
    Ok(found)
}

/// The most workers that a search runs.
pub const MAX_WORKERS: usize = 8;

/// `num_cpus::get`: the number of processors that this process may use,
/// which is at least one; beyond that it depends on the machine.
#[verifier::external_body]
pub(crate) fn available_cpus() -> (r: usize)
    ensures
        r >= 1,
{
    num_cpus::get()
}

/// The number of workers for a machine with `cpus` processors: one for each,
/// but no more than [`MAX_WORKERS`].
pub fn worker_count(cpus: usize) -> (r: usize)
    ensures
        r == if cpus < MAX_WORKERS {
            cpus
        } else {
            MAX_WORKERS
        },
{
    if cpus < MAX_WORKERS {
        cpus
    } else {
        MAX_WORKERS
    }
}

/// The number of workers for this machine: between one and [`MAX_WORKERS`].
pub fn default_worker_count() -> (r: usize)
    ensures
        1 <= r <= MAX_WORKERS,
{
    worker_count(available_cpus())
}

/// Whether a file search with these globs can be set up.
pub open spec fn finder_compiles(include_glob: Seq<char>, exclude_glob: Option<Seq<char>>) -> bool {
    globs_usable(seq![include_glob]) && (exclude_glob matches Some(ex) ==> globs_usable(seq![ex]))
}

/// Whether a file search reports a path, read with forward slashes: the
/// include glob matches it and the exclude glob, if there is one, does not.
/// A backslash in a glob is read as a slash.
pub open spec fn is_found(
    include_glob: Seq<char>,
    exclude_glob: Option<Seq<char>>,
    path: Seq<char>,
) -> bool {
    crate::pattern::glob_matches(forward_slashes(include_glob), path) && !(exclude_glob matches Some(
        ex,
    ) && crate::pattern::glob_matches(forward_slashes(ex), path))
}

/// The paths that a file search reports of those it was handed, in the same
/// order, written with forward slashes.
pub open spec fn found_files(
    include_glob: Seq<char>,
    exclude_glob: Option<Seq<char>>,
    candidates: Seq<Seq<char>>,
) -> Seq<Seq<char>>
    decreases candidates.len(),
{
    if candidates.len() == 0 {
        Seq::empty()
    } else {
        let before = found_files(include_glob, exclude_glob, candidates.drop_last());
        let path = forward_slashes(candidates.last());
        if is_found(include_glob, exclude_glob, path) {
            before.push(path)
        } else {
            before
        }
    }
}

/// Picks from the files that a walk came across those that match the include
/// glob and not the exclude glob. A backslash in a glob is read as a slash. A
/// malformed glob fails the call.
pub fn fs_find_files(candidates: &Vec<String>, include_glob: &str, exclude_glob: Option<String>) -> (r:
    Result<Vec<String>, FsError>)
    ensures
        r is Ok <==> finder_compiles(include_glob@, optional_text(exclude_glob)),
        r matches Ok(found) ==> strings_view(found@) == found_files(
            include_glob@,
            optional_text(exclude_glob),
            strings_view(candidates@),
        ),
        r matches Err(e) ==> e is InvalidPattern,
{
    let include_list: Vec<String> = vec![include_glob.to_owned()];
    assert(strings_view(include_list@) =~= seq![include_glob@]);
    assert(unified_globs(seq![include_glob@]) =~= seq![forward_slashes(include_glob@)]);
    let include_set = match compile_globs(&include_list) {
        Ok(set) => set,
        Err(e) => {
            return Err(e);
        },
    };
    let exclude_set = match &exclude_glob {
        None => None,
        Some(ex) => {
            let exclude_list: Vec<String> = vec![ex.clone()];
            assert(strings_view(exclude_list@) =~= seq![ex@]);
            assert(unified_globs(seq![ex@]) =~= seq![forward_slashes(ex@)]);
            match compile_globs(&exclude_list) {
                Ok(set) => set,
                Err(e) => {
                    return Err(e);
                },
            }
        },
    };
    let ghost all = strings_view(candidates@);
    let ghost ex_view = optional_text(exclude_glob);
    let mut found: Vec<String> = Vec::new();
    let mut i: usize = 0;
    assert(all.take(0) =~= Seq::<Seq<char>>::empty());
    assert(strings_view(found@) =~= Seq::<Seq<char>>::empty());
    while i < candidates.len()
        invariant
            i <= candidates.len(),
            all == strings_view(candidates@),
            ex_view == optional_text(exclude_glob),
            include_set matches Some(f) && f.globs() == seq![forward_slashes(include_glob@)],
            exclude_glob is None ==> exclude_set is None,
            exclude_glob matches Some(ex) ==> (exclude_set matches Some(f) && f.globs() == seq![
                forward_slashes(ex@),
            ]),
            strings_view(found@) == found_files(include_glob@, ex_view, all.take(i as int)),
        decreases candidates.len() - i,
    {
        proof {
            assert(all.take(i + 1).drop_last() =~= all.take(i as int));
            assert(all.take(i + 1).last() == candidates@[i as int]@);
        }
        let path = candidates[i].as_str();
        let ghost clean = forward_slashes(path@);
        let wanted = filter_is_match(&include_set, path);
        let unwanted = filter_is_match(&exclude_set, path);
        proof {
            let inc = seq![forward_slashes(include_glob@)];
            assert(inc[0] == forward_slashes(include_glob@));
            assert(any_glob_matches(inc, clean) == crate::pattern::glob_matches(
                forward_slashes(include_glob@),
                clean,
            ));
            if exclude_glob is Some {
                let ex = forward_slashes(exclude_glob->0@);
                let exc = seq![ex];
                assert(exc[0] == ex);
                assert(any_glob_matches(exc, clean) == crate::pattern::glob_matches(ex, clean));
            }
        }
        if wanted && !unwanted {
            let ghost before = strings_view(found@);
            found.push(show_path(path));
            assert(strings_view(found@) =~= before.push(clean));
        }
        i += 1;
    }
    assert(all.take(candidates@.len() as int) =~= all);
    Ok(found)
}

} // verus!
