//! The virtual file system: the operations a backend offers, the values they
//! exchange, and the local backend's sandbox, which every operation passes
//! before it touches storage.

use crate::error::FsError;
use crate::order::{
    is_stable_sort, key_le, keys_view, lemma_map_keeps_permutation, sort_by_keys, SortKey,
    SortKeyView,
};
use crate::path::{
    clone_path, is_inside, is_normal_form, lemma_normal_form_is_fixed,
    lemma_normalize_gives_normal_form, normalize, normalize_path, path_view, render, render_spec,
    resolve, split_path, validate, Segment, SegmentView,
};
use crate::search::{has_nul, is_binary};
use crate::text::{
    bytes_to_string_lossy, chars_of, decode_lossy, forward_slashes, lowercase, str_to_lowercase,
    string_from_chars, to_forward_slashes,
};
use vstd::prelude::*;
use vstd::string::*;
use vstd::utf8::encode_utf8;

verus! {

/// The largest file, in bytes, that is read as text unless the caller sets
/// another limit.
pub const DEFAULT_MAX_READ_BYTES: u64 = 5242880;

/// One entry of a directory listing.
#[derive(Clone, Debug)]
pub struct FileItem {
    pub name: String,
    /// The absolute path of the entry, with forward slashes.
    pub path: String,
    pub is_dir: bool,
}

/// The mathematical value of a [`FileItem`].
pub struct FileItemView {
    pub name: Seq<char>,
    pub path: Seq<char>,
    pub is_dir: bool,
}

impl View for FileItem {
    type V = FileItemView;

    open spec fn view(&self) -> FileItemView {
        FileItemView { name: self.name@, path: self.path@, is_dir: self.is_dir }
    }
}

impl FileItem {
    /// An entry with its path written with forward slashes.
    pub fn new(name: String, path: &str, is_dir: bool) -> (item: FileItem)
        ensures
            item@ == (FileItemView { name: name@, path: forward_slashes(path@), is_dir }),
    {
        FileItem { name, path: string_from_chars(&to_forward_slashes(&chars_of(path))), is_dir }
    }
}

/// The views of a list of entries.
pub open spec fn entries_view(v: Seq<FileItem>) -> Seq<FileItemView> {
    v.map_values(|e: FileItem| e@)
}

/// The key by which a listing is ordered: directories before files, then the
/// name in lower case, byte by byte.
pub open spec fn entry_key(e: FileItemView) -> SortKeyView {
    SortKeyView {
        group: if e.is_dir {
            0
        } else {
            1
        },
        text: encode_utf8(lowercase(e.name)),
        number: 0,
    }
}

/// Whether a listing is in order.
pub open spec fn entries_in_order(es: Seq<FileItemView>) -> bool {
    forall|i: int, j: int|
        0 <= i < j < es.len() ==> key_le(entry_key(#[trigger] es[i]), entry_key(#[trigger] es[j]))
}

/// Whether `out` is the listing `input` in order, with entries of the same
/// kind and name in the order of `input`; `origin` says where each entry of
/// `out` stood in `input`.
pub open spec fn is_ordering_of_entries(
    out: Seq<FileItemView>,
    input: Seq<FileItemView>,
    origin: Seq<int>,
) -> bool {
    is_stable_sort(out, input, |e: FileItemView| entry_key(e), origin)
}

/// Puts a directory listing in order: directories first, then by name without
/// regard to case. No entry is lost or added, and entries that the order does
/// not tell apart stay as they came.
pub fn sort_entries(items: Vec<FileItem>) -> (r: Vec<FileItem>)
    ensures
        r@.len() == items@.len(),
        entries_view(r@).to_multiset() == entries_view(items@).to_multiset(),
        entries_in_order(entries_view(r@)),
        exists|origin: Seq<int>| #[trigger]
            is_ordering_of_entries(entries_view(r@), entries_view(items@), origin),
{
    let ghost key_of = |e: FileItem| entry_key(e@);
    let mut keys: Vec<SortKey> = Vec::new();
    let mut i: usize = 0;
    while i < items.len()
        invariant
            i <= items.len(),
            keys@.len() == i,
            forall|j: int| 0 <= j < i ==> (#[trigger] keys@[j])@ == entry_key(items@[j]@),
        decreases items.len() - i,
    {
        let folded = str_to_lowercase(items[i].name.as_str());
        let key = SortKey {
            group: if items[i].is_dir {
                0
            } else {
                1
            },
            text: folded.as_str().as_bytes_vec(),
            number: 0,
        };
        keys.push(key);
        i += 1;
    }
    let ghost before = items@;
    let (sorted, sorted_keys, Ghost(origin)) = sort_by_keys(items, keys, Ghost(key_of));
    proof {
        lemma_map_keeps_permutation(sorted@, before, |e: FileItem| e@);
        let views = entries_view(sorted@);
        assert(is_ordering_of_entries(views, entries_view(before), origin)) by {
            let key = |e: FileItemView| entry_key(e);
            assert forall|i: int| 0 <= i < views.len() implies 0 <= #[trigger] origin[i]
                < before.len() && views[i] == entries_view(before)[origin[i]] by {}
            assert forall|i: int, j: int| 0 <= i < j < views.len() implies #[trigger] origin[i]
                != #[trigger] origin[j] && key_le(key(views[i]), key(views[j])) && (key_le(
                key(views[j]),
                key(views[i]),
            ) ==> origin[i] < origin[j]) by {
                assert(key_of(sorted@[i]) == key(views[i]));
                assert(key_of(sorted@[j]) == key(views[j]));
            }
        }
        assert forall|i: int, j: int| 0 <= i < j < views.len() implies key_le(
            entry_key(#[trigger] views[i]),
            entry_key(#[trigger] views[j]),
        ) by {
            let ks = keys_view(sorted_keys@);
            assert(ks[i] == sorted_keys@[i]@ && ks[j] == sorted_keys@[j]@);
            assert(key_le(ks[i], ks[j]));
        }
    }
    sorted
}

/// What kind of thing a path names.
#[derive(Clone, Copy, Debug, PartialEq, Eq, Structural)]
pub enum FileKind {
    File,
    Dir,
    Symlink,
    Unknown,
}

/// The word under which a kind is reported.
pub open spec fn kind_word(kind: FileKind) -> Seq<char> {
    match kind {
        FileKind::File => "file"@,
        FileKind::Dir => "dir"@,
        FileKind::Symlink => "symlink"@,
        FileKind::Unknown => "unknown"@,
    }
}

/// What is known of a file: its kind, its size in bytes, and when it was last
/// modified, in seconds since the epoch.
#[derive(Clone, Debug)]
pub struct FileStat {
    pub file_type: String,
    pub size: u64,
    pub mtime: u64,
}

impl FileStat {
    /// The record for a file of the given kind. A modification time that the
    /// platform does not know is reported as 0.
    pub fn new(kind: FileKind, size: u64, modified: Option<u64>) -> (stat: FileStat)
        ensures
            stat.file_type@ == kind_word(kind),
            stat.size == size,
            stat.mtime == match modified {
                Some(t) => t,
                None => 0,
            },
    {
        let word = match kind {
            FileKind::File => "file",
            FileKind::Dir => "dir",
            FileKind::Symlink => "symlink",
            FileKind::Unknown => "unknown",
        };
        FileStat {
            file_type: word.to_owned(),
            size,
            mtime: match modified {
                Some(t) => t,
                None => 0,
            },
        }
    }
}

/// Decides whether a file may be read as text, from its size and its leading
/// bytes alone: too large beyond `max_bytes`, binary with a NUL among its
/// first 1024 bytes. The size is tested first, since it is known before
/// anything is read: a file that is both too large and binary is too large.
pub fn check_readable(size: u64, head: &[u8], max_bytes: u64) -> (r: Result<(), FsError>)
    ensures
        size > max_bytes ==> r == Err::<(), FsError>(FsError::TooLarge),
        size <= max_bytes && has_nul(head@) ==> r == Err::<(), FsError>(FsError::BinaryFile),
        size <= max_bytes && !has_nul(head@) ==> r is Ok,
{
    if size > max_bytes {
        Err(FsError::TooLarge)
    } else if is_binary(head) {
        Err(FsError::BinaryFile)
    } else {
        Ok(())
    }
}

/// The text of a file whose bytes were read: refused when there are more than
/// `max_bytes` of them or when they look binary, else decoded, with U+FFFD
/// for what is not UTF-8. The size is tested first: bytes that are both too
/// many and binary are too many. The bytes of a text that was written read
/// back as that text.
pub fn read_text(bytes: &Vec<u8>, max_bytes: u64) -> (r: Result<String, FsError>)
    ensures
        bytes@.len() > max_bytes ==> r == Err::<String, FsError>(FsError::TooLarge),
        bytes@.len() <= max_bytes && has_nul(bytes@) ==> r == Err::<String, FsError>(
            FsError::BinaryFile,
        ),
        bytes@.len() <= max_bytes && !has_nul(bytes@) ==> (r matches Ok(text) && text@
            == decode_lossy(bytes@)),
        forall|written: Seq<char>|
            #[trigger] encode_utf8(written) == bytes@ && bytes@.len() <= max_bytes && !has_nul(
                bytes@,
            ) ==> (r matches Ok(text) && text@ == written),
{
    broadcast use vstd::utf8::encode_utf8_valid_utf8, vstd::utf8::encode_utf8_decode_utf8;

    if bytes.len() as u64 > max_bytes {
        Err(FsError::TooLarge)
    } else if is_binary(bytes.as_slice()) {
        Err(FsError::BinaryFile)
    } else {
        Ok(bytes_to_string_lossy(bytes))
    }
}

/// The operations of a file system backend. Every path is taken relative to
/// the backend's root, and every operation validates its paths against the
/// root before it touches storage.
///
/// Each operation that changes something comes with a relation that says what
/// one call of it does. Code that knows a backend only through this trait
/// learns of the relation by making the call, and in no other way.
pub trait FileSystem {
    /// The entries of a directory, directories first, then by name without
    /// regard to case.
    fn read_dir(&self, path: &str) -> Result<Vec<FileItem>, FsError>;

    /// The text of a file.
    fn read_file(&self, path: &str) -> Result<String, FsError>;

    /// What one call of `write_file` may leave behind and return: `self` is the
    /// backend before the call, `after` the backend after it. A backend that
    /// is verified says here what the operation does; one that says nothing
    /// allows every outcome.
    closed spec fn writes(
        &self,
        path: Seq<char>,
        content: Seq<char>,
        after: &Self,
        outcome: Result<(), FsError>,
    ) -> bool {
        true
    }

    /// Replaces the content of a file, creating it if need be.
    fn write_file(&mut self, path: &str, content: &str) -> (r: Result<(), FsError>)
        ensures
            old(self).writes(path@, content@, final(self), r),
    ;

    /// What one call of `create_file` may leave behind and return: `self` is the
    /// backend before the call, `after` the backend after it. A backend that
    /// is verified says here what the operation does; one that says nothing
    /// allows every outcome.
    closed spec fn creates_file(
        &self,
        path: Seq<char>,
        after: &Self,
        outcome: Result<(), FsError>,
    ) -> bool {
        true
    }

    /// Creates an empty file.
    fn create_file(&mut self, path: &str) -> (r: Result<(), FsError>)
        ensures
            old(self).creates_file(path@, final(self), r),
    ;

    /// What one call of `create_dir` may leave behind and return: `self` is the
    /// backend before the call, `after` the backend after it. A backend that
    /// is verified says here what the operation does; one that says nothing
    /// allows every outcome.
    closed spec fn creates_dir(
        &self,
        path: Seq<char>,
        after: &Self,
        outcome: Result<(), FsError>,
    ) -> bool {
        true
    }

    /// Creates a directory and the directories above it.
    fn create_dir(&mut self, path: &str) -> (r: Result<(), FsError>)
        ensures
            old(self).creates_dir(path@, final(self), r),
    ;

    /// What one call of `remove_item` may leave behind and return: `self` is the
    /// backend before the call, `after` the backend after it. A backend that
    /// is verified says here what the operation does; one that says nothing
    /// allows every outcome.
    closed spec fn removes(
        &self,
        path: Seq<char>,
        after: &Self,
        outcome: Result<(), FsError>,
    ) -> bool {
        true
    }

    /// Removes a file, or a directory with all that is in it.
    fn remove_item(&mut self, path: &str) -> (r: Result<(), FsError>)
        ensures
            old(self).removes(path@, final(self), r),
    ;

    /// What one call of `rename_item` may leave behind and return: `self` is
    /// the backend before the call, `after` the backend after it. A backend
    /// that is verified says here what the operation does; one that says
    /// nothing allows every outcome.
    closed spec fn renames(
        &self,
        from: Seq<char>,
        to: Seq<char>,
        after: &Self,
        outcome: Result<(), FsError>,
    ) -> bool {
        true
    }

    /// Moves a file or directory; both paths are validated.
    fn rename_item(&mut self, from: &str, to: &str) -> (r: Result<(), FsError>)
        ensures
            old(self).renames(from@, to@, final(self), r),
    ;

    /// What is known of a file.
    fn stat(&self, path: &str) -> Result<FileStat, FsError>;

    /// The root, as text.
    fn get_cwd(&self) -> String;

    /// What one call of `set_cwd` may leave behind and return: `self` is the
    /// backend before the call, `after` the backend after it. A backend that
    /// is verified says here what the operation does; one that says nothing
    /// allows every outcome.
    closed spec fn sets_root(
        &self,
        path: Seq<char>,
        after: &Self,
        outcome: Result<(), FsError>,
    ) -> bool {
        true
    }

    /// Replaces the root. Whether the new root exists is not looked into.
    fn set_cwd(&mut self, path: &str) -> (r: Result<(), FsError>)
        ensures
            old(self).sets_root(path@, final(self), r),
    ;
}

/// Whether a path in normal form is absolute: it has a root.
pub open spec fn is_absolute(p: Seq<SegmentView>) -> bool {
    (p.len() > 0 && p[0] is RootDir) || (p.len() > 1 && p[1] is RootDir)
}

/// What validating `target` under `root` comes to: the resolved path when it
/// lies inside the root, a denial that carries the resolved path when not.
pub open spec fn is_validation_of(
    root: Seq<SegmentView>,
    target: Seq<SegmentView>,
    r: Result<Vec<Segment>, FsError>,
) -> bool {
    &&& r is Ok <==> is_inside(root, target)
    &&& r matches Ok(p) ==> path_view(p@) == resolve(root, target)
    &&& r matches Err(e) ==> (e matches FsError::AccessDenied(p) && path_view(p@) == resolve(
        root,
        target,
    ))
}

/// Whether a path has a root among its first two segments.
pub fn has_root(path: &Vec<Segment>) -> (r: bool)
    ensures
        r == is_absolute(path_view(path@)),
{
    (path.len() > 0 && matches!(path[0], Segment::RootDir)) || (path.len() > 1 && matches!(
        path[1],
        Segment::RootDir
    ))
}

/// What making a file system with the root `root` comes to: the file system,
/// rooted at the normal form of `root`, when that is absolute; a denial that
/// carries the normal form when it is not.
pub open spec fn is_rooting_of(root: Seq<SegmentView>, r: Result<LocalFileSystem, FsError>) -> bool {
    &&& r is Ok <==> is_absolute(normalize(root))
    &&& r matches Ok(fs) ==> fs.root_path() == normalize(root)
    &&& r matches Err(e) ==> (e matches FsError::AccessDenied(p) && path_view(p@) == normalize(
        root,
    ))
}

/// What validating the two ends of a move comes to: both resolved paths when
/// both lie inside the root; else the denial of the first that does not, the
/// source before the destination.
pub open spec fn is_validation_of_both(
    root: Seq<SegmentView>,
    from: Seq<SegmentView>,
    to: Seq<SegmentView>,
    r: Result<(Vec<Segment>, Vec<Segment>), FsError>,
) -> bool {
    &&& r is Ok <==> is_inside(root, from) && is_inside(root, to)
    &&& r matches Ok(pair) ==> path_view(pair.0@) == resolve(root, from) && path_view(pair.1@)
        == resolve(root, to)
    &&& r matches Err(e) ==> (e matches FsError::AccessDenied(p) && path_view(p@) == if !is_inside(
        root,
        from,
    ) {
        resolve(root, from)
    } else {
        resolve(root, to)
    })
}

/// The sandbox of the file system on local disk: the workspace root, held in
/// normal form and always absolute, against which every path is validated
/// anew.
pub struct LocalFileSystem {
    root: Vec<Segment>,
}

impl LocalFileSystem {
    #[verifier::type_invariant]
    spec fn root_is_sound(self) -> bool {
        is_normal_form(path_view(self.root@)) && is_absolute(path_view(self.root@))
    }

    /// The workspace root.
    pub closed spec fn root_path(&self) -> Seq<SegmentView> {
        path_view(self.root@)
    }

    /// A file system rooted at the normal form of `root`, which must be
    /// absolute; a relative root is refused.
    pub fn with_root(root: &Vec<Segment>) -> (r: Result<LocalFileSystem, FsError>)
        ensures
            is_rooting_of(path_view(root@), r),
    {
        let clean = normalize_path(root);
        proof {
            lemma_normalize_gives_normal_form(path_view(root@));
        }
        if has_root(&clean) {
            Ok(LocalFileSystem { root: clean })
        } else {
            Err(FsError::AccessDenied(clean))
        }
    }

    /// A file system rooted at `root`, read as the platform reads paths and
    /// brought into normal form. A root that is not absolute is refused.
    pub fn new(root: String) -> (r: Result<LocalFileSystem, FsError>)
        ensures
            exists|parsed: Seq<SegmentView>| #[trigger] is_rooting_of(parsed, r),
            r matches Err(e) ==> e is AccessDenied,
    {
        let parsed = split_path(root.as_str());
        let r = LocalFileSystem::with_root(&parsed);
        assert(is_rooting_of(path_view(parsed@), r));
        r
    }

    /// The workspace root.
    pub fn root_segments(&self) -> (r: Vec<Segment>)
        ensures
            path_view(r@) == self.root_path(),
            is_normal_form(self.root_path()),
            is_absolute(self.root_path()),
    {
        proof {
            use_type_invariant(self);
        }
        clone_path(&self.root)
    }

    /// A copy of the sandbox as it stands: what an operation validates
    /// against while the root may be replaced under it.
    pub fn snapshot(&self) -> (r: LocalFileSystem)
        ensures
            r.root_path() == self.root_path(),
    {
        proof {
            use_type_invariant(self);
        }
        LocalFileSystem { root: clone_path(&self.root) }
    }

    /// The workspace root as text.
    pub fn get_cwd(&self) -> (r: String)
        ensures
            r@ == render_spec(self.root_path()),
    {
        render(&self.root)
    }

    /// Replaces the workspace root by the normal form of `root`, which must be
    /// absolute; a relative root is refused and the old root stays. Whether
    /// the new root exists is not looked into.
    pub fn set_root(&mut self, root: &Vec<Segment>) -> (r: Result<(), FsError>)
        ensures
            r is Ok <==> is_absolute(normalize(path_view(root@))),
            r is Ok ==> final(self).root_path() == normalize(path_view(root@)),
            r matches Err(e) ==> (e matches FsError::AccessDenied(p) && path_view(p@) == normalize(
                path_view(root@),
            ) && final(self).root_path() == old(self).root_path()),
    {
        let clean = normalize_path(root);
        proof {
            lemma_normalize_gives_normal_form(path_view(root@));
        }
        if has_root(&clean) {
            self.root = clean;
            Ok(())
        } else {
            Err(FsError::AccessDenied(clean))
        }
    }

    /// Replaces the workspace root by `path`, read as the platform reads
    /// paths.
    pub fn set_cwd(&mut self, path: &str) -> (r: Result<(), FsError>)
        ensures
            exists|parsed: Seq<SegmentView>|
                {
                    &&& r is Ok <==> is_absolute(#[trigger] normalize(parsed))
                    &&& r is Ok ==> final(self).root_path() == normalize(parsed)
                    &&& r matches Err(e) ==> (e matches FsError::AccessDenied(p) && path_view(p@)
                        == normalize(parsed))
                },
            r is Err ==> final(self).root_path() == old(self).root_path(),
            r is Ok ==> is_absolute(final(self).root_path()),
    {
        let parsed = split_path(path);
        let r = self.set_root(&parsed);
        proof {
            let n = normalize(path_view(parsed@));
            assert(r is Ok <==> is_absolute(n));
        }
        r
    }

    /// Validates a path given as segments against the workspace root.
    pub fn validate_segments(&self, target: &Vec<Segment>) -> (r: Result<Vec<Segment>, FsError>)
        ensures
            is_validation_of(self.root_path(), path_view(target@), r),
            r matches Ok(p) ==> self.root_path().is_prefix_of(path_view(p@)) && is_normal_form(
                path_view(p@),
            ),
    {
        proof {
            use_type_invariant(self);
            lemma_normal_form_is_fixed(self.root_path());
            lemma_normalize_gives_normal_form(self.root_path() + path_view(target@));
        }
        validate(&self.root, target)
    }

    /// Validates a path against the workspace root: the path is read as the
    /// platform reads paths, resolved below the root, and refused unless the
    /// place it names lies inside the root. Whatever the path splits into, a
    /// path that is let through begins with the root and holds no `..`.
    pub fn validate_path(&self, target: &str) -> (r: Result<Vec<Segment>, FsError>)
        ensures
            exists|parsed: Seq<SegmentView>| #[trigger]
                is_validation_of(self.root_path(), parsed, r),
            r matches Ok(p) ==> self.root_path().is_prefix_of(path_view(p@)) && is_normal_form(
                path_view(p@),
            ),
            r matches Err(e) ==> e is AccessDenied,
    {
        let parsed = split_path(target);
        let r = self.validate_segments(&parsed);
        assert(is_validation_of(self.root_path(), path_view(parsed@), r));
        r
    }

    /// Validates both ends of a move, given as segments, against the
    /// workspace root: a move is let through only when both lie inside.
    pub fn validate_both_segments(&self, from: &Vec<Segment>, to: &Vec<Segment>) -> (r: Result<
        (Vec<Segment>, Vec<Segment>),
        FsError,
    >)
        ensures
            is_validation_of_both(self.root_path(), path_view(from@), path_view(to@), r),
            r matches Ok(pair) ==> self.root_path().is_prefix_of(path_view(pair.0@))
                && self.root_path().is_prefix_of(path_view(pair.1@)),
    {
        let safe_from = match self.validate_segments(from) {
            Ok(p) => p,
            Err(e) => {
                return Err(e);
            },
        };
        let safe_to = match self.validate_segments(to) {
            Ok(p) => p,
            Err(e) => {
                return Err(e);
            },
        };
        Ok((safe_from, safe_to))
    }

    /// Validates both ends of a move against the workspace root; the paths
    /// are read as the platform reads paths. Whatever they split into, ends
    /// that are let through both begin with the root.
    pub fn validate_both(&self, from: &str, to: &str) -> (r: Result<
        (Vec<Segment>, Vec<Segment>),
        FsError,
    >)
        ensures
            exists|parsed_from: Seq<SegmentView>, parsed_to: Seq<SegmentView>| #[trigger]
                is_validation_of_both(self.root_path(), parsed_from, parsed_to, r),
            r matches Ok(pair) ==> self.root_path().is_prefix_of(path_view(pair.0@))
                && self.root_path().is_prefix_of(path_view(pair.1@)),
            r matches Err(e) ==> e is AccessDenied,
    {
        let parsed_from = split_path(from);
        let parsed_to = split_path(to);
        let r = self.validate_both_segments(&parsed_from, &parsed_to);
        assert(is_validation_of_both(
            self.root_path(),
            path_view(parsed_from@),
            path_view(parsed_to@),
            r,
        ));
        r
    }
}

} // verus!
