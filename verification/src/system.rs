//! Small decisions around the host system: what the result of a command
//! looks like, which release an update check found, how a path is shown.

use crate::text::{
    begins_with, bytes_to_string_lossy, chars_of, decode_lossy, same_text, slice_chars,
    string_from_chars, trim, trim_spec,
};
use vstd::prelude::*;

verus! {

/// What a command left behind: its output, trimmed, and its exit code.
#[derive(Clone, Debug)]
pub struct ExecResult {
    pub stdout: String,
    pub stderr: String,
    pub exit_code: i32,
}

impl ExecResult {
    /// The result of a command from what it wrote and how it ended. Output
    /// that is not UTF-8 is decoded with U+FFFD; a command that ended without
    /// an exit code, as one that a signal stopped, is given the code -1.
    pub fn from_output(stdout: &Vec<u8>, stderr: &Vec<u8>, code: Option<i32>) -> (r: ExecResult)
        ensures
            r.stdout@ == trim_spec(decode_lossy(stdout@)),
            r.stderr@ == trim_spec(decode_lossy(stderr@)),
            code matches Some(c) ==> r.exit_code == c,
            code is None ==> r.exit_code == -1,
    {
        let out = bytes_to_string_lossy(stdout);
        let err = bytes_to_string_lossy(stderr);
        ExecResult {
            stdout: string_from_chars(&trim(&chars_of(out.as_str()))),
            stderr: string_from_chars(&trim(&chars_of(err.as_str()))),
            exit_code: match code {
                Some(c) => c,
                None => -1,
            },
        }
    }
}

/// A release that an update check found.
#[derive(Clone, Debug)]
pub struct UpdateInfo {
    pub version: String,
    pub source: String,
    pub url: String,
}

/// `s` without the `c` at its start, however many there are.
pub open spec fn strip_leading(s: Seq<char>, c: char) -> Seq<char>
    decreases s.len(),
{
    if s.len() > 0 && s[0] == c {
        strip_leading(s.drop_first(), c)
    } else {
        s
    }
}

/// The page on which a source lists its releases.
pub open spec fn releases_url(source: Seq<char>) -> Seq<char> {
    if source == "Gitee"@ {
        "https://gitee.com/zymaio/zyma/releases"@
    } else {
        "https://github.com/zymaio/zyma/releases"@
    }
}

impl UpdateInfo {
    /// The release that a source reports under a tag: the version is the tag
    /// without its leading `v`.
    pub fn from_release(source: &str, tag_name: &str) -> (r: UpdateInfo)
        ensures
            r.version@ == strip_leading(tag_name@, 'v'),
            r.source@ == source@,
            r.url@ == releases_url(source@),
    {
        let tag = chars_of(tag_name);
        let mut start: usize = 0;
        assert(tag@.subrange(0, tag@.len() as int) =~= tag@);
        while start < tag.len() && tag[start] == 'v'
            invariant
                start <= tag@.len(),
                strip_leading(tag@, 'v') == strip_leading(
                    tag@.subrange(start as int, tag@.len() as int),
                    'v',
                ),
            decreases tag@.len() - start,
        {
            assert(tag@.subrange(start as int, tag@.len() as int).drop_first() =~= tag@.subrange(
                start + 1,
                tag@.len() as int,
            ));
            start += 1;
        }
        let version = string_from_chars(&slice_chars(&tag, start, tag.len()));
        let url = if same_text(source, "Gitee") {
            "https://gitee.com/zymaio/zyma/releases"
        } else {
            "https://github.com/zymaio/zyma/releases"
        };
        UpdateInfo { version, source: source.to_owned(), url: url.to_owned() }
    }
}

/// The mark that a canonical path carries at its start on some platforms.
pub open spec fn verbatim_mark() -> Seq<char> {
    seq!['\\', '\\', '?', '\\']
}

/// A path as it is shown: without the verbatim mark at its start.
pub open spec fn simplified(path: Seq<char>) -> Seq<char> {
    if verbatim_mark().is_prefix_of(path) {
        path.subrange(4, path.len() as int)
    } else {
        path
    }
}

/// Strips the verbatim mark `\\?\` from the start of a path.
pub fn simplify_path(p: String) -> (r: String)
    ensures
        r@ == simplified(p@),
{
    let chars = chars_of(p.as_str());
    let mark: Vec<char> = vec!['\\', '\\', '?', '\\'];
    assert(mark@ =~= verbatim_mark());
    if begins_with(&chars, &mark) {
        string_from_chars(&slice_chars(&chars, 4, chars.len()))
    } else {
        p
    }
}

} // verus!
